//! What is known of a network interface.
use vstd::prelude::*;

verus! {

/// The part that an interface plays in the gateway.
#[derive(Debug, Clone, Copy, PartialEq, Eq, Structural)]
pub enum InterfaceRole {
    Unknown,
    Wan,
    Lan,
}

/// A network interface as the executor reports it.
#[derive(Debug)]
pub struct InterfaceInfo {
    pub name: String,
    pub kind: Option<String>,
    /// The address in use.
    pub mac: Option<String>,
    /// The factory address.
    pub hardware_mac: Option<String>,
    pub driver: Option<String>,
    pub usb: bool,
    pub bus: Option<String>,
    pub vendor_id: Option<String>,
    pub product_id: Option<String>,
    pub link_up: bool,
    pub ipv4: Vec<String>,
    pub rx_bytes: u64,
    pub tx_bytes: u64,
    pub role: InterfaceRole,
}

impl Default for InterfaceInfo {
    fn default() -> (r: InterfaceInfo)
        ensures
            r.name@.len() == 0,
            r.kind is None,
            r.mac is None,
            r.hardware_mac is None,
            r.driver is None,
            !r.usb,
            r.bus is None,
            r.vendor_id is None,
            r.product_id is None,
            !r.link_up,
            r.ipv4@.len() == 0,
            r.rx_bytes == 0,
            r.tx_bytes == 0,
            r.role == InterfaceRole::Unknown,
    {
        InterfaceInfo {
            name: String::new(),
            kind: None,
            mac: None,
            hardware_mac: None,
            driver: None,
            usb: false,
            bus: None,
            vendor_id: None,
            product_id: None,
            link_up: false,
            ipv4: Vec::new(),
            rx_bytes: 0,
            tx_bytes: 0,
            role: InterfaceRole::Unknown,
        }
    }
}

} // verus!
