//! A probe that tells an endpoint that speaks TLS from an open port.
//!
//! A ClientHello is sent and the reaction is classified. The sockets stay
//! outside.
use vstd::prelude::*;
use vstd::slice::slice_to_vec;
use vstd::string::*;

use crate::text::{chars_of, decimal_of, owned};

verus! {

/// What came of a probe.
#[derive(Debug)]
pub enum L2Result {
    /// The endpoint answered in a way that shows it is alive.
    Alive,
    /// The endpoint closed the connection without a byte.
    ImmediateEof,
    /// The connection was refused or reset.
    Reset,
    /// The endpoint answered with a TLS alert.
    TlsFailure(String),
    /// Nothing came in time.
    Timeout,
}

/// How a connection attempt ended.
#[derive(Debug, Clone, Copy, PartialEq, Eq, Structural)]
pub enum ConnectOutcome {
    Connected,
    Refused,
    OtherError,
    TimedOut,
}

/// How the first read ended.
#[derive(Debug)]
pub enum ReadOutcome {
    Data(Vec<u8>),
    Reset,
    OtherError,
    TimedOut,
}

/// Where to connect to: an IPv6 address without brackets gets them.
pub open spec fn probe_address_text(server: Seq<char>, port: u16) -> Seq<char> {
    if server.contains(':') && !(server.len() > 0 && server[0] == '[') {
        "["@ + server + "]:"@ + crate::text::decimal(port as nat)
    } else {
        server + ":"@ + crate::text::decimal(port as nat)
    }
}

/// Where to connect to.
pub fn probe_address(server: &str, port: u16) -> (r: String)
    ensures
        r@ == probe_address_text(server@, port),
{
    let v = chars_of(server);
    let colon = crate::text::find_char(&v, ':');
    let bracketed = v.len() > 0 && v[0] == '[';
    assert(colon < v.len() <==> v@.contains(':'));
    let mut s = String::new();
    if colon < v.len() && !bracketed {
        s.append("[");
        s.append(server);
        s.append("]:");
        assert(Seq::<char>::empty() + "["@ =~= "["@);
    } else {
        s.append(server);
        s.append(":");
        assert(Seq::<char>::empty() + server@ =~= server@);
    }
    s.append(decimal_of(port as u64).as_str());
    s
}

/// What a connection attempt that led nowhere means for the probe.
pub fn connect_result(outcome: ConnectOutcome) -> (r: Option<L2Result>)
    ensures
        outcome == ConnectOutcome::Connected <==> r is None,
        outcome == ConnectOutcome::Refused <==> r == Some(L2Result::Reset),
        outcome == ConnectOutcome::OtherError || outcome == ConnectOutcome::TimedOut <==> r == Some(L2Result::Timeout),
{
    match outcome {
        ConnectOutcome::Connected => None,
        ConnectOutcome::Refused => Some(L2Result::Reset),
        ConnectOutcome::OtherError | ConnectOutcome::TimedOut => Some(L2Result::Timeout),
    }
}

/// Bytes as a list in square brackets.
pub open spec fn byte_list(b: Seq<u8>) -> Seq<char> {
    "["@ + comma_list(b) + "]"@
}

/// Bytes in decimal with commas between them.
pub open spec fn comma_list(b: Seq<u8>) -> Seq<char>
    decreases b.len(),
{
    if b.len() == 0 {
        Seq::empty()
    } else if b.len() == 1 {
        crate::text::decimal(b[0] as nat)
    } else {
        comma_list(b.drop_last()) + ", "@ + crate::text::decimal(b.last() as nat)
    }
}

fn comma_string(b: &[u8], n: usize) -> (r: String)
    requires
        n <= b.len(),
    ensures
        r@ == comma_list(b@.take(n as int)),
{
    let mut s = String::new();
    let mut i: usize = 0;
    while i < n
        invariant
            i <= n <= b.len(),
            s@ == comma_list(b@.take(i as int)),
        decreases n - i,
    {
        if i > 0 {
            s.append(", ");
        }
        s.append(decimal_of(b[i] as u64).as_str());
        proof {
            let t = b@.take(i as int + 1);
            assert(t.drop_last() =~= b@.take(i as int));
            if i == 0 {
                assert(Seq::<char>::empty() + crate::text::decimal(t[0] as nat) =~= crate::text::decimal(t[0] as nat));
            }
        }
        i += 1;
    }
    s
}

/// Whether a first answer is a TLS alert.
pub open spec fn is_alert(resp: Seq<u8>) -> bool {
    resp.len() >= 2 && resp[0] == 0x15
}

/// The alert bytes that are reported.
pub open spec fn alert_text(resp: Seq<u8>) -> Seq<char> {
    "alert: "@ + byte_list(resp.take(if resp.len() < 8 { resp.len() as int } else { 8 }))
}

/// What the first answer to a ClientHello means. Anything but an alert, and be
/// it no TLS at all, shows that the endpoint is alive.
pub fn read_result(outcome: &ReadOutcome) -> (r: L2Result)
    ensures
        match *outcome {
            ReadOutcome::TimedOut | ReadOutcome::OtherError => r is Timeout,
            ReadOutcome::Reset => r is Reset,
            ReadOutcome::Data(resp) => if resp@.len() == 0 {
                r is ImmediateEof
            } else if is_alert(resp@) {
                r matches L2Result::TlsFailure(s) && s@ == alert_text(resp@)
            } else {
                r is Alive
            },
        },
{
    match outcome {
        ReadOutcome::TimedOut | ReadOutcome::OtherError => L2Result::Timeout,
        ReadOutcome::Reset => L2Result::Reset,
        ReadOutcome::Data(resp) => {
            if resp.len() == 0 {
                L2Result::ImmediateEof
            } else if resp.len() >= 2 && resp[0] == 0x15 {
                let n: usize = if resp.len() < 8 { resp.len() } else { 8 };
                let mut s = owned("alert: ");
                let mut list = owned("[");
                list.append(comma_string(resp, n).as_str());
                list.append("]");
                s.append(list.as_str());
                L2Result::TlsFailure(s)
            } else {
                L2Result::Alive
            }
        },
    }
}

/// The byte at a place of the random field.
pub open spec fn random_byte(i: int) -> u8 {
    ((i * 7 + 0x42) % 256) as u8
}

/// The server-name extension for a host name.
pub open spec fn sni_extension(sni: Seq<u8>) -> Seq<u8> {
    seq![0u8, 0] + crate::dns::be_bytes(sni.len() + 5, 2) + crate::dns::be_bytes(sni.len() + 3, 2) + seq![0u8]
        + crate::dns::be_bytes(sni.len(), 2) + sni
}

/// The extension that offers TLS 1.3.
pub open spec fn versions_extension() -> Seq<u8> {
    seq![0u8, 0x2b, 0, 3, 2, 3, 4]
}

/// The cipher suites that are offered, with their length.
pub open spec fn cipher_suites() -> Seq<u8> {
    seq![0u8, 0x0a, 0x13, 1, 0x13, 2, 0xc0, 0x2f, 0xc0, 0x30, 0xff, 1]
}

/// The body of a ClientHello for a host name.
pub open spec fn hello_body(sni: Seq<u8>) -> Seq<u8> {
    seq![3u8, 3] + Seq::new(32, |i: int| random_byte(i)) + seq![0u8] + cipher_suites() + seq![1u8, 0]
        + crate::dns::be_bytes(sni.len() + 16, 2) + sni_extension(sni) + versions_extension()
}

/// A TLS record with a ClientHello for a host name.
pub open spec fn client_hello(sni: Seq<u8>) -> Seq<u8> {
    seq![0x16u8, 3, 1] + crate::dns::be_bytes(hello_body(sni).len() + 4, 2) + seq![1u8] + crate::dns::be_bytes(
        hello_body(sni).len(),
        3,
    ) + hello_body(sni)
}

proof fn hello_body_len(sni: Seq<u8>)
    ensures
        sni_extension(sni).len() == sni.len() + 9,
        hello_body(sni).len() == sni.len() + 67,
{
    crate::dns::be_bytes_len(sni.len() + 5, 2);
    crate::dns::be_bytes_len(sni.len() + 3, 2);
    crate::dns::be_bytes_len(sni.len(), 2);
    crate::dns::be_bytes_len(sni.len() + 16, 2);
}

fn push_number(out: &mut Vec<u8>, value: usize, n: usize)
    ensures
        final(out)@ == old(out)@ + crate::dns::be_bytes(value as nat, n as nat),
{
    let mut bytes = crate::dns::be_bytes_of(value as u128, n);
    out.append(&mut bytes);
}

fn sni_extension_bytes(sni: &[u8]) -> (r: Vec<u8>)
    requires
        sni.len() <= isize::MAX,
    ensures
        r@ == sni_extension(sni@),
{
    let mut out: Vec<u8> = vec![0u8, 0];
    push_number(&mut out, sni.len() + 5, 2);
    push_number(&mut out, sni.len() + 3, 2);
    out.push(0);
    push_number(&mut out, sni.len(), 2);
    let mut name = slice_to_vec(sni);
    out.append(&mut name);
    assert(out@ =~= sni_extension(sni@));
    out
}

fn hello_body_bytes(sni: &[u8]) -> (r: Vec<u8>)
    requires
        sni.len() <= isize::MAX,
    ensures
        r@ == hello_body(sni@),
{
    let mut out: Vec<u8> = vec![3u8, 3];
    let ghost front = out@;
    let mut i: u32 = 0;
    while i < 32
        invariant
            i <= 32,
            out@ == front + Seq::new(i as nat, |k: int| random_byte(k)),
        decreases 32 - i,
    {
        out.push(((i * 7 + 0x42) % 256) as u8);
        i += 1;
        assert(out@ =~= front + Seq::new(i as nat, |k: int| random_byte(k)));
    }
    out.push(0);
    let mut suites: Vec<u8> = vec![0u8, 0x0a, 0x13, 1, 0x13, 2, 0xc0, 0x2f, 0xc0, 0x30, 0xff, 1];
    out.append(&mut suites);
    let mut compression: Vec<u8> = vec![1u8, 0];
    out.append(&mut compression);
    push_number(&mut out, sni.len() + 16, 2);
    let mut ext = sni_extension_bytes(sni);
    out.append(&mut ext);
    let mut versions: Vec<u8> = vec![0u8, 0x2b, 0, 3, 2, 3, 4];
    out.append(&mut versions);
    assert(out@ =~= hello_body(sni@));
    out
}

/// Build a ClientHello for a host name.
pub fn build_client_hello(sni: &str) -> (r: Vec<u8>)
    requires
        sni.spec_bytes().len() <= isize::MAX,
    ensures
        r@ == client_hello(sni.spec_bytes()),
{
    let name = sni.as_bytes();
    let mut body = hello_body_bytes(name);
    proof {
        hello_body_len(name@);
    }
    let mut out: Vec<u8> = vec![0x16u8, 3, 1];
    push_number(&mut out, body.len() + 4, 2);
    out.push(1);
    push_number(&mut out, body.len(), 3);
    out.append(&mut body);
    assert(out@ =~= client_hello(name@));
    out
}

/// The record length in a ClientHello is that of the bytes that follow it, as
/// long as it can be written in two bytes.
pub proof fn record_length_is_consistent(sni: Seq<u8>)
    requires
        sni.len() <= 65464,
    ensures
        client_hello(sni).len() == 5 + crate::dns_plane::be16(client_hello(sni)[3], client_hello(sni)[4]),
{
    hello_body_len(sni);
    let n = hello_body(sni).len() + 4;
    crate::dns::be_bytes_len(n, 2);
    crate::dns::be_bytes_len(hello_body(sni).len(), 3);
    reveal_with_fuel(crate::dns::be_bytes, 3);
    assert(crate::dns::be_bytes(n, 2) =~= seq![((n / 256) % 256) as u8, (n % 256) as u8]);
}

/// The extensions in a block of them, each as its type and its data, where the
/// block holds whole extensions and nothing else.
pub open spec fn extensions_in(block: Seq<u8>) -> Option<Seq<(nat, Seq<u8>)>>
    decreases block.len(),
{
    if block.len() == 0 {
        Some(Seq::empty())
    } else if block.len() < 4 {
        None
    } else {
        let n = crate::dns_plane::be16(block[2], block[3]) as int;
        if block.len() < 4 + n {
            None
        } else {
            match extensions_in(block.skip(4 + n)) {
                Some(rest) => Some(
                    seq![(crate::dns_plane::be16(block[0], block[1]), block.subrange(4, 4 + n))] + rest,
                ),
                None => None,
            }
        }
    }
}

/// The data of the server-name extension for a host name: a list of one name.
pub open spec fn name_list(sni: Seq<u8>) -> Seq<u8> {
    crate::dns::be_bytes(sni.len() + 3, 2) + seq![0u8] + crate::dns::be_bytes(sni.len(), 2) + sni
}

proof fn two_bytes(n: nat)
    requires
        n <= 65535,
    ensures
        crate::dns::be_bytes(n, 2).len() == 2,
        crate::dns_plane::be16(crate::dns::be_bytes(n, 2)[0], crate::dns::be_bytes(n, 2)[1]) == n,
{
    reveal_with_fuel(crate::dns::be_bytes, 3);
    assert(crate::dns::be_bytes(n, 2) =~= seq![((n / 256) % 256) as u8, (n % 256) as u8]);
}

proof fn extensions_of_a_hello(sni: Seq<u8>)
    requires
        sni.len() <= 65464,
    ensures
        extensions_in(sni_extension(sni) + versions_extension()) == Some(
            seq![(0nat, name_list(sni)), (0x2bnat, seq![2u8, 3, 4])],
        ),
{
    let n = sni.len();
    two_bytes(n + 5);
    two_bytes(n + 3);
    two_bytes(n);
    let block = sni_extension(sni) + versions_extension();
    assert(block[2] == crate::dns::be_bytes(n + 5, 2)[0]);
    assert(block[3] == crate::dns::be_bytes(n + 5, 2)[1]);
    assert(block.subrange(4, n as int + 9) =~= name_list(sni));
    let rest = block.skip(n as int + 9);
    assert(rest =~= versions_extension());
    assert(rest.subrange(4, 7) =~= seq![2u8, 3, 4]);
    assert(rest.skip(7) =~= Seq::<u8>::empty());
    reveal_with_fuel(extensions_in, 2);
    assert(extensions_in(rest) == Some(seq![(0x2bnat, seq![2u8, 3, 4])])) by {
        assert(extensions_in(rest.skip(7)) == Some(Seq::<(nat, Seq<u8>)>::empty()));
        assert(seq![(0x2bnat, seq![2u8, 3, 4])] + Seq::<(nat, Seq<u8>)>::empty() =~= seq![(0x2bnat, seq![2u8, 3, 4])]);
    }
    assert(seq![(0nat, name_list(sni))] + seq![(0x2bnat, seq![2u8, 3, 4])] =~= seq![
        (0nat, name_list(sni)),
        (0x2bnat, seq![2u8, 3, 4]),
    ]);
}

/// Every length in a ClientHello is that of what it stands before, as long as
/// the record's can be written in two bytes: the record's, the handshake
/// message's, that of the extensions and that of each of them. The extensions
/// are the server name and the offer of TLS 1.3, and nothing is left over.
pub proof fn hello_is_well_formed(sni: Seq<u8>)
    requires
        sni.len() <= 65464,
    ensures
        ({
            let h = client_hello(sni);
            &&& h.len() == 76 + sni.len()
            &&& crate::dns_plane::be16(h[3], h[4]) == h.len() - 5
            &&& h[6] as nat * 65536 + crate::dns_plane::be16(h[7], h[8]) == h.len() - 9
            &&& h[43] == 0
            &&& h.subrange(44, 56) == cipher_suites()
            &&& crate::dns_plane::be16(h[44], h[45]) == cipher_suites().len() - 2
            &&& h[56] == 1
            &&& crate::dns_plane::be16(h[58], h[59]) == h.len() - 60
            &&& extensions_in(h.skip(60)) == Some(seq![(0nat, name_list(sni)), (0x2bnat, seq![2u8, 3, 4])])
        }),
{
    let h = client_hello(sni);
    let n = hello_body(sni).len();
    hello_body_len(sni);
    two_bytes(n + 4);
    two_bytes(sni.len() + 16);
    extensions_of_a_hello(sni);
    crate::dns::be_bytes_len(n, 3);
    reveal_with_fuel(crate::dns::be_bytes, 4);
    assert(crate::dns::be_bytes(n, 3) =~= seq![
        ((n / 256 / 256) % 256) as u8,
        ((n / 256) % 256) as u8,
        (n % 256) as u8,
    ]);
    let body = h.skip(9);
    assert(body =~= hello_body(sni));
    assert(h[3] == crate::dns::be_bytes(n + 4, 2)[0]);
    assert(h[4] == crate::dns::be_bytes(n + 4, 2)[1]);
    assert(forall|i: int| 0 <= i < 3 ==> h[6 + i] == #[trigger] crate::dns::be_bytes(n, 3)[i]);
    assert(h[6] == crate::dns::be_bytes(n, 3)[0]);
    assert(h[7] == crate::dns::be_bytes(n, 3)[1]);
    assert(h[8] == crate::dns::be_bytes(n, 3)[2]);
    assert(h.subrange(44, 56) =~= cipher_suites());
    assert(h[44] == cipher_suites()[0] && h[45] == cipher_suites()[1]);
    assert(h[58] == crate::dns::be_bytes(sni.len() + 16, 2)[0]);
    assert(h[59] == crate::dns::be_bytes(sni.len() + 16, 2)[1]);
    assert(h.skip(60) =~= sni_extension(sni) + versions_extension());
}

/// A ClientHello holds the host name that it is for.
pub proof fn hello_holds_the_name(sni: Seq<u8>)
    ensures
        client_hello(sni).subrange(69, 69 + sni.len() as int) == sni,
{
    hello_body_len(sni);
    crate::dns::be_bytes_len(hello_body(sni).len() + 4, 2);
    crate::dns::be_bytes_len(hello_body(sni).len(), 3);
    crate::dns::be_bytes_len(sni.len() + 5, 2);
    crate::dns::be_bytes_len(sni.len() + 3, 2);
    crate::dns::be_bytes_len(sni.len(), 2);
    crate::dns::be_bytes_len(sni.len() + 16, 2);
    assert(client_hello(sni).subrange(69, 69 + sni.len() as int) =~= sni);
}

/// An address is written with its port behind a colon; one that holds colons
/// itself is put in brackets, unless it is already.
pub proof fn addresses_are_written_with_their_port(server: Seq<char>, port: u16)
    ensures
        !server.contains(':') ==> probe_address_text(server, port) == server + ":"@ + crate::text::decimal(
            port as nat,
        ),
        server.contains(':') && server[0] != '[' ==> probe_address_text(server, port) == "["@ + server + "]:"@
            + crate::text::decimal(port as nat),
        server.contains(':') && server[0] == '[' ==> probe_address_text(server, port) == server + ":"@
            + crate::text::decimal(port as nat),
{
    if server.contains(':') {
        assert(server.len() > 0);
    }
}

/// An answer of at least two bytes that begins with 21 is an alert, and is
/// reported by its first eight bytes.
pub proof fn alerts_are_reported_by_their_first_bytes(resp: Seq<u8>)
    ensures
        is_alert(resp) <==> resp.len() >= 2 && resp[0] == 21,
        resp.len() <= 8 ==> alert_text(resp) == "alert: ["@.drop_last() + byte_list(resp),
        resp.len() > 8 ==> alert_text(resp) == "alert: ["@.drop_last() + byte_list(resp.take(8)),
{
    reveal_strlit("alert: [");
    reveal_strlit("alert: ");
    assert("alert: ["@.drop_last() =~= "alert: "@);
    if resp.len() <= 8 {
        assert(resp.take(resp.len() as int) =~= resp);
    }
}

/// Bytes are listed in decimal, with commas between them and brackets around
/// them.
pub proof fn bytes_are_listed(b: Seq<u8>, x: u8)
    ensures
        byte_list(b) == "["@ + comma_list(b) + "]"@,
        comma_list(seq![x]) == crate::text::decimal(x as nat),
        b.len() > 0 ==> comma_list(b.push(x)) == comma_list(b) + ", "@ + crate::text::decimal(x as nat),
{
    assert(b.push(x).drop_last() =~= b);
}

/// The hello offers the versions 1.3 of the protocol and six suites, and says
/// the name it is for.
pub proof fn what_the_hello_offers(i: int)
    requires
        0 <= i < 32,
    ensures
        cipher_suites() == seq![0u8, 10, 0x13, 0x01, 0x13, 0x02, 0xc0, 0x2f, 0xc0, 0x30, 0xff, 0x01],
        versions_extension() == seq![0u8, 43, 0, 3, 2, 3, 4],
        random_byte(i) == (i * 7 + 66) % 256,
{
}

} // verus!
