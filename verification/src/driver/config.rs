//! The configuration of drivers.
use vstd::prelude::*;
use vstd::string::*;

use crate::amneziawg::AmneziaWGConfig;
use crate::b4::B4Config;
use crate::dns::DnsForwarderConfig;
use crate::driver::map::DriverMap;
use crate::hysteria::Hysteria2Config;
use crate::model::{DriverError, DriverId};
use crate::text::owned;

verus! {

/// The configuration of one driver.
#[derive(Debug)]
pub enum DriverConfig {
    AmneziaWG(AmneziaWGConfig),
    Hysteria(Hysteria2Config),
    B4(B4Config),
    Dns(DnsForwarderConfig),
}

/// A driver in a configuration file, by its name.
#[derive(Debug)]
pub struct DriverEntry {
    pub id: String,
    pub config: DriverConfig,
}

/// A configuration file.
#[derive(Debug)]
pub struct DriverConfigFile {
    pub drivers: Vec<DriverEntry>,
}

impl Default for DriverConfigFile {
    fn default() -> (r: DriverConfigFile)
        ensures
            r.drivers@.len() == 0,
    {
        DriverConfigFile { drivers: Vec::new() }
    }
}

/// The configurations of drivers.
pub struct DriverConfigRegistry {
    inner: DriverMap<DriverConfig>,
}

impl View for DriverConfigRegistry {
    type V = Map<DriverId, DriverConfig>;

    closed spec fn view(&self) -> Map<DriverId, DriverConfig> {
        self.inner@
    }
}

/// The configurations that entries give, by driver; the last entry for a driver
/// counts. Where a name names no driver, the first such name.
pub open spec fn configs_of(entries: Seq<DriverEntry>) -> Result<Map<DriverId, DriverConfig>, Seq<char>>
    decreases entries.len(),
{
    if entries.len() == 0 {
        Ok(Map::empty())
    } else {
        match configs_of(entries.drop_last()) {
            Err(name) => Err(name),
            Ok(m) => match crate::model::driver_named(entries.last().id@) {
                Some(id) => Ok(m.insert(id, entries.last().config)),
                None => Err(entries.last().id@),
            },
        }
    }
}

proof fn later_entries_keep_the_error(entries: Seq<DriverEntry>, n: int)
    requires
        0 <= n <= entries.len(),
        configs_of(entries.take(n)) is Err,
    ensures
        configs_of(entries) == configs_of(entries.take(n)),
    decreases entries.len(),
{
    if n == entries.len() {
        assert(entries.take(n) =~= entries);
    } else {
        assert(entries.drop_last().take(n) =~= entries.take(n));
        later_entries_keep_the_error(entries.drop_last(), n);
    }
}

impl DriverConfigRegistry {
    pub fn new() -> (r: Self)
        ensures
            r@ == Map::<DriverId, DriverConfig>::empty(),
    {
        DriverConfigRegistry { inner: DriverMap::new() }
    }

    /// Sets the configuration of a driver.
    pub fn insert(&mut self, id: DriverId, config: DriverConfig)
        ensures
            final(self)@ == old(self)@.insert(id, config),
    {
        self.inner.insert(id, config);
    }

    /// The configuration of a driver.
    pub fn get(&self, id: DriverId) -> (r: Option<&DriverConfig>)
        ensures
            r == if self@.contains_key(id) { Some(&self@[id]) } else { None },
    {
        self.inner.get(id)
    }

    /// How many drivers are configured.
    pub fn len(&self) -> (r: usize)
        ensures
            r == self@.len(),
    {
        let n = self.inner.len();
        proof {
            crate::driver::map::as_many_keys(self.inner.keys(), self.inner@);
        }
        n
    }

    /// Whether no driver is configured.
    pub fn is_empty(&self) -> (r: bool)
        ensures
            r == (self@.len() == 0),
    {
        self.len() == 0
    }

    /// The configurations in a file. A name that names no driver is an error.
    pub fn from_file_config(file: DriverConfigFile) -> (r: Result<Self, DriverError>)
        ensures
            r matches Ok(reg) ==> configs_of(file.drivers@) == Ok::<Map<DriverId, DriverConfig>, Seq<char>>(reg@),
            r matches Err(e) ==> (configs_of(file.drivers@) matches Err(name) && e matches DriverError::ConfigInvalid(m)
                && m@ == "unknown driver: "@ + name),
    {
        let ghost all = file.drivers@;
        let mut rest = file.drivers;
        let mut registry = DriverConfigRegistry::new();
        let ghost mut n: int = 0;
        assert(all.take(0) =~= Seq::<DriverEntry>::empty());
        while rest.len() > 0
            invariant
                0 <= n <= all.len(),
                all == file.drivers@,
                rest@ == all.skip(n),
                configs_of(all.take(n)) == Ok::<Map<DriverId, DriverConfig>, Seq<char>>(registry@),
            decreases rest.len(),
        {
            let entry = rest.remove(0);
            proof {
                assert(entry == all[n]);
                assert(all.take(n + 1).drop_last() =~= all.take(n));
                assert(rest@ =~= all.skip(n + 1));
                n = n + 1;
                assert(all.take(n).last() == entry);
            }
            match DriverId::from_name(entry.id.as_str()) {
                Some(id) => {
                    registry.insert(id, entry.config);
                },
                None => {
                    proof {
                        later_entries_keep_the_error(all, n);
                    }
                    let mut s = owned("unknown driver: ");
                    s.append(entry.id.as_str());
                    return Err(DriverError::ConfigInvalid(s));
                },
            }
        }
        assert(all.take(n) =~= all);
        Ok(registry)
    }
}

/// A file is refused exactly where an entry names no driver, and the first such
/// name is reported. Otherwise each driver that is named has a configuration,
/// and the last one that is written for it, whole.
pub proof fn the_last_configuration_of_a_driver_counts(entries: Seq<DriverEntry>, i: int)
    requires
        0 <= i < entries.len(),
    ensures
        configs_of(entries) is Ok <==> forall|k: int|
            0 <= k < entries.len() ==> crate::model::driver_named((#[trigger] entries[k]).id@) is Some,
        crate::model::driver_named(entries[i].id@) is None && (forall|k: int|
            0 <= k < i ==> crate::model::driver_named((#[trigger] entries[k]).id@) is Some) ==> configs_of(entries)
            == Err::<Map<DriverId, DriverConfig>, Seq<char>>(entries[i].id@),
        configs_of(entries) is Ok && (forall|k: int|
            i < k < entries.len() ==> crate::model::driver_named((#[trigger] entries[k]).id@)
                != crate::model::driver_named(entries[i].id@)) ==> configs_of(entries)->Ok_0.contains_key(
            crate::model::driver_named(entries[i].id@)->0,
        ) && configs_of(entries)->Ok_0[crate::model::driver_named(entries[i].id@)->0] == entries[i].config,
    decreases entries.len(),
{
    let front = entries.drop_last();
    let n = entries.len() - 1;
    assert(entries[n] == entries.last());
    if front.len() > 0 {
        let j = if i < n { i } else { 0 };
        the_last_configuration_of_a_driver_counts(front, j);
        assert forall|k: int| 0 <= k < n implies #[trigger] front[k] == entries[k] by {}
        if configs_of(front) is Ok {
            assert forall|k: int| 0 <= k < n implies crate::model::driver_named((#[trigger] entries[k]).id@) is Some by {
                assert(front[k] == entries[k]);
            }
        } else {
            let k = choose|k: int|
                0 <= k < front.len() && crate::model::driver_named((#[trigger] front[k]).id@) is None;
            assert(entries[k] == front[k]);
        }
        if i < n {
            assert(front[i] == entries[i]);
            if forall|k: int| 0 <= k < i ==> crate::model::driver_named((#[trigger] entries[k]).id@) is Some {
                assert forall|k: int| 0 <= k < i implies crate::model::driver_named((#[trigger] front[k]).id@)
                    is Some by {
                    assert(entries[k] == front[k]);
                }
            }
            if forall|k: int|
                i < k < entries.len() ==> crate::model::driver_named((#[trigger] entries[k]).id@)
                    != crate::model::driver_named(entries[i].id@) {
                assert forall|k: int| i < k < front.len() implies crate::model::driver_named((#[trigger] front[k]).id@)
                    != crate::model::driver_named(front[i].id@) by {
                    assert(entries[k] == front[k]);
                }
                assert(crate::model::driver_named(entries[n].id@) != crate::model::driver_named(entries[i].id@));
            }
        } else if forall|k: int| 0 <= k < n ==> crate::model::driver_named((#[trigger] entries[k]).id@) is Some {
            assert forall|k: int| 0 <= k < front.len() implies crate::model::driver_named((#[trigger] front[k]).id@)
                is Some by {
                assert(entries[k] == front[k]);
            }
        }
    }
}

} // verus!
