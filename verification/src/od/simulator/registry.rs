//! The devices of a simulation by name, and the configuration of each.

use crate::od::simulator::TrkConfig;
use vstd::prelude::*;

verus! {

/// The configuration that `configs` holds under `name`: that of the first
/// entry with this name.
pub open spec fn lookup(configs: Seq<(String, TrkConfig)>, name: Seq<char>) -> Option<TrkConfig>
    decreases configs.len(),
{
    if configs.len() == 0 {
        None
    } else if configs[0].0@ == name {
        Some(configs[0].1)
    } else {
        lookup(configs.skip(1), name)
    }
}

/// Every span and instant of every configuration is well formed.
pub open spec fn configs_wf(configs: Seq<(String, TrkConfig)>) -> bool {
    forall|i: int| 0 <= i < configs.len() ==> (#[trigger] configs[i]).1.wf()
}

/// Looks up the configuration that `configs` holds under `name`.
pub fn find_config(configs: &Vec<(String, TrkConfig)>, name: &String) -> (r: Option<TrkConfig>)
    ensures
        r == lookup(configs@, name@),
{
    let mut i: usize = 0;
    assert(configs@.skip(0) =~= configs@);
    while i < configs.len()
        invariant
            i <= configs@.len(),
            lookup(configs@, name@) == lookup(configs@.skip(i as int), name@),
        decreases configs@.len() - i,
    {
        proof {
            assert(configs@.skip(i as int)[0] == configs@[i as int]);
            assert(configs@.skip(i as int).skip(1) =~= configs@.skip(i as int + 1));
        }
        if configs[i].0 == *name {
            return Some(configs[i].1);
        }
        i = i + 1;
    }
    None
}

/// A configuration that `lookup` finds is one of the entries.
pub proof fn lemma_lookup_is_entry(configs: Seq<(String, TrkConfig)>, name: Seq<char>)
    ensures
        match lookup(configs, name) {
            Some(cfg) => exists|i: int|
                0 <= i < configs.len() && (#[trigger] configs[i]).0@ == name && configs[i].1 == cfg,
            None => forall|i: int| 0 <= i < configs.len() ==> (#[trigger] configs[i]).0@ != name,
        },
    decreases configs.len(),
{
    if configs.len() > 0 && configs[0].0@ != name {
        let rest = configs.skip(1);
        lemma_lookup_is_entry(rest, name);
        match lookup(rest, name) {
            Some(cfg) => {
                let i = choose|i: int|
                    0 <= i < rest.len() && (#[trigger] rest[i]).0@ == name && rest[i].1 == cfg;
                assert(configs[i + 1] == rest[i]);
            },
            None => {
                assert forall|i: int| 0 <= i < configs.len() implies (#[trigger] configs[i]).0@
                    != name by {
                    if i > 0 {
                        assert(configs[i] == rest[i - 1]);
                    }
                }
            },
        }
    }
}

/// Whether one of `list` has this name.
pub open spec fn has_name<D>(list: Seq<(Seq<char>, D)>, name: Seq<char>) -> bool {
    exists|i: int| 0 <= i < list.len() && (#[trigger] list[i]).0 == name
}

/// The place of the entry of this name in `list`.
pub open spec fn place_of<D>(list: Seq<(Seq<char>, D)>, name: Seq<char>) -> int {
    choose|i: int| 0 <= i < list.len() && (#[trigger] list[i]).0 == name
}

/// `list` with `device` enrolled as `name`: in the place of the device of
/// this name, or at the end where there is none.
pub open spec fn enrolled<D>(list: Seq<(Seq<char>, D)>, name: Seq<char>, device: D) -> Seq<
    (Seq<char>, D),
> {
    if has_name(list, name) {
        list.update(place_of(list, name), (name, device))
    } else {
        list.push((name, device))
    }
}

/// The devices that a simulation keeps of `devices`, where `names` holds
/// the name of each: of those with the same name the last one, in the place
/// of the first.
pub open spec fn registry<D>(names: Seq<Seq<char>>, devices: Seq<D>) -> Seq<(Seq<char>, D)>
    decreases devices.len(),
{
    if devices.len() == 0 {
        Seq::empty()
    } else {
        enrolled(
            registry(names.take(devices.len() - 1), devices.drop_last()),
            names[devices.len() - 1],
            devices.last(),
        )
    }
}

/// No name occurs twice.
pub open spec fn distinct(names: Seq<Seq<char>>) -> bool {
    forall|i: int, j: int| 0 <= i < j < names.len() ==> names[i] != names[j]
}

/// The message of the error for a device without a configuration.
pub open spec fn no_config(name: Seq<char>) -> Seq<char> {
    "device "@ + name + " has no associated configuration"@
}

/// The message of the error for a device whose configuration contradicts
/// itself.
pub open spec fn contradiction(name: Seq<char>) -> Seq<char> {
    "device "@ + name + " has a contradictory configuration"@
}

/// What is wrong with the configuration of the device called `name`, if
/// anything is: the message of the error.
pub open spec fn fault(configs: Seq<(String, TrkConfig)>, name: Seq<char>) -> Option<Seq<char>> {
    match lookup(configs, name) {
        None => Some(no_config(name)),
        Some(cfg) => if cfg.contradictory() {
            Some(contradiction(name))
        } else {
            None
        },
    }
}

/// No device has a fault in its configuration.
pub open spec fn faultless(configs: Seq<(String, TrkConfig)>, names: Seq<Seq<char>>) -> bool {
    forall|i: int| 0 <= i < names.len() ==> fault(configs, #[trigger] names[i]).is_none()
}

/// The configuration of each device, in the order of the devices.
pub open spec fn device_configs(names: Seq<Seq<char>>, configs: Seq<(String, TrkConfig)>) -> Seq<
    TrkConfig,
> {
    Seq::new(names.len(), |d: int| lookup(configs, names[d]).unwrap())
}

} // verus!
