//! The device session orchestrator: the store of active kernel-hook sessions
//! and the state machine that reacts to device and configuration events.
//!
//! The orchestrator decides; the surrounding process performs the attachment.
//! Each event is turned into the next store state plus a list of
//! [`LoadRequest`]s, one per hook that must now be built and attached. The
//! caller attaches each request and records the successes with
//! [`BpfStore::insert`], so a hook that fails to attach leaves its device
//! unhooked without disturbing any other device.

use vstd::prelude::*;
use vstd::utf8::encode_utf8;
use crate::conf::Config;
use crate::bpf::{sysnum, sysnum_spec};
use crate::input::gen_stick_lut;
use crate::input::stick::stick_lut;

verus! {

/// One event consumed by the orchestrator loop.
#[derive(Debug)]
pub enum Event {
    DeviceAdded(String),
    DeviceRemoved(String),
    ConfigChanged,
}

/// The numeric identifier a device name resolves to, if any.
pub open spec fn name_num(name: Seq<char>) -> Option<u32> {
    sysnum_spec(encode_utf8(name))
}

/// Everything the hook loader needs to install one freshly configured hook:
/// the device, its numeric identifier, and both stick tables.
pub struct LoadRequest {
    pub sysname: String,
    pub sysnum: u32,
    pub left_stick: Vec<u16>,
    pub right_stick: Vec<u16>,
}

impl LoadRequest {
    /// The request targets `name` and carries tables built from `config`.
    pub open spec fn fresh_for(self, name: Seq<char>, config: Config) -> bool {
        &&& self.sysname@ == name
        &&& name_num(name) == Some(self.sysnum)
        &&& self.left_stick@ == stick_lut(config.stick.left)
        &&& self.right_stick@ == stick_lut(config.stick.right)
    }
}

/// The devices whose kernel hooks are currently installed, each entry owning
/// the handle whose destruction detaches the hook.
pub struct BpfStore<H> {
    entries: Vec<(String, H)>,
}

impl<H> BpfStore<H> {
    /// The names of the hooked devices, in insertion order.
    pub closed spec fn key_seq(self) -> Seq<Seq<char>> {
        self.entries@.map_values(|e: (String, H)| e.0@)
    }

    /// Whether `name` currently has an installed hook.
    pub open spec fn has(self, name: Seq<char>) -> bool {
        self.key_seq().contains(name)
    }

    /// No device has two hooks: every name appears at most once.
    pub open spec fn wf(self) -> bool {
        forall|i: int, j: int|
            0 <= i < j < self.key_seq().len() ==> self.key_seq()[i] != self.key_seq()[j]
    }

    /// Every hooked device's name resolves to a numeric identifier: a
    /// session only ever comes from a successful derivation.
    pub open spec fn resolvable(self) -> bool {
        forall|i: int|
            0 <= i < self.key_seq().len() ==> name_num(#[trigger] self.key_seq()[i]) is Some
    }

    /// An empty store: no sessions.
    pub fn new() -> (r: Self)
        ensures
            r.wf(),
            r.resolvable(),
            r.key_seq() == Seq::<Seq<char>>::empty(),
    {
        let r = BpfStore { entries: Vec::new() };
        proof {
            assert(r.key_seq() =~= Seq::<Seq<char>>::empty());
        }
        r
    }

    /// Whether a session for `sysname` exists.
    pub fn contains(&self, sysname: &String) -> (r: bool)
        ensures
            r == self.has(sysname@),
    {
        let n = self.entries.len();
        let mut i: usize = 0;
        while i < n
            invariant
                0 <= i <= n,
                n == self.entries@.len(),
                forall|j: int| 0 <= j < i ==> self.key_seq()[j] != sysname@,
            decreases n - i,
        {
            if self.entries[i].0 == *sysname {
                proof {
                    assert(self.key_seq()[i as int] == sysname@);
                }
                return true;
            }
            i += 1;
        }
        false
    }

    /// The names of all hooked devices, in insertion order.
    pub fn keys(&self) -> (r: Vec<String>)
        ensures
            r@.len() == self.key_seq().len(),
            forall|i: int| 0 <= i < r@.len() ==> #[trigger] r@[i]@ == self.key_seq()[i],
    {
        let n = self.entries.len();
        let mut out: Vec<String> = Vec::new();
        let mut i: usize = 0;
        while i < n
            invariant
                0 <= i <= n,
                n == self.entries@.len(),
                out@.len() == i,
                forall|j: int| 0 <= j < i ==> #[trigger] out@[j]@ == self.key_seq()[j],
            decreases n - i,
        {
            out.push(self.entries[i].0.clone());
            i += 1;
        }
        out
    }

    /// Record a freshly attached hook for a device that had none. A hook is
    /// only ever attached for a name whose identifier was derived.
    pub fn insert(&mut self, sysname: String, handle: H)
        requires
            old(self).wf(),
            !old(self).has(sysname@),
            name_num(sysname@) is Some,
        ensures
            final(self).wf(),
            old(self).resolvable() ==> final(self).resolvable(),
            final(self).key_seq() == old(self).key_seq().push(sysname@),
    {
        let ghost ks = self.key_seq();
        let ghost nm = sysname@;
        self.entries.push((sysname, handle));
        proof {
            assert(self.key_seq() =~= ks.push(nm));
            assert forall|i: int, j: int|
                0 <= i < j < self.key_seq().len() implies self.key_seq()[i]
                != self.key_seq()[j] by {
                if j == ks.len() {
                    assert(!ks.contains(self.key_seq()[j]));
                }
            }
            if old(self).resolvable() {
                assert forall|k: int|
                    0 <= k < self.key_seq().len() implies name_num(
                    #[trigger] self.key_seq()[k],
                ) is Some by {
                    if k < ks.len() {
                        assert(self.key_seq()[k] == ks[k]);
                    } else {
                        assert(self.key_seq()[k] == nm);
                    }
                }
            }
        }
    }

    /// Drop a device's session if it has one; dropping the stored handle
    /// detaches the kernel hook.
    pub fn unload(&mut self, sysname: &String)
        requires
            old(self).wf(),
        ensures
            final(self).wf(),
            old(self).resolvable() ==> final(self).resolvable(),
            final(self).key_seq() == old(self).key_seq().remove_value(sysname@),
            !final(self).has(sysname@),
    {
        let ghost ks = self.key_seq();
        let n = self.entries.len();
        let mut i: usize = 0;
        while i < n
            invariant
                0 <= i <= n,
                n == self.entries@.len(),
                ks == self.key_seq(),
                old(self).wf(),
                *self == *old(self),
                forall|j: int| 0 <= j < i ==> self.key_seq()[j] != sysname@,
            decreases n - i,
        {
            if self.entries[i].0 == *sysname {
                proof {
                    assert(ks[i as int] == sysname@);
                    ks.index_of_first_ensures(sysname@);
                    assert(ks.index_of_first(sysname@) == Some(i as int));
                }
                self.entries.remove(i);
                proof {
                    assert(self.key_seq() =~= ks.remove(i as int));
                    ks.remove_ensures(i as int);
                    assert forall|k: int|
                        0 <= k < self.key_seq().len() implies #[trigger] self.key_seq()[k]
                        != sysname@ by {
                        if k < i {
                        } else {
                            assert(self.key_seq()[k] == ks[k + 1]);
                        }
                    }
                    if old(self).resolvable() {
                        assert forall|k: int|
                            0 <= k < self.key_seq().len() implies name_num(
                            #[trigger] self.key_seq()[k],
                        ) is Some by {
                            if k < i {
                                assert(self.key_seq()[k] == ks[k]);
                            } else {
                                assert(self.key_seq()[k] == ks[k + 1]);
                            }
                        }
                    }
                }
                return ;
            }
            i += 1;
        }
        proof {
            ks.index_of_first_ensures(sysname@);
            assert(!ks.contains(sysname@));
        }
    }
}

/// The names of `keys` that resolve to a numeric identifier, in order: the
/// devices a configuration rebuild will produce fresh hooks for.
pub open spec fn rebuild_names(keys: Seq<Seq<char>>) -> Seq<Seq<char>>
    decreases keys.len(),
{
    if keys.len() == 0 {
        Seq::empty()
    } else {
        let rest = rebuild_names(keys.drop_first());
        if name_num(keys.first()) is Some {
            seq![keys.first()] + rest
        } else {
            rest
        }
    }
}

/// Appending a name extends the rebuild plan by that name exactly when its
/// identifier resolves.
proof fn lemma_rebuild_names_snoc(keys: Seq<Seq<char>>, v: Seq<char>)
    ensures
        rebuild_names(keys.push(v)) == rebuild_names(keys) + (if name_num(v) is Some {
            seq![v]
        } else {
            Seq::<Seq<char>>::empty()
        }),
    decreases keys.len(),
{
    let tail = if name_num(v) is Some {
        seq![v]
    } else {
        Seq::<Seq<char>>::empty()
    };
    if keys.len() == 0 {
        assert(keys.push(v).drop_first() =~= keys);
        assert(rebuild_names(keys.push(v)) =~= rebuild_names(keys) + tail);
    } else {
        assert(keys.push(v).drop_first() =~= keys.drop_first().push(v));
        lemma_rebuild_names_snoc(keys.drop_first(), v);
        assert(rebuild_names(keys.push(v)) =~= rebuild_names(keys) + tail);
    }
}

/// When every name resolves — as it does for every session the store ever
/// holds — a rebuild covers the sessions name for name, in order.
pub proof fn lemma_rebuild_names_all(keys: Seq<Seq<char>>)
    requires
        forall|i: int| 0 <= i < keys.len() ==> name_num(#[trigger] keys[i]) is Some,
    ensures
        rebuild_names(keys) == keys,
    decreases keys.len(),
{
    if keys.len() > 0 {
        assert(name_num(keys[0]) is Some);
        assert forall|i: int|
            0 <= i < keys.drop_first().len() implies name_num(
            #[trigger] keys.drop_first()[i],
        ) is Some by {
            assert(keys.drop_first()[i] == keys[i + 1]);
        }
        lemma_rebuild_names_all(keys.drop_first());
        assert(rebuild_names(keys) =~= keys);
    }
}

/// Handle one orchestrator event.
///
/// `DeviceAdded` plans one fresh hook when the device is new and its
/// identifier resolves, and is a no-op for a duplicate (the race between the
/// initial scan and the monitor). `DeviceRemoved` drops the session.
/// `ConfigChanged` tears every session down and plans a fresh hook for each
/// device whose identifier resolves. The caller attaches each planned hook
/// and records the successes with [`BpfStore::insert`].
pub fn handle_event<H>(store: &mut BpfStore<H>, event: &Event, config: &Config) -> (plans: Vec<
    LoadRequest,
>)
    requires
        old(store).wf(),
        config.valid(),
    ensures
        final(store).wf(),
        old(store).resolvable() ==> final(store).resolvable(),
        match *event {
            Event::DeviceAdded(s) => {
                &&& *final(store) == *old(store)
                &&& if old(store).has(s@) || name_num(s@) is None {
                    plans@.len() == 0
                } else {
                    plans@.len() == 1 && plans@[0].fresh_for(s@, *config)
                }
            },
            Event::DeviceRemoved(s) => {
                &&& plans@.len() == 0
                &&& final(store).key_seq() == old(store).key_seq().remove_value(s@)
                &&& !final(store).has(s@)
            },
            Event::ConfigChanged => {
                &&& final(store).key_seq().len() == 0
                &&& plans@.len() == rebuild_names(old(store).key_seq()).len()
                &&& forall|i: int|
                    0 <= i < plans@.len() ==> #[trigger] plans@[i].fresh_for(
                        rebuild_names(old(store).key_seq())[i],
                        *config,
                    )
                &&& old(store).resolvable() ==> {
                    &&& plans@.len() == old(store).key_seq().len()
                    &&& forall|i: int|
                        0 <= i < plans@.len() ==> #[trigger] plans@[i].fresh_for(
                            old(store).key_seq()[i],
                            *config,
                        )
                }
            },
        },
{
    let mut plans: Vec<LoadRequest> = Vec::new();
    match event {
        Event::DeviceAdded(sysname) => {
            if !store.contains(sysname) {
                match sysnum(sysname.as_str()) {
                    Some(num) => {
                        let left_stick = gen_stick_lut(&config.stick.left);
                        let right_stick = gen_stick_lut(&config.stick.right);
                        plans.push(
                            LoadRequest {
                                sysname: sysname.clone(),
                                sysnum: num,
                                left_stick,
                                right_stick,
                            },
                        );
                    },
                    None => {},
                }
            }
        },
        Event::DeviceRemoved(sysname) => {
            if store.contains(sysname) {
                store.unload(sysname);
            } else {
                proof {
                    store.key_seq().index_of_first_ensures(sysname@);
                }
            }
        },
        Event::ConfigChanged => {
            let ghost old_keys = store.key_seq();
            let keys = store.keys();
            let n = keys.len();
            let mut i: usize = 0;
            while i < n
                invariant
                    0 <= i <= n,
                    n == keys@.len(),
                    n == old_keys.len(),
                    forall|j: int| 0 <= j < n ==> #[trigger] keys@[j]@ == old_keys[j],
                    store.wf(),
                    store.key_seq() == old_keys.skip(i as int),
                    config.valid(),
                    plans@.len() == rebuild_names(old_keys.take(i as int)).len(),
                    forall|j: int|
                        0 <= j < plans@.len() ==> #[trigger] plans@[j].fresh_for(
                            rebuild_names(old_keys.take(i as int))[j],
                            *config,
                        ),
                decreases n - i,
            {
                let key = &keys[i];
                proof {
                    assert(old_keys.skip(i as int)[0] == old_keys[i as int]);
                    old_keys.skip(i as int).index_of_first_ensures(key@);
                }
                store.unload(key);
                proof {
                    assert(store.key_seq() =~= old_keys.skip(i as int + 1));
                    assert(old_keys.take(i as int + 1) =~= old_keys.take(i as int).push(
                        old_keys[i as int],
                    ));
                    lemma_rebuild_names_snoc(old_keys.take(i as int), old_keys[i as int]);
                }
                match sysnum(key.as_str()) {
                    Some(num) => {
                        let left_stick = gen_stick_lut(&config.stick.left);
                        let right_stick = gen_stick_lut(&config.stick.right);
                        plans.push(
                            LoadRequest {
                                sysname: key.clone(),
                                sysnum: num,
                                left_stick,
                                right_stick,
                            },
                        );
                    },
                    None => {},
                }
                i += 1;
            }
            proof {
                assert(old_keys.take(n as int) =~= old_keys);
                assert(old_keys.skip(n as int) =~= Seq::<Seq<char>>::empty());
                if old(store).resolvable() {
                    lemma_rebuild_names_all(old_keys);
                }
            }
        },
    }
    plans
}

//
// Laws
//

/// Duplicate `DeviceAdded` events are idempotent: once a device has a
/// session, its name is held exactly once, and `handle_event` for a repeated
/// `DeviceAdded` neither changes the store nor plans another hook.
pub proof fn lemma_added_idempotent<H>(store: BpfStore<H>, name: Seq<char>)
    requires
        store.wf(),
        store.has(name),
    ensures
        exists|i: int| 0 <= i < store.key_seq().len() && store.key_seq()[i] == name,
        forall|i: int, j: int|
            0 <= i < store.key_seq().len() && 0 <= j < store.key_seq().len()
                && store.key_seq()[i] == name && store.key_seq()[j] == name ==> i == j,
{
}

/// Rebuild isolation: a configuration rebuild plans a fresh hook for every
/// device whose identifier resolves, whatever happens to the other devices'
/// plans — and every session's identifier resolves, by
/// [`BpfStore::resolvable`]. Together with [`handle_event`]'s
/// `ConfigChanged` contract and [`BpfStore::insert`], a device whose
/// rebuilt hook attaches ends the cycle with a session built from the new
/// configuration, even when another device's rebuild fails.
pub proof fn lemma_rebuild_isolation(keys: Seq<Seq<char>>, i: int)
    requires
        0 <= i < keys.len(),
        name_num(keys[i]) is Some,
    ensures
        exists|j: int|
            0 <= j < rebuild_names(keys).len() && #[trigger] rebuild_names(keys)[j] == keys[i],
    decreases keys.len(),
{
    if i == 0 {
        assert(rebuild_names(keys)[0] == keys[0]);
    } else {
        lemma_rebuild_isolation(keys.drop_first(), i - 1);
        let j = choose|j: int|
            0 <= j < rebuild_names(keys.drop_first()).len() && #[trigger] rebuild_names(
                keys.drop_first(),
            )[j] == keys.drop_first()[i - 1];
        if name_num(keys.first()) is Some {
            assert(rebuild_names(keys)[j + 1] == keys[i]);
        } else {
            assert(rebuild_names(keys)[j] == keys[i]);
        }
    }
}

} // verus!
