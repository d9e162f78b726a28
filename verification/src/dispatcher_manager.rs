use vstd::prelude::*;

verus! {

use crate::identifier::{Identifier, fingerprint_eq};

struct RegistryEntry {
    fingerprint: [u8; 32],
    session: usize,
}

/// The non-owning handle a registry entry stores for a fingerprint, if any:
/// the latest registration wins, and registering never removes older
/// fingerprints.
spec fn entries_handle(entries: Seq<RegistryEntry>, fp: Seq<u8>) -> Option<nat>
    decreases entries.len(),
{
    if entries.len() == 0 {
        None
    } else if entries.last().fingerprint@ == fp {
        Some(entries.last().session as nat)
    } else {
        entries_handle(entries.drop_last(), fp)
    }
}

proof fn lemma_entries_handle_props(entries: Seq<RegistryEntry>, fp: Seq<u8>)
    ensures
        (match entries_handle(entries, fp) {
            Some(s) => exists|i: int|
                0 <= i < entries.len() && (#[trigger] entries[i]).fingerprint@ == fp
                    && entries[i].session == s,
            None => forall|i: int|
                0 <= i < entries.len() ==> (#[trigger] entries[i]).fingerprint@ != fp,
        }),
    decreases entries.len(),
{
    if entries.len() > 0 {
        lemma_entries_handle_props(entries.drop_last(), fp);
        assert(forall|i: int|
            0 <= i < entries.len() - 1 ==> entries.drop_last()[i] == entries[i]);
        if entries.last().fingerprint@ == fp {
            assert(entries[entries.len() - 1].fingerprint@ == fp);
        }
    }
}

proof fn lemma_entries_handle_push(entries: Seq<RegistryEntry>, e: RegistryEntry, fp: Seq<u8>)
    ensures
        entries_handle(entries.push(e), fp) == if e.fingerprint@ == fp {
            Some(e.session as nat)
        } else {
            entries_handle(entries, fp)
        },
{
    assert(entries.push(e).drop_last() =~= entries);
}

spec fn entries_no_dup(entries: Seq<RegistryEntry>) -> bool {
    forall|k1: int, k2: int|
        0 <= k1 < k2 < entries.len() ==> (#[trigger] entries[k1]).fingerprint@ != (
        #[trigger] entries[k2]).fingerprint@
}

proof fn lemma_entries_handle_update(
    entries: Seq<RegistryEntry>,
    k: int,
    e: RegistryEntry,
    fp: Seq<u8>,
)
    requires
        0 <= k < entries.len(),
        entries[k].fingerprint@ == e.fingerprint@,
        entries_no_dup(entries),
    ensures
        entries_handle(entries.update(k, e), fp) == if e.fingerprint@ == fp {
            Some(e.session as nat)
        } else {
            entries_handle(entries, fp)
        },
    decreases entries.len(),
{
    let upd = entries.update(k, e);
    if k == entries.len() - 1 {
        assert(upd.last() == e);
        assert(upd.drop_last() =~= entries.drop_last());
        if e.fingerprint@ != fp && entries.last().fingerprint@ != fp {
        }
        if e.fingerprint@ == fp {
        } else {
            assert(entries.last().fingerprint@ == e.fingerprint@);
        }
    } else {
        assert(upd.last() == entries.last());
        assert(upd.drop_last() =~= entries.drop_last().update(k, e));
        assert(entries.drop_last()[k] == entries[k]);
        assert(entries_no_dup(entries.drop_last())) by {
            assert(forall|i: int|
                0 <= i < entries.len() - 1 ==> entries.drop_last()[i] == entries[i]);
        }
        lemma_entries_handle_update(entries.drop_last(), k, e, fp);
        if entries.last().fingerprint@ == fp {
            assert(e.fingerprint@ != fp);
        }
    }
}

proof fn lemma_entries_handle_remove(entries: Seq<RegistryEntry>, k: int, fp: Seq<u8>)
    requires
        0 <= k < entries.len(),
        entries_no_dup(entries),
    ensures
        entries_handle(entries.remove(k), fp) == if entries[k].fingerprint@ == fp {
            None
        } else {
            entries_handle(entries, fp)
        },
    decreases entries.len(),
{
    let rem = entries.remove(k);
    assert(forall|i: int| 0 <= i < entries.len() - 1 ==> entries.drop_last()[i] == entries[i]);
    if k == entries.len() - 1 {
        assert(rem =~= entries.drop_last());
        if entries[k].fingerprint@ == fp {
            lemma_entries_handle_props(entries.drop_last(), fp);
            if entries_handle(entries.drop_last(), fp) is Some {
                let dl = entries.drop_last();
                let i = choose|i: int|
                    0 <= i < dl.len() && (#[trigger] dl[i]).fingerprint@ == fp;
                assert(entries[i].fingerprint@ == entries[k].fingerprint@);
            }
        }
    } else {
        assert(rem.last() == entries.last());
        assert(rem.drop_last() =~= entries.drop_last().remove(k));
        assert(entries_no_dup(entries.drop_last()));
        lemma_entries_handle_remove(entries.drop_last(), k, fp);
        if entries.last().fingerprint@ == fp {
            assert(entries[k].fingerprint@ != fp);
        }
    }
}

/// Live-presence registry: maps a fingerprint to a non-owning handle to the
/// session that authenticated it. A handle is a slot number in the
/// registry's own session arena, the stand-in for a weak reference: the
/// slot is allocated when a connection task starts, marked dead the moment
/// the task ends and drops its session, and resolution refuses a handle
/// whose slot is dead. A stale entry therefore resolves to absent rather
/// than to a dangling session, with no cleanup pass required.
pub struct DispatcherManager {
    registry: Vec<RegistryEntry>,
    sessions: Vec<bool>,
}

impl DispatcherManager {
    /// No fingerprint has two registry entries.
    pub closed spec fn wf(self) -> bool {
        entries_no_dup(self.registry@)
    }

    /// How many session slots were ever allocated.
    pub closed spec fn spec_session_count(self) -> nat {
        self.sessions@.len()
    }

    /// Whether session slot `s` is still alive.
    pub closed spec fn spec_live(self, s: nat) -> bool {
        s < self.sessions@.len() && self.sessions@[s as int]
    }

    /// The raw handle stored for `fp`, dead or alive.
    pub closed spec fn spec_handle(self, fp: Seq<u8>) -> Option<nat> {
        entries_handle(self.registry@, fp)
    }

    /// What resolution yields for `fp`: the stored handle, but only while
    /// its session is alive.
    pub open spec fn spec_resolve(self, fp: Seq<u8>) -> Option<nat> {
        match self.spec_handle(fp) {
            Some(s) => if self.spec_live(s) {
                Some(s)
            } else {
                None
            },
            None => None,
        }
    }

    /// An empty registry with no sessions.
    pub fn new() -> (r: Self)
        ensures
            r.wf(),
            r.spec_session_count() == 0,
            forall|f: Seq<u8>| r.spec_handle(f) is None,
    {
        let r = DispatcherManager { registry: Vec::new(), sessions: Vec::new() };
        proof {
            assert(forall|f: Seq<u8>| entries_handle(r.registry@, f) is None);
        }
        r
    }

    /// Allocates a slot for a session that is starting; the slot stands for
    /// the session object's lifetime.
    pub fn create_session(&mut self) -> (s: usize)
        requires
            old(self).wf(),
        ensures
            final(self).wf(),
            s == old(self).spec_session_count(),
            final(self).spec_session_count() == old(self).spec_session_count() + 1,
            final(self).spec_live(s as nat),
            forall|t: nat| t != s ==> final(self).spec_live(t) == old(self).spec_live(t),
            forall|f: Seq<u8>| final(self).spec_handle(f) == old(self).spec_handle(f),
    {
        let s = self.sessions.len();
        self.sessions.push(true);
        s
    }

    /// Marks a session slot dead: what happens, from the registry's point
    /// of view, the moment the session object is dropped at the end of its
    /// connection task. Stale registry entries for the slot stay behind but
    /// can no longer resolve.
    pub fn end_session(&mut self, session: usize)
        requires
            old(self).wf(),
            session < old(self).spec_session_count(),
        ensures
            final(self).wf(),
            final(self).spec_session_count() == old(self).spec_session_count(),
            !final(self).spec_live(session as nat),
            forall|t: nat| t != session ==> final(self).spec_live(t) == old(self).spec_live(t),
            forall|f: Seq<u8>| final(self).spec_handle(f) == old(self).spec_handle(f),
    {
        self.sessions[session] = false;
    }

    /// Inserts or overwrites the entry for the identity's fingerprint with
    /// the given session handle; the latest registration wins.
    pub fn register_dispatcher(&mut self, identifier: &Identifier, session: usize)
        requires
            old(self).wf(),
        ensures
            final(self).wf(),
            final(self).spec_handle(identifier.fingerprint@) == Some(session as nat),
            forall|f: Seq<u8>|
                f != identifier.fingerprint@ ==> final(self).spec_handle(f) == old(
                    self,
                ).spec_handle(f),
            final(self).spec_session_count() == old(self).spec_session_count(),
            forall|t: nat| final(self).spec_live(t) == old(self).spec_live(t),
    {
        let e = RegistryEntry { fingerprint: identifier.fingerprint, session };
        match find_registry_entry(&self.registry, &identifier.fingerprint) {
            Some(k) => {
                proof {
                    assert forall|f: Seq<u8>| true implies entries_handle(
                        self.registry@.update(k as int, e),
                        f,
                    ) == (if identifier.fingerprint@ == f {
                        Some(session as nat)
                    } else {
                        entries_handle(self.registry@, f)
                    }) by {
                        lemma_entries_handle_update(self.registry@, k as int, e, f);
                    }
                }
                self.registry[k] = e;
            },
            None => {
                proof {
                    assert forall|f: Seq<u8>| true implies entries_handle(
                        self.registry@.push(e),
                        f,
                    ) == (if identifier.fingerprint@ == f {
                        Some(session as nat)
                    } else {
                        entries_handle(self.registry@, f)
                    }) by {
                        lemma_entries_handle_push(self.registry@, e, f);
                    }
                }
                self.registry.push(e);
            },
        }
    }

    /// Removes the entry for the identity's fingerprint; a no-op when none
    /// is present.
    pub fn deregister_dispatcher(&mut self, identifier: &Identifier)
        requires
            old(self).wf(),
        ensures
            final(self).wf(),
            final(self).spec_handle(identifier.fingerprint@) is None,
            forall|f: Seq<u8>|
                f != identifier.fingerprint@ ==> final(self).spec_handle(f) == old(
                    self,
                ).spec_handle(f),
            final(self).spec_session_count() == old(self).spec_session_count(),
            forall|t: nat| final(self).spec_live(t) == old(self).spec_live(t),
    {
        match find_registry_entry(&self.registry, &identifier.fingerprint) {
            Some(k) => {
                proof {
                    assert forall|f: Seq<u8>| true implies entries_handle(
                        self.registry@.remove(k as int),
                        f,
                    ) == (if identifier.fingerprint@ == f {
                        None
                    } else {
                        entries_handle(self.registry@, f)
                    }) by {
                        lemma_entries_handle_remove(self.registry@, k as int, f);
                    }
                    assert(entries_no_dup(self.registry@.remove(k as int))) by {
                        assert(forall|i: int|
                            0 <= i < self.registry@.len() - 1 ==> self.registry@.remove(k as int)[i]
                                == if i < k as int {
                                self.registry@[i]
                            } else {
                                self.registry@[i + 1]
                            });
                    }
                }
                self.registry.remove(k);
            },
            None => {
                proof {
                    lemma_entries_handle_props(self.registry@, identifier.fingerprint@);
                }
            },
        }
    }

    /// Attempts to resolve the recipient's fingerprint to a usable session
    /// handle; absent means the peer is offline, a normal relay miss rather
    /// than an error.
    pub fn get_dispatcher(&self, recipient_identifier: &Identifier) -> (r: Option<usize>)
        requires
            self.wf(),
        ensures
            (match r {
                Some(s) => self.spec_resolve(recipient_identifier.fingerprint@) == Some(s as nat),
                None => self.spec_resolve(recipient_identifier.fingerprint@) is None,
            }),
    {
        self.resolve(&recipient_identifier.fingerprint)
    }

    /// Resolves a bare fingerprint the same way.
    pub fn resolve(&self, fingerprint: &[u8; 32]) -> (r: Option<usize>)
        requires
            self.wf(),
        ensures
            (match r {
                Some(s) => self.spec_resolve(fingerprint@) == Some(s as nat),
                None => self.spec_resolve(fingerprint@) is None,
            }),
    {
        proof {
            lemma_entries_handle_props(self.registry@, fingerprint@);
        }
        match find_registry_entry(&self.registry, fingerprint) {
            Some(k) => {
                proof {
                    let i = choose|i: int|
                        0 <= i < self.registry@.len() && (#[trigger] self.registry@[i]).fingerprint@
                            == fingerprint@ && self.registry@[i].session == entries_handle(
                            self.registry@,
                            fingerprint@,
                        )->Some_0;
                    assert(i == k as int);
                }
                let s = self.registry[k].session;
                if s < self.sessions.len() && self.sessions[s] {
                    Some(s)
                } else {
                    None
                }
            },
            None => None,
        }
    }
}

fn find_registry_entry(entries: &Vec<RegistryEntry>, fp: &[u8; 32]) -> (r: Option<usize>)
    ensures
        (match r {
            Some(k) => k < entries@.len() && entries@[k as int].fingerprint@ == fp@,
            None => forall|j: int| 0 <= j < entries@.len() ==> entries@[j].fingerprint@ != fp@,
        }),
{
    let mut k: usize = 0;
    while k < entries.len()
        invariant
            k <= entries@.len(),
            forall|j: int| 0 <= j < k ==> entries@[j].fingerprint@ != fp@,
        decreases entries@.len() - k,
    {
        if fingerprint_eq(&entries[k].fingerprint, fp) {
            return Some(k);
        }
        k += 1;
    }
    None
}

/// Registry liveness: a registered handle resolves exactly while its
/// session slot lives; once the slot has been marked dead, resolution
/// yields absent even though the stale entry may still be stored and no
/// deregistration ever ran.
pub proof fn lemma_registry_liveness(m: DispatcherManager, fp: Seq<u8>, s: nat)
    requires
        m.spec_handle(fp) == Some(s),
    ensures
        m.spec_live(s) ==> m.spec_resolve(fp) == Some(s),
        !m.spec_live(s) ==> m.spec_resolve(fp) is None,
{
}

} // verus!
