use vstd::prelude::*;

verus! {

use crate::identifier::{Identifier, IdentifierView, fingerprint_eq};
use crate::text::str_eq;

/// Index of the latest record carrying `name`, or -1 when none does. The
/// latest record wins because a later registration of a username overwrites
/// the index entry of an earlier one.
pub open spec fn last_index_by_username(records: Seq<IdentifierView>, name: Seq<char>) -> int
    decreases records.len(),
{
    if records.len() == 0 {
        -1
    } else if records.last().username == name {
        records.len() - 1
    } else {
        last_index_by_username(records.drop_last(), name)
    }
}

/// Index of the latest record carrying `fp`, or -1 when none does.
pub open spec fn last_index_by_fingerprint(records: Seq<IdentifierView>, fp: Seq<u8>) -> int
    decreases records.len(),
{
    if records.len() == 0 {
        -1
    } else if records.last().fingerprint == fp {
        records.len() - 1
    } else {
        last_index_by_fingerprint(records.drop_last(), fp)
    }
}

/// What a username lookup over the record sequence yields.
pub open spec fn spec_lookup_by_username(records: Seq<IdentifierView>, name: Seq<char>) -> Option<
    IdentifierView,
> {
    let i = last_index_by_username(records, name);
    if i >= 0 {
        Some(records[i])
    } else {
        None
    }
}

/// What a fingerprint lookup over the record sequence yields.
pub open spec fn spec_lookup_by_fingerprint(records: Seq<IdentifierView>, fp: Seq<u8>) -> Option<
    IdentifierView,
> {
    let i = last_index_by_fingerprint(records, fp);
    if i >= 0 {
        Some(records[i])
    } else {
        None
    }
}

pub proof fn lemma_last_index_by_username(records: Seq<IdentifierView>, name: Seq<char>)
    ensures
        -1 <= last_index_by_username(records, name) < records.len(),
        last_index_by_username(records, name) >= 0 ==> records[last_index_by_username(
            records,
            name,
        )].username == name,
        forall|i: int|
            0 <= i < records.len() && records[i].username == name ==> last_index_by_username(
                records,
                name,
            ) >= i,
    decreases records.len(),
{
    if records.len() > 0 && records.last().username != name {
        lemma_last_index_by_username(records.drop_last(), name);
        assert(forall|i: int|
            0 <= i < records.len() - 1 ==> records.drop_last()[i] == records[i]);
    }
}

pub proof fn lemma_last_index_by_fingerprint(records: Seq<IdentifierView>, fp: Seq<u8>)
    ensures
        -1 <= last_index_by_fingerprint(records, fp) < records.len(),
        last_index_by_fingerprint(records, fp) >= 0 ==> records[last_index_by_fingerprint(
            records,
            fp,
        )].fingerprint == fp,
        forall|i: int|
            0 <= i < records.len() && records[i].fingerprint == fp ==> last_index_by_fingerprint(
                records,
                fp,
            ) >= i,
    decreases records.len(),
{
    if records.len() > 0 && records.last().fingerprint != fp {
        lemma_last_index_by_fingerprint(records.drop_last(), fp);
        assert(forall|i: int|
            0 <= i < records.len() - 1 ==> records.drop_last()[i] == records[i]);
    }
}

proof fn lemma_last_index_by_username_push(
    records: Seq<IdentifierView>,
    name: Seq<char>,
    x: IdentifierView,
)
    ensures
        last_index_by_username(records.push(x), name) == if x.username == name {
            records.len() as int
        } else {
            last_index_by_username(records, name)
        },
{
    assert(records.push(x).drop_last() =~= records);
}

proof fn lemma_last_index_by_fingerprint_push(
    records: Seq<IdentifierView>,
    fp: Seq<u8>,
    x: IdentifierView,
)
    ensures
        last_index_by_fingerprint(records.push(x), fp) == if x.fingerprint == fp {
            records.len() as int
        } else {
            last_index_by_fingerprint(records, fp)
        },
{
    assert(records.push(x).drop_last() =~= records);
}

struct UsernameIndexEntry {
    name: String,
    index: usize,
}

struct FingerprintIndexEntry {
    fingerprint: [u8; 32],
    index: usize,
}

spec fn has_username_entry(entries: Seq<UsernameIndexEntry>, name: Seq<char>) -> bool {
    exists|k: int| 0 <= k < entries.len() && #[trigger] entries[k].name@ == name
}

spec fn has_fingerprint_entry(entries: Seq<FingerprintIndexEntry>, fp: Seq<u8>) -> bool {
    exists|k: int| 0 <= k < entries.len() && #[trigger] entries[k].fingerprint@ == fp
}

/// Durable identity directory: an ordered record sequence with two derived
/// indexes, one by username and one by fingerprint. Records are only ever
/// appended; persistence of the record sequence happens at the caller, which
/// reads `records` after every registration and feeds `from_records` on
/// load.
pub struct UserManager {
    users: Vec<Identifier>,
    by_username: Vec<UsernameIndexEntry>,
    by_fingerprint: Vec<FingerprintIndexEntry>,
}

impl UserManager {
    /// The recorded identities, oldest first.
    pub closed spec fn spec_records(self) -> Seq<IdentifierView> {
        self.users.deep_view()
    }

    /// The indexes mirror the record sequence: every entry points at the
    /// latest record carrying its key, no key has two entries, and every
    /// record's keys are indexed.
    pub closed spec fn wf(self) -> bool {
        let recs = self.users.deep_view();
        &&& forall|k: int|
            0 <= k < self.by_username@.len() ==> last_index_by_username(
                recs,
                (#[trigger] self.by_username@[k]).name@,
            ) == self.by_username@[k].index
        &&& forall|k1: int, k2: int|
            0 <= k1 < k2 < self.by_username@.len() ==> (#[trigger] self.by_username@[k1]).name@
                != (#[trigger] self.by_username@[k2]).name@
        &&& forall|i: int|
            0 <= i < recs.len() ==> has_username_entry(
                self.by_username@,
                (#[trigger] recs[i]).username,
            )
        &&& forall|k: int|
            0 <= k < self.by_fingerprint@.len() ==> last_index_by_fingerprint(
                recs,
                (#[trigger] self.by_fingerprint@[k]).fingerprint@,
            ) == self.by_fingerprint@[k].index
        &&& forall|k1: int, k2: int|
            0 <= k1 < k2 < self.by_fingerprint@.len() ==> (#[trigger] self.by_fingerprint@[k1]).fingerprint@
                != (#[trigger] self.by_fingerprint@[k2]).fingerprint@
        &&& forall|i: int|
            0 <= i < recs.len() ==> has_fingerprint_entry(
                self.by_fingerprint@,
                (#[trigger] recs[i]).fingerprint,
            )
    }

    /// An empty directory; the caller loads any persisted records through
    /// `from_records`.
    pub fn new() -> (r: Self)
        ensures
            r.wf(),
            r.spec_records() == Seq::<IdentifierView>::empty(),
    {
        let r = UserManager {
            users: Vec::new(),
            by_username: Vec::new(),
            by_fingerprint: Vec::new(),
        };
        proof {
            assert(r.users.deep_view() =~= Seq::<IdentifierView>::empty());
        }
        r
    }

    /// Rebuilds a directory, indexes included, from a persisted record
    /// sequence.
    #[verifier::loop_isolation(false)]
    pub fn from_records(records: Vec<Identifier>) -> (r: Self)
        ensures
            r.wf(),
            r.spec_records() == records.deep_view(),
    {
        let mut r = UserManager::new();
        let mut i: usize = 0;
        while i < records.len()
            invariant
                r.wf(),
                i <= records@.len(),
                r.spec_records() == records.deep_view().subrange(0, i as int),
            decreases records@.len() - i,
        {
            r.add_user(records[i].clone());
            proof {
                assert(records.deep_view().subrange(0, i as int).push(records.deep_view()[i as int])
                    =~= records.deep_view().subrange(0, i as int + 1));
            }
            i += 1;
        }
        proof {
            assert(records.deep_view().subrange(0, records.deep_view().len() as int)
                =~= records.deep_view());
        }
        r
    }

    /// Appends a record and repoints both indexes at it. Does not
    /// deduplicate: the caller checks `get_user` first, and the caller
    /// persists the grown record sequence.
    pub fn add_user(&mut self, identifier: Identifier)
        requires
            old(self).wf(),
        ensures
            final(self).wf(),
            final(self).spec_records() == old(self).spec_records().push(identifier@),
    {
        let ghost recs0 = self.users.deep_view();
        let ghost x = identifier@;
        let index = self.users.len();
        match find_username_entry(&self.by_username, identifier.username.as_str()) {
            Some(k) => {
                self.by_username[k] = UsernameIndexEntry {
                    name: identifier.username.clone(),
                    index,
                };
                proof {
                    assert forall|n: Seq<char>|
                        #[trigger] has_username_entry(old(self).by_username@, n) implies
                        has_username_entry(self.by_username@, n) by {
                        let j = choose|j: int|
                            0 <= j < old(self).by_username@.len() && #[trigger] old(
                                self,
                            ).by_username@[j].name@ == n;
                        if j == k as int {
                            assert(self.by_username@[k as int].name@ == n);
                        } else {
                            assert(self.by_username@[j].name@ == n);
                        }
                    }
                    assert(self.by_username@[k as int].name@ == x.username);
                    assert(has_username_entry(self.by_username@, x.username));
                }
            },
            None => {
                self.by_username.push(
                    UsernameIndexEntry { name: identifier.username.clone(), index },
                );
                proof {
                    assert forall|n: Seq<char>|
                        #[trigger] has_username_entry(old(self).by_username@, n) implies
                        has_username_entry(self.by_username@, n) by {
                        let j = choose|j: int|
                            0 <= j < old(self).by_username@.len() && #[trigger] old(
                                self,
                            ).by_username@[j].name@ == n;
                        assert(self.by_username@[j].name@ == n);
                    }
                    assert(self.by_username@[self.by_username@.len() - 1].name@ == x.username);
                    assert(has_username_entry(self.by_username@, x.username));
                }
            },
        }
        match find_fingerprint_entry(&self.by_fingerprint, &identifier.fingerprint) {
            Some(k) => {
                self.by_fingerprint[k] = FingerprintIndexEntry {
                    fingerprint: identifier.fingerprint,
                    index,
                };
                proof {
                    assert forall|n: Seq<u8>|
                        #[trigger] has_fingerprint_entry(old(self).by_fingerprint@, n) implies
                        has_fingerprint_entry(self.by_fingerprint@, n) by {
                        let j = choose|j: int|
                            0 <= j < old(self).by_fingerprint@.len() && #[trigger] old(
                                self,
                            ).by_fingerprint@[j].fingerprint@ == n;
                        if j == k as int {
                            assert(self.by_fingerprint@[k as int].fingerprint@ == n);
                        } else {
                            assert(self.by_fingerprint@[j].fingerprint@ == n);
                        }
                    }
                    assert(self.by_fingerprint@[k as int].fingerprint@ == x.fingerprint);
                    assert(has_fingerprint_entry(self.by_fingerprint@, x.fingerprint));
                }
            },
            None => {
                self.by_fingerprint.push(
                    FingerprintIndexEntry { fingerprint: identifier.fingerprint, index },
                );
                proof {
                    assert forall|n: Seq<u8>|
                        #[trigger] has_fingerprint_entry(old(self).by_fingerprint@, n) implies
                        has_fingerprint_entry(self.by_fingerprint@, n) by {
                        let j = choose|j: int|
                            0 <= j < old(self).by_fingerprint@.len() && #[trigger] old(
                                self,
                            ).by_fingerprint@[j].fingerprint@ == n;
                        assert(self.by_fingerprint@[j].fingerprint@ == n);
                    }
                    assert(self.by_fingerprint@[self.by_fingerprint@.len() - 1].fingerprint@
                        == x.fingerprint);
                    assert(has_fingerprint_entry(self.by_fingerprint@, x.fingerprint));
                }
            },
        }
        self.users.push(identifier);
        proof {
            let recs1 = self.users.deep_view();
            assert(recs1 =~= recs0.push(x));
            assert forall|k: int| 0 <= k < self.by_username@.len() implies last_index_by_username(
                recs1,
                (#[trigger] self.by_username@[k]).name@,
            ) == self.by_username@[k].index by {
                lemma_last_index_by_username_push(recs0, self.by_username@[k].name@, x);
            }
            assert forall|i: int| 0 <= i < recs1.len() implies has_username_entry(
                self.by_username@,
                (#[trigger] recs1[i]).username,
            ) by {
                if i < recs0.len() {
                    assert(has_username_entry(old(self).by_username@, recs0[i].username));
                } else {
                    assert(recs1[i] == x);
                }
            }
            assert forall|k: int|
                0 <= k < self.by_fingerprint@.len() implies last_index_by_fingerprint(
                recs1,
                (#[trigger] self.by_fingerprint@[k]).fingerprint@,
            ) == self.by_fingerprint@[k].index by {
                lemma_last_index_by_fingerprint_push(recs0, self.by_fingerprint@[k].fingerprint@, x);
            }
            assert forall|i: int| 0 <= i < recs1.len() implies has_fingerprint_entry(
                self.by_fingerprint@,
                (#[trigger] recs1[i]).fingerprint,
            ) by {
                if i < recs0.len() {
                    assert(has_fingerprint_entry(old(self).by_fingerprint@, recs0[i].fingerprint));
                } else {
                    assert(recs1[i] == x);
                }
            }
        }
    }

    /// Looks an identity up by its fingerprint; yields the latest matching
    /// record, or nothing when the fingerprint was never registered.
    #[verifier::loop_isolation(false)]
    pub fn get_user(&self, fingerprint: [u8; 32]) -> (r: Option<&Identifier>)
        requires
            self.wf(),
        ensures
            (match r {
                Some(id) => spec_lookup_by_fingerprint(self.spec_records(), fingerprint@) == Some(
                    id@,
                ),
                None => spec_lookup_by_fingerprint(self.spec_records(), fingerprint@) is None,
            }),
    {
        let ghost recs = self.users.deep_view();
        let mut k: usize = 0;
        while k < self.by_fingerprint.len()
            invariant
                k <= self.by_fingerprint@.len(),
                forall|j: int| 0 <= j < k ==> self.by_fingerprint@[j].fingerprint@ != fingerprint@,
            decreases self.by_fingerprint@.len() - k,
        {
            if fingerprint_eq(&self.by_fingerprint[k].fingerprint, &fingerprint) {
                proof {
                    lemma_last_index_by_fingerprint(recs, fingerprint@);
                }
                let e_index = self.by_fingerprint[k].index;
                return Some(&self.users[e_index]);
            }
            k += 1;
        }
        proof {
            lemma_last_index_by_fingerprint(recs, fingerprint@);
            let i = last_index_by_fingerprint(recs, fingerprint@);
            if i >= 0 {
                assert(has_fingerprint_entry(self.by_fingerprint@, recs[i].fingerprint));
            }
        }
        None
    }

    /// Looks an identity up by its username; yields the latest matching
    /// record, or nothing when the username was never registered.
    #[verifier::loop_isolation(false)]
    pub fn get_user_by_username(&self, username: &str) -> (r: Option<&Identifier>)
        requires
            self.wf(),
        ensures
            (match r {
                Some(id) => spec_lookup_by_username(self.spec_records(), username@) == Some(id@),
                None => spec_lookup_by_username(self.spec_records(), username@) is None,
            }),
    {
        let ghost recs = self.users.deep_view();
        let mut k: usize = 0;
        while k < self.by_username.len()
            invariant
                k <= self.by_username@.len(),
                forall|j: int| 0 <= j < k ==> self.by_username@[j].name@ != username@,
            decreases self.by_username@.len() - k,
        {
            if str_eq(self.by_username[k].name.as_str(), username) {
                proof {
                    lemma_last_index_by_username(recs, username@);
                }
                let e_index = self.by_username[k].index;
                return Some(&self.users[e_index]);
            }
            k += 1;
        }
        proof {
            lemma_last_index_by_username(recs, username@);
            let i = last_index_by_username(recs, username@);
            if i >= 0 {
                assert(has_username_entry(self.by_username@, recs[i].username));
            }
        }
        None
    }

    /// The record sequence, for persistence after a registration.
    pub fn records(&self) -> (r: &Vec<Identifier>)
        ensures
            r.deep_view() == self.spec_records(),
    {
        &self.users
    }
}

fn find_username_entry(entries: &Vec<UsernameIndexEntry>, name: &str) -> (r: Option<usize>)
    ensures
        (match r {
            Some(k) => k < entries@.len() && entries@[k as int].name@ == name@,
            None => forall|j: int| 0 <= j < entries@.len() ==> entries@[j].name@ != name@,
        }),
{
    let mut k: usize = 0;
    while k < entries.len()
        invariant
            k <= entries@.len(),
            forall|j: int| 0 <= j < k ==> entries@[j].name@ != name@,
        decreases entries@.len() - k,
    {
        if str_eq(entries[k].name.as_str(), name) {
            return Some(k);
        }
        k += 1;
    }
    None
}

fn find_fingerprint_entry(entries: &Vec<FingerprintIndexEntry>, fp: &[u8; 32]) -> (r: Option<
    usize,
>)
    ensures
        (match r {
            Some(k) => k < entries@.len() && entries@[k as int].fingerprint@ == fp@,
            None => forall|j: int| 0 <= j < entries@.len() ==> entries@[j].fingerprint@ != fp@,
        }),
{
    let mut k: usize = 0;
    while k < entries.len()
        invariant
            k <= entries@.len(),
            forall|j: int| 0 <= j < k ==> entries@[j].fingerprint@ != fp@,
        decreases entries@.len() - k,
    {
        if fingerprint_eq(&entries[k].fingerprint, fp) {
            return Some(k);
        }
        k += 1;
    }
    None
}

/// Directory round-trip: in a record sequence whose usernames are distinct
/// and whose fingerprints are distinct, every record is resolved by both of
/// its keys.
pub proof fn lemma_directory_round_trip(records: Seq<IdentifierView>, i: int)
    requires
        0 <= i < records.len(),
        forall|j: int, k: int|
            0 <= j < k < records.len() ==> (#[trigger] records[j]).username != (
            #[trigger] records[k]).username,
        forall|j: int, k: int|
            0 <= j < k < records.len() ==> (#[trigger] records[j]).fingerprint != (
            #[trigger] records[k]).fingerprint,
    ensures
        spec_lookup_by_username(records, records[i].username) == Some(records[i]),
        spec_lookup_by_fingerprint(records, records[i].fingerprint) == Some(records[i]),
{
    lemma_last_index_by_username(records, records[i].username);
    lemma_last_index_by_fingerprint(records, records[i].fingerprint);
}

} // verus!
