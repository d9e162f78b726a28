use vstd::prelude::*;

verus! {

use crate::identifier::{Identifier, IdentifierView};
use crate::users::{UserManager, spec_lookup_by_username, spec_lookup_by_fingerprint};

/// Shared, file-backed contact directory: the identity records with their
/// indexes, plus the path of the backing store. The caller does the file
/// work: it reads the store into `load_records` once, and persists
/// `records` after every `add`.
pub struct ContactsList {
    filepath: String,
    directory: UserManager,
}

impl ContactsList {
    /// The recorded identities, oldest first.
    pub closed spec fn spec_records(self) -> Seq<IdentifierView> {
        self.directory.spec_records()
    }

    /// The path of the backing store.
    pub closed spec fn spec_filepath(self) -> Seq<char> {
        self.filepath@
    }

    /// The indexes mirror the record sequence.
    pub closed spec fn wf(self) -> bool {
        self.directory.wf()
    }

    /// An empty contact list that remembers its backing file; the caller
    /// reads that file, if it exists, and hands the records to
    /// `load_records`. A missing or unreadable store simply leaves the list
    /// empty.
    pub fn new(filepath: String) -> (r: Self)
        ensures
            r.wf(),
            r.spec_records() == Seq::<IdentifierView>::empty(),
            r.spec_filepath() == filepath@,
    {
        ContactsList { filepath, directory: UserManager::new() }
    }

    /// Replaces the contents with a persisted record sequence, rebuilding
    /// both indexes.
    pub fn load_records(&mut self, records: Vec<Identifier>)
        ensures
            final(self).wf(),
            final(self).spec_records() == records.deep_view(),
            final(self).spec_filepath() == old(self).spec_filepath(),
    {
        self.directory = UserManager::from_records(records);
    }

    /// Appends a record and indexes it under both keys; the caller persists
    /// `records` to the backing file afterwards.
    pub fn add(&mut self, identifier: Identifier)
        requires
            old(self).wf(),
        ensures
            final(self).wf(),
            final(self).spec_records() == old(self).spec_records().push(identifier@),
            final(self).spec_filepath() == old(self).spec_filepath(),
    {
        self.directory.add_user(identifier);
    }

    /// Looks a contact up by fingerprint; yields the latest matching record.
    pub fn get_by_fingerprint(&self, fingerprint: &[u8; 32]) -> (r: Option<&Identifier>)
        requires
            self.wf(),
        ensures
            (match r {
                Some(id) => spec_lookup_by_fingerprint(self.spec_records(), fingerprint@) == Some(
                    id@,
                ),
                None => spec_lookup_by_fingerprint(self.spec_records(), fingerprint@) is None,
            }),
    {
        self.directory.get_user(*fingerprint)
    }

    /// Looks a contact up by username; yields the latest matching record.
    pub fn get_by_username(&self, username: &str) -> (r: Option<&Identifier>)
        requires
            self.wf(),
        ensures
            (match r {
                Some(id) => spec_lookup_by_username(self.spec_records(), username@) == Some(id@),
                None => spec_lookup_by_username(self.spec_records(), username@) is None,
            }),
    {
        self.directory.get_user_by_username(username)
    }

    /// The record sequence, for persistence after a registration.
    pub fn records(&self) -> (r: &Vec<Identifier>)
        ensures
            r.deep_view() == self.spec_records(),
    {
        self.directory.records()
    }

    /// The path of the backing store, for the caller's file work.
    pub fn filepath(&self) -> (r: &String)
        ensures
            r@ == self.spec_filepath(),
    {
        &self.filepath
    }
}

} // verus!
