use vstd::prelude::*;

verus! {

use crate::identifier::{Identifier, IdentifierView, fingerprint, sha256_of};
use crate::identity::{Identification, spec_decode_identification};
use crate::users::{UserManager, spec_lookup_by_fingerprint};
use crate::dispatcher_manager::DispatcherManager;
use vstd::slice::{slice_subrange, slice_to_vec};

/// One inbound transport event, as the connection's receive loop hands it
/// over.
pub enum Frame {
    /// A binary frame: an identification payload before authentication, a
    /// relay request afterwards.
    Binary(Vec<u8>),
    /// A text frame; the protocol has no use for one, so it is a
    /// protocol fault.
    Text(String),
    /// The peer closed the connection.
    Close,
    /// Any other frame; ignored.
    Other,
}

/// What the connection task must do after a frame was handled.
pub enum Action {
    /// Nothing to send, the session stays open.
    Ignore,
    /// Write `payload`, verbatim, to the outbound half of the session in
    /// the named slot and to no other.
    Deliver { session: usize, payload: Vec<u8> },
    /// Close the connection; the receive loop ends.
    Disconnect,
}

/// The destination fingerprint a relay frame carries in front of its
/// payload.
pub open spec fn spec_relay_target(frame_bytes: Seq<u8>) -> Seq<u8> {
    frame_bytes.subrange(0, 32)
}

/// The opaque payload of a relay frame: everything after the destination
/// fingerprint, forwarded untouched.
pub open spec fn spec_relay_payload(frame_bytes: Seq<u8>) -> Seq<u8> {
    frame_bytes.subrange(32, frame_bytes.len() as int)
}

/// Per-connection session actor state: the resolved identity once the
/// session has authenticated, and the session's slot in the presence
/// registry's arena. The transport halves and the receive loop live with
/// the caller; this state machine only decides.
pub struct Dispatcher {
    identifier: Option<Identifier>,
    session: usize,
}

impl Dispatcher {
    /// The resolved identity, unset until the first identification frame
    /// was accepted.
    pub closed spec fn spec_identifier(self) -> Option<IdentifierView> {
        match self.identifier {
            Some(id) => Some(id@),
            None => None,
        }
    }

    /// The session's slot in the registry's arena.
    pub closed spec fn spec_session(self) -> nat {
        self.session as nat
    }

    /// A resolved identity always carries the fingerprint derived from its
    /// public key; nothing from the wire is trusted as a fingerprint.
    pub open spec fn wf(self) -> bool {
        match self.spec_identifier() {
            Some(me) => me.derived(),
            None => true,
        }
    }

    /// A fresh, unauthenticated session actor for an accepted connection,
    /// standing in the given arena slot.
    pub fn new(session: usize) -> (r: Self)
        ensures
            r.wf(),
            r.spec_identifier() is None,
            r.spec_session() == session,
    {
        Dispatcher { identifier: None, session }
    }

    /// Authenticates the session from its first binary frame: decodes the
    /// identification payload, derives the fingerprint from the received
    /// public key, registers the identity in the directory when it is new
    /// there, and registers this session's handle in the presence registry.
    /// A payload that does not decode changes nothing and reports failure.
    fn identify_user(
        &mut self,
        bin: &Vec<u8>,
        users: &mut UserManager,
        manager: &mut DispatcherManager,
    ) -> (ok: bool)
        requires
            old(self).wf(),
            old(self).spec_identifier() is None,
            old(users).wf(),
            old(manager).wf(),
        ensures
            final(self).wf(),
            final(users).wf(),
            final(manager).wf(),
            final(self).spec_session() == old(self).spec_session(),
            final(manager).spec_session_count() == old(manager).spec_session_count(),
            forall|t: nat| final(manager).spec_live(t) == old(manager).spec_live(t),
            (match spec_decode_identification(bin@) {
                Some(ident) => {
                    let fp = sha256_of(ident.public_key);
                    &&& ok
                    &&& final(self).spec_identifier() == Some(
                        (IdentifierView {
                            username: ident.username,
                            fingerprint: fp,
                            public_key: ident.public_key,
                        }),
                    )
                    &&& final(manager).spec_handle(fp) == Some(old(self).spec_session())
                    &&& forall|f: Seq<u8>|
                        f != fp ==> final(manager).spec_handle(f) == old(manager).spec_handle(f)
                    &&& (spec_lookup_by_fingerprint(old(users).spec_records(), fp) is Some
                        ==> *final(users) == *old(users))
                    &&& (spec_lookup_by_fingerprint(old(users).spec_records(), fp) is None
                        ==> final(users).spec_records() == old(users).spec_records().push(
                        (IdentifierView {
                            username: ident.username,
                            fingerprint: fp,
                            public_key: ident.public_key,
                        }),
                    ))
                },
                None => {
                    &&& !ok
                    &&& *final(self) == *old(self)
                    &&& *final(users) == *old(users)
                    &&& *final(manager) == *old(manager)
                },
            }),
    {
        match Identification::from_bytes(bin.as_slice()) {
            Ok(ident) => {
                let fp = fingerprint(ident.public_key.as_slice());
                let id = Identifier {
                    username: ident.username,
                    fingerprint: fp,
                    public_key: ident.public_key,
                };
                if users.get_user(fp).is_none() {
                    users.add_user(id.clone());
                }
                manager.register_dispatcher(&id, self.session);
                self.identifier = Some(id);
                true
            },
            Err(_) => false,
        }
    }

    /// Handles one inbound frame, in any session state, and reports the
    /// outbound work that falls out of it. Before authentication, a binary
    /// frame is an identification payload and a malformed one closes the
    /// session. After authentication, a binary frame is a relay request:
    /// its payload goes verbatim to the resolved recipient session and
    /// nowhere else, an unresolved recipient is a silent drop, and the
    /// session's own identity, the directory and the registry stay
    /// untouched. A text frame has no role in the protocol in either state:
    /// it is a protocol fault, answered by closing the session with nothing
    /// else changed. A close frame deregisters the session's fingerprint
    /// and ends the loop.
    pub fn handle_frame(
        &mut self,
        frame: Frame,
        users: &mut UserManager,
        manager: &mut DispatcherManager,
    ) -> (action: Action)
        requires
            old(self).wf(),
            old(users).wf(),
            old(manager).wf(),
        ensures
            final(self).wf(),
            final(users).wf(),
            final(manager).wf(),
            final(self).spec_session() == old(self).spec_session(),
            final(manager).spec_session_count() == old(manager).spec_session_count(),
            forall|t: nat| final(manager).spec_live(t) == old(manager).spec_live(t),
            old(self).spec_identifier() is Some ==> *final(self) == *old(self) && *final(users)
                == *old(users),
            (match frame {
                Frame::Binary(b) => (match old(self).spec_identifier() {
                    Some(me) => {
                        &&& forall|f: Seq<u8>|
                            final(manager).spec_handle(f) == old(manager).spec_handle(f)
                        &&& b@.len() >= 32 ==> (match old(manager).spec_resolve(
                            spec_relay_target(b@),
                        ) {
                            Some(peer) => action matches Action::Deliver { session, payload }
                                && peer == session && payload@ == spec_relay_payload(b@),
                            None => action is Ignore,
                        })
                        &&& b@.len() < 32 ==> action is Ignore
                    },
                    None => (match spec_decode_identification(b@) {
                        Some(ident) => {
                            let fp = sha256_of(ident.public_key);
                            &&& final(self).spec_identifier() == Some(
                                (IdentifierView {
                                    username: ident.username,
                                    fingerprint: fp,
                                    public_key: ident.public_key,
                                }),
                            )
                            &&& final(manager).spec_handle(fp) == Some(old(self).spec_session())
                            &&& forall|f: Seq<u8>|
                                f != fp ==> final(manager).spec_handle(f) == old(
                                    manager,
                                ).spec_handle(f)
                            &&& (spec_lookup_by_fingerprint(old(users).spec_records(), fp) is Some
                                ==> *final(users) == *old(users))
                            &&& (spec_lookup_by_fingerprint(old(users).spec_records(), fp) is None
                                ==> final(users).spec_records() == old(users).spec_records().push(
                                (IdentifierView {
                                    username: ident.username,
                                    fingerprint: fp,
                                    public_key: ident.public_key,
                                }),
                            ))
                            &&& action is Ignore
                        },
                        None => {
                            &&& action is Disconnect
                            &&& *final(self) == *old(self)
                            &&& *final(users) == *old(users)
                            &&& *final(manager) == *old(manager)
                        },
                    }),
                }),
                Frame::Text(_) => {
                    &&& action is Disconnect
                    &&& *final(self) == *old(self)
                    &&& *final(users) == *old(users)
                    &&& *final(manager) == *old(manager)
                },
                Frame::Close => {
                    &&& action is Disconnect
                    &&& *final(self) == *old(self)
                    &&& *final(users) == *old(users)
                    &&& (match old(self).spec_identifier() {
                        Some(me) => final(manager).spec_handle(me.fingerprint) is None && forall|
                            f: Seq<u8>,
                        |
                            f != me.fingerprint ==> final(manager).spec_handle(f) == old(
                                manager,
                            ).spec_handle(f),
                        None => *final(manager) == *old(manager),
                    })
                },
                Frame::Other => {
                    &&& action is Ignore
                    &&& *final(self) == *old(self)
                    &&& *final(users) == *old(users)
                    &&& *final(manager) == *old(manager)
                },
            }),
    {
        match frame {
            Frame::Binary(bin) => {
                if self.identifier.is_none() {
                    if self.identify_user(&bin, users, manager) {
                        Action::Ignore
                    } else {
                        Action::Disconnect
                    }
                } else {
                    if bin.len() < crate::FINGERPRINT_LEN {
                        Action::Ignore
                    } else {
                        let mut target: [u8; 32] = vstd::array::array_fill_for_copy_types(0u8);
                        let mut i: usize = 0;
                        while i < 32
                            invariant
                                i <= 32,
                                bin@.len() >= 32,
                                forall|j: int| 0 <= j < i ==> target@[j] == bin@[j],
                            decreases 32 - i,
                        {
                            target[i] = bin[i];
                            i += 1;
                        }
                        proof {
                            assert(target@ =~= spec_relay_target(bin@));
                        }
                        let payload = slice_to_vec(
                            slice_subrange(bin.as_slice(), crate::FINGERPRINT_LEN, bin.len()),
                        );
                        match manager.resolve(&target) {
                            Some(peer) => Action::Deliver { session: peer, payload },
                            None => Action::Ignore,
                        }
                    }
                }
            },
            Frame::Text(_) => Action::Disconnect,
            Frame::Close => {
                if let Some(id) = &self.identifier {
                    manager.deregister_dispatcher(id);
                }
                Action::Disconnect
            },
            Frame::Other => Action::Ignore,
        }
    }

    /// Reports that the receive loop has exited and the session object is
    /// going away: its arena slot dies, so any registry entry still
    /// pointing at it stops resolving even though no deregistration ran.
    pub fn connection_closed(&self, manager: &mut DispatcherManager)
        requires
            old(manager).wf(),
            self.spec_session() < old(manager).spec_session_count(),
        ensures
            final(manager).wf(),
            final(manager).spec_session_count() == old(manager).spec_session_count(),
            !final(manager).spec_live(self.spec_session()),
            forall|t: nat|
                t != self.spec_session() ==> final(manager).spec_live(t) == old(manager).spec_live(
                    t,
                ),
            forall|f: Seq<u8>| final(manager).spec_handle(f) == old(manager).spec_handle(f),
    {
        manager.end_session(self.session);
    }
}

} // verus!
