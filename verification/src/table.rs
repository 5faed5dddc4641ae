//! The rendezvous table: a process-wide map from session token to a pending
//! one-shot handoff slot, mediating exactly one successful pairing per token.
//!
//! A `host` peer registers its token and receives a wait handle; a `client`
//! peer resolves the token, which removes the pending entry and delivers the
//! client's connection into the slot. An abandoned wait releases its entry so
//! the token becomes reusable. Each operation is one atomic decision point;
//! the caller serializes access (the table is owned behind one lock).

use vstd::prelude::*;

verus! {

/// Relies on tokio::sync::oneshot::channel: creates a linked sender/receiver
/// pair; a value sent on the sender is what the receiver yields.
#[verifier::external_body]
fn oneshot_channel<T>() -> (r: (
    tokio::sync::oneshot::Sender<T>,
    tokio::sync::oneshot::Receiver<T>,
)) {
    tokio::sync::oneshot::channel()
}

/// Relies on tokio::sync::oneshot::Sender::send: consumes the sender; if the
/// receiving half is already gone the value comes back unchanged in `Err`.
/// Whether the send succeeds depends on the peer task, so only the `Err`
/// payload is pinned.
#[verifier::external_body]
fn oneshot_send<T>(tx: tokio::sync::oneshot::Sender<T>, value: T) -> (r: Result<(), T>)
    ensures
        r matches Err(v) ==> v == value,
{
    tx.send(value)
}

#[verifier::external_type_specification]
#[verifier::external_body]
#[verifier::reject_recursive_types(T)]
pub struct ExOneshotSender<T>(tokio::sync::oneshot::Sender<T>);

#[verifier::external_type_specification]
#[verifier::external_body]
#[verifier::reject_recursive_types(T)]
pub struct ExOneshotReceiver<T>(tokio::sync::oneshot::Receiver<T>);

#[verifier::external_type_specification]
#[verifier::external_body]
pub struct ExOneshotRecvError(tokio::sync::oneshot::error::RecvError);

/// The answer a `host` gets when its token already has a pending entry: the
/// new connection must be refused, the existing wait is untouched.
pub struct Rejected;

/// The answer a `client` gets from `resolve`.
pub enum ResolveOutcome<C> {
    /// A host was waiting and the connection was delivered into its slot.
    Delivered,
    /// A host was waiting, but its wait handle was already gone when the
    /// delivery was attempted; the connection comes back to be closed.
    HostGone(C),
    /// No host is waiting under this token; the connection comes back to be
    /// closed immediately, without waiting.
    NotFound(C),
}

/// Whether a `register` for `token` is accepted against the set `occ` of
/// occupied tokens.
pub open spec fn register_accepts(occ: Set<Seq<char>>, token: Seq<char>) -> bool {
    !occ.contains(token)
}

/// The occupied-token set after an accepted `register` of `token`.
pub open spec fn register_result(occ: Set<Seq<char>>, token: Seq<char>) -> Set<Seq<char>> {
    occ.insert(token)
}

/// Whether a `resolve` for `token` finds a waiting host in `occ`.
pub open spec fn resolve_finds(occ: Set<Seq<char>>, token: Seq<char>) -> bool {
    occ.contains(token)
}

/// The occupied-token set after the pending entry for `token` is withdrawn,
/// by a delivery (`resolve`) or by its own host's abandonment (`abandon`).
pub open spec fn withdraw_result(occ: Set<Seq<char>>, token: Seq<char>) -> Set<Seq<char>> {
    occ.remove(token)
}

/// No token appears twice in `tokens`.
pub open spec fn distinct_tokens(tokens: Seq<Seq<char>>) -> bool {
    forall|i: int, j: int| 0 <= i < j < tokens.len() ==> tokens[i] != tokens[j]
}

#[verifier::reject_recursive_types(C)]
struct PendingEntry<C> {
    token: String,
    tx: tokio::sync::oneshot::Sender<C>,
}

/// The table itself: the pending entries, at most one per token.
#[verifier::reject_recursive_types(C)]
pub struct RendezvousTable<C> {
    entries: Vec<PendingEntry<C>>,
}

impl<C> RendezvousTable<C> {
    /// The tokens of the pending entries, in insertion order.
    pub closed spec fn tokens(&self) -> Seq<Seq<char>> {
        self.entries@.map_values(|e: PendingEntry<C>| e.token@)
    }

    /// Whether some pending entry holds `token`.
    pub open spec fn has_token(&self, token: Seq<char>) -> bool {
        self.tokens().contains(token)
    }

    /// The set of occupied tokens: the table's abstract value.
    pub open spec fn occ(&self) -> Set<Seq<char>> {
        Set::new(|t: Seq<char>| self.has_token(t))
    }

    #[verifier::type_invariant]
    pub(crate) open spec fn wf(&self) -> bool {
        distinct_tokens(self.tokens())
    }

    /// An empty table: no token is occupied.
    pub fn new() -> (r: Self)
        ensures
            r.occ() == Set::<Seq<char>>::empty(),
            distinct_tokens(r.tokens()),
    {
        let r = RendezvousTable { entries: Vec::new() };
        proof {
            assert(r.occ() =~= Set::<Seq<char>>::empty());
        }
        r
    }

    /// Looks for the pending entry holding `token`; yields its index.
    fn find(&self, token: &String) -> (r: Option<usize>)
        ensures
            r matches Some(i) ==> 0 <= i < self.tokens().len() && self.tokens()[i as int]
                == token@,
            r is None ==> !self.has_token(token@),
    {
        let n = self.entries.len();
        let mut i: usize = 0;
        while i < n
            invariant
                n == self.entries.len(),
                0 <= i <= n,
                forall|j: int| 0 <= j < i ==> self.tokens()[j] != token@,
            decreases n - i,
        {
            if self.entries[i].token == *token {
                return Some(i);
            }
            i += 1;
        }
        assert(!self.has_token(token@)) by {
            assert(forall|j: int| 0 <= j < self.tokens().len() ==> self.tokens()[j] != token@);
        }
        None
    }

    /// Registers a waiting host under `token`. If the token is already
    /// occupied the registration is rejected and the table is untouched;
    /// otherwise a new pending entry is inserted and the host's wait handle
    /// is returned. The handle later yields either the partner connection or
    /// an error when the entry was withdrawn without a delivery.
    pub fn register(&mut self, token: String) -> (r: Result<
        tokio::sync::oneshot::Receiver<C>,
        Rejected,
    >)
        ensures
            r is Ok <==> register_accepts(old(self).occ(), token@),
            r is Ok ==> final(self).occ() == register_result(old(self).occ(), token@),
            r is Err ==> *final(self) == *old(self),
            distinct_tokens(final(self).tokens()),
    {
        proof {
            use_type_invariant(&*self);
        }
        match self.find(&token) {
            Some(_) => {
                proof {
                    assert(old(self).occ().contains(token@));
                }
                Err(Rejected)
            },
            None => {
                let (tx, rx) = oneshot_channel();
                let ghost old_toks = self.tokens();
                let mut entries = Vec::new();
                std::mem::swap(&mut entries, &mut self.entries);
                entries.push(PendingEntry { token, tx });
                proof {
                    let new_toks = entries@.map_values(|e: PendingEntry<C>| e.token@);
                    assert(new_toks =~= old_toks.push(token@));
                    assert forall|i: int, j: int|
                        0 <= i < j < new_toks.len() implies new_toks[i] != new_toks[j] by {
                        if new_toks[i] == token@ {
                            assert(old_toks.contains(token@));
                        }
                    }
                }
                self.entries = entries;
                proof {
                    let new_toks = self.tokens();
                    assert(new_toks =~= old_toks.push(token@));
                    assert forall|t: Seq<char>| self.has_token(t) <==> (old(self).has_token(t)
                        || t == token@) by {
                        if old(self).has_token(t) {
                            let i = choose|i: int| 0 <= i < old_toks.len() && old_toks[i] == t;
                            assert(new_toks[i] == t);
                        }
                        assert(new_toks[old_toks.len() as int] == token@);
                        if self.has_token(t) && t != token@ {
                            let i = choose|i: int| 0 <= i < new_toks.len() && new_toks[i] == t;
                            assert(old_toks[i] == t);
                        }
                    }
                    assert(self.occ() =~= register_result(old(self).occ(), token@));
                }
                Ok(rx)
            },
        }
    }

    /// Withdraws the pending entry for `token`, if one exists, and hands out
    /// its one-shot sender.
    fn take_entry(&mut self, token: &String) -> (r: Option<tokio::sync::oneshot::Sender<C>>)
        ensures
            r is Some <==> resolve_finds(old(self).occ(), token@),
            r is Some ==> final(self).occ() == withdraw_result(old(self).occ(), token@),
            r is None ==> *final(self) == *old(self),
            distinct_tokens(final(self).tokens()),
    {
        proof {
            use_type_invariant(&*self);
        }
        match self.find(token) {
            None => None,
            Some(i) => {
                proof {
                    assert(old(self).occ().contains(token@));
                }
                let ghost old_toks = self.tokens();
                let mut entries = Vec::new();
                std::mem::swap(&mut entries, &mut self.entries);
                let entry = entries.remove(i);
                proof {
                    let new_toks = entries@.map_values(|e: PendingEntry<C>| e.token@);
                    assert(new_toks =~= old_toks.remove(i as int));
                }
                self.entries = entries;
                proof {
                    let new_toks = self.tokens();
                    assert(new_toks =~= old_toks.remove(i as int));
                    assert forall|t: Seq<char>| self.has_token(t) <==> (old(self).has_token(t)
                        && t != token@) by {
                        if self.has_token(t) {
                            let k = choose|k: int| 0 <= k < new_toks.len() && new_toks[k] == t;
                            if k < i {
                                assert(old_toks[k] == t);
                            } else {
                                assert(old_toks[k + 1] == t);
                            }
                            assert(old_toks[i as int] == token@);
                        }
                        if old(self).has_token(t) && t != token@ {
                            let k = choose|k: int| 0 <= k < old_toks.len() && old_toks[k] == t;
                            assert(k != i);
                            if k < i {
                                assert(new_toks[k] == t);
                            } else {
                                assert(new_toks[k - 1] == t);
                            }
                        }
                    }
                    assert(self.occ() =~= withdraw_result(old(self).occ(), token@));
                }
                Some(entry.tx)
            },
        }
    }

    /// Resolves `token` with a client's connection. If a host is waiting, its
    /// pending entry is removed and the connection is delivered into the
    /// one-shot slot (or handed back when the host's wait handle is already
    /// gone). If no host is waiting, the connection comes straight back and
    /// the table is untouched: the caller closes it without waiting.
    pub fn resolve(&mut self, token: &String, conn: C) -> (r: ResolveOutcome<C>)
        ensures
            !resolve_finds(old(self).occ(), token@) ==> (r matches ResolveOutcome::NotFound(c)
                && c == conn && *final(self) == *old(self)),
            resolve_finds(old(self).occ(), token@) ==> (r is Delivered || (r
                matches ResolveOutcome::HostGone(c) && c == conn)) && final(self).occ()
                == withdraw_result(old(self).occ(), token@),
            distinct_tokens(final(self).tokens()),
    {
        match self.take_entry(token) {
            None => ResolveOutcome::NotFound(conn),
            Some(tx) => match oneshot_send(tx, conn) {
                Ok(()) => ResolveOutcome::Delivered,
                Err(c) => ResolveOutcome::HostGone(c),
            },
        }
    }

    /// Releases the pending entry for `token` after its own host abandoned
    /// the wait, so the token becomes reusable. Returns whether an entry was
    /// there to release.
    pub fn abandon(&mut self, token: &String) -> (r: bool)
        ensures
            r == resolve_finds(old(self).occ(), token@),
            final(self).occ() == withdraw_result(old(self).occ(), token@),
            distinct_tokens(final(self).tokens()),
    {
        match self.take_entry(token) {
            None => {
                proof {
                    assert(self.occ() =~= withdraw_result(self.occ(), token@));
                }
                false
            },
            Some(_tx) => true,
        }
    }
}

/// Single-pairing invariant: in a table whose tokens are distinct — which
/// every operation of `RendezvousTable` guarantees of its result — any two
/// pending entries under the same token are the same entry, so at any
/// instant at most one pending entry exists per token.
pub proof fn lemma_single_pairing(tokens: Seq<Seq<char>>, i: int, j: int)
    requires
        distinct_tokens(tokens),
        0 <= i < tokens.len(),
        0 <= j < tokens.len(),
        tokens[i] == tokens[j],
    ensures
        i == j,
{
}

/// Deterministic conflict resolution: when two hosts race to register one
/// free token, whichever registration the table's single lock serializes
/// first is accepted, and the other is then rejected — exactly one success,
/// in either order.
pub proof fn lemma_register_conflict(occ: Set<Seq<char>>, token: Seq<char>)
    requires
        register_accepts(occ, token),
    ensures
        !register_accepts(register_result(occ, token), token),
{
}

/// Abandon-then-reuse: once the pending entry for a token is withdrawn —
/// however the race between the abandoning host and a resolving client comes
/// out — a fresh registration of the same token is accepted.
pub proof fn lemma_abandon_then_reuse(occ: Set<Seq<char>>, token: Seq<char>)
    ensures
        register_accepts(withdraw_result(occ, token), token),
{
}

} // verus!
