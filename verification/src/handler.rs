//! The per-connection routing decision: given the address path a freshly
//! upgraded connection declared and the rendezvous table, decide in one
//! atomic step what becomes of the connection.
//!
//! A host's accepted registration yields a wait handle; everything else is
//! either a completed handoff or a reason to close the connection. The caller
//! holds the table's lock across the call, performs the close or the wait,
//! and after an abandoned wait releases the entry with
//! [`RendezvousTable::abandon`].

use vstd::prelude::*;

use crate::path::parse_path;
use crate::path::route_of;
use crate::path::Route;
use crate::path::RouteDecision;
use crate::table::register_accepts;
use crate::table::register_result;
use crate::table::resolve_finds;
use crate::table::withdraw_result;
use crate::table::distinct_tokens;
use crate::table::RendezvousTable;
use crate::table::ResolveOutcome;

verus! {

/// Why a connection is to be closed with no pairing.
pub enum CloseReason {
    /// The path did not have exactly two segments.
    MalformedPath,
    /// The role segment was neither `host` nor `client`.
    UnknownRole,
    /// A host is already waiting under this token; the existing wait is
    /// untouched.
    DuplicateHost,
    /// A client arrived but no host is waiting under this token.
    NoHostWaiting,
    /// A host was found but its wait handle was already gone when the
    /// delivery was attempted.
    HostGone,
}

/// What the caller must do with the connection it handed in.
#[verifier::reject_recursive_types(C)]
pub enum HandlerAction<C> {
    /// Close the connection for the given reason; the table is unchanged
    /// except that `HostGone` withdrew the stale entry.
    Close(CloseReason, C),
    /// The connection registered as a host: keep it, and wait on the handle
    /// for the partner connection; the token is echoed back for a later
    /// `abandon`.
    Wait(C, tokio::sync::oneshot::Receiver<C>, String),
    /// The connection was delivered to the waiting host, whose forwarder now
    /// owns it; the calling task is done.
    HandedOff,
}

/// Routes one upgraded connection by its declared path: parses the path,
/// then performs the single table step its role asks for.
pub fn handle_path<C>(table: &mut RendezvousTable<C>, path: &str, conn: C) -> (r: HandlerAction<
    C,
>)
    ensures
        route_of(path@) is Malformed ==> (r matches HandlerAction::Close(
            CloseReason::MalformedPath,
            c,
        ) && c == conn && *final(table) == *old(table)),
        route_of(path@) is UnknownRole ==> (r matches HandlerAction::Close(
            CloseReason::UnknownRole,
            c,
        ) && c == conn && *final(table) == *old(table)),
        route_of(path@) matches Route::Host(t) ==> ({
            &&& !register_accepts(old(table).occ(), t) ==> (r matches HandlerAction::Close(
                CloseReason::DuplicateHost,
                c,
            ) && c == conn && *final(table) == *old(table))
            &&& register_accepts(old(table).occ(), t) ==> (r matches HandlerAction::Wait(
                c,
                _rx,
                tok,
            ) && c == conn && tok@ == t && final(table).occ() == register_result(
                old(table).occ(),
                t,
            ))
        }),
        route_of(path@) matches Route::Client(t) ==> ({
            &&& !resolve_finds(old(table).occ(), t) ==> (r matches HandlerAction::Close(
                CloseReason::NoHostWaiting,
                c,
            ) && c == conn && *final(table) == *old(table))
            &&& resolve_finds(old(table).occ(), t) ==> ((r is HandedOff || (r
                matches HandlerAction::Close(CloseReason::HostGone, c) && c == conn))
                && final(table).occ() == withdraw_result(old(table).occ(), t))
        }),
        distinct_tokens(final(table).tokens()),
{
    proof {
        use_type_invariant(&*table);
    }
    match parse_path(path) {
        RouteDecision::Malformed => HandlerAction::Close(CloseReason::MalformedPath, conn),
        RouteDecision::UnknownRole => HandlerAction::Close(CloseReason::UnknownRole, conn),
        RouteDecision::Host(token) => {
            let for_abandon = token.clone();
            match table.register(token) {
                Ok(rx) => HandlerAction::Wait(conn, rx, for_abandon),
                Err(_) => HandlerAction::Close(CloseReason::DuplicateHost, conn),
            }
        },
        RouteDecision::Client(token) => {
            match table.resolve(&token, conn) {
                ResolveOutcome::Delivered => HandlerAction::HandedOff,
                ResolveOutcome::HostGone(c) => HandlerAction::Close(CloseReason::HostGone, c),
                ResolveOutcome::NotFound(c) => HandlerAction::Close(CloseReason::NoHostWaiting, c),
            }
        },
    }
}

} // verus!
