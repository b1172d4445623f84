//! The session model: at most one unlocked vault per process, guarded by a
//! sliding expiry window.
//!
//! An [`AppSession`] owns the decrypted vault, its name, the master password
//! and the expiry instant; an [`AppState`] is the single slot that holds at
//! most one session. The state is an injected, owned resource: every
//! operation takes it by reference, so independent states can exist side by
//! side in tests.

use vstd::prelude::*;
use crate::crypto::password_fits;
use crate::entry::{EntryView, Vault};
use crate::secret::{wipe_string, Secret};

verus! {

/// How many seconds an accepted operation keeps the session unlocked.
pub const SESSION_TTL: i64 = 600;

/// A bound on the clock's readings generous enough for every instant chrono
/// can represent, and small enough that adding the window never overflows.
pub const TIMESTAMP_BOUND: i64 = 0x800_0000_0000;

/// Relies on chrono's `Utc::now`: the current time in non-leap seconds since
/// the epoch; chrono's representable range keeps the reading within the
/// bound.
#[verifier::external_body]
pub fn now_ts() -> (r: i64)
    ensures
        -TIMESTAMP_BOUND <= r <= TIMESTAMP_BOUND,
{
    chrono::Utc::now().timestamp()
}

/// The mathematical value of one session.
pub ghost struct SessionView {
    pub vault: Seq<EntryView>,
    pub name: Seq<char>,
    pub secret: Seq<char>,
    pub expires_at: int,
}

/// One unlocked vault: the decrypted entries, the vault's name, the master
/// password that opened it, and the instant the session expires.
pub struct AppSession {
    pub vault: Vault,
    pub name: String,
    pub secret: Secret,
    pub expires_at: i64,
}

impl View for AppSession {
    type V = SessionView;

    open spec fn view(&self) -> SessionView {
        SessionView {
            vault: self.vault@,
            name: self.name@,
            secret: self.secret@,
            expires_at: self.expires_at as int,
        }
    }
}

impl AppSession {
    /// Overwrites the vault's entries and the master password, then empties
    /// every field.
    pub fn wipe(&mut self)
        ensures
            final(self)@.vault == Seq::<EntryView>::empty(),
            final(self)@.secret == Seq::<char>::empty(),
            final(self)@.name == Seq::<char>::empty(),
    {
        self.vault.wipe();
        self.secret.wipe();
        wipe_string(&mut self.name);
    }
}

/// The process-wide holder of at most one session.
pub struct AppState {
    pub session: Option<AppSession>,
}

impl View for AppState {
    type V = Option<SessionView>;

    open spec fn view(&self) -> Option<SessionView> {
        match self.session {
            Some(ref s) => Some(s@),
            None => None,
        }
    }
}

impl AppState {
    /// A state with no session: the Locked state.
    pub fn new() -> (r: AppState)
        ensures
            r@ is None,
    {
        AppState { session: None }
    }

    /// Every session this state may hold keeps a usable master password.
    pub open spec fn wf(&self) -> bool {
        self@ matches Some(s) ==> password_fits(s.secret)
    }
}

} // verus!
