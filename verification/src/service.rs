//! The session manager and the entry operations.
//!
//! A [`VaultService`] owns a vault store and drives the session state
//! machine: Locked (no session) and Unlocked (one unexpired session).
//! `open` decrypts and installs a session; `is_accessible` enforces the
//! sliding expiry window and renews it on access; `close` wipes and drops
//! the session; every entry mutation re-encrypts the whole vault and
//! persists it. The operations that read the clock call a sibling that takes
//! the reading as an argument, and the timing contracts stand on those.

use vstd::prelude::*;
use vstd::pervasive::unreached;
use crate::codec::check_vault_fits;
use crate::commands::Field;
use crate::crypto::password_fits;
use crate::entry::{EntryView, PasswordEntry};
use crate::error::AppError;
use crate::secret::{wipe_string, Secret};
use crate::session::{now_ts, AppState, SessionView, SESSION_TTL, TIMESTAMP_BOUND};
use crate::store::VaultManagerTrait;
use crate::text::str_eq;
use crate::vault_file::file_encrypts;

verus! {

/// Some entry of `v` is named `name`.
pub open spec fn has_entry(v: Seq<EntryView>, name: Seq<char>) -> bool {
    exists|i: int| 0 <= i < v.len() && (#[trigger] v[i]).name == name
}

/// Index `i` holds the first entry of `v` named `name`.
pub open spec fn found_at(v: Seq<EntryView>, name: Seq<char>, i: int) -> bool {
    &&& 0 <= i < v.len()
    &&& v[i].name == name
    &&& forall|j: int| 0 <= j < i ==> (#[trigger] v[j]).name != name
}

/// The entry with one field replaced.
pub open spec fn updated_entry(e: EntryView, field: Field, value: Seq<char>) -> EntryView {
    match field {
        Field::Username => EntryView { name: e.name, username: value, password: e.password },
        Field::Password => EntryView { name: e.name, username: e.username, password: value },
    }
}

/// Keeps the entries whose name is not `name`.
pub open spec fn without_entry(v: Seq<EntryView>, name: Seq<char>) -> Seq<EntryView> {
    v.filter(|e: EntryView| e.name != name)
}

/// Removal is complete: after keeping only the entries not named `name`,
/// no entry of that name remains.
pub proof fn lemma_without_entry_removes(v: Seq<EntryView>, name: Seq<char>)
    ensures
        !has_entry(without_entry(v, name), name),
{
    let pred = |e: EntryView| e.name != name;
    if has_entry(without_entry(v, name), name) {
        let i = choose|i: int|
            0 <= i < without_entry(v, name).len() && without_entry(v, name)[i].name == name;
        v.lemma_filter_pred(pred, i);
    }
}

/// The displayed form of one entry; the password shows only when exposed.
pub open spec fn render_entry(e: EntryView, expose: bool) -> Seq<char> {
    e.name + "\n  Username: "@ + e.username + "\n  Password: "@ + (if expose {
        e.password
    } else {
        "<hidden>"@
    }) + "\n"@
}

/// The displayed form of a run of entries, blank-line separated.
pub open spec fn render_entries(v: Seq<EntryView>, expose: bool) -> Seq<char>
    decreases v.len(),
{
    if v.len() == 0 {
        Seq::empty()
    } else if v.len() == 1 {
        render_entry(v[0], expose)
    } else {
        render_entries(v.drop_last(), expose) + "\n"@ + render_entry(v.last(), expose)
    }
}

/// The displayed vault listing: each name on its own line.
pub open spec fn render_names(names: Seq<Seq<char>>) -> Seq<char>
    decreases names.len(),
{
    if names.len() == 0 {
        Seq::empty()
    } else {
        render_names(names.drop_last()) + names.last() + "\n"@
    }
}

/// The entry whose name matches the filter, or every entry without one.
pub open spec fn entry_matches(e: EntryView, filter: Option<String>) -> bool {
    match filter {
        Some(f) => e.name == f@,
        None => true,
    }
}

/// The first entry of `entries` named `name`, as an index.
fn find_entry(entries: &Vec<PasswordEntry>, name: &str) -> (r: Option<usize>)
    ensures
        match r {
            Some(i) => found_at(entries@.map_values(|e: PasswordEntry| e@), name@, i as int),
            None => !has_entry(entries@.map_values(|e: PasswordEntry| e@), name@),
        },
{
    let ghost v = entries@.map_values(|e: PasswordEntry| e@);
    let mut i: usize = 0;
    while i < entries.len()
        invariant
            i <= entries.len(),
            v == entries@.map_values(|e: PasswordEntry| e@),
            forall|j: int| 0 <= j < i ==> (#[trigger] v[j]).name != name@,
        decreases entries.len() - i,
    {
        if str_eq(entries[i].name.as_str(), name) {
            return Some(i);
        }
        i = i + 1;
    }
    proof {
        if has_entry(v, name@) {
            let j = choose|j: int| 0 <= j < v.len() && v[j].name == name@;
        }
    }
    None
}

/// Appends the displayed form of one entry.
fn render_one(e: &PasswordEntry, expose: bool, out: &mut String)
    ensures
        final(out)@ == old(out)@ + render_entry(e@, expose),
{
    out.append(e.name.as_str());
    out.append("\n  Username: ");
    out.append(e.username.as_str());
    out.append("\n  Password: ");
    if expose {
        out.append(e.password.expose());
    } else {
        out.append("<hidden>");
    }
    out.append("\n");
    proof {
        assert(out@ =~= old(out)@ + render_entry(e@, expose));
    }
}

proof fn lemma_render_entries_push(v: Seq<EntryView>, e: EntryView, expose: bool)
    ensures
        render_entries(v.push(e), expose) == if v.len() == 0 {
            render_entry(e, expose)
        } else {
            render_entries(v, expose) + "\n"@ + render_entry(e, expose)
        },
{
    assert(v.push(e).drop_last() =~= v);
    assert(v.push(e).last() == e);
    if v.len() == 0 {
        assert(v.push(e).len() == 1);
        assert(v.push(e)[0] == e);
    }
}

proof fn lemma_render_names_push(names: Seq<Seq<char>>, n: Seq<char>)
    ensures
        render_names(names.push(n)) == render_names(names) + n + "\n"@,
{
    assert(names.push(n).drop_last() =~= names);
    assert(names.push(n).last() == n);
}

/// A displayable borrow of one entry, with the choice whether to expose
/// the password.
pub struct PasswordEntryDebug<'a> {
    pub entry: &'a PasswordEntry,
    pub expose: bool,
}

impl<'a> PasswordEntryDebug<'a> {
    /// The displayed text of the borrowed entry.
    pub fn render(&self) -> (r: String)
        ensures
            r@ == render_entry(self.entry@, self.expose),
    {
        let mut out = String::new();
        render_one(self.entry, self.expose, &mut out);
        out
    }
}

impl PasswordEntry {
    /// A displayable borrow of this entry with the password exposed.
    pub fn expose(&self) -> (r: PasswordEntryDebug<'_>)
        ensures
            r.entry == self,
            r.expose,
    {
        PasswordEntryDebug { entry: self, expose: true }
    }

    /// A displayable borrow of this entry with the password exposed.
    pub fn unmask(&self) -> (r: PasswordEntryDebug<'_>)
        ensures
            r.entry == self,
            r.expose,
    {
        PasswordEntryDebug { entry: self, expose: true }
    }
}

/// The session manager: a vault store plus the operations that drive the
/// session state machine and mutate the unlocked vault.
pub struct VaultService<M: VaultManagerTrait> {
    pub vault: M,
}

impl<M: VaultManagerTrait> VaultService<M> {
    /// A service over the given store.
    pub fn new(vault: M) -> (r: Self)
        ensures
            r.vault == vault,
    {
        VaultService { vault }
    }

    /// Creates a new empty vault under `name`, encrypted with `secret`.
    /// Never overwrites an existing vault.
    pub fn create(&mut self, name: &str, secret: &Secret) -> (r: Result<(), AppError>)
        requires
            old(self).vault.inv(),
            password_fits(secret@),
        ensures
            final(self).vault.inv(),
            old(self).vault.vaults().contains_key(name@) ==> r is Err && final(self).vault.vaults()
                == old(self).vault.vaults(),
            r is Ok ==> !old(self).vault.vaults().contains_key(name@),
            r is Ok ==> exists|f: crate::vault_file::VaultFileView|
                {
                    &&& #[trigger] file_encrypts(f, secret@, Seq::<EntryView>::empty())
                    &&& final(self).vault.vaults() == old(self).vault.vaults().insert(name@, f)
                },
    {
        match self.vault.create(name, secret) {
            Ok(()) => Ok(()),
            Err(e) => Err(AppError::Other(e)),
        }
    }

    /// Unlocks the vault `name` as of instant `now`: loads and decrypts it,
    /// and on success installs a fresh session that expires one window from
    /// `now`. On failure the state is untouched and the entered password is
    /// dropped with the call.
    pub fn open_at(&self, name: &str, secret: &Secret, state: &mut AppState, now: i64) -> (r:
        Result<(), AppError>)
        requires
            self.vault.inv(),
            password_fits(secret@),
            -TIMESTAMP_BOUND <= now <= TIMESTAMP_BOUND,
            old(state).wf(),
        ensures
            final(state).wf(),
            r is Err ==> final(state)@ == old(state)@,
            !self.vault.vaults().contains_key(name@) ==> r is Err,
            r is Ok ==> (final(state)@ matches Some(s) && {
                &&& s.name == name@
                &&& s.secret == secret@
                &&& s.expires_at == now + SESSION_TTL
                &&& self.vault.vaults().contains_key(name@)
                &&& file_encrypts(self.vault.vaults()[name@], secret@, s.vault)
            }),
    {
        match self.vault.load(name, secret) {
            Ok(vault) => {
                state.session = Some(
                    crate::session::AppSession {
                        vault,
                        name: name.to_owned(),
                        secret: secret.duplicate(),
                        expires_at: now + SESSION_TTL,
                    },
                );
                Ok(())
            },
            Err(e) => {
                let mut msg = "Failed to load vault: ".to_owned();
                msg.append(e.as_str());
                Err(AppError::Other(msg))
            },
        }
    }

    /// Unlocks the vault `name` as of the current instant.
    pub fn open(&self, name: &str, secret: &Secret, state: &mut AppState) -> (r: Result<
        (),
        AppError,
    >)
        requires
            self.vault.inv(),
            password_fits(secret@),
            old(state).wf(),
        ensures
            final(state).wf(),
            r is Err ==> final(state)@ == old(state)@,
            !self.vault.vaults().contains_key(name@) ==> r is Err,
            r is Ok ==> (final(state)@ matches Some(s) && {
                &&& s.name == name@
                &&& s.secret == secret@
                &&& self.vault.vaults().contains_key(name@)
                &&& file_encrypts(self.vault.vaults()[name@], secret@, s.vault)
            }),
    {
        let now = now_ts();
        self.open_at(name, secret, state, now)
    }

    /// Locks the session: wipes the vault's entries and the master password
    /// before the session is dropped. A no-op on an already-Locked state.
    pub fn close(&self, state: &mut AppState)
        ensures
            final(state)@ is None,
            final(state).wf(),
    {
        let taken = state.session.take();
        if let Some(mut session) = taken {
            session.wipe();
        }
    }

    /// The check before every vault-touching operation, as of instant `now`. Locked:
    /// reports that no vault is open. Expired: locks (wiping the session)
    /// and reports the expiry. Otherwise: slides the window one full length
    /// forward from `now` and admits the operation.
    pub fn is_accessible_at(&self, state: &mut AppState, now: i64) -> (r: Result<(), AppError>)
        requires
            old(state).wf(),
            -TIMESTAMP_BOUND <= now <= TIMESTAMP_BOUND,
        ensures
            final(state).wf(),
            old(state)@ is None ==> (final(state)@ is None && (r matches Err(e) && (e matches
                AppError::Other(m) && m@ == "No vault opened"@))),
            old(state)@ matches Some(s) ==> (s.expires_at < now ==> (final(state)@ is None
                && (r matches Err(e) && (e matches AppError::Other(m) && m@
                == "Session expired"@)))),
            old(state)@ matches Some(s) ==> (s.expires_at >= now ==> (r is Ok && final(state)@
                == Some(
                SessionView {
                    vault: s.vault,
                    name: s.name,
                    secret: s.secret,
                    expires_at: now + SESSION_TTL,
                },
            ))),
    {
        if state.session.is_some() {
            let expired = match &state.session {
                Some(session) => session.expires_at < now,
                None => unreached(),
            };
            if expired {
                self.close(state);
                Err(AppError::Other("Session expired".to_owned()))
            } else {
                match &mut state.session {
                    Some(session) => {
                        session.expires_at = now + SESSION_TTL;
                    },
                    None => {},
                }
                Ok(())
            }
        } else {
            Err(AppError::Other("No vault opened".to_owned()))
        }
    }

    /// The check before every vault-touching operation, as of the current instant.
    pub fn is_accessible(&self, state: &mut AppState) -> (r: Result<(), AppError>)
        requires
            old(state).wf(),
        ensures
            final(state).wf(),
            old(state)@ is None ==> (final(state)@ is None && (r matches Err(e) && (e matches
                AppError::Other(m) && m@ == "No vault opened"@))),
            old(state)@ matches Some(s) ==> {
                &&& (r is Ok ==> (final(state)@ matches Some(s2) && (s2.vault == s.vault && s2.name
                    == s.name && s2.secret == s.secret)))
                &&& (r is Err ==> final(state)@ is None)
            },
    {
        let now = now_ts();
        self.is_accessible_at(state, now)
    }

    /// Renders the entries that match the filter, or all of them, with the
    /// password redacted unless exposed. A filter that matches nothing is
    /// reported as not found.
    pub fn show(&self, entry: Option<String>, expose: bool, state: &mut AppState) -> (r: Result<
        String,
        AppError,
    >)
        requires
            old(state)@ is Some,
        ensures
            final(state)@ == old(state)@,
            final(state).wf() == old(state).wf(),
            ({
                let v = old(state)@.unwrap().vault;
                let filtered = v.filter(|e: EntryView| entry_matches(e, entry));
                if entry is Some && filtered.len() == 0 {
                    r matches Err(e) && (e matches AppError::Other(m) && m@
                        == "Service not found"@)
                } else {
                    r matches Ok(s) && s@ == render_entries(filtered, expose)
                }
            }),
    {
        let session = match &state.session {
            Some(session) => session,
            None => unreached(),
        };
        let entries = &session.vault.entries;
        let ghost v = session.vault@;
        let ghost pred = |e: EntryView| entry_matches(e, entry);
        let mut out = String::new();
        let mut matched: usize = 0;
        let mut i: usize = 0;
        proof {
            reveal(Seq::filter);
            assert(v.take(0).filter(pred) =~= Seq::<EntryView>::empty());
        }
        while i < entries.len()
            invariant
                i <= entries.len(),
                v == entries@.map_values(|e: PasswordEntry| e@),
                v.len() == entries@.len(),
                matched == v.take(i as int).filter(pred).len(),
                matched <= i,
                out@ == render_entries(v.take(i as int).filter(pred), expose),
                pred == (|e: EntryView| entry_matches(e, entry)),
            decreases entries.len() - i,
        {
            let e = &entries[i];
            let is_match = match &entry {
                Some(f) => str_eq(e.name.as_str(), f.as_str()),
                None => true,
            };
            proof {
                assert(v[i as int] == e@);
                assert(is_match == pred(e@));
                assert(v.take(i + 1) =~= v.take(i as int).push(v[i as int]));
                reveal(Seq::filter);
                assert(v.take(i as int).push(e@).drop_last() =~= v.take(i as int));
            }
            if is_match {
                if matched > 0 {
                    out.append("\n");
                }
                render_one(e, expose, &mut out);
                proof {
                    lemma_render_entries_push(v.take(i as int).filter(pred), e@, expose);
                    v.take(i as int).lemma_filter_len(pred);
                    assert(out@ =~= render_entries(v.take(i + 1).filter(pred), expose));
                }
                matched = matched + 1;
            }
            i = i + 1;
        }
        proof {
            assert(v.take(v.len() as int) =~= v);
        }
        if matched == 0 && entry.is_some() {
            return Err(AppError::Other("Service not found".to_owned()));
        }
        Ok(out)
    }

    /// Deletes the persisted vault of the open session. The session itself
    /// stays open; `destroy` is the transition that also locks.
    pub fn delete(&mut self, state: &mut AppState) -> (r: Result<(), AppError>)
        requires
            old(self).vault.inv(),
            old(state)@ is Some,
        ensures
            final(self).vault.inv(),
            final(state)@ == old(state)@,
            final(state).wf() == old(state).wf(),
            r is Ok ==> old(self).vault.vaults().contains_key(old(state)@.unwrap().name) && final(self).vault.vaults() == old(self).vault.vaults().remove(old(state)@.unwrap().name),
    {
        let name = match &state.session {
            Some(session) => session.name.clone(),
            None => unreached(),
        };
        match self.vault.delete(name.as_str()) {
            Ok(()) => Ok(()),
            Err(e) => Err(AppError::Other(e)),
        }
    }

    /// Deletes the persisted vault and then locks the session, wiping it.
    /// Irreversible; the caller confirms before invoking.
    pub fn destroy(&mut self, state: &mut AppState) -> (r: Result<(), AppError>)
        requires
            old(self).vault.inv(),
            old(state)@ is Some,
        ensures
            final(self).vault.inv(),
            final(state)@ is None,
            final(state).wf(),
            r is Ok ==> old(self).vault.vaults().contains_key(old(state)@.unwrap().name) && final(self).vault.vaults() == old(self).vault.vaults().remove(old(state)@.unwrap().name),
    {
        let r = self.delete(state);
        self.close(state);
        r
    }

    /// Lists the stored vault names, one per line.
    pub fn list(&self) -> (r: Result<String, AppError>)
        requires
            self.vault.inv(),
        ensures
            r matches Ok(s) ==> s@ == render_names(self.vault.names()),
    {
        let names = match self.vault.list() {
            Ok(names) => names,
            Err(e) => {
                return Err(AppError::Other(e));
            },
        };
        let mut out = String::new();
        let mut i: usize = 0;
        proof {
            assert(self.vault.names().take(0) =~= Seq::<Seq<char>>::empty());
        }
        while i < names.len()
            invariant
                i <= names.len(),
                names@.map_values(|s: String| s@) == self.vault.names(),
                names@.len() == self.vault.names().len(),
                out@ == render_names(self.vault.names().take(i as int)),
            decreases names.len() - i,
        {
            out.append(names[i].as_str());
            out.append("\n");
            proof {
                lemma_render_names_push(
                    self.vault.names().take(i as int),
                    self.vault.names()[i as int],
                );
                assert(self.vault.names().take(i + 1) =~= self.vault.names().take(
                    i as int,
                ).push(self.vault.names()[i as int]));
                assert(out@ =~= render_names(self.vault.names().take(i + 1)));
            }
            i = i + 1;
        }
        proof {
            assert(self.vault.names().take(self.vault.names().len() as int) =~= self.vault.names());
        }
        Ok(out)
    }

    /// Appends a new entry to the open session's vault and persists the
    /// whole vault re-encrypted. The in-memory append stands even when
    /// persisting fails, and the failure is reported.
    pub fn add_entry(&mut self, entry: &str, username: &str, password: &str, state: &mut AppState)
        -> (r: Result<(), AppError>)
        requires
            old(self).vault.inv(),
            old(state)@ is Some,
            old(state).wf(),
        ensures
            final(self).vault.inv(),
            final(state).wf(),
            final(state)@ matches Some(s2) && ({
                let s = old(state)@.unwrap();
                &&& s2.vault == s.vault.push(
                    EntryView { name: entry@, username: username@, password: password@ },
                )
                &&& s2.name == s.name
                &&& s2.secret == s.secret
                &&& s2.expires_at == s.expires_at
            }),
            r is Ok ==> crate::store::saved_encryption(
                old(self).vault.vaults(),
                final(self).vault.vaults(),
                old(state)@.unwrap().name,
                old(state)@.unwrap().secret,
                final(state)@.unwrap().vault,
            ),
    {
        let new_entry = PasswordEntry::new(entry.to_owned(), username.to_owned(), password.to_owned());
        match &mut state.session {
            Some(session) => {
                let ghost s0 = session.vault@;
                session.vault.entries.push(new_entry);
                proof {
                    assert(session.vault@ =~= s0.push(
                        EntryView { name: entry@, username: username@, password: password@ },
                    ));
                }
                if !check_vault_fits(&session.vault) {
                    return Err(AppError::Other("Vault too large to save".to_owned()));
                }
                match self.vault.save(session.name.as_str(), &session.secret, &session.vault) {
                    Ok(()) => Ok(()),
                    Err(e) => Err(AppError::Other(e)),
                }
            },
            None => unreached(),
        }
    }

    /// Replaces one field of the first entry named `entry`, then persists
    /// the whole vault re-encrypted. Reports when no entry matches.
    #[verifier::spinoff_prover]
    #[verifier::rlimit(60)]
    pub fn update_entry(
        &mut self,
        entry: &str,
        field: &Field,
        value: &str,
        state: &mut AppState,
    ) -> (r: Result<(), AppError>)
        requires
            old(self).vault.inv(),
            old(state)@ is Some,
            old(state).wf(),
        ensures
            final(self).vault.inv(),
            final(state).wf(),
            final(state)@ matches Some(s2) && ({
                let s = old(state)@.unwrap();
                &&& s2.name == s.name
                &&& s2.secret == s.secret
                &&& s2.expires_at == s.expires_at
                &&& (!has_entry(s.vault, entry@) ==> (s2.vault == s.vault && (r matches Err(e)
                    && (e matches AppError::Other(m) && (m@ == "Service not found"@ && final(self).vault.vaults() == old(self).vault.vaults())))))
                &&& forall|i: int|
                    found_at(s.vault, entry@, i) ==> s2.vault == s.vault.update(
                        i,
                        updated_entry(s.vault[i], *field, value@),
                    )
            }),
            r is Ok ==> has_entry(old(state)@.unwrap().vault, entry@),
            r is Ok ==> crate::store::saved_encryption(
                old(self).vault.vaults(),
                final(self).vault.vaults(),
                old(state)@.unwrap().name,
                old(state)@.unwrap().secret,
                final(state)@.unwrap().vault,
            ),
    {
        match &mut state.session {
            Some(session) => {
                let ghost s0 = session.vault@;
                let found = find_entry(&session.vault.entries, entry);
                match found {
                    Some(i) => {
                        proof {
                            assert(has_entry(s0, entry@)) by {
                                assert(s0[i as int].name == entry@);
                            }
                        }
                        let mut e = session.vault.entries.remove(i);
                        match field {
                            Field::Username => {
                                wipe_string(&mut e.username);
                                e.username = value.to_owned();
                            },
                            Field::Password => {
                                e.password.wipe();
                                e.password = Secret::from_str(value);
                            },
                        }
                        session.vault.entries.insert(i, e);
                        proof {
                            assert(session.vault@ =~= s0.update(
                                i as int,
                                updated_entry(s0[i as int], *field, value@),
                            ));
                            assert forall|k: int| found_at(s0, entry@, k) implies k == i as int by {
                                if k < i {
                                    assert(s0[k].name != entry@);
                                } else if k > i {
                                    assert(s0[i as int].name != entry@);
                                }
                            }
                        }
                        if !check_vault_fits(&session.vault) {
                            return Err(AppError::Other("Vault too large to save".to_owned()));
                        }
                        match self.vault.save(
                            session.name.as_str(),
                            &session.secret,
                            &session.vault,
                        ) {
                            Ok(()) => Ok(()),
                            Err(e) => Err(AppError::Other(e)),
                        }
                    },
                    None => Err(AppError::Other("Service not found".to_owned())),
                }
            },
            None => unreached(),
        }
    }

    /// Removes every entry named `entry` (wiping each before release), then
    /// persists the whole vault re-encrypted. Reports when no entry matched.
    pub fn delete_entry(&mut self, entry: &str, state: &mut AppState) -> (r: Result<(), AppError>)
        requires
            old(self).vault.inv(),
            old(state)@ is Some,
            old(state).wf(),
        ensures
            final(self).vault.inv(),
            final(state).wf(),
            final(state)@ matches Some(s2) && ({
                let s = old(state)@.unwrap();
                &&& s2.name == s.name
                &&& s2.secret == s.secret
                &&& s2.expires_at == s.expires_at
                &&& (!has_entry(s.vault, entry@) ==> (s2.vault == s.vault && (r matches Err(e)
                    && (e matches AppError::Other(m) && (m@ == "Service not found"@ && final(self).vault.vaults() == old(self).vault.vaults())))))
                &&& (has_entry(s.vault, entry@) ==> s2.vault == without_entry(s.vault, entry@))
            }),
            r is Ok ==> has_entry(old(state)@.unwrap().vault, entry@),
            r is Ok ==> crate::store::saved_encryption(
                old(self).vault.vaults(),
                final(self).vault.vaults(),
                old(state)@.unwrap().name,
                old(state)@.unwrap().secret,
                final(state)@.unwrap().vault,
            ),
    {
        match &mut state.session {
            Some(session) => {
                let ghost s0 = session.vault@;
                let ghost pred = |e: EntryView| e.name != entry@;
                match find_entry(&session.vault.entries, entry) {
                    Some(i) => {
                        proof {
                            assert(has_entry(s0, entry@)) by {
                                assert(s0[i as int].name == entry@);
                            }
                        }
                    },
                    None => {
                        return Err(AppError::Other("Service not found".to_owned()));
                    },
                }
                let mut kept: Vec<PasswordEntry> = Vec::new();
                let mut j: usize = 0;
                proof {
                    reveal(Seq::filter);
                    assert(s0.take(0).filter(pred) =~= Seq::<EntryView>::empty());
                    assert(kept@.map_values(|e: PasswordEntry| e@) =~= Seq::<EntryView>::empty());
                }
                let n = session.vault.entries.len();
                while j < n
                    invariant
                        j <= n,
                        n == session.vault.entries.len(),
                        s0 == session.vault.entries@.map_values(|e: PasswordEntry| e@),
                        s0.len() == n,
                        pred == (|e: EntryView| e.name != entry@),
                        kept@.map_values(|e: PasswordEntry| e@) == s0.take(j as int).filter(pred),
                    decreases n - j,
                {
                    let ghost kept0 = kept@.map_values(|e: PasswordEntry| e@);
                    let keep = !str_eq(session.vault.entries[j].name.as_str(), entry);
                    proof {
                        assert(s0[j as int] == session.vault.entries@[j as int]@);
                        assert(s0.take(j + 1) =~= s0.take(j as int).push(s0[j as int]));
                        reveal(Seq::filter);
                        assert(s0.take(j as int).push(s0[j as int]).drop_last() =~= s0.take(
                            j as int,
                        ));
                    }
                    if keep {
                        let e = duplicate_entry(&session.vault.entries[j]);
                        kept.push(e);
                        proof {
                            assert(kept@.map_values(|e: PasswordEntry| e@) =~= kept0.push(
                                s0[j as int],
                            ));
                        }
                    }
                    j = j + 1;
                }
                proof {
                    assert(s0.take(n as int) =~= s0);
                }
                let mut discarded = kept;
                core::mem::swap(&mut session.vault.entries, &mut discarded);
                while discarded.len() > 0
                    decreases discarded.len(),
                {
                    let popped = discarded.pop();
                    if let Some(mut e) = popped {
                        e.wipe();
                    }
                }
                proof {
                    assert(session.vault@ == without_entry(s0, entry@));
                }
                if !check_vault_fits(&session.vault) {
                    return Err(AppError::Other("Vault too large to save".to_owned()));
                }
                match self.vault.save(session.name.as_str(), &session.secret, &session.vault) {
                    Ok(()) => Ok(()),
                    Err(e) => Err(AppError::Other(e)),
                }
            },
            None => unreached(),
        }
    }

    /// Reports whether a vault named `name` is stored; a missing vault is an
    /// error the caller can show.
    pub fn contains(&self, name: &str) -> (r: Result<(), AppError>)
        requires
            self.vault.inv(),
        ensures
            r is Ok ==> self.vault.vaults().contains_key(name@),
    {
        match self.vault.contains(name) {
            Ok(true) => Ok(()),
            Ok(false) => Err(AppError::Other("Vault not found".to_owned())),
            Err(e) => Err(AppError::Other(e)),
        }
    }
}

/// A copy of an entry, field for field.
fn duplicate_entry(e: &PasswordEntry) -> (r: PasswordEntry)
    ensures
        r@ == e@,
{
    PasswordEntry {
        name: e.name.clone(),
        username: e.username.clone(),
        password: e.password.duplicate(),
    }
}

/// Reports whether a vault named `name` is stored in the given store.
pub fn vault_exists<M: VaultManagerTrait>(manager: &M, name: &str) -> (r: Result<(), AppError>)
    requires
        manager.inv(),
    ensures
        r is Ok ==> manager.vaults().contains_key(name@),
{
    match manager.contains(name) {
        Ok(true) => Ok(()),
        Ok(false) => Err(AppError::Other("Vault does not exist".to_owned())),
        Err(e) => Err(AppError::Other(e)),
    }
}

} // verus!
