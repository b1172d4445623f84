use passman::commands::Field;
use passman::secret::Secret;
use passman::service::{vault_exists, VaultService};
use passman::session::{AppState, SESSION_TTL};
use passman::store::VaultManager;

fn setup() -> (AppState, VaultService<VaultManager>, Secret) {
    let state = AppState::new();
    let service = VaultService::new(VaultManager::new());
    let secret = Secret::from_str("test_password");
    (state, service, secret)
}

#[test]
fn test_create_and_open_vault() {
    let (mut state, mut service, secret) = setup();
    let vault = "test_vault";

    // create vault
    service.create(vault, &secret).unwrap();

    // open vault
    service.open(vault, &secret, &mut state).unwrap();

    // check result
    assert!(state.session.is_some());
    assert_eq!(state.session.as_ref().unwrap().name, vault);
}

#[test]
fn test_vault_close() {
    let (mut state, mut service, secret) = setup();
    let vault = "test_vault";

    // setup
    service.create(vault, &secret).unwrap();
    service.open(vault, &secret, &mut state).unwrap();

    // close vault
    service.close(&mut state);
    assert!(state.session.is_none());
}

#[test]
fn test_add_entry() {
    let (mut state, mut service, secret) = setup();
    let vault = "test_vault";
    let entry = "test_entry";

    // setup
    service.create(vault, &secret).unwrap();
    service.open(vault, &secret, &mut state).unwrap();

    // add entry
    service.add_entry(entry, "user", "pass", &mut state).unwrap();

    // check result
    let result = service.show(Some(entry.to_string()), false, &mut state);
    assert!(result.is_ok());
    assert_eq!(state.session.as_ref().unwrap().vault.entries.len(), 1);
}

#[test]
fn test_update_entry() {
    let (mut state, mut service, secret) = setup();
    let vault = "test_vault";
    let entry = "test_entry";

    // setup
    service.create(vault, &secret).unwrap();
    service.open(vault, &secret, &mut state).unwrap();
    service.add_entry(entry, "user", "pass", &mut state).unwrap();

    // update entry
    let _ = service.update_entry(entry, &Field::Username, "new_user", &mut state);

    // check result
    let session = state.session.as_ref().unwrap();
    let found = session
        .vault
        .entries
        .iter()
        .find(|e| e.name == entry)
        .unwrap();
    assert_eq!(found.username, "new_user");
}

#[test]
fn test_delete_vault() {
    let (mut state, mut service, secret) = setup();
    let vault = "test_vault";
    let entry = "test_entry";

    // setup
    service.create(vault, &secret).unwrap();
    service.open(vault, &secret, &mut state).unwrap();

    // delete vault
    service.delete(&mut state).unwrap();

    // check result
    let result = service.show(Some(entry.to_string()), false, &mut state);
    assert!(result.is_err());
}

#[test]
fn test_list_vaults() {
    let (_, mut service, secret) = setup();
    let vault1 = "test_vault1";
    let vault2 = "test_vault2";

    // setup
    service.create(vault1, &secret).unwrap();
    service.create(vault2, &secret).unwrap();

    // list vaults
    let result = service.list().unwrap();

    // check result
    assert_eq!(result.split("\n").count() - 1, 2);
    assert!(result.contains(vault1));
    assert!(result.contains(vault2));
}

#[test]
fn test_vault_security() {
    let (mut state, mut service, secret) = setup();
    let vault1 = "test_vault1";
    let wrong_secret = Secret::from_str("wrong_pass");

    // setup
    service.create(vault1, &secret).unwrap();

    // attempt to unlock with wrong password
    let result = service.open(vault1, &wrong_secret, &mut state);

    // check result
    assert!(result.is_err());
    assert!(state.session.is_none());
}

#[test]
fn session_expiry_window() {
    let (mut state, mut service, secret) = setup();
    service.create("work", &secret).unwrap();

    let t0 = 1_000_000i64;
    service.open_at("work", &secret, &mut state, t0).unwrap();
    assert_eq!(state.session.as_ref().unwrap().expires_at, t0 + SESSION_TTL);

    // an access just before expiry succeeds and slides the window forward
    let t1 = t0 + SESSION_TTL - 1;
    service.is_accessible_at(&mut state, t1).unwrap();
    assert_eq!(state.session.as_ref().unwrap().expires_at, t1 + SESSION_TTL);

    // an access just after expiry fails and locks the session
    let t2 = t1 + SESSION_TTL + 1;
    let denied = service.is_accessible_at(&mut state, t2);
    assert!(denied.is_err());
    assert_eq!(denied.unwrap_err().message(), "Error: Session expired");
    assert!(state.session.is_none());

    // once locked, the access check reports that no vault is open
    let locked = service.is_accessible_at(&mut state, t2);
    assert_eq!(locked.unwrap_err().message(), "Error: No vault opened");
}

#[test]
fn close_is_idempotent() {
    let (mut state, mut service, secret) = setup();
    service.create("work", &secret).unwrap();
    service.open("work", &secret, &mut state).unwrap();

    service.close(&mut state);
    assert!(state.session.is_none());

    // closing an already-Locked state is a no-op: no error, no panic
    service.close(&mut state);
    assert!(state.session.is_none());
    service.close(&mut state);
    assert!(state.session.is_none());
}

#[test]
fn entry_lifecycle() {
    let (mut state, mut service, _) = setup();
    let secret = Secret::from_str("Correct1!");
    service.create("work", &secret).unwrap();
    service.open("work", &secret, &mut state).unwrap();

    service
        .add_entry("email", "me", "hunter2", &mut state)
        .unwrap();
    let shown = service
        .show(Some("email".to_string()), true, &mut state)
        .unwrap();
    assert_eq!(shown, "email\n  Username: me\n  Password: hunter2\n");

    service
        .update_entry("email", &Field::Password, "hunter3", &mut state)
        .unwrap();
    let shown = service
        .show(Some("email".to_string()), true, &mut state)
        .unwrap();
    assert_eq!(shown, "email\n  Username: me\n  Password: hunter3\n");

    service.delete_entry("email", &mut state).unwrap();
    let missing = service.show(Some("email".to_string()), true, &mut state);
    assert!(missing.is_err());
    assert_eq!(missing.unwrap_err().message(), "Error: Service not found");

    // the persisted copy followed every change
    service.close(&mut state);
    service.open("work", &secret, &mut state).unwrap();
    assert_eq!(state.session.as_ref().unwrap().vault.entries.len(), 0);
}

#[test]
fn destroy_removes_the_vault() {
    let (mut state, mut service, secret) = setup();
    service.create("temp", &secret).unwrap();
    service.open("temp", &secret, &mut state).unwrap();

    service.destroy(&mut state).unwrap();
    assert!(state.session.is_none());

    // a later open fails as not-found
    let reopened = service.open("temp", &secret, &mut state);
    assert!(reopened.is_err());
    assert!(state.session.is_none());

    // and the listing no longer carries the name
    let listing = service.list().unwrap();
    assert!(!listing.contains("temp"));
    assert!(vault_exists(&service.vault, "temp").is_err());
}

#[test]
fn create_never_overwrites() {
    let (mut state, mut service, secret) = setup();
    service.create("work", &secret).unwrap();
    service.open("work", &secret, &mut state).unwrap();
    service.add_entry("email", "me", "hunter2", &mut state).unwrap();
    service.close(&mut state);

    // a second create under the same name fails and leaves the vault intact
    assert!(service.create("work", &secret).is_err());
    service.open("work", &secret, &mut state).unwrap();
    assert_eq!(state.session.as_ref().unwrap().vault.entries.len(), 1);
}

#[test]
fn show_redacts_unless_exposed() {
    let (mut state, mut service, secret) = setup();
    service.create("work", &secret).unwrap();
    service.open("work", &secret, &mut state).unwrap();
    service.add_entry("email", "me", "hunter2", &mut state).unwrap();

    let masked = service.show(None, false, &mut state).unwrap();
    assert_eq!(masked, "email\n  Username: me\n  Password: <hidden>\n");
    assert!(!masked.contains("hunter2"));
}

#[test]
fn show_joins_entries_with_blank_lines() {
    let (mut state, mut service, secret) = setup();
    service.create("work", &secret).unwrap();
    service.open("work", &secret, &mut state).unwrap();
    service.add_entry("a", "u1", "p1", &mut state).unwrap();
    service.add_entry("b", "u2", "p2", &mut state).unwrap();

    let all = service.show(None, true, &mut state).unwrap();
    assert_eq!(
        all,
        "a\n  Username: u1\n  Password: p1\n\nb\n  Username: u2\n  Password: p2\n"
    );
}

#[test]
fn delete_entry_removes_every_match() {
    let (mut state, mut service, secret) = setup();
    service.create("work", &secret).unwrap();
    service.open("work", &secret, &mut state).unwrap();
    service.add_entry("dup", "u1", "p1", &mut state).unwrap();
    service.add_entry("other", "u2", "p2", &mut state).unwrap();
    service.add_entry("dup", "u3", "p3", &mut state).unwrap();

    service.delete_entry("dup", &mut state).unwrap();
    let entries = &state.session.as_ref().unwrap().vault.entries;
    assert_eq!(entries.len(), 1);
    assert_eq!(entries[0].name, "other");

    let again = service.delete_entry("dup", &mut state);
    assert!(again.is_err());
}

#[test]
fn update_targets_first_match() {
    let (mut state, mut service, secret) = setup();
    service.create("work", &secret).unwrap();
    service.open("work", &secret, &mut state).unwrap();
    service.add_entry("dup", "first", "p1", &mut state).unwrap();
    service.add_entry("dup", "second", "p2", &mut state).unwrap();

    service
        .update_entry("dup", &Field::Username, "patched", &mut state)
        .unwrap();
    let entries = &state.session.as_ref().unwrap().vault.entries;
    assert_eq!(entries[0].username, "patched");
    assert_eq!(entries[1].username, "second");
}

#[test]
fn wiped_secret_is_empty() {
    let mut secret = Secret::from_str("sensitive");
    assert_eq!(secret.expose(), "sensitive");
    secret.wipe();
    assert_eq!(secret.expose(), "");
}
