use daynotes::error::ServiceError;
use daynotes::handlers::{create_note, delete_note, get_note, list_note_days, NoteCreate};
use daynotes::identity::User;
use daynotes::snapshot::{Database, ExportedNote, Snapshot};

fn user(id: u32, name: &str, token: Option<&str>) -> User {
    User {
        id,
        username: name.to_string(),
        password_hash: format!("hash-{name}"),
        token: token.map(|t| t.to_string()),
    }
}

fn note(id: u64, user_id: u32, date: &str, content: &str) -> ExportedNote {
    ExportedNote { id, user_id, date: date.to_string(), content: content.to_string() }
}

fn sample() -> Snapshot {
    Snapshot {
        users: vec![user(1, "alice", Some("t1")), user(2, "bob", None)],
        notes: vec![
            note(1, 1, "2024-03-10", "hello"),
            note(2, 2, "2024-03-10", "hi"),
            note(5, 1, "2024-01-01", ""),
        ],
    }
}

#[test]
fn scenario_register_login_create_get_list_delete() {
    let mut db = Database::new();
    db.users.register("alice", "pw1").unwrap();
    let token = db.users.login("alice", "pw1").unwrap();
    let me = db.users.authenticate(&token).unwrap();
    let input = NoteCreate { date: "2024-03-10".to_string(), content: "hello".to_string() };
    assert!(create_note(&mut db.notes, &me, input).is_ok());
    assert_eq!(get_note(&db.notes, &me, "2024-03-10").unwrap().content, "hello");
    assert_eq!(list_note_days(&db.notes, &me), vec!["2024-03-10".to_string()]);
    assert_eq!(delete_note(&mut db.notes, &me, "2024-03-10"), Ok(()));
    assert_eq!(get_note(&db.notes, &me, "2024-03-10").unwrap_err(), ServiceError::NotFound);
}

#[test]
fn import_then_export_gives_back_the_snapshot() {
    let mut db = Database::new();
    assert_eq!(db.import(sample()), Ok(()));
    assert_eq!(db.export(), sample());
}

#[test]
fn export_then_import_is_a_no_op() {
    let mut db = Database::new();
    db.import(sample()).unwrap();
    db.notes.create(2, "2025-06-01", "later".to_string()).unwrap();
    let first = db.export();
    assert_eq!(db.import(first.clone()), Ok(()));
    assert_eq!(db.export(), first);
    let holder = db.users.authenticate("t1").unwrap();
    assert_eq!(holder.username, "alice");
}

#[test]
fn import_replaces_everything() {
    let mut db = Database::new();
    db.users.register("carol", "pw").unwrap();
    db.notes.create(9, "2024-02-02", "gone".to_string()).unwrap();
    db.import(sample()).unwrap();
    assert_eq!(db.export(), sample());
    assert_eq!(db.notes.get(9, "2024-02-02").unwrap_err(), ServiceError::NotFound);
    assert_eq!(db.notes.get(1, "2024-01-01").unwrap().content, "");
}

fn assert_refused_and_unchanged(bad: Snapshot) {
    let mut db = Database::new();
    db.import(sample()).unwrap();
    let before = db.export();
    assert_eq!(db.import(bad), Err(ServiceError::Malformed));
    assert_eq!(db.export(), before);
}

#[test]
fn malformed_date_is_refused() {
    let mut bad = sample();
    bad.notes.push(note(9, 1, "2024-02-30", "x"));
    assert_refused_and_unchanged(bad);
}

#[test]
fn truncated_date_is_refused() {
    let mut bad = sample();
    bad.notes[0].date = "2024-03-".to_string();
    assert_refused_and_unchanged(bad);
}

#[test]
fn duplicate_note_key_is_refused() {
    let mut bad = sample();
    bad.notes.push(note(9, 1, "2024-03-10", "again"));
    assert_refused_and_unchanged(bad);
}

#[test]
fn duplicate_note_id_is_refused() {
    let mut bad = sample();
    bad.notes.push(note(1, 2, "2024-04-04", "x"));
    assert_refused_and_unchanged(bad);
}

#[test]
fn duplicate_username_is_refused() {
    let mut bad = sample();
    bad.users.push(user(3, "alice", None));
    assert_refused_and_unchanged(bad);
}

#[test]
fn duplicate_token_is_refused() {
    let mut bad = sample();
    bad.users.push(user(3, "carol", Some("t1")));
    assert_refused_and_unchanged(bad);
}

#[test]
fn empty_username_is_refused() {
    let mut bad = sample();
    bad.users.push(user(3, "", None));
    assert_refused_and_unchanged(bad);
}

#[test]
fn imported_ids_are_not_reused() {
    let mut db = Database::new();
    db.import(sample()).unwrap();
    let id = db.notes.create(1, "2030-01-01", "n".to_string()).unwrap();
    assert!(id > 5);
    let uid = db.users.register("dave", "pw").unwrap();
    assert!(uid > 2);
}

#[test]
fn note_of_unknown_owner_is_refused() {
    let mut bad = sample();
    bad.notes.push(note(9, 42, "2024-04-04", "orphan"));
    assert_refused_and_unchanged(bad);
}

#[test]
fn get_note_answers_under_the_date_asked_for() {
    let mut db = Database::new();
    db.import(sample()).unwrap();
    let alice = db.users.authenticate("t1").unwrap();
    let n = get_note(&db.notes, &alice, "2024-03-10").unwrap();
    assert_eq!(n.date, "2024-03-10");
    assert_eq!(n.content, "hello");
    assert_eq!(list_note_days(&db.notes, &alice), vec!["2024-01-01".to_string(), "2024-03-10".to_string()]);
}
