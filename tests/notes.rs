use daynotes::date::{valid_date_ymd, Date};
use daynotes::error::ServiceError;
use daynotes::notes::NoteStore;

#[test]
fn create_then_get_returns_content() {
    let mut s = NoteStore::new();
    assert!(s.create(1, "2024-03-10", "hello".to_string()).is_ok());
    let n = s.get(1, "2024-03-10").unwrap();
    assert_eq!(n.content, "hello");
    assert_eq!(n.date, "2024-03-10");
    assert_eq!(n.user_id, 1);
}

#[test]
fn second_create_same_date_conflicts() {
    let mut s = NoteStore::new();
    assert!(s.create(1, "2024-01-01", "a".to_string()).is_ok());
    assert_eq!(s.create(1, "2024-01-01", "b".to_string()), Err(ServiceError::Conflict));
    assert_eq!(s.get(1, "2024-01-01").unwrap().content, "a");
}

#[test]
fn same_date_other_owner_is_free() {
    let mut s = NoteStore::new();
    assert!(s.create(1, "2024-01-01", "a".to_string()).is_ok());
    assert!(s.create(2, "2024-01-01", "b".to_string()).is_ok());
    assert_eq!(s.get(2, "2024-01-01").unwrap().content, "b");
}

#[test]
fn two_creates_leave_exactly_one_note() {
    let mut s = NoteStore::new();
    let a = s.create(7, "2024-01-01", "x".to_string());
    let b = s.create(7, "2024-01-01", "y".to_string());
    assert!(a.is_ok());
    assert_eq!(b, Err(ServiceError::Conflict));
    assert_eq!(s.list_dates(7).len(), 1);
}

#[test]
fn identifiers_are_distinct() {
    let mut s = NoteStore::new();
    let a = s.create(1, "2024-01-01", "x".to_string()).unwrap();
    let b = s.create(1, "2024-01-02", "y".to_string()).unwrap();
    s.delete(1, "2024-01-01").unwrap();
    let c = s.create(1, "2024-01-03", "z".to_string()).unwrap();
    assert_ne!(a, b);
    assert_ne!(b, c);
    assert_ne!(a, c);
}

#[test]
fn update_missing_is_not_found_and_creates_nothing() {
    let mut s = NoteStore::new();
    assert_eq!(s.update(1, "2024-05-05", "c2".to_string()), Err(ServiceError::NotFound));
    assert_eq!(s.get(1, "2024-05-05").unwrap_err(), ServiceError::NotFound);
    assert!(s.list_dates(1).is_empty());
}

#[test]
fn update_replaces_content_of_given_date_only() {
    let mut s = NoteStore::new();
    s.create(1, "2024-05-05", "old".to_string()).unwrap();
    s.create(1, "2024-05-06", "other".to_string()).unwrap();
    assert_eq!(s.update(1, "2024-05-05", "new".to_string()), Ok(()));
    assert_eq!(s.get(1, "2024-05-05").unwrap().content, "new");
    assert_eq!(s.get(1, "2024-05-06").unwrap().content, "other");
}

#[test]
fn delete_then_get_not_found_and_delete_again_not_found() {
    let mut s = NoteStore::new();
    s.create(1, "2024-03-10", "hello".to_string()).unwrap();
    assert_eq!(s.delete(1, "2024-03-10"), Ok(()));
    assert_eq!(s.get(1, "2024-03-10").unwrap_err(), ServiceError::NotFound);
    assert_eq!(s.delete(1, "2024-03-10"), Err(ServiceError::NotFound));
}

#[test]
fn malformed_dates_are_bad_requests() {
    let mut s = NoteStore::new();
    assert_eq!(s.create(1, "2024-13-01", "x".to_string()), Err(ServiceError::BadRequest));
    assert_eq!(s.create(1, "not a date", "x".to_string()), Err(ServiceError::BadRequest));
    assert_eq!(s.get(1, "2023-02-29").unwrap_err(), ServiceError::BadRequest);
    assert_eq!(s.update(1, "", "x".to_string()), Err(ServiceError::BadRequest));
    assert_eq!(s.delete(1, "2024/01/01"), Err(ServiceError::BadRequest));
    assert!(s.list_dates(1).is_empty());
}

#[test]
fn empty_content_is_allowed() {
    let mut s = NoteStore::new();
    s.create(1, "2024-03-10", String::new()).unwrap();
    assert_eq!(s.get(1, "2024-03-10").unwrap().content, "");
}

#[test]
fn list_dates_is_strictly_ascending_and_per_owner() {
    let mut s = NoteStore::new();
    for d in ["2024-03-10", "2023-12-31", "2024-01-15", "2024-03-09"] {
        s.create(1, d, "x".to_string()).unwrap();
    }
    s.create(2, "2020-01-01", "y".to_string()).unwrap();
    let ds = s.list_dates(1);
    assert_eq!(
        ds,
        vec![
            Date { year: 2023, month: 12, day: 31 },
            Date { year: 2024, month: 1, day: 15 },
            Date { year: 2024, month: 3, day: 9 },
            Date { year: 2024, month: 3, day: 10 },
        ]
    );
    assert_eq!(s.list_dates(2), vec![Date { year: 2020, month: 1, day: 1 }]);
    assert!(s.list_dates(3).is_empty());
}

#[test]
fn date_parsing() {
    assert_eq!(valid_date_ymd("2024-02-29"), Some(Date { year: 2024, month: 2, day: 29 }));
    assert_eq!(valid_date_ymd("2023-02-29"), None);
    assert_eq!(valid_date_ymd("1999-12-31"), Some(Date { year: 1999, month: 12, day: 31 }));
    assert_eq!(valid_date_ymd("hello"), None);
    assert_eq!(valid_date_ymd(""), None);
}
