use crate::date::{date_lt, ymd_of, Date};
use crate::error::ServiceError;
use crate::identity::User;
use crate::notes::{day_of, is_date, strictly_ascending, Note, NoteStore};
use vstd::prelude::*;

verus! {

/// A request to create a note: its date as `YYYY-MM-DD` and its text.
#[derive(Clone, Debug, PartialEq, Eq)]
pub struct NoteCreate {
    pub date: String,
    pub content: String,
}

/// A request to replace the text of the note on a date.
#[derive(Clone, Debug, PartialEq, Eq)]
pub struct NoteUpdate {
    pub date: String,
    pub content: String,
}

/// A note as handed back to its owner.
#[derive(Clone, Debug, PartialEq, Eq)]
pub struct NoteResponse {
    pub date: String,
    pub content: String,
}

/// Creates the note of the authenticated user on the requested date.
pub fn create_note(store: &mut NoteStore, user: &User, input: NoteCreate) -> (r: Result<
    u64,
    ServiceError,
>)
    requires
        old(store).wf(),
    ensures
        final(store).wf(),
        !is_date(input.date@) ==> r == Err::<u64, ServiceError>(ServiceError::BadRequest),
        is_date(input.date@) && old(store)@.contains_key((user.id, day_of(input.date@))) ==> r
            == Err::<u64, ServiceError>(ServiceError::Conflict),
        is_date(input.date@) && !old(store)@.contains_key((user.id, day_of(input.date@))) ==> if old(
            store,
        ).ids_exhausted() {
            r == Err::<u64, ServiceError>(ServiceError::Internal)
        } else {
            r is Ok
        },
        r is Err ==> *final(store) == *old(store),
        r matches Ok(id) ==> final(store)@ == old(store)@.insert(
            (user.id, day_of(input.date@)),
            final(store)@[(user.id, day_of(input.date@))],
        ) && final(store)@[(user.id, day_of(input.date@))].id == id && final(store)@[(
            user.id,
            day_of(input.date@),
        )].user_id == user.id && final(store)@[(user.id, day_of(input.date@))].day == day_of(
            input.date@,
        ) && final(store)@[(user.id, day_of(input.date@))].date@ == input.date@ && final(store)@[(
            user.id,
            day_of(input.date@),
        )].content@ == input.content@,
{
    store.create(user.id, input.date.as_str(), input.content)
}

/// The authenticated user's note on a date, under the date text asked for.
pub fn get_note(store: &NoteStore, user: &User, date: &str) -> (r: Result<
    NoteResponse,
    ServiceError,
>)
    requires
        store.wf(),
    ensures
        !is_date(date@) ==> r == Err::<NoteResponse, ServiceError>(ServiceError::BadRequest),
        is_date(date@) && !store@.contains_key((user.id, day_of(date@))) ==> r == Err::<
            NoteResponse,
            ServiceError,
        >(ServiceError::NotFound),
        is_date(date@) && store@.contains_key((user.id, day_of(date@))) ==> (r matches Ok(n)
            && n.date@ == date@ && n.content@ == store@[(
            user.id,
            day_of(date@),
        )].content@),
{
    match store.get(user.id, date) {
        Ok(n) => Ok(NoteResponse { date: date.to_owned(), content: n.content.clone() }),
        Err(e) => Err(e),
    }
}

/// Replaces the text of the authenticated user's note on the requested date.
pub fn update_note(store: &mut NoteStore, user: &User, input: NoteUpdate) -> (r: Result<
    (),
    ServiceError,
>)
    requires
        old(store).wf(),
    ensures
        final(store).wf(),
        !is_date(input.date@) ==> r == Err::<(), ServiceError>(ServiceError::BadRequest),
        is_date(input.date@) && !old(store)@.contains_key((user.id, day_of(input.date@))) ==> r
            == Err::<(), ServiceError>(ServiceError::NotFound),
        is_date(input.date@) && old(store)@.contains_key((user.id, day_of(input.date@))) ==> r is Ok,
        r is Err ==> *final(store) == *old(store),
        r is Ok ==> final(store)@ == old(store)@.insert(
            (user.id, day_of(input.date@)),
            Note { content: input.content, ..old(store)@[(user.id, day_of(input.date@))] },
        ),
{
    store.update(user.id, input.date.as_str(), input.content)
}

/// Removes the authenticated user's note on a date.
pub fn delete_note(store: &mut NoteStore, user: &User, date: &str) -> (r: Result<(), ServiceError>)
    requires
        old(store).wf(),
    ensures
        final(store).wf(),
        !is_date(date@) ==> r == Err::<(), ServiceError>(ServiceError::BadRequest),
        is_date(date@) && !old(store)@.contains_key((user.id, day_of(date@))) ==> r == Err::<
            (),
            ServiceError,
        >(ServiceError::NotFound),
        is_date(date@) && old(store)@.contains_key((user.id, day_of(date@))) ==> r is Ok,
        r is Err ==> *final(store) == *old(store),
        r is Ok ==> final(store)@ == old(store)@.remove((user.id, day_of(date@))),
{
    store.delete(user.id, date)
}

/// The dates of the authenticated user's notes, as they were written, once
/// each and in ascending chronological order: the `i`-th text names the
/// `i`-th of the strictly ascending dates.
pub fn list_note_days(store: &NoteStore, user: &User) -> (r: Vec<String>)
    requires
        store.wf(),
    ensures
        exists|days: Seq<Date>|
            strictly_ascending(days) && (forall|d: Date|
                #[trigger] days.contains(d) <==> store@.contains_key((user.id, d))) && r@.len()
                == days.len() && forall|i: int|
                0 <= i < days.len() ==> (#[trigger] r@[i])@ == store@[(user.id, days[i])].date@
                    && ymd_of(r@[i]@) == Some(days[i].ymd()),
        forall|a: int, b: int| 0 <= a < b < r@.len() ==> (#[trigger] r@[a])@ != (#[trigger] r@[b])@,
{
    let days = store.list_dates(user.id);
    let mut out: Vec<String> = Vec::new();
    let mut i: usize = 0;
    while i < days.len()
        invariant
            store.wf(),
            i <= days@.len(),
            out@.len() == i,
            forall|d: Date| #[trigger] days@.contains(d) <==> store@.contains_key((user.id, d)),
            forall|j: int|
                0 <= j < i ==> (#[trigger] out@[j])@ == store@[(user.id, days@[j])].date@ && ymd_of(
                    out@[j]@,
                ) == Some(days@[j].ymd()),
        decreases days@.len() - i,
    {
        assert(days@.contains(days@[i as int]));
        let n = store.note_on(user.id, days[i]);
        out.push(n.date.clone());
        i = i + 1;
    }
    assert forall|a: int, b: int| 0 <= a < b < out@.len() implies (#[trigger] out@[a])@ != (
    #[trigger] out@[b])@ by {
        assert(date_lt(days@[a], days@[b]));
    }
    out
}

} // verus!
