use crate::date::{date_before, date_lt, valid_date_ymd, ymd_of, Date};
use crate::error::ServiceError;
use vstd::prelude::*;

verus! {

/// One stored note: its owner, its date (parsed and as written) and its text.
#[derive(Clone, Debug, PartialEq, Eq)]
pub struct Note {
    pub id: u64,
    pub user_id: u32,
    pub day: Date,
    pub date: String,
    pub content: String,
}

/// The key that makes a note unique: owner and calendar date.
pub open spec fn note_key(n: Note) -> (u32, Date) {
    (n.user_id, n.day)
}

/// Whether a text is a calendar date under `YYYY-MM-DD`.
pub open spec fn is_date(s: Seq<char>) -> bool {
    ymd_of(s) is Some
}

/// The calendar date that a date text names.
pub open spec fn day_of(s: Seq<char>) -> Date {
    let t = ymd_of(s)->Some_0;
    Date { year: t.0, month: t.1, day: t.2 }
}

/// Each date comes before the next, so none is repeated.
pub open spec fn strictly_ascending(ds: Seq<Date>) -> bool {
    forall|a: int, b: int| 0 <= a < b < ds.len() ==> date_lt(#[trigger] ds[a], #[trigger] ds[b])
}

impl Note {
    pub fn duplicate(&self) -> (r: Note)
        ensures
            r == *self,
    {
        Note {
            id: self.id,
            user_id: self.user_id,
            day: self.day,
            date: self.date.clone(),
            content: self.content.clone(),
        }
    }
}

/// All notes, at most one per owner and date.
///
/// Its view maps each (owner, date) key to the note stored there.
pub struct NoteStore {
    pub(crate) notes: Vec<Note>,
    pub(crate) next_id: u64,
    pub(crate) model: Ghost<Map<(u32, Date), Note>>,
}

impl View for NoteStore {
    type V = Map<(u32, Date), Note>;

    closed spec fn view(&self) -> Map<(u32, Date), Note> {
        self.model@
    }
}

impl NoteStore {
    /// The notes in storage order, each keyed consistently with the view and
    /// with identifiers below the next one to hand out, all distinct.
    pub open(crate) spec fn wf(&self) -> bool {
        let s = self.notes@;
        &&& forall|i: int|
            0 <= i < s.len() ==> #[trigger] self.model@.contains_key(note_key(s[i]))
                && self.model@[note_key(s[i])] == s[i]
        &&& forall|k: (u32, Date)| #[trigger]
            self.model@.contains_key(k) ==> exists|i: int| 0 <= i < s.len() && note_key(s[i]) == k
        &&& forall|i: int, j: int|
            0 <= i < s.len() && 0 <= j < s.len() && i != j ==> note_key(s[i]) != note_key(s[j])
                && s[i].id != s[j].id
        &&& forall|i: int| 0 <= i < s.len() ==> #[trigger] s[i].id < self.next_id
        &&& forall|i: int|
            0 <= i < s.len() ==> ymd_of(#[trigger] s[i].date@) == Some(s[i].day.ymd())
    }

    /// No identifier is left to hand out to a new note.
    pub open(crate) spec fn ids_exhausted(&self) -> bool {
        self.next_id == u64::MAX
    }

    /// The notes in the order in which they are stored.
    pub open(crate) spec fn seq(&self) -> Seq<Note> {
        self.notes@
    }

    pub(crate) proof fn reveal_view(&self)
        ensures
            self@ == self.model@,
    {
    }

    pub fn new() -> (r: NoteStore)
        ensures
            r.wf(),
            r@ == Map::<(u32, Date), Note>::empty(),
            r.seq() == Seq::<Note>::empty(),
            !r.ids_exhausted(),
    {
        NoteStore { notes: Vec::new(), next_id: 1, model: Ghost(Map::empty()) }
    }

    /// Where the note of this owner and date stands, if there is one.
    fn find(&self, user_id: u32, day: Date) -> (r: Option<usize>)
        requires
            self.wf(),
        ensures
            r matches Some(i) ==> i < self.notes@.len() && note_key(self.notes@[i as int]) == (
            user_id, day),
            r is None ==> !self@.contains_key((user_id, day)),
    {
        let mut i: usize = 0;
        while i < self.notes.len()
            invariant
                self.wf(),
                i <= self.notes@.len(),
                forall|j: int| 0 <= j < i ==> note_key(self.notes@[j]) != (user_id, day),
            decreases self.notes@.len() - i,
        {
            if self.notes[i].user_id == user_id && self.notes[i].day == day {
                return Some(i);
            }
            i = i + 1;
        }
        None
    }

    /// The note of this owner on a date that the store holds.
    pub fn note_on(&self, user_id: u32, day: Date) -> (r: &Note)
        requires
            self.wf(),
            self@.contains_key((user_id, day)),
        ensures
            *r == self@[(user_id, day)],
            r.day == day,
            ymd_of(r.date@) == Some(day.ymd()),
    {
        let i = self.find(user_id, day).unwrap();
        &self.notes[i]
    }

    /// Stores a new note for this owner and date text.
    ///
    /// `BadRequest` when the text is no date, `Conflict` when the owner has a
    /// note on that date already; otherwise the note is added under a fresh
    /// identifier, which is returned.
    pub fn create(&mut self, user_id: u32, date: &str, content: String) -> (r: Result<
        u64,
        ServiceError,
    >)
        requires
            old(self).wf(),
        ensures
            final(self).wf(),
            !is_date(date@) ==> r == Err::<u64, ServiceError>(ServiceError::BadRequest),
            is_date(date@) && old(self)@.contains_key((user_id, day_of(date@))) ==> r == Err::<
                u64,
                ServiceError,
            >(ServiceError::Conflict),
            is_date(date@) && !old(self)@.contains_key((user_id, day_of(date@))) ==> if old(
                self,
            ).ids_exhausted() {
                r == Err::<u64, ServiceError>(ServiceError::Internal)
            } else {
                r is Ok
            },
            r is Err ==> *final(self) == *old(self),
            r matches Ok(id) ==> final(self)@ == old(self)@.insert(
                (user_id, day_of(date@)),
                final(self)@[(user_id, day_of(date@))],
            ) && final(self)@[(user_id, day_of(date@))].id == id
                && final(self)@[(user_id, day_of(date@))].user_id == user_id
                && final(self)@[(user_id, day_of(date@))].day == day_of(date@)
                && final(self)@[(user_id, day_of(date@))].date@ == date@
                && final(self)@[(user_id, day_of(date@))].content@ == content@,
    {
        let day = match valid_date_ymd(date) {
            Some(d) => d,
            None => {
                return Err(ServiceError::BadRequest);
            },
        };
        if self.find(user_id, day).is_some() {
            return Err(ServiceError::Conflict);
        }
        if self.next_id == u64::MAX {
            return Err(ServiceError::Internal);
        }
        let id = self.next_id;
        let note = Note { id, user_id, day, date: date.to_owned(), content };
        self.insert_new(note);
        Ok(id)
    }

    /// The note of this owner on this date.
    ///
    /// `BadRequest` when the text is no date, `NotFound` when there is none.
    pub fn get(&self, user_id: u32, date: &str) -> (r: Result<&Note, ServiceError>)
        requires
            self.wf(),
        ensures
            !is_date(date@) ==> r == Err::<&Note, ServiceError>(ServiceError::BadRequest),
            is_date(date@) && !self@.contains_key((user_id, day_of(date@))) ==> r == Err::<
                &Note,
                ServiceError,
            >(ServiceError::NotFound),
            is_date(date@) && self@.contains_key((user_id, day_of(date@))) ==> (r matches Ok(n)
                && *n == self@[(user_id, day_of(date@))]),
    {
        let day = match valid_date_ymd(date) {
            Some(d) => d,
            None => {
                return Err(ServiceError::BadRequest);
            },
        };
        match self.find(user_id, day) {
            Some(i) => Ok(&self.notes[i]),
            None => Err(ServiceError::NotFound),
        }
    }

    /// Replaces the text of the note of this owner on this date.
    ///
    /// `BadRequest` when the text is no date, `NotFound` when there is no such
    /// note (and nothing is created); otherwise only that note's text changes.
    pub fn update(&mut self, user_id: u32, date: &str, content: String) -> (r: Result<
        (),
        ServiceError,
    >)
        requires
            old(self).wf(),
        ensures
            final(self).wf(),
            !is_date(date@) ==> r == Err::<(), ServiceError>(ServiceError::BadRequest),
            is_date(date@) && !old(self)@.contains_key((user_id, day_of(date@))) ==> r == Err::<
                (),
                ServiceError,
            >(ServiceError::NotFound),
            is_date(date@) && old(self)@.contains_key((user_id, day_of(date@))) ==> r is Ok,
            r is Err ==> *final(self) == *old(self),
            r is Ok ==> final(self)@ == old(self)@.insert(
                (user_id, day_of(date@)),
                Note { content, ..old(self)@[(user_id, day_of(date@))] },
            ),
    {
        let day = match valid_date_ymd(date) {
            Some(d) => d,
            None => {
                return Err(ServiceError::BadRequest);
            },
        };
        let i = match self.find(user_id, day) {
            Some(i) => i,
            None => {
                return Err(ServiceError::NotFound);
            },
        };
        let ghost old_notes = self.notes@;
        let ghost k = (user_id, day);
        let ghost n = Note { content, ..old_notes[i as int] };
        self.notes[i].content = content;
        self.model = Ghost(self.model@.insert(k, n));
        proof {
            let s = self.notes@;
            assert(s == old_notes.update(i as int, n));
            assert forall|k2: (u32, Date)| #[trigger]
                self.model@.contains_key(k2) implies exists|j: int|
                0 <= j < s.len() && note_key(s[j]) == k2 by {
                let j = choose|j: int| 0 <= j < old_notes.len() && note_key(old_notes[j]) == k2;
                assert(note_key(s[j]) == note_key(old_notes[j]));
            }
            assert forall|j: int| 0 <= j < s.len() implies #[trigger] self.model@.contains_key(
                note_key(s[j]),
            ) && self.model@[note_key(s[j])] == s[j] by {
                if j != i {
                    assert(s[j] == old_notes[j]);
                }
            }
            assert forall|j: int| 0 <= j < s.len() implies ymd_of(#[trigger] s[j].date@) == Some(
                s[j].day.ymd(),
            ) by {
                assert(s[j].date == old_notes[j].date);
            }
        }
        Ok(())
    }

    /// Removes the note of this owner on this date.
    ///
    /// `BadRequest` when the text is no date, `NotFound` when there is no such
    /// note; otherwise that note, and no other, is gone.
    pub fn delete(&mut self, user_id: u32, date: &str) -> (r: Result<(), ServiceError>)
        requires
            old(self).wf(),
        ensures
            final(self).wf(),
            !is_date(date@) ==> r == Err::<(), ServiceError>(ServiceError::BadRequest),
            is_date(date@) && !old(self)@.contains_key((user_id, day_of(date@))) ==> r == Err::<
                (),
                ServiceError,
            >(ServiceError::NotFound),
            is_date(date@) && old(self)@.contains_key((user_id, day_of(date@))) ==> r is Ok,
            r is Err ==> *final(self) == *old(self),
            r is Ok ==> final(self)@ == old(self)@.remove((user_id, day_of(date@))),
    {
        let day = match valid_date_ymd(date) {
            Some(d) => d,
            None => {
                return Err(ServiceError::BadRequest);
            },
        };
        let i = match self.find(user_id, day) {
            Some(i) => i,
            None => {
                return Err(ServiceError::NotFound);
            },
        };
        let ghost old_notes = self.notes@;
        let ghost k = (user_id, day);
        self.notes.remove(i);
        self.model = Ghost(self.model@.remove(k));
        proof {
            let s = self.notes@;
            assert(s == old_notes.remove(i as int));
            assert forall|j: int| 0 <= j < s.len() implies #[trigger] self.model@.contains_key(
                note_key(s[j]),
            ) && self.model@[note_key(s[j])] == s[j] by {
                if j < i {
                    assert(s[j] == old_notes[j]);
                } else {
                    assert(s[j] == old_notes[j + 1]);
                }
            }
            assert forall|k2: (u32, Date)| #[trigger]
                self.model@.contains_key(k2) implies exists|j: int|
                0 <= j < s.len() && note_key(s[j]) == k2 by {
                let j = choose|j: int| 0 <= j < old_notes.len() && note_key(old_notes[j]) == k2;
                assert(j != i);
                if j < i {
                    assert(s[j] == old_notes[j]);
                } else {
                    assert(s[j - 1] == old_notes[j]);
                }
            }
            assert forall|a: int, b: int|
                0 <= a < s.len() && 0 <= b < s.len() && a != b implies note_key(s[a]) != note_key(
                s[b],
            ) && s[a].id != s[b].id by {
                let a0 = if a < i { a } else { a + 1 };
                let b0 = if b < i { b } else { b + 1 };
                assert(s[a] == old_notes[a0]);
                assert(s[b] == old_notes[b0]);
            }
            assert forall|j: int| 0 <= j < s.len() implies #[trigger] s[j].id < self.next_id by {
                if j < i {
                    assert(s[j] == old_notes[j]);
                } else {
                    assert(s[j] == old_notes[j + 1]);
                }
            }
            assert forall|j: int| 0 <= j < s.len() implies ymd_of(#[trigger] s[j].date@) == Some(
                s[j].day.ymd(),
            ) by {
                if j < i {
                    assert(s[j] == old_notes[j]);
                } else {
                    assert(s[j] == old_notes[j + 1]);
                }
            }
        }
        Ok(())
    }

    /// The dates on which this owner has a note, each once, in ascending
    /// chronological order.
    pub fn list_dates(&self, user_id: u32) -> (r: Vec<Date>)
        requires
            self.wf(),
        ensures
            strictly_ascending(r@),
            forall|d: Date| #[trigger] r@.contains(d) <==> self@.contains_key((user_id, d)),
    {
        let mut out: Vec<Date> = Vec::new();
        let mut i: usize = 0;
        while i < self.notes.len()
            invariant
                self.wf(),
                i <= self.notes@.len(),
                strictly_ascending(out@),
                forall|d: Date|
                    #[trigger] out@.contains(d) <==> exists|j: int|
                        0 <= j < i && note_key(self.notes@[j]) == (user_id, d),
            decreases self.notes@.len() - i,
        {
            if self.notes[i].user_id == user_id {
                let d = self.notes[i].day;
                let mut pos: usize = 0;
                while pos < out.len() && date_before(&out[pos], &d)
                    invariant
                        pos <= out@.len(),
                        forall|j: int| 0 <= j < pos ==> date_lt(#[trigger] out@[j], d),
                    decreases out@.len() - pos,
                {
                    pos = pos + 1;
                }
                if pos == out.len() || out[pos] != d {
                    let ghost before = out@;
                    out.insert(pos, d);
                    proof {
                        assert(out@ == before.insert(pos as int, d));
                        assert forall|a: int, b: int|
                            0 <= a < b < out@.len() implies date_lt(
                            #[trigger] out@[a],
                            #[trigger] out@[b],
                        ) by {
                            if pos < before.len() {
                                assert(!date_lt(before[pos as int], d));
                            }
                            if a < pos && b > pos {
                                assert(date_lt(before[a], before[b - 1]));
                            }
                        }
                        assert forall|e: Date| #[trigger] out@.contains(e) implies before.contains(e)
                            || e == d by {
                            let j = choose|j: int| 0 <= j < out@.len() && out@[j] == e;
                            if j < pos {
                                assert(before[j] == e);
                            } else if j > pos {
                                assert(before[j - 1] == e);
                            }
                        }
                        assert forall|e: Date| before.contains(e) implies #[trigger] out@.contains(e) by {
                            let j = choose|j: int| 0 <= j < before.len() && before[j] == e;
                            if j < pos {
                                assert(out@[j] == e);
                            } else {
                                assert(out@[j + 1] == e);
                            }
                        }
                        assert(out@[pos as int] == d);
                    }
                }
                proof {
                    assert forall|e: Date|
                        #[trigger] out@.contains(e) <==> exists|j: int|
                            0 <= j < i + 1 && note_key(self.notes@[j]) == (user_id, e) by {
                        if exists|j: int| 0 <= j < i + 1 && note_key(self.notes@[j]) == (user_id, e) {
                            let j = choose|j: int| 0 <= j < i + 1 && note_key(self.notes@[j]) == (user_id, e);
                            if j == i {
                                if pos < out@.len() && out@[pos as int] == d {
                                    assert(out@.contains(e));
                                }
                            }
                        }
                    }
                }
            }
            i = i + 1;
        }
        proof {
            assert forall|d: Date| #[trigger] self@.contains_key((user_id, d)) implies out@.contains(d) by {
                let j = choose|j: int| 0 <= j < self.notes@.len() && note_key(self.notes@[j]) == (user_id, d);
            }
        }
        out
    }

    /// Adds a note whose key is free and whose identifier is unused, keeping
    /// the next identifier above every stored one.
    pub(crate) fn insert_new(&mut self, note: Note)
        requires
            old(self).wf(),
            !old(self)@.contains_key(note_key(note)),
            forall|i: int| 0 <= i < old(self).notes@.len() ==> #[trigger] old(self).notes@[i].id != note.id,
            note.id < u64::MAX,
            ymd_of(note.date@) == Some(note.day.ymd()),
        ensures
            final(self).wf(),
            final(self).seq() == old(self).seq().push(note),
            final(self)@ == old(self)@.insert(note_key(note), note),
    {
        let ghost k = note_key(note);
        let ghost old_notes = self.notes@;
        let ghost n = note;
        if note.id >= self.next_id {
            self.next_id = note.id + 1;
        }
        self.notes.push(note);
        self.model = Ghost(self.model@.insert(k, n));
        proof {
            let s = self.notes@;
            assert forall|k2: (u32, Date)| #[trigger]
                self.model@.contains_key(k2) implies exists|i: int|
                0 <= i < s.len() && note_key(s[i]) == k2 by {
                if k2 == k {
                    assert(note_key(s[s.len() - 1]) == k2);
                } else {
                    let i = choose|i: int| 0 <= i < old_notes.len() && note_key(old_notes[i]) == k2;
                    assert(s[i] == old_notes[i]);
                }
            }
            assert forall|i: int| 0 <= i < s.len() implies #[trigger] self.model@.contains_key(
                note_key(s[i]),
            ) && self.model@[note_key(s[i])] == s[i] by {
                if i < old_notes.len() {
                    assert(s[i] == old_notes[i]);
                }
            }
            assert forall|i: int| 0 <= i < s.len() implies #[trigger] s[i].id < self.next_id by {
                if i < old_notes.len() {
                    assert(s[i] == old_notes[i]);
                }
            }
            assert forall|a: int, b: int|
                0 <= a < s.len() && 0 <= b < s.len() && a != b implies note_key(s[a]) != note_key(
                s[b],
            ) && s[a].id != s[b].id by {
                if a < old_notes.len() {
                    assert(s[a] == old_notes[a]);
                }
                if b < old_notes.len() {
                    assert(s[b] == old_notes[b]);
                }
            }
        }
    }
    /// Two well-formed stores that hold the same notes in the same order have
    /// the same view.
    pub(crate) proof fn lemma_view_of_seq(a: &NoteStore, b: &NoteStore)
        requires
            a.wf(),
            b.wf(),
            a.seq() == b.seq(),
        ensures
            a@ == b@,
    {
        assert forall|k: (u32, Date)| a.model@.contains_key(k) <==> b.model@.contains_key(k) by {
            if a.model@.contains_key(k) {
                let i = choose|i: int| 0 <= i < a.notes@.len() && note_key(a.notes@[i]) == k;
                assert(b.model@.contains_key(note_key(b.notes@[i])));
            }
            if b.model@.contains_key(k) {
                let i = choose|i: int| 0 <= i < b.notes@.len() && note_key(b.notes@[i]) == k;
                assert(a.model@.contains_key(note_key(a.notes@[i])));
            }
        }
        assert forall|k: (u32, Date)| #[trigger] a.model@.contains_key(k) implies a.model@[k]
            == b.model@[k] by {
            let i = choose|i: int| 0 <= i < a.notes@.len() && note_key(a.notes@[i]) == k;
            assert(a.model@[note_key(a.notes@[i])] == a.notes@[i]);
            assert(b.model@[note_key(b.notes@[i])] == b.notes@[i]);
        }
        assert(a.model@ =~= b.model@);
    }
}

/// From the store that a successful `create(owner, date, content)` leaves:
/// the key of that owner and date is present and holds `content`. By the
/// contracts of `get` and `create` that is exactly when `get` returns a note
/// with `content` and a second `create` for the key returns `Conflict`; every
/// other key is as it was.
pub proof fn lemma_create_then_get(
    before: NoteStore,
    after: NoteStore,
    owner: u32,
    date: Seq<char>,
    content: Seq<char>,
)
    requires
        is_date(date),
        after@ == before@.insert((owner, day_of(date)), after@[(owner, day_of(date))]),
        after@[(owner, day_of(date))].content@ == content,
    ensures
        after@.contains_key((owner, day_of(date))),
        after@[(owner, day_of(date))].content@ == content,
        forall|k: (u32, Date)|
            k != (owner, day_of(date)) ==> (#[trigger] after@.contains_key(k) == before@.contains_key(
                k,
            ) && (before@.contains_key(k) ==> after@[k] == before@[k])),
{
}

/// Two creates for one owner and date on an empty store: whichever runs
/// second finds the key taken, and afterwards exactly one note exists.
pub proof fn lemma_two_creates_one_note(empty: NoteStore, after: NoteStore, owner: u32, date: Seq<char>)
    requires
        is_date(date),
        empty@ == Map::<(u32, Date), Note>::empty(),
        after@ == empty@.insert((owner, day_of(date)), after@[(owner, day_of(date))]),
    ensures
        after@.contains_key((owner, day_of(date))),
        after@.dom() == set![(owner, day_of(date))],
        after@.len() == 1,
{
    assert(after@.dom() =~= set![(owner, day_of(date))]);
    assert(set![(owner, day_of(date))].len() == 1) by {
        assert(set![(owner, day_of(date))] == Set::<(u32, Date)>::empty().insert((owner, day_of(date))));
    }
}

/// From the store that a successful `delete(owner, date)` leaves: the key
/// is absent, which by the contracts of `get` and `delete` is exactly when
/// both return `NotFound` for it; every other key is as it was.
pub proof fn lemma_delete_then_missing(before: NoteStore, after: NoteStore, owner: u32, date: Seq<char>)
    requires
        is_date(date),
        after@ == before@.remove((owner, day_of(date))),
    ensures
        !after@.contains_key((owner, day_of(date))),
        forall|k: (u32, Date)|
            k != (owner, day_of(date)) ==> (#[trigger] after@.contains_key(k) == before@.contains_key(
                k,
            ) && (before@.contains_key(k) ==> after@[k] == before@[k])),
{
}

} // verus!
