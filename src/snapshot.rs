use crate::date::{valid_date_ymd, Date};
use crate::error::ServiceError;
use crate::identity::{users_wf, IdentityStore, User};
use crate::notes::{day_of, is_date, note_key, Note, NoteStore};
use vstd::prelude::*;

verus! {

/// A note as it travels in a snapshot: its date only as text.
#[derive(Clone, Debug, PartialEq, Eq)]
pub struct ExportedNote {
    pub id: u64,
    pub user_id: u32,
    pub date: String,
    pub content: String,
}

/// Every user and every note at one point in time.
#[derive(Clone, Debug, PartialEq, Eq)]
pub struct Snapshot {
    pub users: Vec<User>,
    pub notes: Vec<ExportedNote>,
}

/// The snapshot form of a stored note.
pub open spec fn exported_of(n: Note) -> ExportedNote {
    ExportedNote { id: n.id, user_id: n.user_id, date: n.date, content: n.content }
}

/// The stored form of a snapshot note whose date text is a date.
pub open spec fn note_of(e: ExportedNote) -> Note {
    Note { id: e.id, user_id: e.user_id, day: day_of(e.date@), date: e.date, content: e.content }
}

/// Two snapshot notes that may stand side by side: other identifiers and
/// another owner or date.
pub open spec fn notes_apart(a: ExportedNote, b: ExportedNote) -> bool {
    a.id != b.id && (a.user_id, day_of(a.date@)) != (b.user_id, day_of(b.date@))
}

/// Every date text is a date, every identifier leaves room for a successor,
/// and no two notes share an identifier or an owner and date.
pub open spec fn notes_valid(ns: Seq<ExportedNote>) -> bool {
    &&& forall|i: int| 0 <= i < ns.len() ==> is_date((#[trigger] ns[i]).date@) && ns[i].id < u64::MAX
    &&& forall|i: int, j: int|
        0 <= i < ns.len() && 0 <= j < ns.len() && i != j ==> notes_apart(
            #[trigger] ns[i],
            #[trigger] ns[j],
        )
}

/// The users are well formed and every identifier leaves room for a successor.
pub open spec fn users_valid(us: Seq<User>) -> bool {
    users_wf(us) && forall|i: int| 0 <= i < us.len() ==> (#[trigger] us[i]).id < u32::MAX
}

/// Whether some user in `us` has the identifier `id`.
pub open spec fn user_known(us: Seq<User>, id: u32) -> bool {
    exists|j: int| 0 <= j < us.len() && (#[trigger] us[j]).id == id
}

/// Every note belongs to one of the users.
pub open spec fn owners_present(us: Seq<User>, ns: Seq<ExportedNote>) -> bool {
    forall|i: int| 0 <= i < ns.len() ==> user_known(us, (#[trigger] ns[i]).user_id)
}

/// A snapshot that an import accepts.
pub open spec fn snapshot_valid(s: Snapshot) -> bool {
    users_valid(s.users@) && notes_valid(s.notes@) && owners_present(s.users@, s.notes@)
}

/// Checks `owners_present`.
fn check_owners(us: &Vec<User>, ns: &Vec<ExportedNote>) -> (r: bool)
    ensures
        r == owners_present(us@, ns@),
{
    let mut i: usize = 0;
    while i < ns.len()
        invariant
            i <= ns@.len(),
            forall|a: int| 0 <= a < i ==> user_known(us@, (#[trigger] ns@[a]).user_id),
        decreases ns@.len() - i,
    {
        let owner = ns[i].user_id;
        let mut j: usize = 0;
        while j < us.len() && us[j].id != owner
            invariant
                j <= us@.len(),
                forall|b: int| 0 <= b < j ==> (#[trigger] us@[b]).id != owner,
            decreases us@.len() - j,
        {
            j = j + 1;
        }
        if j == us.len() {
            return false;
        }
        assert(us@[j as int].id == owner);
        i = i + 1;
    }
    true
}

/// Checks `users_valid`.
fn check_users(us: &Vec<User>) -> (r: bool)
    ensures
        r == users_valid(us@),
{
    let mut i: usize = 0;
    while i < us.len()
        invariant
            i <= us@.len(),
            forall|a: int|
                0 <= a < i ==> (#[trigger] us@[a]).username@.len() > 0 && us@[a].id < u32::MAX && (
                us@[a].token matches Some(x) ==> x@.len() > 0),
            forall|a: int, b: int|
                0 <= a < i && 0 <= b < i && a != b ==> (#[trigger] us@[a]).id != (
                #[trigger] us@[b]).id && us@[a].username@ != us@[b].username@ && (us@[a].token is Some
                    && us@[b].token is Some ==> us@[a].token->Some_0@ != us@[b].token->Some_0@),
        decreases us@.len() - i,
    {
        let u = &us[i];
        if u.username.as_str().is_empty() || u.id == u32::MAX {
            proof {
                assert(!users_valid(us@)) by {
                    assert(us@[i as int].username@.len() == 0 || us@[i as int].id == u32::MAX);
                }
            }
            return false;
        }
        match &u.token {
            Some(t) => {
                if t.as_str().is_empty() {
                    proof {
                        assert(!users_wf(us@)) by {
                            assert(us@[i as int].token->Some_0@.len() == 0);
                        }
                    }
                    return false;
                }
            },
            None => {},
        }
        let mut j: usize = 0;
        while j < i
            invariant
                i < us@.len(),
                j <= i,
                *u == us@[i as int],
                forall|b: int|
                    0 <= b < j ==> us@[i as int].id != (#[trigger] us@[b]).id && us@[i as int].username@
                        != us@[b].username@ && (us@[i as int].token is Some && us@[b].token is Some
                        ==> us@[i as int].token->Some_0@ != us@[b].token->Some_0@),
            decreases i - j,
        {
            let v = &us[j];
            if u.id == v.id || u.username.eq(&v.username) {
                proof {
                    assert(!users_wf(us@)) by {
                        assert(us@[i as int].id == us@[j as int].id || us@[i as int].username@
                            == us@[j as int].username@);
                    }
                }
                return false;
            }
            let same_token = match (&u.token, &v.token) {
                (Some(a), Some(b)) => a.eq(b),
                _ => false,
            };
            if same_token {
                proof {
                    assert(!users_wf(us@)) by {
                        assert(us@[i as int].token is Some && us@[j as int].token is Some);
                        assert(us@[i as int].token->Some_0@ == us@[j as int].token->Some_0@);
                    }
                }
                return false;
            }
            j = j + 1;
        }
        i = i + 1;
    }
    true
}

/// Checks `notes_valid` and hands back the date of each note.
fn check_notes(ns: &Vec<ExportedNote>) -> (r: Option<Vec<Date>>)
    ensures
        r is Some <==> notes_valid(ns@),
        r matches Some(days) ==> days@.len() == ns@.len() && forall|i: int|
            0 <= i < ns@.len() ==> day_of(ns@[i].date@) == #[trigger] days@[i] && crate::date::ymd_of(
                ns@[i].date@,
            ) == Some(days@[i].ymd()),
{
    let mut days: Vec<Date> = Vec::new();
    let mut i: usize = 0;
    while i < ns.len()
        invariant
            i <= ns@.len(),
            days@.len() == i,
            forall|a: int|
                0 <= a < i ==> is_date((#[trigger] ns@[a]).date@) && ns@[a].id < u64::MAX && day_of(
                    ns@[a].date@,
                ) == days@[a] && crate::date::ymd_of(ns@[a].date@) == Some(days@[a].ymd()),
            forall|a: int, b: int|
                0 <= a < i && 0 <= b < i && a != b ==> notes_apart(
                    #[trigger] ns@[a],
                    #[trigger] ns@[b],
                ),
        decreases ns@.len() - i,
    {
        let e = &ns[i];
        if e.id == u64::MAX {
            return None;
        }
        let d = match valid_date_ymd(e.date.as_str()) {
            Some(d) => d,
            None => {
                return None;
            },
        };
        assert(day_of(ns@[i as int].date@) == d);
        let mut j: usize = 0;
        while j < i
            invariant
                i < ns@.len(),
                j <= i,
                *e == ns@[i as int],
                days@.len() == i,
                day_of(ns@[i as int].date@) == d,
                forall|a: int| 0 <= a < i ==> day_of((#[trigger] ns@[a]).date@) == days@[a],
                forall|b: int| 0 <= b < j ==> notes_apart(ns@[i as int], #[trigger] ns@[b]),
            decreases i - j,
        {
            if e.id == ns[j].id || (e.user_id == ns[j].user_id && d == days[j]) {
                proof {
                    assert(day_of(ns@[j as int].date@) == days@[j as int]);
                    assert(!notes_apart(ns@[i as int], ns@[j as int]));
                }
                return None;
            }
            assert(day_of(ns@[j as int].date@) == days@[j as int]);
            j = j + 1;
        }
        days.push(d);
        i = i + 1;
    }
    Some(days)
}

/// Both stores: the whole dataset.
pub struct Database {
    pub users: IdentityStore,
    pub notes: NoteStore,
}

impl Database {
    pub open spec fn wf(&self) -> bool {
        self.users.wf() && self.notes.wf()
    }

    /// Every note belongs to a registered user.
    pub open spec fn owners_known(&self) -> bool {
        forall|k: (u32, Date)| #[trigger] self.notes@.contains_key(k) ==> user_known(self.users@, k.0)
    }

    pub fn new() -> (r: Database)
        ensures
            r.wf(),
            r.users@ == Seq::<User>::empty(),
            r.notes@ == Map::<(u32, Date), Note>::empty(),
            !r.users.ids_exhausted(),
            !r.notes.ids_exhausted(),
            r.owners_known(),
    {
        Database { users: IdentityStore::new(), notes: NoteStore::new() }
    }

    /// The whole dataset as a snapshot: every user, then every note, each in
    /// storage order.
    pub fn export(&self) -> (r: Snapshot)
        requires
            self.wf(),
        ensures
            r.users@ == self.users@,
            r.notes@ == self.notes.seq().map_values(|n: Note| exported_of(n)),
    {
        proof {
            self.users.reveal_view();
        }
        let mut users: Vec<User> = Vec::new();
        let mut i: usize = 0;
        while i < self.users.users.len()
            invariant
                i <= self.users@.len(),
                self.users@ == self.users.users@,
                users@ == self.users@.take(i as int),
            decreases self.users@.len() - i,
        {
            users.push(self.users.users[i].duplicate());
            i = i + 1;
            assert(users@ == self.users@.take(i as int));
        }
        let mut notes: Vec<ExportedNote> = Vec::new();
        let mut j: usize = 0;
        while j < self.notes.notes.len()
            invariant
                j <= self.notes.seq().len(),
                notes@ == self.notes.seq().take(j as int).map_values(|n: Note| exported_of(n)),
            decreases self.notes.seq().len() - j,
        {
            let n = &self.notes.notes[j];
            notes.push(
                ExportedNote {
                    id: n.id,
                    user_id: n.user_id,
                    date: n.date.clone(),
                    content: n.content.clone(),
                },
            );
            j = j + 1;
            assert(notes@ == self.notes.seq().take(j as int).map_values(|n: Note| exported_of(n)));
        }
        assert(users@ == self.users@.take(self.users@.len() as int));
        assert(self.notes.seq().take(j as int) == self.notes.seq());
        Snapshot { users, notes }
    }

    /// Replaces the whole dataset with a snapshot, all or nothing.
    ///
    /// This discards every user and note held before, with no backup of them.
    /// A snapshot that is not valid is refused with `Malformed` before
    /// anything changes.
    pub fn import(&mut self, snap: Snapshot) -> (r: Result<(), ServiceError>)
        requires
            old(self).wf(),
        ensures
            final(self).wf(),
            r is Ok <==> snapshot_valid(snap),
            r is Err ==> r == Err::<(), ServiceError>(ServiceError::Malformed) && *final(self) == *old(
                self,
            ),
            r is Ok ==> final(self).users@ == snap.users@ && final(self).notes.seq()
                == snap.notes@.map_values(|e: ExportedNote| note_of(e)),
            r is Ok ==> final(self).owners_known(),
    {
        if !check_users(&snap.users) {
            return Err(ServiceError::Malformed);
        }
        if !check_owners(&snap.users, &snap.notes) {
            return Err(ServiceError::Malformed);
        }
        let days = match check_notes(&snap.notes) {
            Some(d) => d,
            None => {
                return Err(ServiceError::Malformed);
            },
        };
        let mut users = IdentityStore::new();
        let mut i: usize = 0;
        while i < snap.users.len()
            invariant
                i <= snap.users@.len(),
                users_valid(snap.users@),
                users.wf(),
                users@ == snap.users@.take(i as int),
            decreases snap.users@.len() - i,
        {
            let u = snap.users[i].duplicate();
            proof {
                let t = snap.users@.take(i as int + 1);
                assert(users@.push(u) == t);
                assert forall|a: int, b: int|
                    0 <= a < t.len() && 0 <= b < t.len() && a != b implies t[a].id != t[b].id
                        && t[a].username@ != t[b].username@ by {
                    assert(t[a] == snap.users@[a] && t[b] == snap.users@[b]);
                }
                assert forall|a: int, b: int|
                    0 <= a < t.len() && 0 <= b < t.len() && a != b && (#[trigger] t[a]).token is Some
                        && (#[trigger] t[b]).token is Some implies t[a].token->Some_0@
                    != t[b].token->Some_0@ by {
                    assert(t[a] == snap.users@[a] && t[b] == snap.users@[b]);
                }
                assert forall|a: int| 0 <= a < t.len() implies (#[trigger] t[a]).username@.len() > 0
                    && (t[a].token matches Some(x) ==> x@.len() > 0) by {
                    assert(t[a] == snap.users@[a]);
                }
                assert(snap.users@[i as int].id < u32::MAX);
            }
            users.insert_user(u);
            i = i + 1;
        }
        let ghost mapped = snap.notes@.map_values(|e: ExportedNote| note_of(e));
        let mut notes = NoteStore::new();
        let mut j: usize = 0;
        while j < snap.notes.len()
            invariant
                j <= snap.notes@.len(),
                notes_valid(snap.notes@),
                days@.len() == snap.notes@.len(),
                forall|a: int|
                    0 <= a < snap.notes@.len() ==> day_of(snap.notes@[a].date@) == #[trigger] days@[a]
                        && crate::date::ymd_of(snap.notes@[a].date@) == Some(days@[a].ymd()),
                mapped == snap.notes@.map_values(|e: ExportedNote| note_of(e)),
                notes.wf(),
                notes.seq() == mapped.take(j as int),
            decreases snap.notes@.len() - j,
        {
            let e = &snap.notes[j];
            let n = Note {
                id: e.id,
                user_id: e.user_id,
                day: days[j],
                date: e.date.clone(),
                content: e.content.clone(),
            };
            proof {
                let ej = snap.notes@[j as int];
                assert(n == note_of(ej));
                assert(ej.id < u64::MAX) by {
                    assert(is_date(snap.notes@[j as int].date@));
                }
                notes.reveal_view();
                if notes@.contains_key(note_key(n)) {
                    let a = choose|a: int|
                        0 <= a < notes.seq().len() && note_key(notes.seq()[a]) == note_key(n);
                    assert(notes.seq()[a] == note_of(snap.notes@[a]));
                    assert(notes_apart(snap.notes@[a], ej));
                }
                assert forall|a: int| 0 <= a < notes.seq().len() implies #[trigger] notes.seq()[a].id
                    != n.id by {
                    assert(notes.seq()[a] == note_of(snap.notes@[a]));
                    assert(notes_apart(snap.notes@[a], ej));
                }
            }
            notes.insert_new(n);
            j = j + 1;
            assert(notes.seq() == mapped.take(j as int));
        }
        assert(users@ == snap.users@);
        assert(mapped.take(j as int) == mapped);
        self.users = users;
        self.notes = notes;
        proof {
            self.notes.reveal_view();
            assert forall|k: (u32, Date)| #[trigger] self.notes@.contains_key(k) implies user_known(
                self.users@,
                k.0,
            ) by {
                let a = choose|a: int|
                    0 <= a < self.notes.seq().len() && note_key(self.notes.seq()[a]) == k;
                assert(self.notes.seq()[a] == note_of(snap.notes@[a]));
                assert(user_known(snap.users@, snap.notes@[a].user_id));
            }
        }
        Ok(())
    }
}

/// Exporting a well-formed dataset, whose notes all belong to its users, and importing that snapshot changes
/// nothing: the snapshot is valid, so the import succeeds, and the dataset it
/// builds holds the same users and the same notes as before.
pub proof fn lemma_export_import_noop(db: Database, snap: Snapshot, back: Database)
    requires
        db.wf(),
        db.owners_known(),
        snap.users@ == db.users@,
        snap.notes@ == db.notes.seq().map_values(|n: Note| exported_of(n)),
    ensures
        snapshot_valid(snap),
        back.wf() && back.users@ == snap.users@ && back.notes.seq() == snap.notes@.map_values(
            |e: ExportedNote| note_of(e),
        ) ==> back.users@ == db.users@ && back.notes@ == db.notes@,
{
    db.users.reveal_view();
    let s = db.notes.seq();
    assert forall|i: int| 0 <= i < s.len() implies note_of(exported_of(#[trigger] s[i])) == s[i] by {
        assert(crate::date::ymd_of(s[i].date@) == Some(s[i].day.ymd()));
    }
    assert(users_valid(snap.users@));
    assert forall|i: int| 0 <= i < snap.notes@.len() implies is_date(
        (#[trigger] snap.notes@[i]).date@,
    ) && snap.notes@[i].id < u64::MAX by {
        assert(crate::date::ymd_of(s[i].date@) == Some(s[i].day.ymd()));
        assert(s[i].id < db.notes.next_id);
    }
    assert forall|i: int, j: int|
        0 <= i < snap.notes@.len() && 0 <= j < snap.notes@.len() && i != j implies notes_apart(
        #[trigger] snap.notes@[i],
        #[trigger] snap.notes@[j],
    ) by {
        assert(note_of(exported_of(s[i])) == s[i]);
        assert(note_of(exported_of(s[j])) == s[j]);
        assert(note_key(s[i]) != note_key(s[j]));
    }
    assert forall|i: int| 0 <= i < snap.notes@.len() implies user_known(
        snap.users@,
        (#[trigger] snap.notes@[i]).user_id,
    ) by {
        db.notes.reveal_view();
        assert(db.notes@.contains_key(note_key(s[i])));
    }
    if back.wf() && back.users@ == snap.users@ && back.notes.seq() == snap.notes@.map_values(
        |e: ExportedNote| note_of(e),
    ) {
        assert(back.notes.seq() =~= s);
        NoteStore::lemma_view_of_seq(&back.notes, &db.notes);
    }
}

/// Importing a valid snapshot and exporting the dataset it builds gives back
/// that snapshot, field for field.
pub proof fn lemma_import_export_round_trip(snap: Snapshot, db: Database, out: Snapshot)
    requires
        snapshot_valid(snap),
        db.users@ == snap.users@,
        db.notes.seq() == snap.notes@.map_values(|e: ExportedNote| note_of(e)),
        out.users@ == db.users@,
        out.notes@ == db.notes.seq().map_values(|n: Note| exported_of(n)),
    ensures
        out.users@ == snap.users@,
        out.notes@ == snap.notes@,
{
    assert(out.notes@ =~= snap.notes@);
}

} // verus!
