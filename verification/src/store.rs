use vstd::prelude::*;

verus! {

/// One committed session: the file name it was stored under and the
/// full bytes that were written in one shot.
pub struct StoreEntry {
    /// The session identifier the entry is filed under.
    pub name: Vec<u8>,
    /// The complete serialized session: header row, then one row per
    /// sample.
    pub data: Vec<u8>,
}

/// Why a commit was refused.
#[derive(Clone, Copy, PartialEq, Eq, Structural, Debug)]
pub enum CommitError {
    /// An entry with the same name exists; it is left untouched.
    AlreadyExists,
}

/// The set of committed sessions: the verified model of the output
/// folder. An entry is created exclusively — a commit under a name that
/// is already present fails and changes nothing — and holds its whole
/// file content at once, so an entry is never partially written.
///
/// The store is the in-run record of what was committed: it keeps every
/// session's bytes for the life of the process, and a caller that
/// mirrors an entry to disk and fails there does not roll the entry
/// back — the disk copy is the caller's to retry or to report.
pub struct SessionStore {
    entries: Vec<StoreEntry>,
}

impl SessionStore {
    /// The committed entries, in commit order, as (name, data) pairs.
    pub closed spec fn entries_view(self) -> Seq<(Seq<u8>, Seq<u8>)> {
        self.entries@.map_values(|e: StoreEntry| (e.name@, e.data@))
    }

    /// Whether some entry is filed under `name`.
    pub open spec fn has_name(self, name: Seq<u8>) -> bool {
        exists|i: int| 0 <= i < self.entries_view().len() && #[trigger] self.entries_view()[i].0
            == name
    }

    /// An empty store: nothing committed yet.
    pub fn new() -> (r: SessionStore)
        ensures
            r.entries_view() == Seq::<(Seq<u8>, Seq<u8>)>::empty(),
    {
        let r = SessionStore { entries: Vec::new() };
        proof {
            assert(r.entries_view() =~= Seq::<(Seq<u8>, Seq<u8>)>::empty());
        }
        r
    }

    /// How many sessions have been committed.
    pub fn len(&self) -> (r: usize)
        ensures
            r == self.entries_view().len(),
    {
        self.entries.len()
    }

    /// The entry at `i`, in commit order.
    pub fn entry_at(&self, i: usize) -> (r: (&Vec<u8>, &Vec<u8>))
        requires
            i < self.entries_view().len(),
        ensures
            (r.0@, r.1@) == self.entries_view()[i as int],
    {
        (&self.entries[i].name, &self.entries[i].data)
    }

    /// Whether a session is already filed under `name`.
    pub fn contains(&self, name: &Vec<u8>) -> (r: bool)
        ensures
            r == self.has_name(name@),
    {
        let mut i: usize = 0;
        while i < self.entries.len()
            invariant
                i <= self.entries.len(),
                forall|j: int| 0 <= j < i ==> #[trigger] self.entries_view()[j].0 != name@,
            decreases self.entries.len() - i,
        {
            if &self.entries[i].name == name {
                assert(self.entries_view()[i as int].0 == name@);
                return true;
            }
            assert(self.entries_view()[i as int].0 != name@);
            i += 1;
        }
        false
    }

    /// Files a finished session under `name` with exclusive-create
    /// semantics: the commit fails if and only if the name is taken, and
    /// a failed commit leaves every stored entry — in particular the
    /// colliding one — byte for byte as it was. A successful commit
    /// stores the whole data at once.
    pub fn commit(&mut self, name: Vec<u8>, data: Vec<u8>) -> (r: Result<(), CommitError>)
        ensures
            r is Ok <==> !old(self).has_name(name@),
            r is Ok ==> final(self).entries_view() == old(self).entries_view().push(
                (name@, data@),
            ),
            r is Err ==> *final(self) == *old(self) && r == Result::<(), CommitError>::Err(
                CommitError::AlreadyExists,
            ),
    {
        if self.contains(&name) {
            return Err(CommitError::AlreadyExists);
        }
        let ghost pre = self.entries_view();
        self.entries.push(StoreEntry { name, data });
        proof {
            assert(self.entries_view() =~= pre.push(
                (self.entries@.last().name@, self.entries@.last().data@),
            ));
        }
        Ok(())
    }
}

} // verus!
