//! The secret store: a table of records keyed by `(project, path)`, with at
//! most one record per key. It exposes get, list, upsert and delete, each
//! specified against a map model from keys to stored content.

use vstd::prelude::*;
use crate::bytes::{bytes_eq, copy_bytes};

verus! {

/// One stored secret: the owning project, the project-relative path of the
/// secret file, and its content (ciphertext at rest).
pub struct SecretRecord {
    pub project: Vec<u8>,
    pub path: Vec<u8>,
    pub content: Vec<u8>,
}

/// The mathematical shape of a record: its three byte strings.
pub ghost struct RecordModel {
    pub project: Seq<u8>,
    pub path: Seq<u8>,
    pub content: Seq<u8>,
}

impl RecordModel {
    /// The unique key of a record.
    pub open spec fn key(self) -> (Seq<u8>, Seq<u8>) {
        (self.project, self.path)
    }
}

impl View for SecretRecord {
    type V = RecordModel;

    open spec fn view(&self) -> RecordModel {
        RecordModel { project: self.project@, path: self.path@, content: self.content@ }
    }
}

impl SecretRecord {
    /// A fresh record holding the same three byte strings.
    pub fn duplicate(&self) -> (r: SecretRecord)
        ensures
            r@ == self@,
    {
        SecretRecord {
            project: copy_bytes(self.project.as_slice()),
            path: copy_bytes(self.path.as_slice()),
            content: copy_bytes(self.content.as_slice()),
        }
    }
}

/// No two records share a key.
pub open spec fn unique_keys(s: Seq<RecordModel>) -> bool {
    forall|i: int, j: int|
        0 <= i < j < s.len() ==> (#[trigger] s[i]).key() != (#[trigger] s[j]).key()
}

/// The map from keys to stored content that a sequence of records holds;
/// later records shadow earlier ones, so under `unique_keys` it is exactly
/// the table.
pub open spec fn map_of(s: Seq<RecordModel>) -> Map<(Seq<u8>, Seq<u8>), Seq<u8>>
    decreases s.len(),
{
    if s.len() == 0 {
        Map::empty()
    } else {
        map_of(s.drop_last()).insert(s.last().key(), s.last().content)
    }
}

/// A key is in the map exactly when some record holds it.
pub proof fn lemma_map_of_contains(s: Seq<RecordModel>, k: (Seq<u8>, Seq<u8>))
    ensures
        map_of(s).contains_key(k) <==> exists|i: int|
            0 <= i < s.len() && (#[trigger] s[i]).key() == k,
    decreases s.len(),
{
    if s.len() > 0 {
        let s0 = s.drop_last();
        lemma_map_of_contains(s0, k);
        if s.last().key() == k {
            assert(s[s.len() - 1].key() == k);
        } else {
            if map_of(s).contains_key(k) {
                let i = choose|i: int| 0 <= i < s0.len() && (#[trigger] s0[i]).key() == k;
                assert(s[i].key() == k);
            }
            if exists|i: int| 0 <= i < s.len() && (#[trigger] s[i]).key() == k {
                let i = choose|i: int| 0 <= i < s.len() && (#[trigger] s[i]).key() == k;
                assert(i < s.len() - 1);
                assert(s0[i].key() == k);
            }
        }
    }
}

/// Under unique keys, the map sends each record's key to its content.
pub proof fn lemma_map_of_index(s: Seq<RecordModel>, i: int)
    requires
        unique_keys(s),
        0 <= i < s.len(),
    ensures
        map_of(s).contains_key(s[i].key()),
        map_of(s)[s[i].key()] == s[i].content,
    decreases s.len(),
{
    let s0 = s.drop_last();
    if i < s.len() - 1 {
        assert forall|a: int, b: int| 0 <= a < b < s0.len() implies (#[trigger] s0[a]).key() != (
        #[trigger] s0[b]).key() by {
            assert(s[a].key() != s[b].key());
        }
        lemma_map_of_index(s0, i);
        assert(s[i].key() != s.last().key());
    }
}

/// Dropping one record removes exactly its key from the map.
pub proof fn lemma_map_of_remove(s: Seq<RecordModel>, i: int)
    requires
        unique_keys(s),
        0 <= i < s.len(),
    ensures
        map_of(s.remove(i)) == map_of(s).remove(s[i].key()),
    decreases s.len(),
{
    let k = s[i].key();
    let s0 = s.drop_last();
    s.remove_ensures(i);
    assert forall|a: int, b: int| 0 <= a < b < s0.len() implies (#[trigger] s0[a]).key() != (
    #[trigger] s0[b]).key() by {
        assert(s[a].key() != s[b].key());
    }
    if i == s.len() - 1 {
        assert(s.remove(i) =~= s0);
        lemma_map_of_contains(s0, k);
        assert forall|a: int| 0 <= a < s0.len() implies (#[trigger] s0[a]).key() != k by {
            assert(s[a].key() != s[s.len() - 1].key());
        }
        assert(!map_of(s0).contains_key(k));
        assert(map_of(s0) =~= map_of(s0).insert(k, s.last().content).remove(k));
    } else {
        lemma_map_of_remove(s0, i);
        let t = s.remove(i);
        assert(t.len() == s.len() - 1);
        assert(t.drop_last() =~= s0.remove(i));
        assert(t.last() == s.last());
        assert(s[i].key() != s.last().key());
        assert(map_of(t) == map_of(s0).remove(k).insert(s.last().key(), s.last().content));
        assert(map_of(s0).remove(k).insert(s.last().key(), s.last().content) =~= map_of(s0).insert(
            s.last().key(),
            s.last().content,
        ).remove(k));
    }
}

/// Under unique keys, a key the map holds is held by exactly one record.
pub proof fn lemma_one_record_per_key(s: Seq<RecordModel>, k: (Seq<u8>, Seq<u8>))
    requires
        unique_keys(s),
        map_of(s).contains_key(k),
    ensures
        exists|i: int| 0 <= i < s.len() && (#[trigger] s[i]).key() == k,
        forall|i: int, j: int|
            0 <= i < s.len() && 0 <= j < s.len() && (#[trigger] s[i]).key() == k && (
            #[trigger] s[j]).key() == k ==> i == j,
{
    lemma_map_of_contains(s, k);
}

/// The records a project owns, in store order.
pub open spec fn project_records(s: Seq<RecordModel>, project: Seq<u8>) -> Seq<RecordModel>
    decreases s.len(),
{
    if s.len() == 0 {
        Seq::empty()
    } else if s.last().project == project {
        project_records(s.drop_last(), project).push(s.last())
    } else {
        project_records(s.drop_last(), project)
    }
}

/// The project listing is sound and complete: every listed record is one
/// of the store's records and belongs to the project, and every record of
/// the project is listed.
pub proof fn lemma_project_records_complete(s: Seq<RecordModel>, project: Seq<u8>)
    ensures
        forall|i: int|
            0 <= i < project_records(s, project).len() ==> (#[trigger] project_records(s, project)[i]).project
                == project,
        forall|i: int|
            0 <= i < project_records(s, project).len() ==> exists|j: int|
                0 <= j < s.len() && s[j] == #[trigger] project_records(s, project)[i],
        forall|j: int|
            0 <= j < s.len() && (#[trigger] s[j]).project == project ==> exists|i: int|
                0 <= i < project_records(s, project).len() && project_records(s, project)[i] == s[j],
    decreases s.len(),
{
    if s.len() > 0 {
        let s0 = s.drop_last();
        let pr = project_records(s, project);
        let pr0 = project_records(s0, project);
        lemma_project_records_complete(s0, project);
        assert forall|i: int| 0 <= i < pr.len() implies exists|j: int|
            0 <= j < s.len() && s[j] == #[trigger] pr[i] by {
            if i < pr0.len() {
                assert(pr[i] == pr0[i]);
                let j = choose|j: int| 0 <= j < s0.len() && s0[j] == pr0[i];
                assert(s[j] == pr[i]);
            } else {
                assert(pr[i] == s.last());
                assert(s[s.len() - 1] == pr[i]);
            }
        }
        assert forall|j: int| 0 <= j < s.len() && (#[trigger] s[j]).project == project implies
            exists|i: int| 0 <= i < pr.len() && pr[i] == s[j] by {
            if j < s.len() - 1 {
                assert(s0[j] == s[j]);
                let i = choose|i: int| 0 <= i < pr0.len() && pr0[i] == s0[j];
                assert(pr[i] == s[j]);
            } else {
                assert(pr[pr.len() - 1] == s[j]);
            }
        }
    }
}

/// The store: a table of records with at most one record per `(project,
/// path)` key.
pub struct SecretStore {
    records: Vec<SecretRecord>,
}

impl View for SecretStore {
    type V = Map<(Seq<u8>, Seq<u8>), Seq<u8>>;

    closed spec fn view(&self) -> Self::V {
        map_of(self.models())
    }
}

impl SecretStore {
    /// The records as mathematical values, in store order.
    pub closed spec fn models(&self) -> Seq<RecordModel> {
        Seq::new(self.records@.len(), |i: int| self.records@[i]@)
    }

    /// The key invariant: at most one record per `(project, path)`.
    pub open spec fn wf(&self) -> bool {
        unique_keys(self.models())
    }

    /// An empty store.
    pub fn new() -> (r: SecretStore)
        ensures
            r.wf(),
            r.models() =~= Seq::<RecordModel>::empty(),
            r@ =~= Map::<(Seq<u8>, Seq<u8>), Seq<u8>>::empty(),
    {
        SecretStore { records: Vec::new() }
    }

    /// How many records the store holds.
    pub fn len(&self) -> (r: usize)
        ensures
            r == self.models().len(),
    {
        self.records.len()
    }

    /// The record under `(project, path)`, if one exists.
    pub fn get_one(&self, project: &[u8], path: &[u8]) -> (r: Option<SecretRecord>)
        requires
            self.wf(),
        ensures
            match r {
                Some(rec) => rec.project@ == project@ && rec.path@ == path@ && self@.contains_key(
                    (project@, path@),
                ) && self@[(project@, path@)] == rec.content@,
                None => !self@.contains_key((project@, path@)),
            },
    {
        let ghost k = (project@, path@);
        let n = self.records.len();
        let mut i: usize = 0;
        while i < n
            invariant
                self.wf(),
                n == self.models().len(),
                i <= n,
                forall|j: int| 0 <= j < i ==> (#[trigger] self.models()[j]).key() != k,
                k == (project@, path@),
            decreases n - i,
        {
            let rec = &self.records[i];
            if bytes_eq(rec.project.as_slice(), project) && bytes_eq(rec.path.as_slice(), path) {
                proof {
                    lemma_map_of_index(self.models(), i as int);
                }
                return Some(rec.duplicate());
            }
            i = i + 1;
        }
        proof {
            lemma_map_of_contains(self.models(), k);
        }
        None
    }

    /// All records of a project, in store order.
    pub fn get_all(&self, project: &[u8]) -> (r: Vec<SecretRecord>)
        requires
            self.wf(),
        ensures
            r@.len() == project_records(self.models(), project@).len(),
            forall|i: int|
                0 <= i < r@.len() ==> (#[trigger] r@[i])@ == project_records(
                    self.models(),
                    project@,
                )[i],
    {
        let n = self.records.len();
        let mut r: Vec<SecretRecord> = Vec::new();
        let mut i: usize = 0;
        while i < n
            invariant
                n == self.models().len(),
                i <= n,
                r@.len() == project_records(self.models().take(i as int), project@).len(),
                forall|j: int|
                    0 <= j < r@.len() ==> (#[trigger] r@[j])@ == project_records(
                        self.models().take(i as int),
                        project@,
                    )[j],
            decreases n - i,
        {
            let ghost taken = self.models().take(i as int);
            let ghost taken1 = self.models().take(i + 1 as int);
            proof {
                assert(taken1.drop_last() =~= taken);
                assert(taken1.last() == self.models()[i as int]);
            }
            let rec = &self.records[i];
            if bytes_eq(rec.project.as_slice(), project) {
                r.push(rec.duplicate());
            }
            i = i + 1;
        }
        proof {
            assert(self.models().take(n as int) =~= self.models());
        }
        r
    }

    /// Deletes the record under `(project, path)`. Returns how many records
    /// were deleted: 1 when the key was present, else 0 with the store left
    /// unchanged.
    pub fn delete(&mut self, project: &[u8], path: &[u8]) -> (r: usize)
        requires
            old(self).wf(),
        ensures
            final(self).wf(),
            final(self)@ =~= old(self)@.remove((project@, path@)),
            r == (if old(self)@.contains_key((project@, path@)) {
                1usize
            } else {
                0usize
            }),
            !old(self)@.contains_key((project@, path@)) ==> final(self)@ =~= old(self)@ && final(self).models() =~= old(self).models(),
            final(self).models().len() == old(self).models().len() - r,
            forall|i: int|
                0 <= i < final(self).models().len() ==> (#[trigger] final(self).models()[i]).key()
                    != (project@, path@),
    {
        let ghost k = (project@, path@);
        let n = self.records.len();
        let mut i: usize = 0;
        while i < n
            invariant
                *self == *old(self),
                self.wf(),
                n == self.models().len(),
                i <= n,
                forall|j: int| 0 <= j < i ==> (#[trigger] self.models()[j]).key() != k,
                k == (project@, path@),
            decreases n - i,
        {
            let rec = &self.records[i];
            if bytes_eq(rec.project.as_slice(), project) && bytes_eq(rec.path.as_slice(), path) {
                let ghost before = self.models();
                proof {
                    lemma_map_of_index(before, i as int);
                    lemma_map_of_remove(before, i as int);
                    before.remove_ensures(i as int);
                }
                self.records.remove(i);
                proof {
                    assert(self.models() =~= before.remove(i as int));
                    assert forall|a: int, b: int|
                        0 <= a < b < self.models().len() implies (#[trigger] self.models()[a]).key()
                        != (#[trigger] self.models()[b]).key() by {
                        let a0 = if a < i as int {
                            a
                        } else {
                            a + 1
                        };
                        let b0 = if b < i as int {
                            b
                        } else {
                            b + 1
                        };
                        assert(before[a0].key() != before[b0].key());
                    }
                    assert forall|j: int|
                        0 <= j < self.models().len() implies (#[trigger] self.models()[j]).key()
                        != k by {
                        let j0 = if j < i as int {
                            j
                        } else {
                            j + 1
                        };
                        assert(before[j0].key() == self.models()[j].key());
                        if j0 != i as int {
                            assert(before[j0].key() != before[i as int].key());
                        }
                    }
                }
                return 1;
            }
            i = i + 1;
        }
        proof {
            lemma_map_of_contains(self.models(), k);
            assert(self@ =~= self@.remove(k));
        }
        0
    }

    /// Inserts the record if its key is absent, else replaces the stored
    /// content for that key: the map gains exactly this one binding.
    pub fn upsert(&mut self, record: SecretRecord)
        requires
            old(self).wf(),
        ensures
            final(self).wf(),
            final(self)@ =~= old(self)@.insert((record.project@, record.path@), record.content@),
            final(self)@.contains_key((record.project@, record.path@)),
            final(self).models().len() == old(self).models().len() + (if old(self)@.contains_key(
                (record.project@, record.path@),
            ) {
                0int
            } else {
                1int
            }),
    {
        let ghost k = (record.project@, record.path@);
        let _deleted = self.delete(record.project.as_slice(), record.path.as_slice());
        let ghost mid = self.models();
        proof {
            lemma_map_of_contains(mid, k);
        }
        self.records.push(record);
        proof {
            assert(self.models().drop_last() =~= mid);
            assert(self.models().last() == record@);
            assert forall|a: int, b: int|
                0 <= a < b < self.models().len() implies (#[trigger] self.models()[a]).key() != (
            #[trigger] self.models()[b]).key() by {
                if b < self.models().len() - 1 {
                    assert(mid[a].key() != mid[b].key());
                } else {
                    assert(self.models()[a].key() == mid[a].key());
                    assert(mid[a].key() != k);
                }
            }
            assert(self@ =~= old(self)@.insert(k, record.content@));
        }
    }
}

/// The store's map view is exactly the map its records hold.
pub proof fn lemma_store_view(s: &SecretStore)
    ensures
        s@ == map_of(s.models()),
{
}

/// Law: writing a key twice leaves the table as if only the second write
/// had happened; the second content supersedes the first.
pub proof fn lemma_upsert_supersedes(
    m: Map<(Seq<u8>, Seq<u8>), Seq<u8>>,
    k: (Seq<u8>, Seq<u8>),
    c1: Seq<u8>,
    c2: Seq<u8>,
)
    ensures
        m.insert(k, c1).insert(k, c2) =~= m.insert(k, c2),
        m.insert(k, c1).insert(k, c2)[k] == c2,
{
}

/// Law: removing an absent key removes nothing and leaves the table as it
/// was.
pub proof fn lemma_remove_absent(m: Map<(Seq<u8>, Seq<u8>), Seq<u8>>, k: (Seq<u8>, Seq<u8>))
    requires
        !m.contains_key(k),
    ensures
        m.remove(k) =~= m,
{
}

} // verus!
