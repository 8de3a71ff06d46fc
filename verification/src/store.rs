//! The record store: the single source of truth for what recordings
//! exist, with the operations the workflow performs on it — inserting a
//! pending recording, completing its transcription, regrouping, deleting,
//! and listing by date.

use vstd::prelude::*;
use vstd::string::*;
use crate::date::Date;
use crate::records::{Recording, RecordingFile, Status, Stamp, TaskGroup, Transcription,
    file_of_recording, spec_file_of, stamp_key};

verus! {

broadcast use vstd::seq_lib::group_filter_ensures;

/// The table of recordings and task groups, and the id counter that names
/// the next recording.
pub struct RecordStore {
    pub recs: Vec<Recording>,
    pub groups: Vec<TaskGroup>,
    pub next_id: u64,
}

/// The result of completing one recording: the record with `id`, when it
/// is still pending, moves to `Completed` and takes the payload; every
/// other record, and a record already completed, is left as it is.
pub open spec fn spec_complete_one(r: Recording, id: u64, t: Transcription) -> Recording {
    if r.id == id && r.status is Pending {
        Recording { status: Status::Completed, transcription: Some(t), ..r }
    } else {
        r
    }
}

/// The table after completing recording `id` with payload `t`.
pub open spec fn spec_complete(s: Seq<Recording>, id: u64, t: Transcription) -> Seq<Recording> {
    s.map_values(|r: Recording| spec_complete_one(r, id, t))
}

/// The result of regrouping one recording: the record with `id` takes the
/// group; every other record is left as it is.
pub open spec fn spec_regroup_one(r: Recording, id: u64, g: Option<u64>) -> Recording {
    if r.id == id {
        Recording { group_id: g, ..r }
    } else {
        r
    }
}

/// The table after assigning recording `id` to group `g`.
pub open spec fn spec_regroup(s: Seq<Recording>, id: u64, g: Option<u64>) -> Seq<Recording> {
    s.map_values(|r: Recording| spec_regroup_one(r, id, g))
}

/// The table after deleting every record stored under path `p`.
pub open spec fn spec_delete_path(s: Seq<Recording>, p: Seq<char>) -> Seq<Recording> {
    s.filter(|r: Recording| r.file_path@ != p)
}

/// The table after deleting the record with id `id`.
pub open spec fn spec_delete_id(s: Seq<Recording>, id: u64) -> Seq<Recording> {
    s.filter(|r: Recording| r.id != id)
}

/// The records created on date `d`, in table order.
pub open spec fn spec_filter_date(s: Seq<Recording>, d: Date) -> Seq<Recording> {
    s.filter(|r: Recording| r.created_at.date == d)
}

/// Where a record is placed when inserted into a list sorted by creation
/// instant descending: after every record created at the same instant or
/// later, before the first created earlier.
pub open spec fn spec_insert_pos(s: Seq<Recording>, r: Recording) -> int
    decreases s.len(),
{
    if s.len() == 0 {
        0
    } else if s[0].created_at.key() >= r.created_at.key() {
        1 + spec_insert_pos(s.drop_first(), r)
    } else {
        0
    }
}

/// Inserts `r` into a list sorted by creation instant descending, keeping
/// the order stable: records created at the same instant keep their
/// relative order.
pub open spec fn spec_insert_desc(s: Seq<Recording>, r: Recording) -> Seq<Recording> {
    s.insert(spec_insert_pos(s, r), r)
}

/// Sorts records by creation instant descending, stably.
pub open spec fn spec_sort_desc(s: Seq<Recording>) -> Seq<Recording>
    decreases s.len(),
{
    if s.len() == 0 {
        Seq::empty()
    } else {
        spec_insert_desc(spec_sort_desc(s.drop_last()), s.last())
    }
}

/// A list of records sorted by creation instant descending.
pub open spec fn spec_sorted_desc(s: Seq<Recording>) -> bool {
    forall|i: int, j: int|
        0 <= i < j < s.len() ==> (#[trigger] s[i]).created_at.key() >= (#[trigger] s[j]).created_at.key()
}

/// What `list` returns for table `s` and date `d`: the records created on
/// `d`, newest first.
pub open spec fn spec_list(s: Seq<Recording>, d: Date) -> Seq<Recording> {
    spec_sort_desc(spec_filter_date(s, d))
}

/// The insertion point is inside the list.
proof fn lemma_insert_pos_in_range(s: Seq<Recording>, r: Recording)
    ensures
        0 <= spec_insert_pos(s, r) <= s.len(),
    decreases s.len(),
{
    if s.len() > 0 && s[0].created_at.key() >= r.created_at.key() {
        lemma_insert_pos_in_range(s.drop_first(), r);
    }
}

/// A scan that stops at the first record created strictly earlier than `r`
/// has found the insertion point of `r`.
proof fn lemma_insert_pos_at(s: Seq<Recording>, r: Recording, i: int)
    requires
        0 <= i <= s.len(),
        forall|j: int| 0 <= j < i ==> (#[trigger] s[j]).created_at.key() >= r.created_at.key(),
        i < s.len() ==> s[i].created_at.key() < r.created_at.key(),
    ensures
        spec_insert_pos(s, r) == i,
    decreases i,
{
    if i == 0 {
    } else {
        assert(s[0].created_at.key() >= r.created_at.key());
        lemma_insert_pos_at(s.drop_first(), r, i - 1);
    }
}

/// Inserting into a sorted list keeps it sorted.
proof fn lemma_insert_desc_sorted(s: Seq<Recording>, r: Recording)
    requires
        spec_sorted_desc(s),
    ensures
        spec_sorted_desc(spec_insert_desc(s, r)),
{
    lemma_insert_pos_in_range(s, r);
    let pos = spec_insert_pos(s, r);
    lemma_insert_pos_bounds(s, r);
    let t = spec_insert_desc(s, r);
    assert forall|i: int, j: int| 0 <= i < j < t.len() implies (#[trigger] t[i]).created_at.key()
        >= (#[trigger] t[j]).created_at.key() by {
        s.insert_ensures(pos, r);
    }
}

/// Everything before the insertion point was created at the same instant
/// or later; at the insertion point, strictly earlier.
proof fn lemma_insert_pos_bounds(s: Seq<Recording>, r: Recording)
    ensures
        forall|j: int|
            0 <= j < spec_insert_pos(s, r) ==> (#[trigger] s[j]).created_at.key()
                >= r.created_at.key(),
        spec_insert_pos(s, r) < s.len() ==> s[spec_insert_pos(s, r)].created_at.key()
            < r.created_at.key(),
    decreases s.len(),
{
    lemma_insert_pos_in_range(s, r);
    if s.len() > 0 && s[0].created_at.key() >= r.created_at.key() {
        lemma_insert_pos_in_range(s.drop_first(), r);
        lemma_insert_pos_bounds(s.drop_first(), r);
        let pos = spec_insert_pos(s, r);
        assert forall|j: int| 0 <= j < pos implies (#[trigger] s[j]).created_at.key()
            >= r.created_at.key() by {
            if j > 0 {
                assert(s.drop_first()[j - 1].created_at.key() >= r.created_at.key());
            }
        }
        if pos < s.len() {
            assert(s[pos] == s.drop_first()[pos - 1]);
        }
    }
}

/// Inserting adds exactly the new record to the contents.
proof fn lemma_insert_desc_multiset(s: Seq<Recording>, r: Recording)
    ensures
        spec_insert_desc(s, r).to_multiset() =~= s.to_multiset().insert(r),
{
    broadcast use vstd::seq_lib::group_to_multiset_ensures;
    broadcast use vstd::seq_lib::lemma_multiset_commutative;

    lemma_insert_pos_in_range(s, r);
    let pos = spec_insert_pos(s, r);
    let front = s.subrange(0, pos);
    let back = s.subrange(pos, s.len() as int);
    assert(spec_insert_desc(s, r) == front.push(r) + back);
    assert(s =~= front + back);
    assert((front.push(r) + back).to_multiset() =~= front.push(r).to_multiset().add(
        back.to_multiset(),
    ));
    assert(front.push(r).to_multiset() =~= front.to_multiset().insert(r));
    assert((front + back).to_multiset() =~= front.to_multiset().add(back.to_multiset()));
}

/// Sorting keeps exactly the same records.
proof fn lemma_sort_desc_multiset(s: Seq<Recording>)
    ensures
        spec_sort_desc(s).to_multiset() =~= s.to_multiset(),
    decreases s.len(),
{
    broadcast use vstd::seq_lib::group_to_multiset_ensures;

    if s.len() > 0 {
        lemma_sort_desc_multiset(s.drop_last());
        lemma_insert_desc_multiset(spec_sort_desc(s.drop_last()), s.last());
        assert(s.drop_last().push(s.last()) =~= s);
    }
}

/// The sorted list is sorted.
proof fn lemma_sort_desc_sorted(s: Seq<Recording>)
    ensures
        spec_sorted_desc(spec_sort_desc(s)),
    decreases s.len(),
{
    if s.len() > 0 {
        lemma_sort_desc_sorted(s.drop_last());
        lemma_insert_desc_sorted(spec_sort_desc(s.drop_last()), s.last());
    }
}

/// A record occurs in a sequence exactly when it occurs in its contents.
proof fn lemma_contains_to_multiset(s: Seq<Recording>, r: Recording)
    ensures
        s.contains(r) <==> s.to_multiset().count(r) > 0,
{
    broadcast use vstd::seq_lib::group_to_multiset_ensures;

}

/// Every row of `spec_list` is a record of the table created on the
/// queried date, and every such record has a row: the listing shows
/// exactly the recordings of that date.
pub proof fn lemma_list_exact(s: Seq<Recording>, d: Date)
    ensures
        forall|i: int|
            0 <= i < spec_list(s, d).len() ==> s.contains(#[trigger] spec_list(s, d)[i])
                && spec_list(s, d)[i].created_at.date == d,
        forall|j: int|
            0 <= j < s.len() && (#[trigger] s[j]).created_at.date == d ==> spec_list(
                s,
                d,
            ).contains(s[j]),
{
    let f = spec_filter_date(s, d);
    lemma_sort_desc_multiset(f);
    assert forall|i: int| 0 <= i < spec_list(s, d).len() implies s.contains(
        #[trigger] spec_list(s, d)[i],
    ) && spec_list(s, d)[i].created_at.date == d by {
        let r = spec_list(s, d)[i];
        assert(spec_list(s, d).contains(r));
        lemma_contains_to_multiset(spec_list(s, d), r);
        lemma_contains_to_multiset(f, r);
        let k = choose|k: int| 0 <= k < f.len() && f[k] == r;
        assert(f[k].created_at.date == d);
        s.lemma_filter_contains_rev(|q: Recording| q.created_at.date == d, r);
    }
    assert forall|j: int| 0 <= j < s.len() && (#[trigger] s[j]).created_at.date == d implies
        spec_list(s, d).contains(s[j]) by {
        assert(f.contains(s[j]));
        lemma_contains_to_multiset(f, s[j]);
        lemma_contains_to_multiset(spec_list(s, d), s[j]);
    }
}

/// The listing is newest-first.
pub proof fn lemma_list_sorted(s: Seq<Recording>, d: Date)
    ensures
        spec_sorted_desc(spec_list(s, d)),
{
    lemma_sort_desc_sorted(spec_filter_date(s, d));
}

/// Filtering keeps a sequence whole when the predicate holds everywhere.
pub proof fn lemma_filter_keep_all<A>(s: Seq<A>, pred: spec_fn(A) -> bool)
    requires
        forall|i: int| 0 <= i < s.len() ==> pred(#[trigger] s[i]),
    ensures
        s.filter(pred) == s,
    decreases s.len(),
{
    reveal(Seq::filter);
    if s.len() > 0 {
        lemma_filter_keep_all(s.drop_last(), pred);
        assert(s.drop_last().push(s.last()) =~= s);
    }
}

/// Whether `out` reports exactly the listing of date `d` over table
/// `recs`: one row per listed record, in listing order.
pub open spec fn spec_reports(out: Seq<RecordingFile>, recs: Seq<Recording>, d: Date) -> bool {
    &&& out.len() == spec_list(recs, d).len()
    &&& forall|i: int| 0 <= i < out.len() ==> spec_file_of(#[trigger] out[i], spec_list(recs, d)[i])
}

/// Listing is read-only and deterministic: two listings of the same table
/// and date report the same rows, field for field.
pub proof fn lemma_list_idempotent(
    out1: Seq<RecordingFile>,
    out2: Seq<RecordingFile>,
    recs: Seq<Recording>,
    d: Date,
)
    requires
        spec_reports(out1, recs, d),
        spec_reports(out2, recs, d),
    ensures
        out1.len() == out2.len(),
        forall|i: int|
            0 <= i < out1.len() ==> (#[trigger] out1[i]).id == out2[i].id && out1[i].path@
                == out2[i].path@ && out1[i].name@ == out2[i].name@ && out1[i].status@
                == out2[i].status@ && out1[i].transcription == out2[i].transcription
                && out1[i].group_id == out2[i].group_id,
{
}

/// Completion is monotonic: a record already completed is never changed,
/// by this or any later completion — its status never reverts.
pub proof fn lemma_complete_monotonic(s: Seq<Recording>, id: u64, t: Transcription, j: int)
    requires
        0 <= j < s.len(),
        s[j].status is Completed,
    ensures
        spec_complete(s, id, t)[j] == s[j],
{
}

/// Completion is visible exactly once: the pending record with the
/// completed id takes status `Completed` and the payload, and nothing
/// else of it changes.
pub proof fn lemma_complete_applies(s: Seq<Recording>, id: u64, t: Transcription, j: int)
    requires
        0 <= j < s.len(),
        s[j].id == id,
        s[j].status is Pending,
    ensures
        spec_complete(s, id, t)[j].status is Completed,
        spec_complete(s, id, t)[j].transcription == Some(t),
        spec_complete(s, id, t)[j].id == s[j].id,
        spec_complete(s, id, t)[j].filename == s[j].filename,
        spec_complete(s, id, t)[j].file_path == s[j].file_path,
        spec_complete(s, id, t)[j].created_at == s[j].created_at,
        spec_complete(s, id, t)[j].group_id == s[j].group_id,
{
}

/// Completion touches no other record.
pub proof fn lemma_complete_frame(s: Seq<Recording>, id: u64, t: Transcription, j: int)
    requires
        0 <= j < s.len(),
        s[j].id != id,
    ensures
        spec_complete(s, id, t)[j] == s[j],
{
}

/// Regrouping never changes a record's status or payload: in particular
/// it cannot revert a completed record.
pub proof fn lemma_regroup_keeps_status(s: Seq<Recording>, id: u64, g: Option<u64>, j: int)
    requires
        0 <= j < s.len(),
    ensures
        spec_regroup(s, id, g)[j].status == s[j].status,
        spec_regroup(s, id, g)[j].transcription == s[j].transcription,
        spec_regroup(s, id, g)[j].id == s[j].id,
        spec_regroup(s, id, g)[j].file_path == s[j].file_path,
{
}

/// One step of filtering seen from the front of the table.
proof fn lemma_filter_take_step<A>(s: Seq<A>, pred: spec_fn(A) -> bool, i: int)
    requires
        0 <= i < s.len(),
    ensures
        s.take(i + 1).filter(pred) == if pred(s[i]) {
            s.take(i).filter(pred).push(s[i])
        } else {
            s.take(i).filter(pred)
        },
{
    reveal(Seq::filter);
    assert(s.take(i + 1).drop_last() =~= s.take(i));
    assert(s.take(i + 1).last() == s[i]);
}

/// Filtering a whole table is filtering all of its front.
proof fn lemma_filter_take_all<A>(s: Seq<A>, pred: spec_fn(A) -> bool)
    ensures
        s.take(s.len() as int).filter(pred) == s.filter(pred),
{
    assert(s.take(s.len() as int) =~= s);
}

impl RecordStore {
    /// The store's invariant: every record is well formed, ids are unique,
    /// and every id is below the next to be handed out.
    pub open spec fn inv(self) -> bool {
        &&& forall|i: int| 0 <= i < self.recs@.len() ==> (#[trigger] self.recs@[i]).wf()
        &&& forall|i: int, j: int|
            0 <= i < j < self.recs@.len() ==> self.recs@[i].id != self.recs@[j].id
        &&& forall|i: int| 0 <= i < self.recs@.len() ==> (#[trigger] self.recs@[i]).id < self.next_id
    }

    /// An empty store.
    pub fn new() -> (s: RecordStore)
        ensures
            s.inv(),
            s.recs@ == Seq::<Recording>::empty(),
            s.groups@ == Seq::<TaskGroup>::empty(),
            s.next_id == 0,
    {
        RecordStore { recs: Vec::new(), groups: Vec::new(), next_id: 0 }
    }

    /// Inserts a new pending recording with the given filename, stored
    /// path and creation instant, and returns its id. The new record is
    /// appended; nothing else changes.
    pub fn insert_pending(
        &mut self,
        filename: String,
        file_path: String,
        created_at: Stamp,
    ) -> (id: u64)
        requires
            old(self).inv(),
            old(self).next_id < u64::MAX,
            created_at.valid(),
            file_path@ == crate::paths::spec_file_path(created_at.date, filename@),
        ensures
            final(self).inv(),
            id == old(self).next_id,
            final(self).next_id == old(self).next_id + 1,
            final(self).recs@ == old(self).recs@.push(
                Recording {
                    id: old(self).next_id,
                    filename,
                    file_path,
                    created_at,
                    status: Status::Pending,
                    transcription: None,
                    group_id: None,
                },
            ),
            final(self).groups@ == old(self).groups@,
    {
        let id = self.next_id;
        let rec = Recording {
            id,
            filename,
            file_path,
            created_at,
            status: Status::Pending,
            transcription: None,
            group_id: None,
        };
        self.recs.push(rec);
        self.next_id = self.next_id + 1;
        id
    }

    /// Completes the transcription of recording `id` with payload `t`.
    /// The record, when present and still pending, moves to `Completed`
    /// and takes the payload; a record already completed, and a missing
    /// id, leave the table unchanged — completing is monotonic, and a
    /// record deleted while its job was in flight makes the update a
    /// harmless no-op.
    pub fn complete(&mut self, id: u64, t: Transcription)
        requires
            old(self).inv(),
        ensures
            final(self).inv(),
            final(self).recs@ == spec_complete(old(self).recs@, id, t),
            final(self).groups@ == old(self).groups@,
            final(self).next_id == old(self).next_id,
    {
        let n = self.recs.len();
        let mut i: usize = 0;
        while i < n
            invariant
                old(self).inv(),
                n == old(self).recs@.len(),
                0 <= i <= n,
                *self == *old(self),
                forall|j: int| 0 <= j < i ==> (#[trigger] old(self).recs@[j]).id != id,
            decreases n - i,
        {
            let ghost orig = old(self).recs@;
            if self.recs[i].id == id {
                if matches!(self.recs[i].status, Status::Pending) {
                    let mut updated = self.recs[i].clone();
                    updated.status = Status::Completed;
                    updated.transcription = Some(t);
                    self.recs[i] = updated;
                }
                proof {
                    let res = spec_complete(orig, id, t);
                    assert forall|j: int| 0 <= j < orig.len() implies self.recs@[j] == res[j] by {
                        assert(res[j] == spec_complete_one(orig[j], id, t));
                        if j != i {
                            if j < i {
                            } else {
                                assert(orig[i as int].id != orig[j].id);
                            }
                        }
                    }
                    assert(self.recs@ =~= res);
                }
                return ;
            }
            i += 1;
        }
        proof {
            let res = spec_complete(self.recs@, id, t);
            assert forall|j: int| 0 <= j < self.recs@.len() implies self.recs@[j] == res[j] by {
                assert(res[j] == spec_complete_one(self.recs@[j], id, t));
            }
            assert(self.recs@ =~= res);
        }
    }

    /// Assigns recording `id` to group `g` (or to no group). The record,
    /// when present, takes the group; nothing else changes. A missing id
    /// leaves the table unchanged, as an update of zero rows.
    pub fn update_group(&mut self, id: u64, g: Option<u64>)
        requires
            old(self).inv(),
        ensures
            final(self).inv(),
            final(self).recs@ == spec_regroup(old(self).recs@, id, g),
            final(self).groups@ == old(self).groups@,
            final(self).next_id == old(self).next_id,
    {
        let n = self.recs.len();
        let mut i: usize = 0;
        while i < n
            invariant
                old(self).inv(),
                n == old(self).recs@.len(),
                0 <= i <= n,
                *self == *old(self),
                forall|j: int| 0 <= j < i ==> (#[trigger] old(self).recs@[j]).id != id,
            decreases n - i,
        {
            let ghost orig = old(self).recs@;
            if self.recs[i].id == id {
                let mut updated = self.recs[i].clone();
                updated.group_id = g;
                self.recs[i] = updated;
                proof {
                    let res = spec_regroup(orig, id, g);
                    assert forall|j: int| 0 <= j < orig.len() implies self.recs@[j] == res[j] by {
                        assert(res[j] == spec_regroup_one(orig[j], id, g));
                        if j != i {
                            if j < i {
                            } else {
                                assert(orig[i as int].id != orig[j].id);
                            }
                        }
                    }
                    assert(self.recs@ =~= res);
                }
                return ;
            }
            i += 1;
        }
        proof {
            let res = spec_regroup(self.recs@, id, g);
            assert forall|j: int| 0 <= j < self.recs@.len() implies self.recs@[j] == res[j] by {
                assert(res[j] == spec_regroup_one(self.recs@[j], id, g));
            }
            assert(self.recs@ =~= res);
        }
    }
}

/// Where a group is placed when inserted into a list sorted by display
/// order ascending: after every group ordered the same or lower.
pub open spec fn spec_group_pos(s: Seq<TaskGroup>, g: TaskGroup) -> int
    decreases s.len(),
{
    if s.len() == 0 {
        0
    } else if s[0].ordering <= g.ordering {
        1 + spec_group_pos(s.drop_first(), g)
    } else {
        0
    }
}

/// Inserts `g` into a list sorted by display order ascending, stably.
pub open spec fn spec_group_insert(s: Seq<TaskGroup>, g: TaskGroup) -> Seq<TaskGroup> {
    s.insert(spec_group_pos(s, g), g)
}

/// Sorts task groups by display order ascending, stably.
pub open spec fn spec_group_sort(s: Seq<TaskGroup>) -> Seq<TaskGroup>
    decreases s.len(),
{
    if s.len() == 0 {
        Seq::empty()
    } else {
        spec_group_insert(spec_group_sort(s.drop_last()), s.last())
    }
}

/// A scan that stops at the first group ordered strictly higher than `g`
/// has found the insertion point of `g`.
proof fn lemma_group_pos_at(s: Seq<TaskGroup>, g: TaskGroup, i: int)
    requires
        0 <= i <= s.len(),
        forall|j: int| 0 <= j < i ==> (#[trigger] s[j]).ordering <= g.ordering,
        i < s.len() ==> s[i].ordering > g.ordering,
    ensures
        spec_group_pos(s, g) == i,
    decreases i,
{
    if i > 0 {
        assert(s[0].ordering <= g.ordering);
        lemma_group_pos_at(s.drop_first(), g, i - 1);
    }
}

/// Inserts a recording into a list sorted by creation instant descending,
/// keeping the order stable.
fn insert_desc(v: &mut Vec<Recording>, r: Recording)
    requires
        forall|k: int| 0 <= k < old(v)@.len() ==> (#[trigger] old(v)@[k]).wf(),
        r.wf(),
    ensures
        final(v)@ == spec_insert_desc(old(v)@, r),
        forall|k: int| 0 <= k < final(v)@.len() ==> (#[trigger] final(v)@[k]).wf(),
{
    let key = stamp_key(&r.created_at);
    let n = v.len();
    let mut i: usize = 0;
    while i < n && stamp_key(&v[i].created_at) >= key
        invariant
            0 <= i <= n,
            n == v@.len(),
            *v == *old(v),
            r.wf(),
            key == r.created_at.key(),
            forall|k: int| 0 <= k < v@.len() ==> (#[trigger] v@[k]).wf(),
            forall|j: int| 0 <= j < i ==> (#[trigger] v@[j]).created_at.key() >= r.created_at.key(),
        decreases n - i,
    {
        i += 1;
    }
    proof {
        lemma_insert_pos_at(v@, r, i as int);
    }
    let ghost before = v@;
    v.insert(i, r);
    proof {
        before.insert_ensures(i as int, r);
    }
}

/// Inserts a task group into a list sorted by display order ascending,
/// keeping the order stable.
fn insert_asc(v: &mut Vec<TaskGroup>, g: TaskGroup)
    ensures
        final(v)@ == spec_group_insert(old(v)@, g),
{
    let n = v.len();
    let mut i: usize = 0;
    while i < n && v[i].ordering <= g.ordering
        invariant
            0 <= i <= n,
            n == v@.len(),
            *v == *old(v),
            forall|j: int| 0 <= j < i ==> (#[trigger] v@[j]).ordering <= g.ordering,
        decreases n - i,
    {
        i += 1;
    }
    proof {
        lemma_group_pos_at(v@, g, i as int);
    }
    v.insert(i, g);
}

impl RecordStore {
    /// Deletes every record stored under path `rel` (the storage-relative
    /// path, without the serving prefix). Returns whether any record was
    /// stored there; when none was, the table is unchanged.
    pub fn delete_by_path(&mut self, rel: &str) -> (found: bool)
        requires
            old(self).inv(),
        ensures
            final(self).inv(),
            final(self).recs@ == spec_delete_path(old(self).recs@, rel@),
            final(self).groups@ == old(self).groups@,
            final(self).next_id == old(self).next_id,
            found == exists|i: int|
                0 <= i < old(self).recs@.len() && (#[trigger] old(self).recs@[i]).file_path@
                    == rel@,
    {
        let rel_owned = String::from_str(rel);
        let ghost pred = |r: Recording| r.file_path@ != rel@;
        let mut kept: Vec<Recording> = Vec::new();
        let mut found = false;
        let n = self.recs.len();
        let mut i: usize = 0;
        while i < n
            invariant
                old(self).inv(),
                *self == *old(self),
                n == self.recs@.len(),
                0 <= i <= n,
                rel_owned@ == rel@,
                kept@ == old(self).recs@.take(i as int).filter(pred),
                pred == (|r: Recording| r.file_path@ != rel@),
                forall|k: int|
                    0 <= k < kept@.len() ==> exists|j: int|
                        0 <= j < i && #[trigger] kept@[k] == old(self).recs@[j],
                found == exists|j: int|
                    0 <= j < i && (#[trigger] old(self).recs@[j]).file_path@ == rel@,
            decreases n - i,
        {
            proof {
                lemma_filter_take_step(self.recs@, pred, i as int);
            }
            let ghost kept_before = kept@;
            if self.recs[i].file_path == rel_owned {
                found = true;
            } else {
                kept.push(self.recs[i].clone());
            }
            proof {
                assert forall|k: int| 0 <= k < kept@.len() implies exists|j: int|
                    0 <= j < i + 1 && #[trigger] kept@[k] == old(self).recs@[j] by {
                    if k < kept_before.len() {
                        let j = choose|j: int|
                            0 <= j < i && #[trigger] kept_before[k] == old(self).recs@[j];
                        assert(kept@[k] == old(self).recs@[j]);
                    } else {
                        assert(kept@[k] == old(self).recs@[i as int]);
                    }
                }
            }
            i += 1;
        }
        proof {
            lemma_filter_take_all(self.recs@, pred);
            assert forall|a: int, b: int| 0 <= a < b < kept@.len() implies kept@[a].id
                != kept@[b].id by {
                let ja = choose|j: int| 0 <= j < n && #[trigger] kept@[a] == old(self).recs@[j];
                let jb = choose|j: int| 0 <= j < n && #[trigger] kept@[b] == old(self).recs@[j];
                if ja == jb {
                    lemma_two_positions_two_count(kept@, a, b);
                    lemma_filter_count_le(old(self).recs@, pred, kept@[a]);
                } else {
                    assert(old(self).recs@[ja].id != old(self).recs@[jb].id);
                }
            }
        }
        self.recs = kept;
        found
    }

    /// Deletes the record with id `id` and hands back its stored path, so
    /// that the file can be removed as well. A missing id leaves the table
    /// unchanged and hands back nothing.
    pub fn delete_by_id(&mut self, id: u64) -> (path: Option<String>)
        requires
            old(self).inv(),
        ensures
            final(self).inv(),
            final(self).recs@ == spec_delete_id(old(self).recs@, id),
            final(self).groups@ == old(self).groups@,
            final(self).next_id == old(self).next_id,
            match path {
                Some(p) => exists|i: int|
                    0 <= i < old(self).recs@.len() && (#[trigger] old(self).recs@[i]).id == id
                        && p@ == old(self).recs@[i].file_path@,
                None => forall|i: int|
                    0 <= i < old(self).recs@.len() ==> (#[trigger] old(self).recs@[i]).id != id,
            },
    {
        let ghost pred = |r: Recording| r.id != id;
        let mut kept: Vec<Recording> = Vec::new();
        let mut path: Option<String> = None;
        let n = self.recs.len();
        let mut i: usize = 0;
        while i < n
            invariant
                old(self).inv(),
                *self == *old(self),
                n == self.recs@.len(),
                0 <= i <= n,
                kept@ == old(self).recs@.take(i as int).filter(pred),
                pred == (|r: Recording| r.id != id),
                forall|k: int|
                    0 <= k < kept@.len() ==> exists|j: int|
                        0 <= j < i && #[trigger] kept@[k] == old(self).recs@[j],
                match path {
                    Some(p) => exists|j: int|
                        0 <= j < i && (#[trigger] old(self).recs@[j]).id == id && p@
                            == old(self).recs@[j].file_path@,
                    None => forall|j: int|
                        0 <= j < i ==> (#[trigger] old(self).recs@[j]).id != id,
                },
            decreases n - i,
        {
            proof {
                lemma_filter_take_step(self.recs@, pred, i as int);
            }
            let ghost kept_before = kept@;
            if self.recs[i].id == id {
                path = Some(self.recs[i].file_path.clone());
            } else {
                kept.push(self.recs[i].clone());
            }
            proof {
                assert forall|k: int| 0 <= k < kept@.len() implies exists|j: int|
                    0 <= j < i + 1 && #[trigger] kept@[k] == old(self).recs@[j] by {
                    if k < kept_before.len() {
                        let j = choose|j: int|
                            0 <= j < i && #[trigger] kept_before[k] == old(self).recs@[j];
                        assert(kept@[k] == old(self).recs@[j]);
                    } else {
                        assert(kept@[k] == old(self).recs@[i as int]);
                    }
                }
            }
            i += 1;
        }
        proof {
            lemma_filter_take_all(self.recs@, pred);
            assert forall|a: int, b: int| 0 <= a < b < kept@.len() implies kept@[a].id
                != kept@[b].id by {
                let ja = choose|j: int| 0 <= j < n && #[trigger] kept@[a] == old(self).recs@[j];
                let jb = choose|j: int| 0 <= j < n && #[trigger] kept@[b] == old(self).recs@[j];
                if ja == jb {
                    lemma_two_positions_two_count(kept@, a, b);
                    lemma_filter_count_le(old(self).recs@, pred, kept@[a]);
                } else {
                    assert(old(self).recs@[ja].id != old(self).recs@[jb].id);
                }
            }
        }
        self.recs = kept;
        path
    }

    /// Lists the recordings created on date `d`, newest first, as the rows
    /// a client sees. Reading mutates nothing, so repeated calls with no
    /// intervening writes return the same rows.
    pub fn list(&self, d: Date) -> (out: Vec<RecordingFile>)
        requires
            self.inv(),
        ensures
            spec_reports(out@, self.recs@, d),
    {
        let ghost pred = |r: Recording| r.created_at.date == d;
        let mut sorted: Vec<Recording> = Vec::new();
        let n = self.recs.len();
        let mut i: usize = 0;
        while i < n
            invariant
                self.inv(),
                n == self.recs@.len(),
                0 <= i <= n,
                pred == (|r: Recording| r.created_at.date == d),
                sorted@ == spec_sort_desc(self.recs@.take(i as int).filter(pred)),
                forall|k: int| 0 <= k < sorted@.len() ==> (#[trigger] sorted@[k]).wf(),
            decreases n - i,
        {
            proof {
                lemma_filter_take_step(self.recs@, pred, i as int);
            }
            let ghost fprev = self.recs@.take(i as int).filter(pred);
            if self.recs[i].created_at.date == d {
                let rec = self.recs[i].clone();
                insert_desc(&mut sorted, rec);
                proof {
                    let fnow = self.recs@.take(i + 1).filter(pred);
                    assert(fnow == fprev.push(self.recs@[i as int]));
                    assert(fnow.drop_last() =~= fprev);
                    assert(fnow.last() == self.recs@[i as int]);
                    assert(spec_sort_desc(fnow) == spec_insert_desc(
                        spec_sort_desc(fprev),
                        self.recs@[i as int],
                    ));
                }
            }
            i += 1;
        }
        proof {
            lemma_filter_take_all(self.recs@, pred);
        }
        let m = sorted.len();
        let mut out: Vec<RecordingFile> = Vec::new();
        let mut j: usize = 0;
        while j < m
            invariant
                m == sorted@.len(),
                0 <= j <= m,
                out@.len() == j,
                sorted@ == spec_list(self.recs@, d),
                forall|k: int| 0 <= k < j ==> spec_file_of(#[trigger] out@[k], sorted@[k]),
            decreases m - j,
        {
            let f = file_of_recording(&sorted[j]);
            out.push(f);
            j += 1;
        }
        out
    }

    /// Registers a task group. Groups keep their table order; display
    /// order is applied when they are listed.
    pub fn add_group(&mut self, g: TaskGroup)
        ensures
            final(self).groups@ == old(self).groups@.push(g),
            final(self).recs@ == old(self).recs@,
            final(self).next_id == old(self).next_id,
            old(self).inv() ==> final(self).inv(),
    {
        self.groups.push(g);
    }

    /// Lists the task groups in display order (ascending `ordering`,
    /// stable for equal orderings).
    pub fn list_groups(&self) -> (out: Vec<TaskGroup>)
        ensures
            out@ == spec_group_sort(self.groups@),
    {
        let mut out: Vec<TaskGroup> = Vec::new();
        let n = self.groups.len();
        let mut i: usize = 0;
        while i < n
            invariant
                n == self.groups@.len(),
                0 <= i <= n,
                out@ == spec_group_sort(self.groups@.take(i as int)),
            decreases n - i,
        {
            let g = self.groups[i].clone();
            insert_asc(&mut out, g);
            proof {
                let tnow = self.groups@.take(i + 1);
                assert(tnow.drop_last() =~= self.groups@.take(i as int));
                assert(tnow.last() == self.groups@[i as int]);
                assert(spec_group_sort(tnow) == spec_group_insert(
                    spec_group_sort(self.groups@.take(i as int)),
                    self.groups@[i as int],
                ));
            }
            i += 1;
        }
        proof {
            assert(self.groups@.take(n as int) =~= self.groups@);
        }
        out
    }
}

/// A record standing at two positions occurs at least twice in the
/// contents.
proof fn lemma_two_positions_two_count(s: Seq<Recording>, a: int, b: int)
    requires
        0 <= a < b < s.len(),
        s[a] == s[b],
    ensures
        s.to_multiset().count(s[a]) >= 2,
{
    broadcast use vstd::seq_lib::group_to_multiset_ensures;
    broadcast use vstd::seq_lib::lemma_multiset_commutative;

    let r = s[a];
    let s0 = s.subrange(0, b);
    let s1 = s.subrange(b, s.len() as int);
    assert(s =~= s0 + s1);
    assert(s0[a] == r);
    assert(s0.contains(r));
    lemma_contains_to_multiset(s0, r);
    assert(s1[0] == r);
    assert(s1.contains(r));
    lemma_contains_to_multiset(s1, r);
    assert(s.to_multiset().count(r) == s0.to_multiset().count(r) + s1.to_multiset().count(r));
}

/// In a sequence of records with pairwise distinct ids, no record occurs
/// twice in any filtering of it.
proof fn lemma_filter_count_le(s: Seq<Recording>, pred: spec_fn(Recording) -> bool, r: Recording)
    requires
        forall|a: int, b: int| 0 <= a < b < s.len() ==> s[a].id != s[b].id,
    ensures
        s.filter(pred).to_multiset().count(r) <= 1,
{
    broadcast use vstd::seq_lib::group_to_multiset_ensures;

    lemma_count_in_unique(s, r);
    lemma_filter_count(s, pred, r);
}

/// Filtering never increases how often a record occurs.
proof fn lemma_filter_count(s: Seq<Recording>, pred: spec_fn(Recording) -> bool, r: Recording)
    ensures
        s.filter(pred).to_multiset().count(r) <= s.to_multiset().count(r),
    decreases s.len(),
{
    broadcast use vstd::seq_lib::group_to_multiset_ensures;

    reveal(Seq::filter);
    if s.len() > 0 {
        lemma_filter_count(s.drop_last(), pred, r);
        assert(s.drop_last().push(s.last()) =~= s);
        assert(s.to_multiset() == s.drop_last().to_multiset().insert(s.last()));
        if pred(s.last()) {
            assert(s.filter(pred) == s.drop_last().filter(pred).push(s.last()));
        }
    }
}

/// In a sequence of records with pairwise distinct ids, no record occurs
/// twice.
proof fn lemma_count_in_unique(s: Seq<Recording>, r: Recording)
    requires
        forall|a: int, b: int| 0 <= a < b < s.len() ==> s[a].id != s[b].id,
    ensures
        s.to_multiset().count(r) <= 1,
    decreases s.len(),
{
    broadcast use vstd::seq_lib::group_to_multiset_ensures;

    if s.len() > 0 {
        lemma_count_in_unique(s.drop_last(), r);
        assert(s.drop_last().push(s.last()) =~= s);
        assert(s.to_multiset() == s.drop_last().to_multiset().insert(s.last()));
        if s.last() == r {
            if s.drop_last().to_multiset().count(r) > 0 {
                lemma_contains_to_multiset(s.drop_last(), r);
                let k = choose|k: int| 0 <= k < s.drop_last().len() && s.drop_last()[k] == r;
                assert(s[k].id == s[s.len() - 1].id);
            }
        }
    }
}

} // verus!
