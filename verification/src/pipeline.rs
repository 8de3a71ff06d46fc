//! The ingestion-to-deletion pipeline: the record store and the storage
//! root, kept in agreement by every operation.

use vstd::prelude::*;
use vstd::string::*;
use crate::date::{Date, parse_date, spec_parse_date};
use crate::disk::Disk;
use crate::errors::{DeleteError, ListError};
use crate::paths::{file_path_string, filename_for_upload, path_is_confined, spec_confined,
    spec_file_path, spec_filename, spec_has_prefix, strip_files_prefix};
use crate::records::{NOON_SECS, Recording, RecordingFile, Stamp, TaskGroup, Transcription};
use crate::store::{RecordStore, lemma_filter_keep_all, spec_complete, spec_delete_id,
    spec_delete_path, spec_group_sort, spec_regroup, spec_reports};
use crate::transcribe::{payload_from_response_text, spec_clean, spec_opt_str_is,
    spec_payload_fields};

verus! {

broadcast use vstd::seq_lib::group_filter_ensures, vstd::prelude::Seq::lemma_filter_contains_rev;

/// A sample of the injectable clock: the current local date, the second
/// of that day, and the Unix timestamp that names uploaded files.
#[derive(PartialEq, Eq, Structural, Clone, Copy, Debug)]
pub struct Now {
    pub date: Date,
    pub secs: u32,
    pub unix_ts: u64,
}

impl Now {
    /// A well-formed clock sample.
    pub open spec fn valid(self) -> bool {
        self.date.valid() && self.secs < 86400
    }
}

/// The creation instant an upload records: noon of the override date when
/// one was given and parses, the current instant otherwise.
pub open spec fn spec_upload_stamp(date_override: Option<&str>, now: Now) -> Stamp {
    match date_override {
        Some(s) => match spec_parse_date(s@) {
            Some(d) => Stamp { date: d, secs: NOON_SECS },
            None => Stamp { date: now.date, secs: now.secs },
        },
        None => Stamp { date: now.date, secs: now.secs },
    }
}

/// The name under which an upload is stored.
pub open spec fn spec_upload_filename(hint: &str, now: Now) -> Seq<char> {
    spec_filename(spec_has_prefix(hint@, "test_"@), now.unix_ts as int)
}

/// The storage-relative path under which an upload is stored.
pub open spec fn spec_upload_path(date_override: Option<&str>, hint: &str, now: Now) -> Seq<char> {
    spec_file_path(spec_upload_stamp(date_override, now).date, spec_upload_filename(hint, now))
}

/// The record store and the storage root together: the state that the
/// workflow maintains.
pub struct Pipeline {
    pub store: RecordStore,
    pub disk: Disk,
}

impl Pipeline {
    /// Both halves are well formed.
    pub open spec fn inv(self) -> bool {
        self.store.inv() && self.disk.inv()
    }

    /// An empty pipeline: no recordings, no files.
    pub fn new() -> (p: Pipeline)
        ensures
            p.inv(),
            p.store.recs@ == Seq::<Recording>::empty(),
            p.store.groups@ == Seq::<TaskGroup>::empty(),
            p.store.next_id == 0,
            p.disk.contents() == Map::<Seq<char>, Seq<u8>>::empty(),
    {
        Pipeline { store: RecordStore::new(), disk: Disk::new() }
    }

    /// Ingests one uploaded audio blob: resolves the target date (the
    /// override when it parses as `YYYY-MM-DD`, today otherwise), writes
    /// the bytes under a date-partitioned path, and appends exactly one
    /// new pending record pointing at that file. Returns the new
    /// record's id. An empty payload is accepted and stored as a
    /// zero-length file.
    pub fn ingest(&mut self, audio: Vec<u8>, date_override: Option<&str>, hint: &str, now: Now) -> (
        id: u64)
        requires
            old(self).inv(),
            now.valid(),
            old(self).store.next_id < u64::MAX,
        ensures
            final(self).inv(),
            id == old(self).store.next_id,
            final(self).store.next_id == old(self).store.next_id + 1,
            final(self).store.groups@ == old(self).store.groups@,
            final(self).store.recs@.len() == old(self).store.recs@.len() + 1,
            forall|i: int|
                0 <= i < old(self).store.recs@.len() ==> final(self).store.recs@[i] == old(
                    self,
                ).store.recs@[i],
            ({
                let rec = final(self).store.recs@.last();
                &&& rec.id == id
                &&& rec.status is Pending
                &&& rec.transcription is None
                &&& rec.group_id is None
                &&& rec.created_at == spec_upload_stamp(date_override, now)
                &&& rec.filename@ == spec_upload_filename(hint, now)
                &&& rec.file_path@ == spec_upload_path(date_override, hint, now)
            }),
            final(self).disk.contents() == old(self).disk.contents().insert(
                spec_upload_path(date_override, hint, now),
                audio@,
            ),
    {
        let stamp: Stamp = match date_override {
            Some(s) => match parse_date(s) {
                Some(d) => Stamp { date: d, secs: NOON_SECS },
                None => Stamp { date: now.date, secs: now.secs },
            },
            None => Stamp { date: now.date, secs: now.secs },
        };
        let filename = filename_for_upload(hint, now.unix_ts);
        let file_path = file_path_string(&stamp.date, filename.as_str());
        let path_for_disk = file_path.clone();
        self.disk.put(path_for_disk, audio);
        let id = self.store.insert_pending(filename, file_path, stamp);
        id
    }

    /// Completes the transcription of recording `id` with payload `t`:
    /// the pending record with that id moves to `Completed` and takes the
    /// payload. A record already completed, and a missing id (the record
    /// was deleted while the job ran), leave everything unchanged. No
    /// file is touched.
    pub fn complete(&mut self, id: u64, t: Transcription)
        requires
            old(self).inv(),
        ensures
            final(self).inv(),
            final(self).store.recs@ == spec_complete(old(self).store.recs@, id, t),
            final(self).store.groups@ == old(self).store.groups@,
            final(self).store.next_id == old(self).store.next_id,
            final(self).disk.contents() == old(self).disk.contents(),
    {
        self.store.complete(id, t);
    }

    /// Assigns recording `id` to group `g`, or to no group. No other
    /// field and no file is touched.
    pub fn update_group(&mut self, id: u64, g: Option<u64>)
        requires
            old(self).inv(),
        ensures
            final(self).inv(),
            final(self).store.recs@ == spec_regroup(old(self).store.recs@, id, g),
            final(self).store.groups@ == old(self).store.groups@,
            final(self).store.next_id == old(self).store.next_id,
            final(self).disk.contents() == old(self).disk.contents(),
    {
        self.store.update_group(id, g);
    }

    /// Deletes by client-supplied path. The path must pass the
    /// root-confinement check before anything is looked at; then the
    /// record row goes first and the file second, so the store stays
    /// authoritative. Deleting a path nobody is stored under reports
    /// `NotFound` and performs no mutation at all.
    pub fn delete_by_path(&mut self, path: &str) -> (r: Result<(), DeleteError>)
        requires
            old(self).inv(),
        ensures
            final(self).inv(),
            final(self).store.groups@ == old(self).store.groups@,
            final(self).store.next_id == old(self).store.next_id,
            ({
                let rel = path@.subrange("/files/"@.len() as int, path@.len() as int);
                match r {
                    Ok(()) => {
                        &&& spec_confined(path@)
                        &&& exists|i: int|
                            0 <= i < old(self).store.recs@.len() && (#[trigger] old(
                                self,
                            ).store.recs@[i]).file_path@ == rel
                        &&& final(self).store.recs@ == spec_delete_path(old(self).store.recs@, rel)
                        &&& final(self).disk.contents() == old(self).disk.contents().remove(rel)
                    },
                    Err(DeleteError::NotConfined) => {
                        &&& !spec_confined(path@)
                        &&& final(self).store.recs@ == old(self).store.recs@
                        &&& final(self).disk.contents() == old(self).disk.contents()
                    },
                    Err(DeleteError::NotFound) => {
                        &&& spec_confined(path@)
                        &&& forall|i: int|
                            0 <= i < old(self).store.recs@.len() ==> (#[trigger] old(
                                self,
                            ).store.recs@[i]).file_path@ != rel
                        &&& final(self).store.recs@ == old(self).store.recs@
                        &&& final(self).disk.contents() == old(self).disk.contents()
                    },
                }
            }),
    {
        if !path_is_confined(path) {
            return Err(DeleteError::NotConfined);
        }
        let rel = strip_files_prefix(path);
        let found = self.store.delete_by_path(rel.as_str());
        if found {
            let _ = self.disk.remove(rel.as_str());
            Ok(())
        } else {
            proof {
                lemma_filter_keep_all(
                    old(self).store.recs@,
                    |q: Recording| q.file_path@ != rel@,
                );
            }
            Err(DeleteError::NotFound)
        }
    }

    /// Deletes recording `id`: the row goes first, then its file,
    /// best-effort. Reports whether a record with that id existed; a
    /// missing id changes nothing.
    pub fn delete_by_id(&mut self, id: u64) -> (found: bool)
        requires
            old(self).inv(),
        ensures
            final(self).inv(),
            final(self).store.groups@ == old(self).store.groups@,
            final(self).store.next_id == old(self).store.next_id,
            final(self).store.recs@ == spec_delete_id(old(self).store.recs@, id),
            found == exists|i: int|
                0 <= i < old(self).store.recs@.len() && (#[trigger] old(self).store.recs@[i]).id
                    == id,
            found ==> exists|i: int|
                0 <= i < old(self).store.recs@.len() && (#[trigger] old(self).store.recs@[i]).id
                    == id && final(self).disk.contents() == old(self).disk.contents().remove(
                    old(self).store.recs@[i].file_path@,
                ),
            !found ==> final(self).disk.contents() == old(self).disk.contents(),
    {
        match self.store.delete_by_id(id) {
            Some(p) => {
                let _ = self.disk.remove(p.as_str());
                true
            },
            None => {
                proof {
                    lemma_filter_keep_all(
                        old(self).store.recs@,
                        |q: Recording| q.id != id,
                    );
                }
                false
            },
        }
    }

    /// Reconciles a transcription job's raw response text into the
    /// store: the text is cleaned of code-fence wrapping and parsed as
    /// JSON; a valid payload completes recording `id`, anything else
    /// fails the job and leaves the record pending. Returns whether a
    /// payload was obtained; against a record deleted while the job ran,
    /// the update itself is a harmless no-op.
    pub fn complete_from_text(&mut self, id: u64, raw: &str) -> (ok: bool)
        requires
            old(self).inv(),
        ensures
            final(self).inv(),
            final(self).store.groups@ == old(self).store.groups@,
            final(self).store.next_id == old(self).store.next_id,
            final(self).disk.contents() == old(self).disk.contents(),
            ok <==> spec_payload_fields(spec_clean(raw@)) is Some,
            ok ==> exists|t: Transcription|
                {
                    &&& #[trigger] spec_opt_str_is(
                        t.title,
                        (spec_payload_fields(spec_clean(raw@))->0).0,
                    )
                    &&& spec_opt_str_is(t.transcript, (spec_payload_fields(spec_clean(raw@))->0).1)
                    &&& final(self).store.recs@ == spec_complete(old(self).store.recs@, id, t)
                },
            !ok ==> final(self).store.recs@ == old(self).store.recs@,
    {
        match payload_from_response_text(raw) {
            Some(t) => {
                let ghost witness = t;
                self.store.complete(id, t);
                proof {
                    assert(spec_opt_str_is(
                        witness.title,
                        (spec_payload_fields(spec_clean(raw@))->0).0,
                    ) && spec_opt_str_is(
                        witness.transcript,
                        (spec_payload_fields(spec_clean(raw@))->0).1,
                    ) && final(self).store.recs@ == spec_complete(
                        old(self).store.recs@,
                        id,
                        witness,
                    ));
                }
                true
            },
            None => false,
        }
    }

    /// Lists the recordings created on date `d`, newest first.
    pub fn list(&self, d: Date) -> (out: Vec<RecordingFile>)
        requires
            self.inv(),
        ensures
            spec_reports(out@, self.store.recs@, d),
    {
        self.store.list(d)
    }

    /// Lists with an optional date parameter: no parameter lists today; a
    /// parameter that is no valid `YYYY-MM-DD` date is a client error and
    /// reads nothing.
    pub fn list_on(&self, date_param: Option<&str>, today: Date) -> (r: Result<
        Vec<RecordingFile>,
        ListError,
    >)
        requires
            self.inv(),
        ensures
            match r {
                Ok(out) => match date_param {
                    Some(s) => spec_parse_date(s@) is Some && spec_reports(
                        out@,
                        self.store.recs@,
                        spec_parse_date(s@)->0,
                    ),
                    None => spec_reports(out@, self.store.recs@, today),
                },
                Err(e) => {
                    &&& e is InvalidDate
                    &&& date_param is Some
                    &&& spec_parse_date(date_param->0@) is None
                },
            },
    {
        match date_param {
            Some(s) => match parse_date(s) {
                Some(d) => Ok(self.store.list(d)),
                None => Err(ListError::InvalidDate),
            },
            None => Ok(self.store.list(today)),
        }
    }

    /// Registers a task group.
    pub fn add_group(&mut self, g: TaskGroup)
        requires
            old(self).inv(),
        ensures
            final(self).inv(),
            final(self).store.groups@ == old(self).store.groups@.push(g),
            final(self).store.recs@ == old(self).store.recs@,
            final(self).store.next_id == old(self).store.next_id,
            final(self).disk.contents() == old(self).disk.contents(),
    {
        self.store.add_group(g);
    }

    /// Lists the task groups in display order.
    pub fn list_groups(&self) -> (out: Vec<TaskGroup>)
        ensures
            out@ == spec_group_sort(self.store.groups@),
    {
        self.store.list_groups()
    }

    /// Reads the bytes stored under the storage-relative path `rel`.
    pub fn file_bytes(&self, rel: &str) -> (r: Option<Vec<u8>>)
        requires
            self.inv(),
        ensures
            match r {
                Some(b) => self.disk.contents().contains_key(rel@) && b@
                    == self.disk.contents()[rel@],
                None => !self.disk.contents().contains_key(rel@),
            },
    {
        self.disk.read(rel)
    }

    /// Whether a file is stored under the storage-relative path `rel`.
    pub fn has_file(&self, rel: &str) -> (r: bool)
        requires
            self.inv(),
        ensures
            r == self.disk.contents().contains_key(rel@),
    {
        self.disk.has(rel)
    }
}

/// Whether every record's stored file is present: the agreement between
/// the table and the storage root that successful operations maintain.
pub open spec fn spec_covered(
    recs: Seq<Recording>,
    files: Map<Seq<char>, Seq<u8>>,
) -> bool {
    forall|i: int| 0 <= i < recs.len() ==> files.contains_key((#[trigger] recs[i]).file_path@)
}

/// Ingestion keeps the table and the storage root in agreement: the new
/// record's file is the one just written, and no other record's file is
/// touched.
pub proof fn lemma_ingest_keeps_coverage(
    recs: Seq<Recording>,
    files: Map<Seq<char>, Seq<u8>>,
    rec: Recording,
    bytes: Seq<u8>,
)
    requires
        spec_covered(recs, files),
    ensures
        spec_covered(recs.push(rec), files.insert(rec.file_path@, bytes)),
{
    assert forall|i: int| 0 <= i < recs.push(rec).len() implies files.insert(
        rec.file_path@,
        bytes,
    ).contains_key((#[trigger] recs.push(rec)[i]).file_path@) by {
        if i < recs.len() {
            assert(recs.push(rec)[i] == recs[i]);
        }
    }
}

/// Path deletion keeps the agreement: every record that survives is
/// stored under another path, which the file removal does not touch.
pub proof fn lemma_delete_path_keeps_coverage(
    recs: Seq<Recording>,
    files: Map<Seq<char>, Seq<u8>>,
    p: Seq<char>,
)
    requires
        spec_covered(recs, files),
    ensures
        spec_covered(spec_delete_path(recs, p), files.remove(p)),
{
    let kept = spec_delete_path(recs, p);
    assert forall|i: int| 0 <= i < kept.len() implies files.remove(p).contains_key(
        (#[trigger] kept[i]).file_path@,
    ) by {
        assert(kept[i].file_path@ != p);
        assert(kept.contains(kept[i]));
        assert(recs.contains(kept[i]));
        let j = choose|j: int| 0 <= j < recs.len() && recs[j] == kept[i];
        assert(files.contains_key(recs[j].file_path@));
    }
}

/// Deletion by id keeps the agreement when records are stored under
/// pairwise distinct paths: the one file removed belonged to the one
/// record removed.
pub proof fn lemma_delete_id_keeps_coverage(
    recs: Seq<Recording>,
    files: Map<Seq<char>, Seq<u8>>,
    id: u64,
    k: int,
)
    requires
        spec_covered(recs, files),
        forall|a: int, b: int| 0 <= a < b < recs.len() ==> recs[a].file_path@ != recs[b].file_path@,
        0 <= k < recs.len(),
        recs[k].id == id,
    ensures
        spec_covered(spec_delete_id(recs, id), files.remove(recs[k].file_path@)),
{
    let kept = spec_delete_id(recs, id);
    assert forall|i: int| 0 <= i < kept.len() implies files.remove(
        recs[k].file_path@,
    ).contains_key((#[trigger] kept[i]).file_path@) by {
        assert(kept[i].id != id);
        assert(kept.contains(kept[i]));
        assert(recs.contains(kept[i]));
        let j = choose|j: int| 0 <= j < recs.len() && recs[j] == kept[i];
        assert(files.contains_key(recs[j].file_path@));
        if j != k {
            if j < k {
                assert(recs[j].file_path@ != recs[k].file_path@);
            } else {
                assert(recs[k].file_path@ != recs[j].file_path@);
            }
        }
    }
}

/// Completion and regrouping touch no file and no path, so they keep the
/// agreement as it was.
pub proof fn lemma_updates_keep_coverage(
    recs: Seq<Recording>,
    files: Map<Seq<char>, Seq<u8>>,
    id: u64,
    t: Transcription,
    g: Option<u64>,
)
    requires
        spec_covered(recs, files),
    ensures
        spec_covered(spec_complete(recs, id, t), files),
        spec_covered(spec_regroup(recs, id, g), files),
{
    assert forall|i: int| 0 <= i < spec_complete(recs, id, t).len() implies files.contains_key(
        (#[trigger] spec_complete(recs, id, t)[i]).file_path@,
    ) by {
        assert(spec_complete(recs, id, t)[i].file_path == recs[i].file_path);
    }
    assert forall|i: int| 0 <= i < spec_regroup(recs, id, g).len() implies files.contains_key(
        (#[trigger] spec_regroup(recs, id, g)[i]).file_path@,
    ) by {
        assert(spec_regroup(recs, id, g)[i].file_path == recs[i].file_path);
    }
}

/// Every record of a well-formed store carries in `file_path` the
/// date-partitioned directory of its creation date: the path decodes to
/// the record's year, month and day (and, by
/// `crate::paths::lemma_file_path_injective`, to nothing else).
pub proof fn lemma_path_encodes_date(st: RecordStore, i: int)
    requires
        st.inv(),
        0 <= i < st.recs@.len(),
    ensures
        st.recs@[i].file_path@ == spec_file_path(
            st.recs@[i].created_at.date,
            st.recs@[i].filename@,
        ),
        st.recs@[i].created_at.valid(),
{
}

} // verus!
