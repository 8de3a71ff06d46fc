//! The recording entity and its well-formedness rules, plus the row shape
//! that date queries return and the task groups a recording may belong to.

use vstd::prelude::*;
use vstd::string::*;
use crate::date::Date;
use crate::paths::spec_file_path;

verus! {

/// Lifecycle state of a recording's transcription. A recording starts
/// `Pending` and moves at most once, to `Completed`; a failed
/// transcription leaves it `Pending`.
#[derive(PartialEq, Eq, Structural, Clone, Copy, Debug)]
pub enum Status {
    Pending,
    Completed,
}

/// The loosely validated transcription payload: any JSON object is
/// accepted, so either field may be absent. Consumers fall back to the
/// recording's filename for the title and to the empty string for the
/// transcript.
#[derive(Debug)]
pub struct Transcription {
    pub title: Option<String>,
    pub transcript: Option<String>,
}

impl Clone for Transcription {
    fn clone(&self) -> (r: Self)
        ensures
            r == *self,
    {
        Transcription {
            title: match &self.title {
                Some(t) => Some(t.clone()),
                None => None,
            },
            transcript: match &self.transcript {
                Some(t) => Some(t.clone()),
                None => None,
            },
        }
    }
}

/// A creation instant: a calendar date and a second of that day. Ordering
/// and date filtering both go through it.
#[derive(PartialEq, Eq, Structural, Clone, Copy, Debug)]
pub struct Stamp {
    pub date: Date,
    pub secs: u32,
}

/// Seconds of noon, the creation time recorded for uploads that carry an
/// explicit date.
pub const NOON_SECS: u32 = 43200;

impl Stamp {
    /// A well-formed instant: valid date, second inside the day.
    pub open spec fn valid(self) -> bool {
        self.date.valid() && self.secs < 86400
    }

    /// Total order key of an instant: later instants have larger keys.
    pub open spec fn key(self) -> int {
        self.date.key() * 100000 + self.secs as int
    }
}

/// Computes the order key of an instant.
pub fn stamp_key(s: &Stamp) -> (r: u64)
    requires
        s.valid(),
    ensures
        r == s.key(),
{
    (s.date.year as u64 * 10000 + s.date.month as u64 * 100 + s.date.day as u64) * 100000
        + s.secs as u64
}

/// One recording: an uploaded audio artifact plus its metadata and
/// transcription state.
#[derive(Debug)]
pub struct Recording {
    pub id: u64,
    pub filename: String,
    pub file_path: String,
    pub created_at: Stamp,
    pub status: Status,
    pub transcription: Option<Transcription>,
    pub group_id: Option<u64>,
}

impl Recording {
    /// Well-formedness: the creation instant is valid, the stored path is
    /// the date-partitioned directory of the creation date joined with the
    /// filename, and the transcription payload is present exactly when the
    /// recording is completed.
    pub open spec fn wf(self) -> bool {
        &&& self.created_at.valid()
        &&& self.file_path@ == spec_file_path(self.created_at.date, self.filename@)
        &&& (self.status is Pending <==> self.transcription is None)
    }
}

impl Clone for Recording {
    fn clone(&self) -> (r: Self)
        ensures
            r == *self,
    {
        Recording {
            id: self.id,
            filename: self.filename.clone(),
            file_path: self.file_path.clone(),
            created_at: self.created_at,
            status: self.status,
            transcription: match &self.transcription {
                Some(t) => Some(t.clone()),
                None => None,
            },
            group_id: self.group_id,
        }
    }
}

/// A user-defined category a recording may optionally belong to, listed in
/// its display order.
#[derive(Debug)]
pub struct TaskGroup {
    pub id: u64,
    pub name: String,
    pub description: Option<String>,
    pub ordering: i32,
}

impl Clone for TaskGroup {
    fn clone(&self) -> (r: Self)
        ensures
            r == *self,
    {
        TaskGroup {
            id: self.id,
            name: self.name.clone(),
            description: match &self.description {
                Some(d) => Some(d.clone()),
                None => None,
            },
            ordering: self.ordering,
        }
    }
}

/// One row of a date query: what a client sees of a recording. The path
/// carries the `/files/` serving prefix in front of the stored path.
#[derive(Debug)]
pub struct RecordingFile {
    pub id: u64,
    pub path: String,
    pub name: String,
    pub status: String,
    pub transcription: Option<Transcription>,
    pub group_id: Option<u64>,
}

/// The label under which a status is reported.
pub open spec fn spec_status_label(s: Status) -> Seq<char> {
    if s is Pending {
        "PENDING"@
    } else {
        "COMPLETED"@
    }
}

/// Spells the label of a status.
pub fn status_label(s: Status) -> (r: String)
    ensures
        r@ == spec_status_label(s),
{
    match s {
        Status::Pending => String::from_str("PENDING"),
        Status::Completed => String::from_str("COMPLETED"),
    }
}

/// Whether `f` reports exactly the recording `r`.
pub open spec fn spec_file_of(f: RecordingFile, r: Recording) -> bool {
    &&& f.id == r.id
    &&& f.path@ == "/files/"@ + r.file_path@
    &&& f.name@ == r.filename@
    &&& f.status@ == spec_status_label(r.status)
    &&& f.transcription == r.transcription
    &&& f.group_id == r.group_id
}

/// Builds the query row of a recording.
pub fn file_of_recording(r: &Recording) -> (f: RecordingFile)
    ensures
        spec_file_of(f, *r),
{
    let mut path = String::from_str("/files/");
    path.append(r.file_path.as_str());
    RecordingFile {
        id: r.id,
        path,
        name: r.filename.clone(),
        status: status_label(r.status),
        transcription: match &r.transcription {
            Some(t) => Some(t.clone()),
            None => None,
        },
        group_id: r.group_id,
    }
}

/// The title under which a recording is displayed: the payload's title
/// when one is present, the recording's filename otherwise.
pub fn display_title(r: &Recording) -> (t: String)
    ensures
        match r.transcription {
            Some(p) => match p.title {
                Some(title) => t@ == title@,
                None => t@ == r.filename@,
            },
            None => t@ == r.filename@,
        },
{
    match &r.transcription {
        Some(p) => match &p.title {
            Some(title) => title.clone(),
            None => r.filename.clone(),
        },
        None => r.filename.clone(),
    }
}

/// The transcript under which a recording is displayed: the payload's
/// transcript when one is present, the empty string otherwise.
pub fn display_transcript(r: &Recording) -> (t: String)
    ensures
        match r.transcription {
            Some(p) => match p.transcript {
                Some(tr) => t@ == tr@,
                None => t@ == Seq::<char>::empty(),
            },
            None => t@ == Seq::<char>::empty(),
        },
{
    match &r.transcription {
        Some(p) => match &p.transcript {
            Some(tr) => tr.clone(),
            None => String::new(),
        },
        None => String::new(),
    }
}

} // verus!
