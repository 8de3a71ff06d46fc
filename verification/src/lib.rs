//! Core of an audio-recording workflow: uploaded recordings are stored on
//! disk in date-partitioned directories, tracked in a record store, and
//! transcribed in the background by an external speech-to-text service.
//!
//! The library models the state that the workflow maintains (the record
//! table and the stored files) and verifies the rules that keep the two in
//! agreement: ingestion creates exactly one file and one pending record,
//! completion of a transcription is monotonic, deletion removes the record
//! and its file together, and every stored path is confined to the storage
//! root and encodes the record's creation date.

pub mod date;
pub mod disk;
pub mod dtos;
pub mod errors;
pub mod jobs;
pub mod paths;
pub mod pipeline;
pub mod records;
pub mod store;
pub mod text;
pub mod transcribe;

pub use date::Date;
pub use dtos::{Candidate, CandidateContent, CandidatePart, Content, DateFilter, DeleteRequest,
    GenerateContentRequest, GenerateContentResponse, InlineData, Part, UpdateRecordingRequest};
pub use errors::{DeleteError, ListError, TranscribeError};
pub use pipeline::{Now, Pipeline};
pub use records::{Recording, RecordingFile, Stamp, Status, TaskGroup, Transcription};
pub use store::RecordStore;
