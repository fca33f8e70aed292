use vstd::prelude::*;

pub mod text;
pub mod table;
pub mod json;
pub mod codec;
pub mod failure;
pub mod path;
pub mod event;
pub mod normal_form;
pub mod digest;
pub mod request;
pub mod records;
pub mod decode;
pub mod round_trip;
pub mod jobs;
pub mod markdown;
pub mod checks;
pub mod directory;
pub mod writing;
pub mod reply;
pub mod commit;
pub mod actions;
pub mod mutations;
pub mod appending;
pub mod lifecycle;
pub mod anchor;
pub mod checkpoint;
pub mod file_names;
pub mod index_laws;
pub mod task_laws;
pub mod commit_laws;
pub mod append_laws;
pub mod checkpoint_laws;
pub mod reading;
pub mod reading_laws;
pub mod saved_laws;
pub mod entry_laws;
pub mod capacity_laws;
pub mod store;
pub mod outbox;
pub mod store_laws;
pub mod tool;
pub mod exchange;
pub mod server;
pub mod dispatch;
pub mod flush;
pub mod server_laws;
pub mod runner_job;
pub mod cli;
pub mod observations;
pub mod host;
pub mod anchor_laws;
pub mod record_laws;
pub mod fact_laws;
pub mod job_laws;
pub mod shown_laws;
pub mod capture_laws;
pub mod reply_laws;
pub mod message_laws;
pub mod outcome_laws;
pub mod progress_laws;
pub mod accepted_laws;
pub mod asked_laws;
pub mod queue_laws;
pub mod history_laws;
pub mod answer_laws;
pub mod boundary_laws;
pub mod listing_laws;
pub mod amount_laws;
pub mod printed_laws;
pub mod refused_laws;
pub mod bounds_laws;
pub mod guard_laws;
