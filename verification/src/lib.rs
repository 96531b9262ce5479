//! Slate moves datasets, model weights and checkpoints between object stores:
//! job queue, retries, schedules, transfer planning and cost estimates.
//!
//! - Texts, numbers and time: `text`, `digits`, `double`, `time`, `ids`.
//! - Jobs and where they are kept: `job`, `row`, `table`, `store`, `laws`.
//! - Transfers: `config`, `store_url`, `chunks`, `progress`, `transfer`, `cost`.
//! - What runs and answers: `schedule`, `worker`, `api`, `cli`, `bench`.
//! - What always holds of each: the modules whose names end in `laws`.
pub mod text;
pub mod text_laws;
mod digits;
pub mod double;
pub mod number_laws;
pub mod ids;
pub mod time;
pub mod time_laws;
pub mod job;
pub mod row;
pub mod job_laws;
pub mod table;
pub mod store;
pub mod laws;
pub mod store_laws;
pub mod config;
pub mod cost;
pub mod store_url;
pub mod chunks;
pub mod progress;
pub mod transfer;
pub mod transfer_laws;
pub mod cost_laws;
pub mod schedule;
pub mod schedule_laws;
pub mod worker;
pub mod worker_laws;
pub mod api;
pub mod api_laws;
pub mod cli;
pub mod bench;
pub mod print_laws;
