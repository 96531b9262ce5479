//! Settings from environment variables: each function takes the value of its
//! variable, or none where the variable is not set.
use vstd::prelude::*;
use crate::text::{number_in, parse_number, same_text};

verus! {

/// Chunk size where none is set: 64 MiB.
pub const DEFAULT_CHUNK_SIZE_MIB: usize = 64;

/// Range requests per object where no number is set.
pub const DEFAULT_PARALLEL_CHUNKS: usize = 4;

/// Objects copied at the same time where no number is set.
pub const DEFAULT_PARALLEL_OBJECTS: usize = 16;

/// Objects streamed at the same time where no number is set.
pub const DEFAULT_STREAM_CONCURRENCY: usize = 16;

/// Transfers run at the same time by the worker where no number is set.
pub const DEFAULT_WORKER_CONCURRENCY: usize = 4;

/// How objects are copied.
#[derive(Clone, Copy, PartialEq, Eq, Structural, Debug)]
pub enum Strategy {
    /// Whole objects, each over one connection: few requests.
    Stream,
    /// Large objects in ranges that are fetched at the same time.
    Chunked,
}

/// The number that a variable holds; a value that is no number counts as none.
pub open spec fn number_of(value: Option<&str>) -> Option<nat> {
    match value {
        Some(text) => number_in(text@, usize::MAX as nat),
        None => None,
    }
}

/// The number that a variable holds, or `default`.
pub open spec fn number_or(value: Option<&str>, default: usize) -> nat {
    match number_of(value) {
        Some(n) => n,
        None => default as nat,
    }
}

/// The chunk size in bytes that `SLATE_CHUNK_SIZE_MIB` asks for.
pub open spec fn chunk_bytes(value: Option<&str>) -> nat {
    number_or(value, DEFAULT_CHUNK_SIZE_MIB) * 1048576
}

fn setting(value: Option<&str>, default: usize) -> (n: usize)
    ensures
        n == number_or(value, default),
{
    match value {
        Some(text) => match parse_number(text, usize::MAX as u64) {
            Some(n) => n as usize,
            None => default,
        },
        None => default,
    }
}

/// The chunk size in bytes that `SLATE_CHUNK_SIZE_MIB` asks for, if an address can
/// count that many bytes.
pub fn checked_chunk_size(value: Option<&str>) -> (n: Option<usize>)
    ensures
        match n {
            Some(n) => n == chunk_bytes(value),
            None => chunk_bytes(value) > usize::MAX,
        },
{
    setting(value, DEFAULT_CHUNK_SIZE_MIB).checked_mul(1048576)
}

/// The chunk size in bytes that `SLATE_CHUNK_SIZE_MIB` asks for.
pub fn chunk_size(value: Option<&str>) -> (n: usize)
    requires
        chunk_bytes(value) <= usize::MAX,
    ensures
        n == chunk_bytes(value),
{
    setting(value, DEFAULT_CHUNK_SIZE_MIB) * 1048576
}

/// The range requests per object that `SLATE_PARALLEL_CHUNKS` asks for.
pub fn parallel_chunks(value: Option<&str>) -> (n: usize)
    ensures
        n == number_or(value, DEFAULT_PARALLEL_CHUNKS),
{
    setting(value, DEFAULT_PARALLEL_CHUNKS)
}

/// The objects at a time that `SLATE_PARALLEL_OBJECTS` asks for.
pub fn parallel_objects(value: Option<&str>) -> (n: usize)
    ensures
        n == number_or(value, DEFAULT_PARALLEL_OBJECTS),
{
    setting(value, DEFAULT_PARALLEL_OBJECTS)
}

/// The streams at a time that `SLATE_PARALLEL_OBJECTS` asks for: one variable covers
/// both strategies.
pub fn stream_concurrency(value: Option<&str>) -> (n: usize)
    ensures
        n == number_or(value, DEFAULT_STREAM_CONCURRENCY),
{
    setting(value, DEFAULT_STREAM_CONCURRENCY)
}

/// The transfers at a time that `SLATE_WORKER_CONCURRENCY` asks for.
pub fn worker_concurrency(value: Option<&str>) -> (n: usize)
    ensures
        n == number_or(value, DEFAULT_WORKER_CONCURRENCY),
{
    setting(value, DEFAULT_WORKER_CONCURRENCY)
}

/// The strategy that `SLATE_STRATEGY` asks for: chunked unless it says `stream`.
pub fn strategy(value: Option<&str>) -> (s: Strategy)
    ensures
        s == (if asks_for_stream(value) {
            Strategy::Stream
        } else {
            Strategy::Chunked
        }),
{
    match value {
        Some(text) => if same_text(text, "stream") {
            Strategy::Stream
        } else {
            Strategy::Chunked
        },
        None => Strategy::Chunked,
    }
}

/// How objects are copied, with what the strategy needs.
#[derive(Clone, Copy, PartialEq, Eq, Structural, Debug)]
pub enum Copying {
    Stream,
    Chunked {
        /// Bytes per range; none where the size that was asked for cannot be counted.
        chunk_size: Option<usize>,
        /// Range requests per object.
        parallel_chunks: usize,
    },
}

/// How a transfer is tuned.
#[derive(Clone, Copy, PartialEq, Eq, Structural, Debug)]
pub struct TransferConfig {
    /// Objects copied at the same time.
    pub concurrency: usize,
    pub copying: Copying,
}

impl TransferConfig {
    /// An object can be copied: what its strategy needs is there.
    pub open spec fn can_copy(self) -> bool {
        self.copying matches Copying::Chunked { chunk_size, .. } ==> chunk_size is Some
    }
}

/// The variable asks for streams.
pub open spec fn asks_for_stream(value: Option<&str>) -> bool {
    value matches Some(text) && text@ == "stream"@
}

/// The tuning is the one that the variables ask for.
pub open spec fn tuned(
    config: TransferConfig,
    strategy_value: Option<&str>,
    objects_value: Option<&str>,
    chunks_value: Option<&str>,
    size_value: Option<&str>,
) -> bool {
    if asks_for_stream(strategy_value) {
        &&& config.copying == Copying::Stream
        &&& config.concurrency == number_or(objects_value, DEFAULT_STREAM_CONCURRENCY)
    } else {
        &&& config.concurrency == number_or(objects_value, DEFAULT_PARALLEL_OBJECTS)
        &&& config.copying matches Copying::Chunked { chunk_size, parallel_chunks }
        &&& parallel_chunks == number_or(chunks_value, DEFAULT_PARALLEL_CHUNKS)
        &&& match chunk_size {
            Some(n) => n == chunk_bytes(size_value),
            None => chunk_bytes(size_value) > usize::MAX,
        }
    }
}

/// The tuning that the variables ask for.
pub fn transfer_config(
    strategy_value: Option<&str>,
    objects_value: Option<&str>,
    chunks_value: Option<&str>,
    size_value: Option<&str>,
) -> (config: TransferConfig)
    ensures
        tuned(config, strategy_value, objects_value, chunks_value, size_value),
{
    match strategy(strategy_value) {
        Strategy::Stream => TransferConfig {
            concurrency: stream_concurrency(objects_value),
            copying: Copying::Stream,
        },
        Strategy::Chunked => TransferConfig {
            concurrency: parallel_objects(objects_value),
            copying: Copying::Chunked {
                chunk_size: checked_chunk_size(size_value),
                parallel_chunks: parallel_chunks(chunks_value),
            },
        },
    }
}

} // verus!
