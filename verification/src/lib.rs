//! The on-disk cache of an embedded runtime: where it is looked for, how it is
//! published, and which old versions are swept away.

pub mod attempt;
pub mod extraction;
pub mod names;
pub mod path;
pub mod protocol;
pub mod protocol_laws;
pub mod publish_laws;
pub mod search_laws;
pub mod suffix;
pub mod sweep;
pub mod unpack;

pub use attempt::{try_extract, AttemptPhase};
pub use extraction::{
    base_candidates, ensure_runtime, extract_once, Demand, Event, Extraction, Listing, Phase,
};
pub use names::CacheKey;
pub use path::CachePath;
pub use protocol::{Action, EntryMeta, Place, Reply, Stamp, Tmp};
pub use suffix::rand_suffix;
pub use sweep::{gc_stale, SweepPhase, MAX_AGE};
pub use unpack::{unpack_blob, UnpackError};
