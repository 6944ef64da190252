//! Content resolution and retrieval for a content-addressed block network.
//!
//! The library holds the decisions of the retrieval pipeline: which source
//! answers a request, when a session is torn down, which gateway response is
//! trusted, how blocks are published locally, and how a block graph or a byte
//! range is exported. Transports, timers and tasks live with the caller, which
//! feeds their results into the functions here.
//!
//! Beside the pipeline it holds the output window of a streaming decoder,
//! which drains decoded bytes into a sink.

pub mod car;
pub mod content_id;
pub mod context;
pub mod decodebuffer;
pub mod export;
pub mod gateway;
pub mod loader;
pub mod materialize;
pub mod range;
pub mod sink;
pub mod store;

pub use car::{encode_header, encode_record, push_varint};
pub use content_id::{bytes_equal, verify_hash, Cid};
pub use context::{ContextId, LoaderContext, SessionRefs};
pub use decodebuffer::{Decodebuffer, DecodebufferError};
pub use export::{export_graph, ExportError, GraphWalk};
pub use gateway::{EndpointResponse, GatewayError, GatewayUrl, GatewayWalk};
pub use loader::{
    after_store, bitswap_outcome, decide_race, provider_hints, should_announce, Branch, FetchOutcome, LoadError, LoadStep,
    LoadedCid, Race, RacePhase, Source,
};
pub use materialize::{Materialize, MaterializeStep};
pub use range::{
    begin_ranged, export_range, is_sniff_trap, ByteRange, RangeWindow, RangedExport, RangedHead, SNIFF_LEN,
};
pub use sink::{write_all_bytes, ByteSink};
pub use store::{publication_links, MemoryStore};
