//! The core of a serial-sensor telemetry bridge: identifying the one device
//! among the machine's serial ports, parsing its line-oriented
//! light/motion/sound protocol, aggregating readings into one summary per
//! minute, and rendering the URL each summary is published to. The parsing,
//! the reductions, and the probing and read-loop decisions are verified;
//! the I/O that surrounds them hands in plain bytes and events and carries
//! out the actions and summaries handed back.

use vstd::prelude::*;

pub mod errors;
pub mod parser;
pub mod probe;
pub mod publish;
pub mod reading;
pub mod supervisor;
pub mod window;

pub use errors::CollectorError;
pub use parser::{
    parse_field, parse_frame, parse_i32, split_bytes, frame_readings, field_value, parse_i32_spec,
    split_on, FIELD_SEP, LABEL_SEP, MIN_FRAME_LEN,
};
pub use probe::{
    contains_marker, has_marker, marker, next_round, advance, probe_step, ProbeAction, ProbeEvent,
    ProbePhase, ProbeState, OPEN_ATTEMPTS, PROBE_ROUNDS,
};
pub use publish::{
    dec_digits, dec_signed, push_i64_dec, push_u64_dec, summary_url, summary_url_bytes,
};
pub use reading::{Reading, Summary, Timestamp};
pub use supervisor::{
    check_utf8, chunk_readings, is_utf8, lights_of, motions_of, sounds_of, split_crlf,
    split_frames, frames_readings, lemma_reconnect_preserves_window, window_after_ingest,
    ingest_directive, Directive, ReadEvent, Supervisor, WindowModel, CR, LF,
};
pub use window::{
    max_value, sum_of, max_of, div_trunc, light_reduction, AggregationWindow, LIGHT_CEILING,
};

verus! {

} // verus!
