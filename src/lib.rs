//! Resumable, concurrent download-and-cache core for multi-episode comics:
//! what remains to fetch, judged from what is on disk; the records kept
//! there; episode selection; the per-episode worker state machine;
//! throughput aggregation; and reading a work id out of a number or a link.

mod digits;
mod link;
mod progress;
mod records;
mod report;
mod selection;
mod throughput;
mod units;
mod worker;

pub use digits::{
    all_digits, digits_in, digits_value, is_digit, parse_i64, parse_i64_in, parse_u32, parse_u32_in,
    unsigned_digits,
};
pub use link::{
    all_ascii, digit_prefix, first_mc_from, id_of, id_of_ascii, mc_at, numeric_char, numeric_prefix,
    parse_id_or_link,
};
pub use progress::{
    file_name_of, is_complete, last_segment, lemma_remaining_is_difference, page_file_names,
    page_present, remaining_of, remaining_pages,
};
pub use records::{
    decode_index, decode_lines, decoded_index, decode_work, decoded_work, encode_index, encode_work,
    escape_char, escaped, index_text, lemma_index_round_trip, lemma_save_idempotent,
    lemma_work_round_trip, line_len,
    no_newline, page_lines, pages_view, prepend, signed_decimal, unescaped, work_text, EpisodeIndex,
    IndexModel, WorkRecord,
};
pub use report::{count_phase, summarize, RunReport};
pub use selection::{
    comes_before, eligible, exportable, in_bounds, is_selection, select_episodes, select_exportable,
    wanted, EpisodeEntry,
};
pub use throughput::{
    add_bytes, lemma_idle_window_publishes_zero, rate_of, recorded, throughput_label, ticked,
    window_elapsed, ThroughputAggregator, WINDOW_MS,
};
pub use units::{byte_label, bytes_with_unit, decimal_digits, digit_char, push_decimal, scaled, unit_name};
pub use worker::{
    all_success_events, fetches, is_terminal, lemma_all_success_completes,
    lemma_cancel_stops_at_next_step, run, next_state, EpisodeWorker, WorkerAction, WorkerEvent,
    WorkerPhase, MAX_INDEX_ATTEMPTS,
};

use vstd::prelude::*;

verus! {

/// How an operator authenticates: with a session cookie value, or by
/// scanning a QR code.
pub enum LoginMethod {
    SESSDATA(String),
    QRCODE,
}

} // verus!
