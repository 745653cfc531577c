//! A bounded, time-windowed record of recently submitted events, kept in a
//! fixed-size ring of slots, and the dispatch rules of the oracle that feeds it.
mod pallet;
mod storage;

pub use pallet::{Error, Event, Origin, Pallet};
pub use storage::{
    lemma_cleanup_evicts_stale_prefix, lemma_cleanup_idempotent, lemma_pushed_all_keeps_newest,
    pushed_all, pushed_window, stale, stale_prefix_len, stale_run_from, timestamps_ordered,
    OracleEvent, OracleEventStorage, RawEvent, HOUR_DURATION, LIST_SIZE,
};
