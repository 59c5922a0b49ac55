//! The loop: what the player is doing with it, where it has got to, and what
//! analysis found in it.
//!
//! [`Transport`] is the state a player drives, [`position_meter`] carries the
//! playhead off the audio thread, and [`LoopMarks`] is what an analyser found
//! across a take.

use vstd::prelude::*;

mod analyst;
mod engine;
mod layers;
mod marks;
mod page;
mod position;
mod take;
mod transport;
mod waveform;

pub use analyst::{analyse, frame_at, frame_of, marked, marks_of, priors_of, span_nanos, span_of};
pub use engine::{
    frame_count, handing_over, lemma_play_and_stop_close, lemma_take_handed_over_on_leaving, motion_of,
    moving, rehanding, writing, HandOver, Motion,
};
pub use layers::{
    covers, empty_layers, heard, in_spans, laid, layers_wf, lemma_overdub_keeps_below,
    lemma_undo_gives_back, loop_length,
    overdubbed, recorded_into, slot, smaller, undone, vacancy, LayersView, LoopLayers,
};
pub use marks::{LoopMarks, Mark};
pub use page::{
    after_send, clock_parts, controlled, filled_cells, lemma_press_moves_transport,
    lemma_shift_down_empties, lemma_shift_record_toggles_mute, lemma_shift_stop_takes_a_layer_off, mute_owed, owed, sends, transport_owed, PageEvent,
    PageOrder, PageState, filled_of, tenths_of, transport_label, transport_name,
    SECONDS_PER_MINUTE, TENTHS_PER_SECOND,
};
pub use position::{
    lemma_position_round_trip, position_meter, unpacked_of, LoopPosition, PositionReader,
    PositionWriter, MAX_FRAMES,
};
pub use take::{
    ceiling, fewer, laid_over, lemma_shares_land_in_order, share_of, take_handoff, FinishedTake, TakeReader, TakeWriter, CROSSING_BLOCKS,
    SLOT_COUNT,
};
pub use transport::{
    lemma_play_hears_without_writing, lemma_record_toggles_writing, lemma_stop_halts, Transport,
};
pub use waveform::{
    bucket_width, covered, is_power_of_two, marked_after, settled, settled_read, waveform_meter,
    WaveformReader, WaveformWords, WaveformWriter, BUCKETS,
};

verus! {

/// How many layers a loop is built from: the take, and seven overdubs over it.
pub const LAYERS: usize = 8;

} // verus!
