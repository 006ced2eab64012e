//! MP3 Layer III encoder building blocks: bitstream writing, frame side
//! information and Huffman coding, the bit reservoir, encoder configuration,
//! frame header and WAV container parsing, and encoding diagnostics records.

pub mod bits;
pub mod bitstream;
pub mod cli;
pub mod config;
pub mod diagnostics;
pub mod diagnostics_data;

pub mod error;
pub mod huffman;
pub mod laws;
pub mod monitor;
pub mod mp3_analysis;
pub mod mp3_frame;
pub mod mp3_validator;
pub mod reservoir;
pub mod types;
pub mod wav;
pub mod word_writer;

use vstd::prelude::*;

verus! {

/// Resets the frame counter. Without the diagnostics collector there is no
/// counter to reset, so this does nothing.
pub fn reset_frame_counter() {
}

/// Number of the next frame. Without the diagnostics collector every frame
/// is reported as frame 1.
pub fn get_next_frame_number() -> (n: i32)
    ensures
        n == 1,
{
    1
}

/// Number of the current frame. Without the diagnostics collector every
/// frame is reported as frame 1.
pub fn get_current_frame_number() -> (n: i32)
    ensures
        n == 1,
{
    1
}

} // verus!
