//! Typed errors for the operations that reject bad arguments instead of
//! proceeding with mismatched state.

use vstd::prelude::*;

verus! {

/// An error from a video operation, carrying the offending values so that a
/// caller can report or recover.
#[derive(Clone, Copy, Debug, PartialEq, Eq, Structural)]
pub enum VfxError {
    /// A frame's dimensions do not match the video's.
    DimensionMismatch {
        /// Width of the offered frame.
        frame_width: usize,
        /// Height of the offered frame.
        frame_height: usize,
        /// Width of the video.
        video_width: usize,
        /// Height of the video.
        video_height: usize,
    },
    /// A crop rectangle reaches outside the video.
    CropOutOfBounds {
        /// Left edge of the requested rectangle.
        x_start: usize,
        /// Top edge of the requested rectangle.
        y_start: usize,
        /// Width of the requested rectangle.
        crop_width: usize,
        /// Height of the requested rectangle.
        crop_height: usize,
        /// Width of the video.
        video_width: usize,
        /// Height of the video.
        video_height: usize,
    },
    /// A frame range is not a valid inclusive range inside the video.
    InvalidRange {
        /// First frame index of the range.
        start: usize,
        /// Last frame index of the range.
        end: usize,
        /// Number of frames in the video.
        length: usize,
    },
    /// A fade covers more frames than the video holds.
    FadeTooLong {
        /// Requested duration of the fade, in frames.
        duration: usize,
        /// Number of frames in the video.
        length: usize,
    },
    /// A batch of decoded frames was empty.
    NoFrames,
}

} // verus!
