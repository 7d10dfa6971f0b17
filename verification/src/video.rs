//! Videos: ordered sequences of equally sized frames, with structural edits
//! and bulk frame operations.

use vstd::prelude::*;
use crate::pixel::Pixel;
use crate::frame::{
    Frame,
    FrameModel,
    tint_model,
    mono_model,
    crop_model,
    overlay_model,
    chroma_overlay_model,
};
use crate::error::VfxError;

verus! {

/// Where a transition effect is applied in a video.
#[allow(non_camel_case_types)]
#[derive(Clone, Copy, Debug, PartialEq, Eq, Structural)]
pub enum VideoPosition {
    /// The effect is applied at the end of the video.
    END,
    /// The effect is applied at the start of the video.
    START,
}

/// The mathematical content of a video: its dimensions and the models of
/// its frames in display order.
#[verifier::ext_equal]
pub struct VideoModel {
    /// Width in pixels of every frame.
    pub width: nat,
    /// Height in pixels of every frame.
    pub height: nat,
    /// The frames, in display order.
    pub frames: Seq<FrameModel>,
}

impl VideoModel {
    /// A video is well formed when every frame is well formed and has
    /// exactly the video's dimensions.
    pub open spec fn wf(self) -> bool {
        forall|i: int|
            0 <= i < self.frames.len() ==> {
                &&& (#[trigger] self.frames[i]).wf()
                &&& self.frames[i].width == self.width
                &&& self.frames[i].height == self.height
            }
    }
}

/// The model of a video spliced down to the inclusive frame range
/// `[start, end]`.
pub open spec fn splice_model(v: VideoModel, start: int, end: int) -> VideoModel {
    VideoModel { frames: v.frames.subrange(start, end + 1), ..v }
}

/// Splicing the single-frame range `[i, i]` yields exactly one frame: the
/// frame that stood at index `i`.
pub proof fn lemma_splice_single(v: VideoModel, i: int)
    requires
        0 <= i < v.frames.len(),
    ensures
        splice_model(v, i, i).frames.len() == 1,
        splice_model(v, i, i).frames[0] == v.frames[i],
{
}

/// The model of a video with every frame turned monochrome.
pub open spec fn video_mono_model(v: VideoModel) -> VideoModel {
    VideoModel { frames: v.frames.map_values(|f: FrameModel| mono_model(f)), ..v }
}

/// The model of a video with every frame replaced by its `cw` by `ch`
/// sub-rectangle at `(x0, y0)`, and the video's dimensions updated to
/// match.
pub open spec fn video_crop_model(v: VideoModel, x0: int, y0: int, cw: nat, ch: nat) -> VideoModel {
    VideoModel {
        width: cw,
        height: ch,
        frames: v.frames.map_values(|f: FrameModel| crop_model(f, x0, y0, cw, ch)),
    }
}

/// The model of a fade applied to the first `d` frames: the frame at
/// offset `j < d` is tinted with strength `(d-1-j)/d`, so the very first
/// frame carries the strongest tint and the ramp decays to no tint by
/// offset `d`.
pub open spec fn fade_start_model(v: VideoModel, color: Pixel, d: int) -> VideoModel {
    VideoModel {
        frames: Seq::new(
            v.frames.len(),
            |j: int|
                if j < d {
                    tint_model(v.frames[j], color, d - 1 - j, d)
                } else {
                    v.frames[j]
                },
        ),
        ..v
    }
}

/// The model of a fade applied to the last `d` frames: the frame at offset
/// `i` into that tail is tinted with strength `i/d`, so the very last frame
/// carries the strongest tint.
pub open spec fn fade_end_model(v: VideoModel, color: Pixel, d: int) -> VideoModel {
    VideoModel {
        frames: Seq::new(
            v.frames.len(),
            |j: int|
                if v.frames.len() - d <= j {
                    tint_model(v.frames[j], color, j - (v.frames.len() - d), d)
                } else {
                    v.frames[j]
                },
        ),
        ..v
    }
}

/// The model of a video with `over` drawn over every frame in the inclusive
/// index range `[start, end]`.
pub open spec fn bulk_overlay_model(
    v: VideoModel,
    over: FrameModel,
    xo: int,
    yo: int,
    start: int,
    end: int,
) -> VideoModel {
    VideoModel {
        frames: Seq::new(
            v.frames.len(),
            |j: int|
                if start <= j <= end {
                    overlay_model(v.frames[j], over, xo, yo)
                } else {
                    v.frames[j]
                },
        ),
        ..v
    }
}

/// The model of a video with `over` drawn over every frame in the inclusive
/// index range `[start, end]` under a chroma key.
pub open spec fn bulk_chroma_overlay_model(
    v: VideoModel,
    over: FrameModel,
    xo: int,
    yo: int,
    key: Pixel,
    tolerance: u8,
    start: int,
    end: int,
) -> VideoModel {
    VideoModel {
        frames: Seq::new(
            v.frames.len(),
            |j: int|
                if start <= j <= end {
                    chroma_overlay_model(v.frames[j], over, xo, yo, key, tolerance)
                } else {
                    v.frames[j]
                },
        ),
        ..v
    }
}

/// The profile of a fade-in at the start with duration `d`: the frame at
/// offset `j < d` is the original tinted with strength `(d-1-j)/d`. Hence
/// frame 0 carries the strongest tint of the ramp, `(d-1)/d`, the ramp has
/// decayed to strength 0 at offset `d-1` (that frame is unchanged), and
/// frames from `d` on are untouched.
pub proof fn lemma_fade_start_profile(v: VideoModel, color: Pixel, d: int)
    requires
        0 < d <= v.frames.len(),
    ensures
        fade_start_model(v, color, d).frames[0] == tint_model(v.frames[0], color, d - 1, d),
        fade_start_model(v, color, d).frames[d - 1] == v.frames[d - 1],
        forall|j: int|
            d <= j < v.frames.len() ==> fade_start_model(v, color, d).frames[j] == v.frames[j],
{
    crate::frame::lemma_tint_frame_zero(v.frames[d - 1], color, d);
}

/// A video: an ordered sequence of frames that all share the video's width
/// and height.
#[derive(Debug)]
pub struct Video {
    /// The frames that make up the video, in display order.
    pub frames: Vec<Frame>,
    /// The width of the video.
    pub width: usize,
    /// The height of the video.
    pub height: usize,
}

impl View for Video {
    type V = VideoModel;

    open spec fn view(&self) -> VideoModel {
        VideoModel {
            width: self.width as nat,
            height: self.height as nat,
            frames: self.frames@.map_values(|f: Frame| f@),
        }
    }
}

/// A borrow of one frame of a vector, for editing it in place.
fn frame_at_mut(frames: &mut Vec<Frame>, i: usize) -> (f: &mut Frame)
    requires
        i < old(frames)@.len(),
    ensures
        *f == old(frames)@[i as int],
        final(frames)@ == old(frames)@.update(i as int, *final(f)),
{
    &mut frames[i]
}

/// A borrow of one frame of a vector.
fn frame_at(frames: &Vec<Frame>, i: usize) -> (f: &Frame)
    requires
        i < frames@.len(),
    ensures
        *f == frames@[i as int],
{
    &frames[i]
}

impl Video {
    /// Creates an empty video with the given fixed dimensions.
    pub fn new(width: usize, height: usize) -> (v: Video)
        ensures
            v@.wf(),
            v@.width == width,
            v@.height == height,
            v@.frames.len() == 0,
    {
        let v = Video { frames: Vec::new(), width, height };
        proof {
            assert(v@.frames =~= Seq::<FrameModel>::empty());
        }
        v
    }

    /// The number of frames in the video.
    pub fn length(&self) -> (n: usize)
        ensures
            n == self@.frames.len(),
    {
        self.frames.len()
    }

    /// A reference to the frame at `frame_number`, which must be in range.
    pub fn get_frame(&self, frame_number: usize) -> (f: &Frame)
        requires
            frame_number < self@.frames.len(),
        ensures
            f@ == self@.frames[frame_number as int],
    {
        &self.frames[frame_number]
    }

    /// A mutable reference to the frame at `frame_number`, which must be in
    /// range.
    pub fn get_frame_mut(&mut self, frame_number: usize) -> (f: &mut Frame)
        requires
            frame_number < old(self)@.frames.len(),
        ensures
            *f == old(self).frames@[frame_number as int],
            final(self).frames@ == old(self).frames@.update(frame_number as int, *final(f)),
            final(self).width == old(self).width,
            final(self).height == old(self).height,
    {
        &mut self.frames[frame_number]
    }

    /// Appends a frame to the end of the video. The frame's dimensions must
    /// equal the video's; a mismatched frame is rejected and the video is
    /// left unchanged.
    pub fn append_frame(&mut self, frame: Frame) -> (r: Result<(), VfxError>)
        requires
            old(self)@.wf(),
            frame@.wf(),
        ensures
            r is Ok <==> frame@.width == old(self)@.width && frame@.height == old(self)@.height,
            r is Ok ==> final(self)@ == (VideoModel {
                frames: old(self)@.frames.push(frame@),
                ..old(self)@
            }),
            r is Err ==> *final(self) == *old(self) && r == Err::<(), VfxError>(
                VfxError::DimensionMismatch {
                    frame_width: frame.width,
                    frame_height: frame.height,
                    video_width: old(self).width,
                    video_height: old(self).height,
                },
            ),
            final(self)@.wf(),
    {
        if frame.width == self.width && frame.height == self.height {
            self.frames.push(frame);
            proof {
                assert(self@.frames =~= old(self)@.frames.push(frame@));
            }
            Ok(())
        } else {
            Err(
                VfxError::DimensionMismatch {
                    frame_width: frame.width,
                    frame_height: frame.height,
                    video_width: self.width,
                    video_height: self.height,
                },
            )
        }
    }

    /// Appends `amount` copies of the same frame to the end of the video.
    /// The frame's dimensions must equal the video's; a mismatched frame is
    /// rejected and the video is left unchanged.
    pub fn append_still(&mut self, frame: &Frame, amount: usize) -> (r: Result<(), VfxError>)
        requires
            old(self)@.wf(),
            frame@.wf(),
        ensures
            r is Ok <==> frame@.width == old(self)@.width && frame@.height == old(self)@.height,
            r is Ok ==> final(self)@ == (VideoModel {
                frames: old(self)@.frames + Seq::new(amount as nat, |i: int| frame@),
                ..old(self)@
            }),
            r is Err ==> *final(self) == *old(self) && r == Err::<(), VfxError>(
                VfxError::DimensionMismatch {
                    frame_width: frame.width,
                    frame_height: frame.height,
                    video_width: old(self).width,
                    video_height: old(self).height,
                },
            ),
            final(self)@.wf(),
    {
        if !(frame.width == self.width && frame.height == self.height) {
            return Err(
                VfxError::DimensionMismatch {
                    frame_width: frame.width,
                    frame_height: frame.height,
                    video_width: self.width,
                    video_height: self.height,
                },
            );
        }
        let ghost target = old(self)@.frames + Seq::new(amount as nat, |i: int| frame@);
        let mut i: usize = 0;
        while i < amount
            invariant
                i <= amount,
                self.width == old(self).width,
                self.height == old(self).height,
                self@.frames.len() == old(self)@.frames.len() + i,
                target == old(self)@.frames + Seq::new(amount as nat, |j: int| frame@),
                self@.frames =~= target.take(old(self)@.frames.len() + i),
                frame@.wf(),
            decreases amount - i,
        {
            let copy = frame.clone();
            self.frames.push(copy);
            proof {
                let m = old(self)@.frames.len() as int;
                assert(target[m + i] == frame@);
                assert(target.take(m + i + 1) =~= target.take(m + i).push(target[m + i]));
                assert(self@.frames =~= target.take(m + i + 1));
            }
            i = i + 1;
        }
        proof {
            assert(self@.frames =~= target);
        }
        Ok(())
    }

    /// Appends every frame of `frames`, in order, to the end of the video.
    /// Every frame's dimensions must equal the video's: if any frame
    /// mismatches, nothing is appended and the video is left unchanged.
    pub fn bulk_append_frame(&mut self, frames: &Vec<Frame>) -> (r: Result<(), VfxError>)
        requires
            old(self)@.wf(),
            forall|i: int| 0 <= i < frames@.len() ==> (#[trigger] frames@[i])@.wf(),
        ensures
            r is Ok <==> forall|i: int|
                0 <= i < frames@.len() ==> (#[trigger] frames@[i])@.width == old(self)@.width
                    && frames@[i]@.height == old(self)@.height,
            r is Ok ==> final(self)@ == (VideoModel {
                frames: old(self)@.frames + frames@.map_values(|f: Frame| f@),
                ..old(self)@
            }),
            r is Err ==> *final(self) == *old(self) && (exists|k: int|
                {
                    &&& 0 <= k < frames@.len()
                    &&& !((#[trigger] frames@[k])@.width == old(self)@.width && frames@[k]@.height
                        == old(self)@.height)
                    &&& (forall|j: int|
                        0 <= j < k ==> (#[trigger] frames@[j])@.width == old(self)@.width
                            && frames@[j]@.height == old(self)@.height)
                    &&& r == Err::<(), VfxError>(
                        VfxError::DimensionMismatch {
                            frame_width: frames@[k].width,
                            frame_height: frames@[k].height,
                            video_width: old(self).width,
                            video_height: old(self).height,
                        },
                    )
                }),
            final(self)@.wf(),
    {
        let n: usize = frames.len();
        let mut i: usize = 0;
        while i < n
            invariant
                i <= n,
                n == frames@.len(),
                forall|j: int|
                    0 <= j < i ==> (#[trigger] frames@[j])@.width == self@.width
                        && frames@[j]@.height == self@.height,
                *self == *old(self),
                old(self)@.wf(),
            decreases n - i,
        {
            let f = frame_at(frames, i);
            if !(f.width == self.width && f.height == self.height) {
                proof {
                    assert(frames@[i as int].width == f.width && frames@[i as int].height
                        == f.height);
                }
                return Err(
                    VfxError::DimensionMismatch {
                        frame_width: f.width,
                        frame_height: f.height,
                        video_width: self.width,
                        video_height: self.height,
                    },
                );
            }
            i = i + 1;
        }
        let ghost target = old(self)@.frames + frames@.map_values(|f: Frame| f@);
        let mut i: usize = 0;
        while i < n
            invariant
                i <= n,
                n == frames@.len(),
                self.width == old(self).width,
                self.height == old(self).height,
                self@.frames.len() == old(self)@.frames.len() + i,
                target == old(self)@.frames + frames@.map_values(|f: Frame| f@),
                self@.frames =~= target.take(old(self)@.frames.len() + i),
            decreases n - i,
        {
            let copy = frame_at(frames, i).clone();
            self.frames.push(copy);
            proof {
                let m = old(self)@.frames.len() as int;
                assert(target[m + i] == frames@[i as int]@);
                assert(target.take(m + i + 1) =~= target.take(m + i).push(target[m + i]));
                assert(self@.frames =~= target.take(m + i + 1));
            }
            i = i + 1;
        }
        proof {
            assert(self@.frames =~= target);
            assert forall|j: int| 0 <= j < final(self)@.frames.len() implies {
                &&& (#[trigger] final(self)@.frames[j]).wf()
                &&& final(self)@.frames[j].width == final(self)@.width
                &&& final(self)@.frames[j].height == final(self)@.height
            } by {
                let m = old(self)@.frames.len() as int;
                if j >= m {
                    assert(final(self)@.frames[j] == frames@[j - m]@);
                }
            }
        }
        Ok(())
    }

    /// Appends every frame of `other`, in order, to the end of the video.
    /// The two videos must share dimensions: the frame sequence invariant
    /// could not survive a heterogeneous concatenation.
    pub fn concat(&mut self, other: &Video)
        requires
            old(self)@.wf(),
            other@.wf(),
            other@.width == old(self)@.width,
            other@.height == old(self)@.height,
        ensures
            final(self)@ == (VideoModel {
                frames: old(self)@.frames + other@.frames,
                ..old(self)@
            }),
            final(self)@.wf(),
            final(self)@.frames.len() == old(self)@.frames.len() + other@.frames.len(),
            forall|i: int|
                0 <= i < old(self)@.frames.len() ==> final(self)@.frames[i] == old(
                    self,
                )@.frames[i],
            forall|i: int|
                0 <= i < other@.frames.len() ==> final(self)@.frames[old(self)@.frames.len() + i]
                    == other@.frames[i],
    {
        let n: usize = other.frames.len();
        let ghost target = old(self)@.frames + other@.frames;
        let mut i: usize = 0;
        while i < n
            invariant
                i <= n,
                n == other@.frames.len(),
                self.width == old(self).width,
                self.height == old(self).height,
                self@.frames.len() == old(self)@.frames.len() + i,
                target == old(self)@.frames + other@.frames,
                self@.frames =~= target.take(old(self)@.frames.len() + i),
            decreases n - i,
        {
            let copy = frame_at(&other.frames, i).clone();
            self.frames.push(copy);
            proof {
                let m = old(self)@.frames.len() as int;
                assert(target[m + i] == other@.frames[i as int]);
                assert(target.take(m + i + 1) =~= target.take(m + i).push(target[m + i]));
                assert(self@.frames =~= target.take(m + i + 1));
            }
            i = i + 1;
        }
        proof {
            assert(self@.frames =~= target);
        }
    }

    /// Keeps only the frames whose index lies in the inclusive range
    /// `[start, end]`. The range must satisfy `start <= end < length`;
    /// otherwise the video is left unchanged and the range is reported.
    pub fn splice(&mut self, start: usize, end: usize) -> (r: Result<(), VfxError>)
        requires
            old(self)@.wf(),
        ensures
            r is Ok <==> start <= end < old(self)@.frames.len(),
            r is Ok ==> final(self)@ == splice_model(old(self)@, start as int, end as int),
            r is Err ==> *final(self) == *old(self) && r == Err::<(), VfxError>(
                VfxError::InvalidRange {
                    start,
                    end,
                    length: old(self)@.frames.len() as usize,
                },
            ),
            final(self)@.wf(),
    {
        let len: usize = self.frames.len();
        if start >= len || end >= len || start > end {
            return Err(VfxError::InvalidRange { start, end, length: len });
        }
        let ghost target = old(self)@.frames.subrange(start as int, end + 1);
        let mut kept: Vec<Frame> = Vec::new();
        let mut i: usize = start;
        while i <= end
            invariant
                start <= i <= end + 1,
                len == self@.frames.len(),
                end < len,
                *self == *old(self),
                target == old(self)@.frames.subrange(start as int, end + 1),
                kept@.map_values(|f: Frame| f@) =~= target.take(i - start),
            decreases end + 1 - i,
        {
            let copy = frame_at(&self.frames, i).clone();
            kept.push(copy);
            proof {
                assert(target[i - start] == old(self)@.frames[i as int]);
                assert(target.take(i + 1 - start) =~= target.take(i - start).push(
                    target[i - start],
                ));
                assert(kept@.map_values(|f: Frame| f@) =~= target.take(i + 1 - start));
            }
            i = i + 1;
        }
        self.frames = kept;
        proof {
            assert(self@.frames =~= target);
            assert(self@ =~= splice_model(old(self)@, start as int, end as int));
        }
        Ok(())
    }

    /// Builds a video from a batch of frames, taking its dimensions from
    /// the first frame. An empty batch is rejected, and so is a batch whose
    /// frames do not all share the first frame's dimensions.
    pub fn from_frames(frames: Vec<Frame>) -> (r: Result<Video, VfxError>)
        requires
            forall|i: int| 0 <= i < frames@.len() ==> (#[trigger] frames@[i])@.wf(),
        ensures
            r is Ok <==> frames@.len() > 0 && forall|i: int|
                0 <= i < frames@.len() ==> (#[trigger] frames@[i])@.width == frames@[0]@.width
                    && frames@[i]@.height == frames@[0]@.height,
            r matches Ok(v) ==> {
                &&& v@.wf()
                &&& v@.width == frames@[0]@.width
                &&& v@.height == frames@[0]@.height
                &&& v@.frames == frames@.map_values(|f: Frame| f@)
            },
            frames@.len() == 0 ==> r == Err::<Video, VfxError>(VfxError::NoFrames),
            r is Err && frames@.len() > 0 ==> (exists|k: int|
                {
                    &&& 0 < k < frames@.len()
                    &&& !((#[trigger] frames@[k])@.width == frames@[0]@.width
                        && frames@[k]@.height == frames@[0]@.height)
                    &&& (forall|j: int|
                        0 <= j < k ==> (#[trigger] frames@[j])@.width == frames@[0]@.width
                            && frames@[j]@.height == frames@[0]@.height)
                    &&& r == Err::<Video, VfxError>(
                        VfxError::DimensionMismatch {
                            frame_width: frames@[k].width,
                            frame_height: frames@[k].height,
                            video_width: frames@[0].width,
                            video_height: frames@[0].height,
                        },
                    )
                }),
    {
        if frames.len() == 0 {
            return Err(VfxError::NoFrames);
        }
        let width: usize = frame_at(&frames, 0).width;
        let height: usize = frame_at(&frames, 0).height;
        let n: usize = frames.len();
        let mut i: usize = 0;
        while i < n
            invariant
                i <= n,
                n == frames@.len(),
                n > 0,
                width == frames@[0]@.width,
                height == frames@[0]@.height,
                forall|j: int|
                    0 <= j < i ==> (#[trigger] frames@[j])@.width == width && frames@[j]@.height
                        == height,
            decreases n - i,
        {
            let f = frame_at(&frames, i);
            if !(f.width == width && f.height == height) {
                proof {
                    assert(frames@[i as int].width == f.width && frames@[i as int].height
                        == f.height);
                    assert(frames@[0].width == width && frames@[0].height == height);
                }
                return Err(
                    VfxError::DimensionMismatch {
                        frame_width: f.width,
                        frame_height: f.height,
                        video_width: width,
                        video_height: height,
                    },
                );
            }
            i = i + 1;
        }
        Ok(Video { frames, width, height })
    }

    /// Turns every frame of the video monochrome, in place.
    pub fn monochrome(&mut self)
        requires
            old(self)@.wf(),
        ensures
            final(self)@ == video_mono_model(old(self)@),
            final(self)@.wf(),
    {
        let n: usize = self.frames.len();
        let mut i: usize = 0;
        while i < n
            invariant
                i <= n,
                n == self@.frames.len(),
                self.width == old(self).width,
                self.height == old(self).height,
                old(self)@.wf(),
                forall|j: int|
                    0 <= j < i ==> #[trigger] self@.frames[j] == mono_model(old(self)@.frames[j]),
                forall|j: int| i <= j < n ==> #[trigger] self@.frames[j] == old(self)@.frames[j],
            decreases n - i,
        {
            let ghost prev = self@;
            let ghost pre = self.frames@;
            let f = frame_at_mut(&mut self.frames, i);
            f.monochrome();
            proof {
                assert(self.frames@ == pre.update(i as int, self.frames@[i as int]));
                assert forall|j: int| 0 <= j < n implies #[trigger] self@.frames[j] == (if j <= i {
                    mono_model(old(self)@.frames[j])
                } else {
                    old(self)@.frames[j]
                }) by {
                    assert(self@.frames[j] == self.frames@[j]@);
                    assert(prev.frames[j] == pre[j]@);
                    if j == i {
                        assert(prev.frames[j] == old(self)@.frames[j]);
                    } else {
                        assert(self.frames@[j] == pre[j]);
                    }
                }
            }
            i = i + 1;
        }
        proof {
            assert(self@ =~= video_mono_model(old(self)@));
        }
    }

    /// Replaces every frame by its `crop_width` by `crop_height`
    /// sub-rectangle at `(x_start, y_start)` and updates the video's
    /// dimensions to match, atomically. A rectangle that reaches outside
    /// the video is rejected and the video is left unchanged.
    pub fn crop(
        &mut self,
        x_start: usize,
        y_start: usize,
        crop_width: usize,
        crop_height: usize,
    ) -> (r: Result<(), VfxError>)
        requires
            old(self)@.wf(),
        ensures
            r is Ok <==> x_start + crop_width <= old(self)@.width && y_start + crop_height <= old(
                self,
            )@.height,
            r is Ok ==> final(self)@ == video_crop_model(
                old(self)@,
                x_start as int,
                y_start as int,
                crop_width as nat,
                crop_height as nat,
            ),
            r is Err ==> *final(self) == *old(self) && r == Err::<(), VfxError>(
                VfxError::CropOutOfBounds {
                    x_start,
                    y_start,
                    crop_width,
                    crop_height,
                    video_width: old(self).width,
                    video_height: old(self).height,
                },
            ),
            final(self)@.wf(),
    {
        if x_start > self.width || crop_width > self.width - x_start || y_start > self.height
            || crop_height > self.height - y_start {
            return Err(
                VfxError::CropOutOfBounds {
                    x_start,
                    y_start,
                    crop_width,
                    crop_height,
                    video_width: self.width,
                    video_height: self.height,
                },
            );
        }
        let n: usize = self.frames.len();
        let mut i: usize = 0;
        while i < n
            invariant
                i <= n,
                n == self@.frames.len(),
                n == old(self)@.frames.len(),
                self.width == old(self).width,
                self.height == old(self).height,
                old(self)@.wf(),
                x_start + crop_width <= old(self)@.width,
                y_start + crop_height <= old(self)@.height,
                forall|j: int|
                    0 <= j < i ==> #[trigger] self@.frames[j] == crop_model(
                        old(self)@.frames[j],
                        x_start as int,
                        y_start as int,
                        crop_width as nat,
                        crop_height as nat,
                    ),
                forall|j: int| i <= j < n ==> #[trigger] self@.frames[j] == old(self)@.frames[j],
            decreases n - i,
        {
            let ghost prev = self@;
            let ghost pre = self.frames@;
            proof {
                assert(self@.frames[i as int] == self.frames@[i as int]@);
                assert(self@.frames[i as int] == old(self)@.frames[i as int]);
            }
            let c = frame_at(&self.frames, i).cropped(x_start, y_start, crop_width, crop_height);
            self.frames.set(i, c);
            proof {
                assert(self.frames@ == pre.update(i as int, self.frames@[i as int]));
                assert forall|j: int| 0 <= j < n implies #[trigger] self@.frames[j] == (if j <= i {
                    crop_model(
                        old(self)@.frames[j],
                        x_start as int,
                        y_start as int,
                        crop_width as nat,
                        crop_height as nat,
                    )
                } else {
                    old(self)@.frames[j]
                }) by {
                    assert(self@.frames[j] == self.frames@[j]@);
                    assert(prev.frames[j] == pre[j]@);
                    if j == i {
                        assert(prev.frames[j] == old(self)@.frames[j]);
                    } else {
                        assert(self.frames@[j] == pre[j]);
                    }
                }
            }
            i = i + 1;
        }
        self.width = crop_width;
        self.height = crop_height;
        proof {
            assert(self@ =~= video_crop_model(
                old(self)@,
                x_start as int,
                y_start as int,
                crop_width as nat,
                crop_height as nat,
            ));
        }
        Ok(())
    }

    /// Applies a linear fade toward `color` over the first (`START`) or
    /// last (`END`) `frame_duration` frames: at the start the very first
    /// frame gets the strongest tint of the ramp and the tint decays to
    /// nothing by offset `frame_duration`; at the end the ramp builds up so
    /// that the very last frame gets the strongest tint. A duration longer
    /// than the video is rejected and the video is left unchanged.
    pub fn fade_in(&mut self, frame_duration: usize, color: Pixel, position: VideoPosition) -> (r:
        Result<(), VfxError>)
        requires
            old(self)@.wf(),
        ensures
            r is Ok <==> frame_duration <= old(self)@.frames.len(),
            r is Ok && position is START ==> final(self)@ == fade_start_model(
                old(self)@,
                color,
                frame_duration as int,
            ),
            r is Ok && position is END ==> final(self)@ == fade_end_model(
                old(self)@,
                color,
                frame_duration as int,
            ),
            r is Err ==> *final(self) == *old(self) && r == Err::<(), VfxError>(
                VfxError::FadeTooLong {
                    duration: frame_duration,
                    length: old(self)@.frames.len() as usize,
                },
            ),
            final(self)@.wf(),
    {
        let len: usize = self.frames.len();
        if frame_duration > len {
            return Err(VfxError::FadeTooLong { duration: frame_duration, length: len });
        }
        match position {
            VideoPosition::START => {
                let mut i: usize = 0;
                while i < frame_duration
                    invariant
                        i <= frame_duration,
                        frame_duration <= len,
                        len == self@.frames.len(),
                        self.width == old(self).width,
                        self.height == old(self).height,
                        old(self)@.wf(),
                        forall|j: int|
                            0 <= j < i ==> #[trigger] self@.frames[j] == tint_model(
                                old(self)@.frames[j],
                                color,
                                frame_duration - 1 - j,
                                frame_duration as int,
                            ),
                        forall|j: int|
                            i <= j < len ==> #[trigger] self@.frames[j] == old(self)@.frames[j],
                    decreases frame_duration - i,
                {
                    let num: usize = frame_duration - 1 - i;
                    let ghost prev = self@;
                    let ghost pre = self.frames@;
                    let f = frame_at_mut(&mut self.frames, i);
                    f.tint(color, num as u64, frame_duration as u64);
                    proof {
                        assert(self.frames@ == pre.update(i as int, self.frames@[i as int]));
                        assert forall|j: int| 0 <= j < len implies #[trigger] self@.frames[j] == (
                        if j <= i {
                            tint_model(
                                old(self)@.frames[j],
                                color,
                                frame_duration - 1 - j,
                                frame_duration as int,
                            )
                        } else {
                            old(self)@.frames[j]
                        }) by {
                            assert(self@.frames[j] == self.frames@[j]@);
                            assert(prev.frames[j] == pre[j]@);
                            if j == i {
                                assert(prev.frames[j] == old(self)@.frames[j]);
                            } else {
                                assert(self.frames@[j] == pre[j]);
                            }
                        }
                    }
                    i = i + 1;
                }
                proof {
                    assert(self@ =~= fade_start_model(old(self)@, color, frame_duration as int));
                }
            },
            VideoPosition::END => {
                let off: usize = len - frame_duration;
                let mut i: usize = 0;
                while i < frame_duration
                    invariant
                        i <= frame_duration,
                        frame_duration <= len,
                        off == len - frame_duration,
                        len == self@.frames.len(),
                        self.width == old(self).width,
                        self.height == old(self).height,
                        old(self)@.wf(),
                        forall|j: int|
                            off <= j < off + i ==> #[trigger] self@.frames[j] == tint_model(
                                old(self)@.frames[j],
                                color,
                                j - off,
                                frame_duration as int,
                            ),
                        forall|j: int|
                            (0 <= j < off || off + i <= j < len) ==> #[trigger] self@.frames[j]
                                == old(self)@.frames[j],
                    decreases frame_duration - i,
                {
                    let ghost prev = self@;
                    let ghost pre = self.frames@;
                    let f = frame_at_mut(&mut self.frames, off + i);
                    f.tint(color, i as u64, frame_duration as u64);
                    proof {
                        let k = off + i;
                        assert(self.frames@ == pre.update(k as int, self.frames@[k as int]));
                        assert forall|j: int| 0 <= j < len implies #[trigger] self@.frames[j] == (
                        if off <= j <= off + i {
                            tint_model(old(self)@.frames[j], color, j - off, frame_duration as int)
                        } else {
                            old(self)@.frames[j]
                        }) by {
                            assert(self@.frames[j] == self.frames@[j]@);
                            assert(prev.frames[j] == pre[j]@);
                            if j == k {
                                assert(prev.frames[j] == old(self)@.frames[j]);
                            } else {
                                assert(self.frames@[j] == pre[j]);
                            }
                        }
                    }
                    i = i + 1;
                }
                proof {
                    assert(self@ =~= fade_end_model(old(self)@, color, frame_duration as int));
                }
            },
        }
        Ok(())
    }

    /// Draws `overlay_frame` over every frame in the inclusive index range
    /// `[start_frame, end_frame]`. The range must satisfy
    /// `start_frame <= end_frame < length`; otherwise the video is left
    /// unchanged and the range is reported.
    pub fn bulk_draw_over(
        &mut self,
        overlay_frame: &Frame,
        x_offset: usize,
        y_offset: usize,
        start_frame: usize,
        end_frame: usize,
    ) -> (r: Result<(), VfxError>)
        requires
            old(self)@.wf(),
            overlay_frame@.wf(),
        ensures
            r is Ok <==> start_frame <= end_frame < old(self)@.frames.len(),
            r is Ok ==> final(self)@ == bulk_overlay_model(
                old(self)@,
                overlay_frame@,
                x_offset as int,
                y_offset as int,
                start_frame as int,
                end_frame as int,
            ),
            r is Err ==> *final(self) == *old(self) && r == Err::<(), VfxError>(
                VfxError::InvalidRange {
                    start: start_frame,
                    end: end_frame,
                    length: old(self)@.frames.len() as usize,
                },
            ),
            final(self)@.wf(),
    {
        let len: usize = self.frames.len();
        if start_frame > end_frame || end_frame >= len {
            return Err(VfxError::InvalidRange { start: start_frame, end: end_frame, length: len });
        }
        let mut i: usize = start_frame;
        while i <= end_frame
            invariant
                start_frame <= i <= end_frame + 1,
                end_frame < len,
                len == self@.frames.len(),
                len == old(self)@.frames.len(),
                self.width == old(self).width,
                self.height == old(self).height,
                old(self)@.wf(),
                overlay_frame@.wf(),
                forall|j: int|
                    start_frame <= j < i ==> #[trigger] self@.frames[j] == overlay_model(
                        old(self)@.frames[j],
                        overlay_frame@,
                        x_offset as int,
                        y_offset as int,
                    ),
                forall|j: int|
                    (0 <= j < start_frame || i <= j < len) ==> #[trigger] self@.frames[j] == old(
                        self,
                    )@.frames[j],
            decreases end_frame + 1 - i,
        {
            let ghost prev = self@;
            let ghost pre = self.frames@;
            proof {
                assert(self@.frames[i as int] == self.frames@[i as int]@);
                assert(self@.frames[i as int] == old(self)@.frames[i as int]);
            }
            let f = frame_at_mut(&mut self.frames, i);
            f.draw_over(overlay_frame, x_offset, y_offset);
            proof {
                assert(self.frames@ == pre.update(i as int, self.frames@[i as int]));
                assert forall|j: int| 0 <= j < len implies #[trigger] self@.frames[j] == (
                if start_frame <= j <= i {
                    overlay_model(
                        old(self)@.frames[j],
                        overlay_frame@,
                        x_offset as int,
                        y_offset as int,
                    )
                } else {
                    old(self)@.frames[j]
                }) by {
                    assert(self@.frames[j] == self.frames@[j]@);
                    assert(prev.frames[j] == pre[j]@);
                    if j == i {
                        assert(prev.frames[j] == old(self)@.frames[j]);
                    } else {
                        assert(self.frames@[j] == pre[j]);
                    }
                }
            }
            i = i + 1;
        }
        proof {
            assert(self@ =~= bulk_overlay_model(
                old(self)@,
                overlay_frame@,
                x_offset as int,
                y_offset as int,
                start_frame as int,
                end_frame as int,
            ));
        }
        Ok(())
    }

    /// Draws `overlay_frame` over every frame in the inclusive index range
    /// `[start_frame, end_frame]` under the chroma key `chroma_key` with
    /// threshold `tolerance`. The range must satisfy
    /// `start_frame <= end_frame < length`; otherwise the video is left
    /// unchanged and the range is reported.
    pub fn bulk_draw_with_chroma_key(
        &mut self,
        overlay_frame: &Frame,
        x_offset: usize,
        y_offset: usize,
        chroma_key: Pixel,
        start_frame: usize,
        end_frame: usize,
        tolerance: u8,
    ) -> (r: Result<(), VfxError>)
        requires
            old(self)@.wf(),
            overlay_frame@.wf(),
        ensures
            r is Ok <==> start_frame <= end_frame < old(self)@.frames.len(),
            r is Ok ==> final(self)@ == bulk_chroma_overlay_model(
                old(self)@,
                overlay_frame@,
                x_offset as int,
                y_offset as int,
                chroma_key,
                tolerance,
                start_frame as int,
                end_frame as int,
            ),
            r is Err ==> *final(self) == *old(self) && r == Err::<(), VfxError>(
                VfxError::InvalidRange {
                    start: start_frame,
                    end: end_frame,
                    length: old(self)@.frames.len() as usize,
                },
            ),
            final(self)@.wf(),
    {
        let len: usize = self.frames.len();
        if start_frame > end_frame || end_frame >= len {
            return Err(VfxError::InvalidRange { start: start_frame, end: end_frame, length: len });
        }
        let mut i: usize = start_frame;
        while i <= end_frame
            invariant
                start_frame <= i <= end_frame + 1,
                end_frame < len,
                len == self@.frames.len(),
                len == old(self)@.frames.len(),
                self.width == old(self).width,
                self.height == old(self).height,
                old(self)@.wf(),
                overlay_frame@.wf(),
                forall|j: int|
                    start_frame <= j < i ==> #[trigger] self@.frames[j] == chroma_overlay_model(
                        old(self)@.frames[j],
                        overlay_frame@,
                        x_offset as int,
                        y_offset as int,
                        chroma_key,
                        tolerance,
                    ),
                forall|j: int|
                    (0 <= j < start_frame || i <= j < len) ==> #[trigger] self@.frames[j] == old(
                        self,
                    )@.frames[j],
            decreases end_frame + 1 - i,
        {
            let ghost prev = self@;
            let ghost pre = self.frames@;
            proof {
                assert(self@.frames[i as int] == self.frames@[i as int]@);
                assert(self@.frames[i as int] == old(self)@.frames[i as int]);
            }
            let f = frame_at_mut(&mut self.frames, i);
            f.draw_with_chroma_key(overlay_frame, x_offset, y_offset, chroma_key, tolerance);
            proof {
                assert(self.frames@ == pre.update(i as int, self.frames@[i as int]));
                assert forall|j: int| 0 <= j < len implies #[trigger] self@.frames[j] == (
                if start_frame <= j <= i {
                    chroma_overlay_model(
                        old(self)@.frames[j],
                        overlay_frame@,
                        x_offset as int,
                        y_offset as int,
                        chroma_key,
                        tolerance,
                    )
                } else {
                    old(self)@.frames[j]
                }) by {
                    assert(self@.frames[j] == self.frames@[j]@);
                    assert(prev.frames[j] == pre[j]@);
                    if j == i {
                        assert(prev.frames[j] == old(self)@.frames[j]);
                    } else {
                        assert(self.frames@[j] == pre[j]);
                    }
                }
            }
            i = i + 1;
        }
        proof {
            assert(self@ =~= bulk_chroma_overlay_model(
                old(self)@,
                overlay_frame@,
                x_offset as int,
                y_offset as int,
                chroma_key,
                tolerance,
                start_frame as int,
                end_frame as int,
            ));
        }
        Ok(())
    }
}

impl Clone for Video {
    /// Cloning a video preserves its dimensions and every frame.
    fn clone(&self) -> (res: Self)
        ensures
            res@ == self@,
    {
        let n: usize = self.frames.len();
        let mut frames: Vec<Frame> = Vec::new();
        let mut i: usize = 0;
        while i < n
            invariant
                i <= n,
                n == self@.frames.len(),
                frames@.map_values(|f: Frame| f@) =~= self@.frames.take(i as int),
            decreases n - i,
        {
            let copy = frame_at(&self.frames, i).clone();
            frames.push(copy);
            proof {
                assert(self@.frames.take(i + 1) =~= self@.frames.take(i as int).push(
                    self@.frames[i as int],
                ));
                assert(frames@.map_values(|f: Frame| f@) =~= self@.frames.take(i + 1));
            }
            i = i + 1;
        }
        let res = Video { frames, width: self.width, height: self.height };
        proof {
            assert(self@.frames.take(n as int) =~= self@.frames);
            assert(res@ =~= self@);
        }
        res
    }
}

} // verus!
