//! Clips, their frames and their identifiers.

use vstd::prelude::*;
use crate::events::Marker;
use crate::animation::{AnimationDirection, AnimationDuration, AnimationRepeat};
use crate::easing::Easing;
use crate::id_refreshing::IdRefresher;
use crate::progress::{lemma_all_rewritten, lemma_next_is_untouched, lemma_one_more_rewritten};
use crate::refresh::{
    clip_failed, clip_refreshed, frame_failed, frame_refreshed, frames_refreshed, markers_refreshed,
};
use crate::unique::{is_random_uuid, random_uuid_bits};

verus! {

/// The opaque identifier of a clip. Two identifiers name the same clip exactly
/// when their values are equal.
#[derive(Debug, Clone, Copy, PartialEq, Eq, Hash, Structural)]
pub struct ClipId {
    value: u128,
}

impl View for ClipId {
    type V = u128;

    /// The 128-bit value of this identifier.
    closed spec fn view(&self) -> u128 {
        self.value
    }
}

impl ClipId {
    /// Creates an identifier with a value drawn at random.
    pub fn new() -> (id: ClipId)
        ensures
            is_random_uuid(id@),
    {
        ClipId { value: random_uuid_bits() }
    }

    /// The identifier with the given value, as read back from stored data.
    pub fn from_u128(value: u128) -> (id: ClipId)
        ensures
            id@ == value,
    {
        ClipId { value }
    }

    /// The 128-bit value of this identifier.
    pub fn as_u128(&self) -> (value: u128)
        ensures
            value == self@,
    {
        self.value
    }

    /// An identifier is nothing more than its value: identifiers with equal
    /// values are equal.
    pub broadcast proof fn lemma_value_is_clip_id(a: ClipId, b: ClipId)
        ensures
            (#[trigger] a@ == #[trigger] b@) ==> a == b,
    {
    }
}

/// What a frame is: the sprite it shows and the markers attached to it, in
/// the order in which they were attached.
pub struct FrameView {
    pub atlas_index: usize,
    pub markers: Seq<Marker>,
}

impl FrameView {
    /// No marker is attached twice.
    pub open spec fn markers_distinct(self) -> bool {
        self.markers.no_duplicates()
    }
}

/// One frame of a clip.
///
/// A marker is attached to a frame at most once: `add_marker` sees to that.
/// Only a refresher that answers one marker for two can leave a frame with a
/// marker that stands in it twice.
#[derive(Debug)]
pub struct Frame {
    atlas_index: usize,
    markers: Vec<Marker>,
}

impl View for Frame {
    type V = FrameView;

    closed spec fn view(&self) -> FrameView {
        FrameView { atlas_index: self.atlas_index, markers: self.markers@ }
    }
}

impl Frame {
    /// A frame that shows the sprite at `atlas_index` and carries no marker.
    pub fn new(atlas_index: usize) -> (frame: Frame)
        ensures
            frame@.atlas_index == atlas_index,
            frame@.markers == Seq::<Marker>::empty(),
    {
        Frame { atlas_index, markers: Vec::new() }
    }

    /// The index of the sprite that this frame shows.
    pub fn atlas_index(&self) -> (atlas_index: usize)
        ensures
            atlas_index == self@.atlas_index,
    {
        self.atlas_index
    }

    /// The markers attached to this frame.
    pub fn markers(&self) -> (markers: &[Marker])
        ensures
            markers@ == self@.markers,
    {
        self.markers.as_slice()
    }

    /// Whether `marker` is attached to this frame.
    pub fn has_marker(&self, marker: Marker) -> (found: bool)
        ensures
            found == self@.markers.contains(marker),
    {
        let mut k: usize = 0;
        while k < self.markers.len()
            invariant
                k <= self.markers@.len(),
                forall|i: int| 0 <= i < k ==> self.markers@[i] != marker,
            decreases self.markers@.len() - k,
        {
            if self.markers[k] == marker {
                return true;
            }
            k += 1;
        }
        false
    }

    /// Attaches `marker` to this frame unless it is attached already, and
    /// says whether it did.
    pub fn add_marker(&mut self, marker: Marker) -> (added: bool)
        ensures
            added == !old(self)@.markers.contains(marker),
            final(self)@.atlas_index == old(self)@.atlas_index,
            final(self)@.markers == if added {
                old(self)@.markers.push(marker)
            } else {
                old(self)@.markers
            },
            old(self)@.markers_distinct() ==> final(self)@.markers_distinct(),
    {
        if self.has_marker(marker) {
            false
        } else {
            self.markers.push(marker);
            true
        }
    }

    /// Replaces each marker of this frame, in order, by the refresher's
    /// answer for it, and stops at the first failure.
    ///
    /// `clip_id` is the identifier that the owning clip had before it was
    /// refreshed and `index` the position of this frame in the clip.
    pub fn refresh_markers<R: IdRefresher>(
        &mut self,
        clip_id: ClipId,
        index: usize,
        refresher: &mut R,
    ) -> (result: Result<(), R::Error>)
        ensures
            match result {
                Ok(()) => frame_refreshed(
                    *old(refresher),
                    clip_id,
                    index,
                    old(self)@,
                    final(self)@,
                    *final(refresher),
                ),
                Err(error) => frame_failed(
                    *old(refresher),
                    clip_id,
                    index,
                    old(self)@,
                    final(self)@,
                    *final(refresher),
                    error,
                ),
            },
    {
        let ghost before = self.markers@;
        let count: usize = self.markers.len();
        let mut k: usize = 0;
        while k < count
            invariant
                k <= count,
                count == before.len(),
                self.markers@.len() == before.len(),
                self.atlas_index == old(self).atlas_index,
                before == old(self)@.markers,
                self.markers@.skip(k as int) == before.skip(k as int),
                markers_refreshed(
                    *old(refresher),
                    clip_id,
                    index,
                    before.take(k as int),
                    self.markers@.take(k as int),
                    *refresher,
                ),
            decreases count - k,
        {
            let ghost mid = *refresher;
            let ghost done = self.markers@;
            proof {
                lemma_next_is_untouched(before, done, k as int);
            }
            match refresher.refresh_marker(clip_id, index, self.markers[k]) {
                Ok(marker) => {
                    self.markers[k] = marker;
                },
                Err(error) => {
                    return Err(error);
                },
            }
            proof {
                lemma_one_more_rewritten(before, done, self.markers@, k as int);
                assert(R::marker_step(
                    mid,
                    clip_id,
                    index,
                    before.take(k + 1).last(),
                    *refresher,
                    Ok(self.markers@.take(k + 1).last()),
                ));
            }
            k += 1;
        }
        proof {
            lemma_all_rewritten(before, self.markers@);
        }
        Ok(())
    }
}

impl Clone for Frame {
    fn clone(&self) -> (copy: Frame)
        ensures
            copy@ == self@,
    {
        let mut markers: Vec<Marker> = Vec::new();
        let mut k: usize = 0;
        while k < self.markers.len()
            invariant
                k <= self.markers@.len(),
                markers@ == self.markers@.take(k as int),
            decreases self.markers@.len() - k,
        {
            markers.push(self.markers[k]);
            assert(self.markers@.take(k + 1) =~= self.markers@.take(k as int).push(
                self.markers@[k as int],
            ));
            k += 1;
        }
        assert(self.markers@.take(k as int) =~= self.markers@);
        Frame { atlas_index: self.atlas_index, markers }
    }
}

/// What a clip is: its identifier, its frames in playback order and its own
/// playback parameters, each of which may be left unset.
pub struct ClipView {
    pub id: ClipId,
    pub frames: Seq<FrameView>,
    pub duration: Option<AnimationDuration>,
    pub repetitions: Option<AnimationRepeat>,
    pub direction: Option<AnimationDirection>,
    pub easing: Option<Easing>,
}

/// An ordered sequence of frames with its own optional playback parameters.
#[derive(Debug)]
pub struct Clip {
    id: ClipId,
    frames: Vec<Frame>,
    duration: Option<AnimationDuration>,
    repetitions: Option<AnimationRepeat>,
    direction: Option<AnimationDirection>,
    easing: Option<Easing>,
}

impl View for Clip {
    type V = ClipView;

    closed spec fn view(&self) -> ClipView {
        ClipView {
            id: self.id,
            frames: self.frames@.map_values(|frame: Frame| frame@),
            duration: self.duration,
            repetitions: self.repetitions,
            direction: self.direction,
            easing: self.easing,
        }
    }
}

impl Clip {
    /// A clip without frames and without playback parameters, under an
    /// identifier drawn at random. Frames are to be added before it is played.
    pub fn empty() -> (clip: Clip)
        ensures
            is_random_uuid(clip@.id@),
            clip@ == (ClipView {
                id: clip@.id,
                frames: Seq::<FrameView>::empty(),
                duration: None,
                repetitions: None,
                direction: None,
                easing: None,
            }),
    {
        let clip = Clip {
            id: ClipId::new(),
            frames: Vec::new(),
            duration: None,
            repetitions: None,
            direction: None,
            easing: None,
        };
        assert(clip@.frames =~= Seq::<FrameView>::empty());
        clip
    }

    /// The clip made of the given parts.
    pub fn new(
        id: ClipId,
        frames: Vec<Frame>,
        duration: Option<AnimationDuration>,
        repetitions: Option<AnimationRepeat>,
        direction: Option<AnimationDirection>,
        easing: Option<Easing>,
    ) -> (clip: Clip)
        ensures
            clip@ == (ClipView {
                id,
                frames: frames@.map_values(|frame: Frame| frame@),
                duration,
                repetitions,
                direction,
                easing,
            }),
    {
        Clip { id, frames, duration, repetitions, direction, easing }
    }

    /// The identifier of this clip.
    pub fn id(&self) -> (id: ClipId)
        ensures
            id == self@.id,
    {
        self.id
    }

    /// The frames of this clip, in playback order.
    pub fn frames(&self) -> (frames: &[Frame])
        ensures
            frames@.map_values(|frame: Frame| frame@) == self@.frames,
    {
        self.frames.as_slice()
    }

    /// The duration set on this clip, if one is.
    pub fn duration(&self) -> (duration: &Option<AnimationDuration>)
        ensures
            *duration == self@.duration,
    {
        &self.duration
    }

    /// The number of repetitions set on this clip, if one is.
    pub fn repetitions(&self) -> (repetitions: &Option<AnimationRepeat>)
        ensures
            *repetitions == self@.repetitions,
    {
        &self.repetitions
    }

    /// The direction set on this clip, if one is.
    pub fn direction(&self) -> (direction: &Option<AnimationDirection>)
        ensures
            *direction == self@.direction,
    {
        &self.direction
    }

    /// The easing set on this clip, if one is.
    pub fn easing(&self) -> (easing: &Option<Easing>)
        ensures
            *easing == self@.easing,
    {
        &self.easing
    }

    /// Replaces the identifier of this clip, then the markers of its frames,
    /// frame by frame, by the refresher's answers, and stops at the first
    /// failure.
    ///
    /// `index` is the position of this clip in its animation. The calls for
    /// the markers are given the identifier that the clip had on entry.
    pub fn refresh_ids<R: IdRefresher>(&mut self, index: usize, refresher: &mut R) -> (result:
        Result<(), R::Error>)
        ensures
            match result {
                Ok(()) => clip_refreshed(
                    *old(refresher),
                    index,
                    old(self)@,
                    final(self)@,
                    *final(refresher),
                ),
                Err(error) => clip_failed(
                    *old(refresher),
                    index,
                    old(self)@,
                    final(self)@,
                    *final(refresher),
                    error,
                ),
            },
    {
        let old_id = self.id;
        match refresher.refresh_clip_id(index, old_id) {
            Ok(id) => {
                self.id = id;
            },
            Err(error) => {
                return Err(error);
            },
        }
        let ghost answered = *refresher;
        let ghost before = old(self)@.frames;
        let count: usize = self.frames.len();
        let mut f: usize = 0;
        while f < count
            invariant
                f <= count,
                count == before.len(),
                before == old(self)@.frames,
                old_id == old(self)@.id,
                self@.frames.len() == before.len(),
                self.frames@.len() == before.len(),
                self@ == (ClipView { id: self@.id, frames: self@.frames, ..old(self)@ }),
                R::clip_id_step(*old(refresher), index, old_id, answered, Ok(self@.id)),
                self@.frames.skip(f as int) == before.skip(f as int),
                frames_refreshed(
                    answered,
                    old_id,
                    before.take(f as int),
                    self@.frames.take(f as int),
                    *refresher,
                ),
            decreases count - f,
        {
            let ghost mid = *refresher;
            let ghost done = self@.frames;
            proof {
                lemma_next_is_untouched(before, done, f as int);
            }
            let outcome = self.frames[f].refresh_markers(old_id, f, refresher);
            proof {
                assert(self@.frames =~= done.update(f as int, self.frames@[f as int]@));
                lemma_one_more_rewritten(before, done, self@.frames, f as int);
            }
            match outcome {
                Ok(()) => {
                    assert(frame_refreshed(
                        mid,
                        old_id,
                        (before.take(f + 1).len() - 1) as usize,
                        before.take(f + 1).last(),
                        self@.frames.take(f + 1).last(),
                        *refresher,
                    ));
                },
                Err(error) => {
                    return Err(error);
                },
            }
            f += 1;
        }
        proof {
            lemma_all_rewritten(before, self@.frames);
        }
        Ok(())
    }
}

impl Clone for Clip {
    fn clone(&self) -> (copy: Clip)
        ensures
            copy@ == self@,
    {
        let mut frames: Vec<Frame> = Vec::new();
        let mut f: usize = 0;
        while f < self.frames.len()
            invariant
                f <= self.frames@.len(),
                frames@.map_values(|frame: Frame| frame@) == self@.frames.take(f as int),
            decreases self.frames@.len() - f,
        {
            let ghost copied = frames@;
            frames.push(self.frames[f].clone());
            assert(frames@.map_values(|frame: Frame| frame@) =~= copied.map_values(
                |frame: Frame| frame@,
            ).push(self.frames@[f as int]@));
            assert(self@.frames.take(f + 1) =~= self@.frames.take(f as int).push(
                self.frames@[f as int]@,
            ));
            f += 1;
        }
        assert(self@.frames.take(f as int) =~= self@.frames);
        Clip {
            id: self.id,
            frames,
            duration: self.duration,
            repetitions: self.repetitions,
            direction: self.direction,
            easing: self.easing,
        }
    }
}

} // verus!
