//! Animations and their playback parameters.

use vstd::prelude::*;
use crate::clip::{Clip, ClipId, ClipView};
use crate::events::Marker;
use crate::easing::Easing;
use crate::id_refreshing::IdRefresher;
use crate::progress::{lemma_all_rewritten, lemma_next_is_untouched, lemma_one_more_rewritten};
use crate::unique::is_random_uuid;
use crate::refresh::{animation_failed, animation_refreshed, clip_refreshed, clips_refreshed};

verus! {

/// How long an animation or a clip lasts.
#[derive(Debug, Clone, Copy, PartialEq, Eq, Hash, Structural)]
pub enum AnimationDuration {
    /// The duration of one frame, in milliseconds.
    PerFrame(u32),
    /// The duration of one repetition, in milliseconds.
    PerRepetition(u32),
}

impl Default for AnimationDuration {
    /// 100 milliseconds per frame.
    fn default() -> (duration: AnimationDuration)
        ensures
            duration == AnimationDuration::PerFrame(100),
    {
        AnimationDuration::PerFrame(100)
    }
}

/// How many times an animation or a clip repeats.
#[derive(Debug, Clone, Copy, PartialEq, Eq, Hash, Structural)]
pub enum AnimationRepeat {
    /// Repeats forever.
    Loop,
    /// Repeats the given number of times.
    Times(usize),
}

impl Default for AnimationRepeat {
    /// Repeats forever.
    fn default() -> (repetitions: AnimationRepeat)
        ensures
            repetitions == AnimationRepeat::Loop,
    {
        AnimationRepeat::Loop
    }
}

/// The direction in which frames are played.
#[derive(Debug, Clone, Copy, PartialEq, Eq, Hash, Structural)]
pub enum AnimationDirection {
    /// From the first frame to the last.
    Forwards,
    /// From the last frame to the first.
    Backwards,
    /// Forwards, then backwards, alternating at each repetition.
    PingPong,
}

impl Default for AnimationDirection {
    /// From the first frame to the last.
    fn default() -> (direction: AnimationDirection)
        ensures
            direction == AnimationDirection::Forwards,
    {
        AnimationDirection::Forwards
    }
}

/// What an animation is: its clips in playback order and the playback
/// parameters set on the animation itself, each of which may be left unset.
pub struct AnimationView {
    pub clips: Seq<ClipView>,
    pub duration: Option<AnimationDuration>,
    pub repetitions: Option<AnimationRepeat>,
    pub direction: Option<AnimationDirection>,
    pub easing: Option<Easing>,
}

impl AnimationView {
    /// Whether there is a clip at position `c`.
    pub open spec fn has_clip(self, c: int) -> bool {
        0 <= c < self.clips.len()
    }

    /// The identifier of the clip at position `c`.
    pub open spec fn clip_id(self, c: int) -> ClipId {
        self.clips[c].id
    }

    /// Whether clip `c` has a frame `f` that has a marker at position `k`.
    pub open spec fn has_marker(self, c: int, f: int, k: int) -> bool {
        &&& 0 <= c < self.clips.len()
        &&& 0 <= f < self.clips[c].frames.len()
        &&& 0 <= k < self.clips[c].frames[f].markers.len()
    }

    /// The marker at position `k` of frame `f` of clip `c`.
    pub open spec fn marker(self, c: int, f: int, k: int) -> Marker {
        self.clips[c].frames[f].markers[k]
    }
}

/// A playable animation: one or several clips, with playback parameters that
/// take precedence over those of the clips.
///
/// An animation always has at least one clip.
#[derive(Debug)]
pub struct Animation {
    clips: Vec<Clip>,
    duration: Option<AnimationDuration>,
    repetitions: Option<AnimationRepeat>,
    direction: Option<AnimationDirection>,
    easing: Option<Easing>,
}

impl View for Animation {
    type V = AnimationView;

    closed spec fn view(&self) -> AnimationView {
        AnimationView {
            clips: self.clips@.map_values(|clip: Clip| clip@),
            duration: self.duration,
            repetitions: self.repetitions,
            direction: self.direction,
            easing: self.easing,
        }
    }
}

impl Animation {
    #[verifier::type_invariant]
    spec fn has_a_clip(&self) -> bool {
        self.clips@.len() > 0
    }

    /// An animation of one clip, itself without frames, and without playback
    /// parameters: what a builder starts from. Frames are to be added before
    /// it is played.
    pub fn empty() -> (animation: Animation)
        ensures
            animation@.clips.len() == 1,
            is_random_uuid(animation@.clips[0].id@),
            animation@.clips[0].frames.len() == 0,
            animation@.clips[0].duration is None,
            animation@.clips[0].repetitions is None,
            animation@.clips[0].direction is None,
            animation@.clips[0].easing is None,
            animation@.duration is None,
            animation@.repetitions is None,
            animation@.direction is None,
            animation@.easing is None,
    {
        let mut clips: Vec<Clip> = Vec::new();
        clips.push(Clip::empty());
        Animation { clips, duration: None, repetitions: None, direction: None, easing: None }
    }

    /// The animation made of the given parts, if there is at least one clip
    /// among them.
    pub fn new(
        clips: Vec<Clip>,
        duration: Option<AnimationDuration>,
        repetitions: Option<AnimationRepeat>,
        direction: Option<AnimationDirection>,
        easing: Option<Easing>,
    ) -> (animation: Option<Animation>)
        ensures
            animation is Some <==> clips@.len() > 0,
            animation is Some ==> animation->Some_0@ == (AnimationView {
                clips: clips@.map_values(|clip: Clip| clip@),
                duration,
                repetitions,
                direction,
                easing,
            }),
    {
        if clips.len() == 0 {
            None
        } else {
            Some(Animation { clips, duration, repetitions, direction, easing })
        }
    }

    /// The clips that compose this animation, in playback order: at least one.
    pub fn clips(&self) -> (clips: &[Clip])
        ensures
            clips@.len() > 0,
            clips@.map_values(|clip: Clip| clip@) == self@.clips,
    {
        proof {
            use_type_invariant(self);
        }
        self.clips.as_slice()
    }

    /// The duration set on this animation, if one is.
    pub fn duration(&self) -> (duration: &Option<AnimationDuration>)
        ensures
            *duration == self@.duration,
    {
        &self.duration
    }

    /// The number of repetitions set on this animation, if one is.
    pub fn repetitions(&self) -> (repetitions: &Option<AnimationRepeat>)
        ensures
            *repetitions == self@.repetitions,
    {
        &self.repetitions
    }

    /// The direction set on this animation, if one is.
    pub fn direction(&self) -> (direction: &Option<AnimationDirection>)
        ensures
            *direction == self@.direction,
    {
        &self.direction
    }

    /// The easing set on this animation, if one is.
    pub fn easing(&self) -> (easing: &Option<Easing>)
        ensures
            *easing == self@.easing,
    {
        &self.easing
    }

    /// Replaces every identifier in this animation, clip by clip, by the
    /// refresher's answer for it, and stops at the first failure.
    ///
    /// On failure the identifiers replaced so far stay replaced: refresh a
    /// copy where all or nothing is wanted.
    pub fn refresh_ids<R: IdRefresher>(&mut self, refresher: &mut R) -> (result: Result<
        (),
        R::Error,
    >)
        ensures
            match result {
                Ok(()) => animation_refreshed(
                    *old(refresher),
                    old(self)@,
                    final(self)@,
                    *final(refresher),
                ),
                Err(error) => animation_failed(
                    *old(refresher),
                    old(self)@,
                    final(self)@,
                    *final(refresher),
                    error,
                ),
            },
    {
        let ghost before = old(self)@.clips;
        let count: usize = self.clips.len();
        let mut index: usize = 0;
        while index < count
            invariant
                index <= count,
                count == before.len(),
                before == old(self)@.clips,
                self@.clips.len() == before.len(),
                self.clips@.len() == before.len(),
                self@ == (AnimationView { clips: self@.clips, ..old(self)@ }),
                self@.clips.skip(index as int) == before.skip(index as int),
                clips_refreshed(
                    *old(refresher),
                    before.take(index as int),
                    self@.clips.take(index as int),
                    *refresher,
                ),
            decreases count - index,
        {
            let ghost mid = *refresher;
            let ghost done = self@.clips;
            proof {
                lemma_next_is_untouched(before, done, index as int);
            }
            let outcome = self.clips[index].refresh_ids(index, refresher);
            proof {
                assert(self@.clips =~= done.update(index as int, self.clips@[index as int]@));
                lemma_one_more_rewritten(before, done, self@.clips, index as int);
            }
            match outcome {
                Ok(()) => {
                    assert(clip_refreshed(
                        mid,
                        (before.take(index + 1).len() - 1) as usize,
                        before.take(index + 1).last(),
                        self@.clips.take(index + 1).last(),
                        *refresher,
                    ));
                },
                Err(error) => {
                    return Err(error);
                },
            }
            index += 1;
        }
        proof {
            lemma_all_rewritten(before, self@.clips);
        }
        Ok(())
    }
}

impl Clone for Animation {
    fn clone(&self) -> (copy: Animation)
        ensures
            copy@ == self@,
    {
        proof {
            use_type_invariant(self);
        }
        let mut clips: Vec<Clip> = Vec::new();
        let mut c: usize = 0;
        while c < self.clips.len()
            invariant
                c <= self.clips@.len(),
                clips@.len() == c,
                clips@.map_values(|clip: Clip| clip@) == self@.clips.take(c as int),
            decreases self.clips@.len() - c,
        {
            let ghost copied = clips@;
            clips.push(self.clips[c].clone());
            assert(clips@.map_values(|clip: Clip| clip@) =~= copied.map_values(
                |clip: Clip| clip@,
            ).push(self.clips@[c as int]@));
            assert(self@.clips.take(c + 1) =~= self@.clips.take(c as int).push(
                self.clips@[c as int]@,
            ));
            c += 1;
        }
        assert(self@.clips.take(c as int) =~= self@.clips);
        Animation {
            clips,
            duration: self.duration,
            repetitions: self.repetitions,
            direction: self.direction,
            easing: self.easing,
        }
    }
}

} // verus!
