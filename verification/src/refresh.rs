//! What a walk over an animation does, stated over the refresher's own account
//! of its calls.
//!
//! A walk visits the clips in order. For each clip it first asks for the
//! clip's identifier, passing the clip's position, and then visits the clip's
//! frames in order; for each frame it asks for every marker in order, passing
//! the identifier that the clip had before the walk and the frame's position.
//! Each answer replaces what was asked about. The first failure ends the
//! walk: what was replaced stays replaced, the rest is untouched.
//!
//! Every relation below threads the refresher through the calls: the state
//! that one call leaves is the state in which the next call is made.

use vstd::prelude::*;
use crate::animation::AnimationView;
use crate::clip::{ClipId, ClipView, FrameView};
use crate::events::Marker;
use crate::id_refreshing::IdRefresher;

verus! {

/// All markers of one frame were answered, one call each, in their order.
///
/// `before` and `after` are the frame's markers before and after; `pre` and
/// `post` are the refresher before the first call and after the last.
pub open spec fn markers_refreshed<R: IdRefresher>(
    pre: R,
    clip_id: ClipId,
    frame: usize,
    before: Seq<Marker>,
    after: Seq<Marker>,
    post: R,
) -> bool
    decreases before.len(),
{
    &&& after.len() == before.len()
    &&& if before.len() == 0 {
        post == pre
    } else {
        exists|mid: R|
            {
                &&& markers_refreshed(
                    pre,
                    clip_id,
                    frame,
                    before.drop_last(),
                    after.drop_last(),
                    mid,
                )
                &&& #[trigger] R::marker_step(
                    mid,
                    clip_id,
                    frame,
                    before.last(),
                    post,
                    Ok(after.last()),
                )
            }
    }
}

/// The call for the marker at some position `k` of a frame failed with
/// `error`: the markers in front of `k` were answered in their order, the one
/// at `k` and those behind it are as they were.
pub open spec fn markers_failed<R: IdRefresher>(
    pre: R,
    clip_id: ClipId,
    frame: usize,
    before: Seq<Marker>,
    after: Seq<Marker>,
    post: R,
    error: R::Error,
) -> bool {
    exists|k: int, mid: R|
        {
            &&& 0 <= k < before.len()
            &&& after.len() == before.len()
            &&& #[trigger] markers_refreshed(
                pre,
                clip_id,
                frame,
                before.take(k),
                after.take(k),
                mid,
            )
            &&& R::marker_step(mid, clip_id, frame, before[k], post, Err(error))
            &&& after.skip(k) == before.skip(k)
        }
}

/// One frame was walked to its end: its markers were all answered and
/// nothing else about it changed.
pub open spec fn frame_refreshed<R: IdRefresher>(
    pre: R,
    clip_id: ClipId,
    index: usize,
    before: FrameView,
    after: FrameView,
    post: R,
) -> bool {
    &&& after.atlas_index == before.atlas_index
    &&& markers_refreshed(pre, clip_id, index, before.markers, after.markers, post)
}

/// The walk failed with `error` inside one frame.
pub open spec fn frame_failed<R: IdRefresher>(
    pre: R,
    clip_id: ClipId,
    index: usize,
    before: FrameView,
    after: FrameView,
    post: R,
    error: R::Error,
) -> bool {
    &&& after.atlas_index == before.atlas_index
    &&& markers_failed(pre, clip_id, index, before.markers, after.markers, post, error)
}

/// All frames of one clip were walked to their end, in their order, each
/// with its own position.
pub open spec fn frames_refreshed<R: IdRefresher>(
    pre: R,
    clip_id: ClipId,
    before: Seq<FrameView>,
    after: Seq<FrameView>,
    post: R,
) -> bool
    decreases before.len(),
{
    &&& after.len() == before.len()
    &&& if before.len() == 0 {
        post == pre
    } else {
        exists|mid: R|
            {
                &&& frames_refreshed(pre, clip_id, before.drop_last(), after.drop_last(), mid)
                &&& #[trigger] frame_refreshed(
                    mid,
                    clip_id,
                    (before.len() - 1) as usize,
                    before.last(),
                    after.last(),
                    post,
                )
            }
    }
}

/// The walk failed with `error` inside the frame at some position `f`: the
/// frames in front of `f` were walked to their end, those behind it are as
/// they were.
pub open spec fn frames_failed<R: IdRefresher>(
    pre: R,
    clip_id: ClipId,
    before: Seq<FrameView>,
    after: Seq<FrameView>,
    post: R,
    error: R::Error,
) -> bool {
    exists|f: int, mid: R|
        {
            &&& 0 <= f < before.len()
            &&& after.len() == before.len()
            &&& #[trigger] frames_refreshed(pre, clip_id, before.take(f), after.take(f), mid)
            &&& frame_failed(mid, clip_id, f as usize, before[f], after[f], post, error)
            &&& after.skip(f + 1) == before.skip(f + 1)
        }
}

/// One clip was walked to its end: its identifier was answered first, then
/// its frames were walked under the identifier it had before, and its
/// playback parameters are as they were.
pub open spec fn clip_refreshed<R: IdRefresher>(
    pre: R,
    index: usize,
    before: ClipView,
    after: ClipView,
    post: R,
) -> bool {
    &&& after == (ClipView { id: after.id, frames: after.frames, ..before })
    &&& exists|mid: R|
        {
            &&& #[trigger] R::clip_id_step(pre, index, before.id, mid, Ok(after.id))
            &&& frames_refreshed(mid, before.id, before.frames, after.frames, post)
        }
}

/// The walk failed with `error` inside one clip: either the call for its
/// identifier failed and the clip is as it was, or its identifier was
/// answered and the walk failed among its frames.
pub open spec fn clip_failed<R: IdRefresher>(
    pre: R,
    index: usize,
    before: ClipView,
    after: ClipView,
    post: R,
    error: R::Error,
) -> bool {
    ||| {
        &&& after == before
        &&& R::clip_id_step(pre, index, before.id, post, Err(error))
    }
    ||| {
        &&& after == (ClipView { id: after.id, frames: after.frames, ..before })
        &&& exists|mid: R|
            {
                &&& #[trigger] R::clip_id_step(pre, index, before.id, mid, Ok(after.id))
                &&& frames_failed(mid, before.id, before.frames, after.frames, post, error)
            }
    }
}

/// All clips were walked to their end, in their order, each with its own
/// position.
pub open spec fn clips_refreshed<R: IdRefresher>(
    pre: R,
    before: Seq<ClipView>,
    after: Seq<ClipView>,
    post: R,
) -> bool
    decreases before.len(),
{
    &&& after.len() == before.len()
    &&& if before.len() == 0 {
        post == pre
    } else {
        exists|mid: R|
            {
                &&& clips_refreshed(pre, before.drop_last(), after.drop_last(), mid)
                &&& #[trigger] clip_refreshed(
                    mid,
                    (before.len() - 1) as usize,
                    before.last(),
                    after.last(),
                    post,
                )
            }
    }
}

/// The walk failed with `error` inside the clip at some position `c`: the
/// clips in front of `c` were walked to their end, those behind it are as
/// they were.
pub open spec fn clips_failed<R: IdRefresher>(
    pre: R,
    before: Seq<ClipView>,
    after: Seq<ClipView>,
    post: R,
    error: R::Error,
) -> bool {
    exists|c: int, mid: R|
        {
            &&& 0 <= c < before.len()
            &&& after.len() == before.len()
            &&& #[trigger] clips_refreshed(pre, before.take(c), after.take(c), mid)
            &&& clip_failed(mid, c as usize, before[c], after[c], post, error)
            &&& after.skip(c + 1) == before.skip(c + 1)
        }
}

/// The whole animation was walked: every identifier in it is now the
/// refresher's answer, and its playback parameters are as they were.
pub open spec fn animation_refreshed<R: IdRefresher>(
    pre: R,
    before: AnimationView,
    after: AnimationView,
    post: R,
) -> bool {
    &&& after == (AnimationView { clips: after.clips, ..before })
    &&& clips_refreshed(pre, before.clips, after.clips, post)
}

/// The walk over the animation failed with `error`.
pub open spec fn animation_failed<R: IdRefresher>(
    pre: R,
    before: AnimationView,
    after: AnimationView,
    post: R,
    error: R::Error,
) -> bool {
    &&& after == (AnimationView { clips: after.clips, ..before })
    &&& clips_failed(pre, before.clips, after.clips, post, error)
}

/// The frames of `after` are those of `before` but for the markers they
/// carry: as many frames, each showing the same sprite under as many markers.
pub open spec fn frames_differ_in_markers_only(
    before: Seq<FrameView>,
    after: Seq<FrameView>,
) -> bool {
    &&& after.len() == before.len()
    &&& forall|f: int|
        0 <= f < before.len() ==> {
            &&& (#[trigger] after[f]).atlas_index == before[f].atlas_index
            &&& after[f].markers.len() == before[f].markers.len()
        }
}

/// The clips of `after` are those of `before` but for the identifiers in
/// them.
pub open spec fn clips_differ_in_identifiers_only(
    before: Seq<ClipView>,
    after: Seq<ClipView>,
) -> bool {
    &&& after.len() == before.len()
    &&& forall|c: int|
        0 <= c < before.len() ==> {
            &&& (#[trigger] after[c]) == (ClipView {
                id: after[c].id,
                frames: after[c].frames,
                ..before[c]
            })
            &&& frames_differ_in_markers_only(before[c].frames, after[c].frames)
        }
}

/// `after` is `before` but for the identifiers in it: the same playback
/// parameters, as many clips, each with its own parameters and as many
/// frames, each frame showing the same sprite under as many markers.
pub open spec fn differs_in_identifiers_only(before: AnimationView, after: AnimationView) -> bool {
    &&& after == (AnimationView { clips: after.clips, ..before })
    &&& clips_differ_in_identifiers_only(before.clips, after.clips)
}

proof fn lemma_frames_keep_shape<R: IdRefresher>(
    pre: R,
    clip_id: ClipId,
    before: Seq<FrameView>,
    after: Seq<FrameView>,
    post: R,
)
    requires
        frames_refreshed(pre, clip_id, before, after, post),
    ensures
        frames_differ_in_markers_only(before, after),
    decreases before.len(),
{
    if before.len() > 0 {
        let mid = choose|mid: R|
            {
                &&& frames_refreshed(pre, clip_id, before.drop_last(), after.drop_last(), mid)
                &&& #[trigger] frame_refreshed(
                    mid,
                    clip_id,
                    (before.len() - 1) as usize,
                    before.last(),
                    after.last(),
                    post,
                )
            };
        lemma_frames_keep_shape(pre, clip_id, before.drop_last(), after.drop_last(), mid);
        assert forall|f: int| 0 <= f < before.len() implies {
            &&& (#[trigger] after[f]).atlas_index == before[f].atlas_index
            &&& after[f].markers.len() == before[f].markers.len()
        } by {
            if f < before.len() - 1 {
                assert(after.drop_last()[f] == after[f]);
                assert(before.drop_last()[f] == before[f]);
            }
        }
    }
}

proof fn lemma_failed_frames_keep_shape<R: IdRefresher>(
    pre: R,
    clip_id: ClipId,
    before: Seq<FrameView>,
    after: Seq<FrameView>,
    post: R,
    error: R::Error,
)
    requires
        frames_failed(pre, clip_id, before, after, post, error),
    ensures
        frames_differ_in_markers_only(before, after),
{
    let (at, mid) = choose|f: int, mid: R|
        {
            &&& 0 <= f < before.len()
            &&& after.len() == before.len()
            &&& #[trigger] frames_refreshed(pre, clip_id, before.take(f), after.take(f), mid)
            &&& frame_failed(mid, clip_id, f as usize, before[f], after[f], post, error)
            &&& after.skip(f + 1) == before.skip(f + 1)
        };
    lemma_frames_keep_shape(pre, clip_id, before.take(at), after.take(at), mid);
    assert forall|f: int| 0 <= f < before.len() implies {
        &&& (#[trigger] after[f]).atlas_index == before[f].atlas_index
        &&& after[f].markers.len() == before[f].markers.len()
    } by {
        if f < at {
            assert(after.take(at)[f] == after[f]);
            assert(before.take(at)[f] == before[f]);
        } else if f > at {
            assert(after.skip(at + 1)[f - at - 1] == after[f]);
            assert(before.skip(at + 1)[f - at - 1] == before[f]);
        }
    }
}

proof fn lemma_clip_keeps_shape<R: IdRefresher>(
    pre: R,
    index: usize,
    before: ClipView,
    after: ClipView,
    post: R,
)
    requires
        clip_refreshed(pre, index, before, after, post),
    ensures
        frames_differ_in_markers_only(before.frames, after.frames),
{
    let mid = choose|mid: R|
        {
            &&& #[trigger] R::clip_id_step(pre, index, before.id, mid, Ok(after.id))
            &&& frames_refreshed(mid, before.id, before.frames, after.frames, post)
        };
    lemma_frames_keep_shape(mid, before.id, before.frames, after.frames, post);
}

proof fn lemma_failed_clip_keeps_shape<R: IdRefresher>(
    pre: R,
    index: usize,
    before: ClipView,
    after: ClipView,
    post: R,
    error: R::Error,
)
    requires
        clip_failed(pre, index, before, after, post, error),
    ensures
        after == (ClipView { id: after.id, frames: after.frames, ..before }),
        frames_differ_in_markers_only(before.frames, after.frames),
{
    if after == before && R::clip_id_step(pre, index, before.id, post, Err(error)) {
    } else {
        let mid = choose|mid: R|
            {
                &&& #[trigger] R::clip_id_step(pre, index, before.id, mid, Ok(after.id))
                &&& frames_failed(mid, before.id, before.frames, after.frames, post, error)
            };
        lemma_failed_frames_keep_shape(mid, before.id, before.frames, after.frames, post, error);
    }
}

proof fn lemma_clips_keep_shape<R: IdRefresher>(
    pre: R,
    before: Seq<ClipView>,
    after: Seq<ClipView>,
    post: R,
)
    requires
        clips_refreshed(pre, before, after, post),
    ensures
        clips_differ_in_identifiers_only(before, after),
    decreases before.len(),
{
    if before.len() > 0 {
        let last = (before.len() - 1) as usize;
        let mid = choose|mid: R|
            {
                &&& clips_refreshed(pre, before.drop_last(), after.drop_last(), mid)
                &&& #[trigger] clip_refreshed(mid, last, before.last(), after.last(), post)
            };
        lemma_clips_keep_shape(pre, before.drop_last(), after.drop_last(), mid);
        lemma_clip_keeps_shape(mid, last, before.last(), after.last(), post);
        assert forall|c: int| 0 <= c < before.len() implies {
            &&& (#[trigger] after[c]) == (ClipView {
                id: after[c].id,
                frames: after[c].frames,
                ..before[c]
            })
            &&& frames_differ_in_markers_only(before[c].frames, after[c].frames)
        } by {
            if c < before.len() - 1 {
                assert(after.drop_last()[c] == after[c]);
                assert(before.drop_last()[c] == before[c]);
            }
        }
    }
}

/// A walk changes identifiers and nothing else.
pub proof fn lemma_walk_changes_identifiers_only<R: IdRefresher>(
    pre: R,
    before: AnimationView,
    after: AnimationView,
    post: R,
)
    requires
        animation_refreshed(pre, before, after, post),
    ensures
        differs_in_identifiers_only(before, after),
{
    lemma_clips_keep_shape(pre, before.clips, after.clips, post);
}

/// A walk that fails has changed identifiers and nothing else.
pub proof fn lemma_failed_walk_changes_identifiers_only<R: IdRefresher>(
    pre: R,
    before: AnimationView,
    after: AnimationView,
    post: R,
    error: R::Error,
)
    requires
        animation_failed(pre, before, after, post, error),
    ensures
        differs_in_identifiers_only(before, after),
{
    let old = before.clips;
    let new = after.clips;
    let (at, mid) = choose|c: int, mid: R|
        {
            &&& 0 <= c < old.len()
            &&& new.len() == old.len()
            &&& #[trigger] clips_refreshed(pre, old.take(c), new.take(c), mid)
            &&& clip_failed(mid, c as usize, old[c], new[c], post, error)
            &&& new.skip(c + 1) == old.skip(c + 1)
        };
    lemma_clips_keep_shape(pre, old.take(at), new.take(at), mid);
    lemma_failed_clip_keeps_shape(mid, at as usize, old[at], new[at], post, error);
    assert forall|c: int| 0 <= c < old.len() implies {
        &&& (#[trigger] new[c]) == (ClipView { id: new[c].id, frames: new[c].frames, ..old[c] })
        &&& frames_differ_in_markers_only(old[c].frames, new[c].frames)
    } by {
        if c < at {
            assert(new.take(at)[c] == new[c]);
            assert(old.take(at)[c] == old[c]);
        } else if c > at {
            assert(new.skip(at + 1)[c - at - 1] == new[c]);
            assert(old.skip(at + 1)[c - at - 1] == old[c]);
        }
    }
}

/// The markers of one frame were asked about one after the other:
/// `states[k]` is the refresher as the call for the marker at position `k`
/// found it, and `states[k + 1]` the refresher as that call left it.
pub open spec fn markers_asked_in_turn<R: IdRefresher>(
    states: Seq<R>,
    clip_id: ClipId,
    frame: usize,
    before: Seq<Marker>,
    after: Seq<Marker>,
) -> bool {
    &&& states.len() == before.len() + 1
    &&& after.len() == before.len()
    &&& forall|k: int|
        0 <= k < before.len() ==> R::marker_step(
            states[k],
            clip_id,
            frame,
            #[trigger] before[k],
            states[k + 1],
            Ok(after[k]),
        )
}

/// The frames of one clip were walked one after the other, each under its
/// own position: `states[f]` is the refresher as the walk of the frame at
/// position `f` found it, and `states[f + 1]` the refresher as it left it.
pub open spec fn frames_walked_in_turn<R: IdRefresher>(
    states: Seq<R>,
    clip_id: ClipId,
    before: Seq<FrameView>,
    after: Seq<FrameView>,
) -> bool {
    &&& states.len() == before.len() + 1
    &&& after.len() == before.len()
    &&& forall|f: int|
        0 <= f < before.len() ==> frame_refreshed(
            states[f],
            clip_id,
            f as usize,
            #[trigger] before[f],
            after[f],
            states[f + 1],
        )
}

/// The clips were walked one after the other, each under its own position:
/// `states[c]` is the refresher as the walk of the clip at position `c`
/// found it, and `states[c + 1]` the refresher as it left it.
pub open spec fn clips_walked_in_turn<R: IdRefresher>(
    states: Seq<R>,
    before: Seq<ClipView>,
    after: Seq<ClipView>,
) -> bool {
    &&& states.len() == before.len() + 1
    &&& after.len() == before.len()
    &&& forall|c: int|
        0 <= c < before.len() ==> clip_refreshed(
            states[c],
            c as usize,
            #[trigger] before[c],
            after[c],
            states[c + 1],
        )
}

/// The calls for the markers of a frame are made in the order of the
/// markers, each with the clip identifier and the frame position that the
/// walk was given, and each in the state that the call before it left.
pub proof fn lemma_markers_asked_in_turn<R: IdRefresher>(
    pre: R,
    clip_id: ClipId,
    frame: usize,
    before: Seq<Marker>,
    after: Seq<Marker>,
    post: R,
) -> (states: Seq<R>)
    requires
        markers_refreshed(pre, clip_id, frame, before, after, post),
    ensures
        markers_asked_in_turn(states, clip_id, frame, before, after),
        states.first() == pre,
        states.last() == post,
    decreases before.len(),
{
    if before.len() == 0 {
        seq![pre]
    } else {
        let mid = choose|mid: R|
            {
                &&& markers_refreshed(
                    pre,
                    clip_id,
                    frame,
                    before.drop_last(),
                    after.drop_last(),
                    mid,
                )
                &&& #[trigger] R::marker_step(
                    mid,
                    clip_id,
                    frame,
                    before.last(),
                    post,
                    Ok(after.last()),
                )
            };
        let front = lemma_markers_asked_in_turn(
            pre,
            clip_id,
            frame,
            before.drop_last(),
            after.drop_last(),
            mid,
        );
        let states = front.push(post);
        assert forall|k: int| 0 <= k < before.len() implies R::marker_step(
            states[k],
            clip_id,
            frame,
            #[trigger] before[k],
            states[k + 1],
            Ok(after[k]),
        ) by {
            if k < before.len() - 1 {
                assert(before.drop_last()[k] == before[k]);
                assert(after.drop_last()[k] == after[k]);
            }
        }
        states
    }
}

/// The frames of a clip are walked in their order, the frame at position `f`
/// under the position `f` and under the clip identifier that the walk was
/// given, and each in the state that the walk of the frame before it left.
pub proof fn lemma_frames_walked_in_turn<R: IdRefresher>(
    pre: R,
    clip_id: ClipId,
    before: Seq<FrameView>,
    after: Seq<FrameView>,
    post: R,
) -> (states: Seq<R>)
    requires
        frames_refreshed(pre, clip_id, before, after, post),
    ensures
        frames_walked_in_turn(states, clip_id, before, after),
        states.first() == pre,
        states.last() == post,
    decreases before.len(),
{
    if before.len() == 0 {
        seq![pre]
    } else {
        let mid = choose|mid: R|
            {
                &&& frames_refreshed(pre, clip_id, before.drop_last(), after.drop_last(), mid)
                &&& #[trigger] frame_refreshed(
                    mid,
                    clip_id,
                    (before.len() - 1) as usize,
                    before.last(),
                    after.last(),
                    post,
                )
            };
        let front = lemma_frames_walked_in_turn(
            pre,
            clip_id,
            before.drop_last(),
            after.drop_last(),
            mid,
        );
        let states = front.push(post);
        assert forall|f: int| 0 <= f < before.len() implies frame_refreshed(
            states[f],
            clip_id,
            f as usize,
            #[trigger] before[f],
            after[f],
            states[f + 1],
        ) by {
            if f < before.len() - 1 {
                assert(before.drop_last()[f] == before[f]);
                assert(after.drop_last()[f] == after[f]);
            }
        }
        states
    }
}

/// The clips of an animation are walked in their order, the clip at position
/// `c` under the position `c`, and each in the state that the walk of the
/// clip before it left.
pub proof fn lemma_clips_walked_in_turn<R: IdRefresher>(
    pre: R,
    before: Seq<ClipView>,
    after: Seq<ClipView>,
    post: R,
) -> (states: Seq<R>)
    requires
        clips_refreshed(pre, before, after, post),
    ensures
        clips_walked_in_turn(states, before, after),
        states.first() == pre,
        states.last() == post,
    decreases before.len(),
{
    if before.len() == 0 {
        seq![pre]
    } else {
        let mid = choose|mid: R|
            {
                &&& clips_refreshed(pre, before.drop_last(), after.drop_last(), mid)
                &&& #[trigger] clip_refreshed(
                    mid,
                    (before.len() - 1) as usize,
                    before.last(),
                    after.last(),
                    post,
                )
            };
        let front = lemma_clips_walked_in_turn(pre, before.drop_last(), after.drop_last(), mid);
        let states = front.push(post);
        assert forall|c: int| 0 <= c < before.len() implies clip_refreshed(
            states[c],
            c as usize,
            #[trigger] before[c],
            after[c],
            states[c + 1],
        ) by {
            if c < before.len() - 1 {
                assert(before.drop_last()[c] == before[c]);
                assert(after.drop_last()[c] == after[c]);
            }
        }
        states
    }
}

/// A walk that fails stops where it fails: the clips in front of the failing
/// one were walked to their end, in turn; those behind it are untouched.
pub proof fn lemma_failed_walk_stops<R: IdRefresher>(
    pre: R,
    before: AnimationView,
    after: AnimationView,
    post: R,
    error: R::Error,
) -> (found: (int, Seq<R>))
    requires
        animation_failed(pre, before, after, post, error),
    ensures
        0 <= found.0 < before.clips.len(),
        after.clips.len() == before.clips.len(),
        clips_walked_in_turn(found.1, before.clips.take(found.0), after.clips.take(found.0)),
        found.1.first() == pre,
        clip_failed(
            found.1.last(),
            found.0 as usize,
            before.clips[found.0],
            after.clips[found.0],
            post,
            error,
        ),
        forall|c: int| found.0 < c < before.clips.len() ==> after.clips[c] == before.clips[c],
{
    let old = before.clips;
    let new = after.clips;
    let (at, mid) = choose|c: int, mid: R|
        {
            &&& 0 <= c < old.len()
            &&& new.len() == old.len()
            &&& #[trigger] clips_refreshed(pre, old.take(c), new.take(c), mid)
            &&& clip_failed(mid, c as usize, old[c], new[c], post, error)
            &&& new.skip(c + 1) == old.skip(c + 1)
        };
    let states = lemma_clips_walked_in_turn(pre, old.take(at), new.take(at), mid);
    assert forall|c: int| at < c < old.len() implies new[c] == old[c] by {
        assert(new.skip(at + 1)[c - at - 1] == new[c]);
        assert(old.skip(at + 1)[c - at - 1] == old[c]);
    }
    (at, states)
}

} // verus!
