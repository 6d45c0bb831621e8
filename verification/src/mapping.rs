//! What holds of a walk that a [`MappingIdRefresher`] answers.
//!
//! Such a walk never fails, its tables only grow, and the animation that it
//! leaves is the animation that it found with every identifier looked up in
//! the tables as they stand afterwards.

use vstd::prelude::*;
use crate::animation::AnimationView;
use crate::clip::{ClipId, ClipView, FrameView};
use crate::events::Marker;
use crate::id_refreshing::{IdRefresher, Impossible, MappingIdRefresher};
use crate::refresh::{
    animation_failed, animation_refreshed, clip_failed, clip_refreshed, clips_refreshed,
    frame_failed, frame_refreshed, frames_failed, frames_refreshed, markers_refreshed,
};

verus! {

/// Every pair that `pre` holds, `post` holds too.
pub open spec fn extends(pre: MappingIdRefresher, post: MappingIdRefresher) -> bool {
    &&& pre.clip_ids().submap_of(post.clip_ids())
    &&& pre.markers().submap_of(post.markers())
}

/// `after` holds, at each position, what `table` records for the marker that
/// `before` holds there.
pub open spec fn markers_looked_up(
    table: Map<u128, u128>,
    before: Seq<Marker>,
    after: Seq<Marker>,
) -> bool {
    &&& after.len() == before.len()
    &&& forall|k: int|
        0 <= k < before.len() ==> {
            &&& table.contains_key((#[trigger] before[k])@)
            &&& after[k]@ == table[before[k]@]
        }
}

/// `after` is the frames of `before` with every marker looked up in `table`.
pub open spec fn frames_looked_up(
    table: Map<u128, u128>,
    before: Seq<FrameView>,
    after: Seq<FrameView>,
) -> bool {
    &&& after.len() == before.len()
    &&& forall|f: int|
        0 <= f < before.len() ==> {
            &&& after[f].atlas_index == (#[trigger] before[f]).atlas_index
            &&& markers_looked_up(table, before[f].markers, after[f].markers)
        }
}

/// `after` is the clips of `before` with every clip identifier looked up in
/// `clip_ids` and every marker looked up in `markers`.
pub open spec fn clips_looked_up(
    clip_ids: Map<u128, u128>,
    markers: Map<u128, u128>,
    before: Seq<ClipView>,
    after: Seq<ClipView>,
) -> bool {
    &&& after.len() == before.len()
    &&& forall|c: int|
        0 <= c < before.len() ==> {
            &&& clip_ids.contains_key((#[trigger] before[c]).id@)
            &&& after[c].id@ == clip_ids[before[c].id@]
            &&& after[c] == (ClipView { id: after[c].id, frames: after[c].frames, ..before[c] })
            &&& frames_looked_up(markers, before[c].frames, after[c].frames)
        }
}

/// `after` is `before` with every identifier looked up in the tables of
/// `refresher`.
pub open spec fn looked_up(
    refresher: MappingIdRefresher,
    before: AnimationView,
    after: AnimationView,
) -> bool {
    &&& after == (AnimationView { clips: after.clips, ..before })
    &&& clips_looked_up(refresher.clip_ids(), refresher.markers(), before.clips, after.clips)
}

proof fn lemma_markers_rewritten(
    pre: MappingIdRefresher,
    clip_id: ClipId,
    frame: usize,
    before: Seq<Marker>,
    after: Seq<Marker>,
    post: MappingIdRefresher,
)
    requires
        markers_refreshed(pre, clip_id, frame, before, after, post),
    ensures
        post.clip_ids() == pre.clip_ids(),
        extends(pre, post),
        markers_looked_up(post.markers(), before, after),
    decreases before.len(),
{
    if before.len() > 0 {
        let mid = choose|mid: MappingIdRefresher|
            {
                &&& markers_refreshed(
                    pre,
                    clip_id,
                    frame,
                    before.drop_last(),
                    after.drop_last(),
                    mid,
                )
                &&& #[trigger] MappingIdRefresher::marker_step(
                    mid,
                    clip_id,
                    frame,
                    before.last(),
                    post,
                    Ok(after.last()),
                )
            };
        lemma_markers_rewritten(pre, clip_id, frame, before.drop_last(), after.drop_last(), mid);
        assert forall|k: int| 0 <= k < before.len() implies {
            &&& post.markers().contains_key((#[trigger] before[k])@)
            &&& after[k]@ == post.markers()[before[k]@]
        } by {
            if k < before.len() - 1 {
                assert(before.drop_last()[k] == before[k]);
                assert(after.drop_last()[k] == after[k]);
            }
        }
    }
}

/// Growth adds up.
pub proof fn lemma_extends_transitive(
    first: MappingIdRefresher,
    second: MappingIdRefresher,
    third: MappingIdRefresher,
)
    requires
        extends(first, second),
        extends(second, third),
    ensures
        extends(first, third),
{
    assert forall|key: u128| #[trigger] first.clip_ids().dom().contains(key) implies {
        &&& third.clip_ids().dom().contains(key)
        &&& first.clip_ids()[key] == third.clip_ids()[key]
    } by {
        assert(second.clip_ids().dom().contains(key));
    }
    assert forall|key: u128| #[trigger] first.markers().dom().contains(key) implies {
        &&& third.markers().dom().contains(key)
        &&& first.markers()[key] == third.markers()[key]
    } by {
        assert(second.markers().dom().contains(key));
    }
}

proof fn lemma_frames_looked_up_later(
    earlier: Map<u128, u128>,
    later: Map<u128, u128>,
    before: Seq<FrameView>,
    after: Seq<FrameView>,
)
    requires
        frames_looked_up(earlier, before, after),
        earlier.submap_of(later),
    ensures
        frames_looked_up(later, before, after),
{
    assert forall|f: int| 0 <= f < before.len() implies markers_looked_up(
        later,
        (#[trigger] before[f]).markers,
        after[f].markers,
    ) by {
        assert(markers_looked_up(earlier, before[f].markers, after[f].markers));
    }
}

proof fn lemma_clips_looked_up_later(
    pre: MappingIdRefresher,
    post: MappingIdRefresher,
    before: Seq<ClipView>,
    after: Seq<ClipView>,
)
    requires
        clips_looked_up(pre.clip_ids(), pre.markers(), before, after),
        extends(pre, post),
    ensures
        clips_looked_up(post.clip_ids(), post.markers(), before, after),
{
    assert forall|c: int| 0 <= c < before.len() implies frames_looked_up(
        post.markers(),
        (#[trigger] before[c]).frames,
        after[c].frames,
    ) by {
        lemma_frames_looked_up_later(
            pre.markers(),
            post.markers(),
            before[c].frames,
            after[c].frames,
        );
    }
}

proof fn lemma_frames_rewritten(
    pre: MappingIdRefresher,
    clip_id: ClipId,
    before: Seq<FrameView>,
    after: Seq<FrameView>,
    post: MappingIdRefresher,
)
    requires
        frames_refreshed(pre, clip_id, before, after, post),
    ensures
        post.clip_ids() == pre.clip_ids(),
        extends(pre, post),
        frames_looked_up(post.markers(), before, after),
    decreases before.len(),
{
    if before.len() > 0 {
        let last = (before.len() - 1) as usize;
        let mid = choose|mid: MappingIdRefresher|
            {
                &&& frames_refreshed(pre, clip_id, before.drop_last(), after.drop_last(), mid)
                &&& #[trigger] frame_refreshed(
                    mid,
                    clip_id,
                    last,
                    before.last(),
                    after.last(),
                    post,
                )
            };
        lemma_frames_rewritten(pre, clip_id, before.drop_last(), after.drop_last(), mid);
        lemma_markers_rewritten(mid, clip_id, last, before.last().markers, after.last().markers, post);
        lemma_extends_transitive(pre, mid, post);
        lemma_frames_looked_up_later(
            mid.markers(),
            post.markers(),
            before.drop_last(),
            after.drop_last(),
        );
        assert forall|f: int| 0 <= f < before.len() implies {
            &&& after[f].atlas_index == (#[trigger] before[f]).atlas_index
            &&& markers_looked_up(post.markers(), before[f].markers, after[f].markers)
        } by {
            if f < before.len() - 1 {
                assert(before.drop_last()[f] == before[f]);
                assert(after.drop_last()[f] == after[f]);
            }
        }
    }
}

proof fn lemma_clip_rewritten(
    pre: MappingIdRefresher,
    index: usize,
    before: ClipView,
    after: ClipView,
    post: MappingIdRefresher,
)
    requires
        clip_refreshed(pre, index, before, after, post),
    ensures
        extends(pre, post),
        post.clip_ids().contains_key(before.id@),
        after.id@ == post.clip_ids()[before.id@],
        frames_looked_up(post.markers(), before.frames, after.frames),
{
    let mid = choose|mid: MappingIdRefresher|
        {
            &&& #[trigger] MappingIdRefresher::clip_id_step(
                pre,
                index,
                before.id,
                mid,
                Ok(after.id),
            )
            &&& frames_refreshed(mid, before.id, before.frames, after.frames, post)
        };
    lemma_frames_rewritten(mid, before.id, before.frames, after.frames, post);
    lemma_extends_transitive(pre, mid, post);
}

proof fn lemma_clips_rewritten(
    pre: MappingIdRefresher,
    before: Seq<ClipView>,
    after: Seq<ClipView>,
    post: MappingIdRefresher,
)
    requires
        clips_refreshed(pre, before, after, post),
    ensures
        extends(pre, post),
        clips_looked_up(post.clip_ids(), post.markers(), before, after),
    decreases before.len(),
{
    if before.len() > 0 {
        let last = (before.len() - 1) as usize;
        let mid = choose|mid: MappingIdRefresher|
            {
                &&& clips_refreshed(pre, before.drop_last(), after.drop_last(), mid)
                &&& #[trigger] clip_refreshed(mid, last, before.last(), after.last(), post)
            };
        lemma_clips_rewritten(pre, before.drop_last(), after.drop_last(), mid);
        lemma_clip_rewritten(mid, last, before.last(), after.last(), post);
        lemma_extends_transitive(pre, mid, post);
        lemma_clips_looked_up_later(mid, post, before.drop_last(), after.drop_last());
        assert forall|c: int| 0 <= c < before.len() implies {
            &&& post.clip_ids().contains_key((#[trigger] before[c]).id@)
            &&& after[c].id@ == post.clip_ids()[before[c].id@]
            &&& after[c] == (ClipView { id: after[c].id, frames: after[c].frames, ..before[c] })
            &&& frames_looked_up(post.markers(), before[c].frames, after[c].frames)
        } by {
            if c < before.len() - 1 {
                assert(before.drop_last()[c] == before[c]);
                assert(after.drop_last()[c] == after[c]);
            }
        }
    }
}

/// The tables only grow, and the walk rewrites by them: after a walk, the
/// tables hold every pair that they held before, and the animation is the one
/// that the walk found with each identifier replaced by what the tables now
/// record for it.
///
/// So wherever one identifier stood more than once, one and the same
/// identifier stands afterwards, and whoever holds the old identifiers
/// elsewhere can rewrite them from the tables in the same way.
pub proof fn lemma_walk_rewrites_by_tables(
    pre: MappingIdRefresher,
    before: AnimationView,
    after: AnimationView,
    post: MappingIdRefresher,
)
    requires
        animation_refreshed(pre, before, after, post),
    ensures
        extends(pre, post),
        looked_up(post, before, after),
{
    lemma_clips_rewritten(pre, before.clips, after.clips, post);
}

/// The values of the clip identifiers of `clips`.
pub open spec fn clip_id_values(clips: Seq<ClipView>) -> Set<u128> {
    Set::new(|value: u128| exists|c: int| 0 <= c < clips.len() && (#[trigger] clips[c]).id@ == value)
}

/// The values of `markers`.
pub open spec fn marker_values(markers: Seq<Marker>) -> Set<u128> {
    Set::new(
        |value: u128| exists|k: int| 0 <= k < markers.len() && (#[trigger] markers[k])@ == value,
    )
}

/// The values of the markers attached to any of `frames`.
pub open spec fn frames_marker_values(frames: Seq<FrameView>) -> Set<u128> {
    Set::new(
        |value: u128|
            exists|f: int|
                0 <= f < frames.len() && marker_values((#[trigger] frames[f]).markers).contains(
                    value,
                ),
    )
}

/// The values of the markers attached to any frame of any of `clips`.
pub open spec fn clips_marker_values(clips: Seq<ClipView>) -> Set<u128> {
    Set::new(
        |value: u128|
            exists|c: int|
                0 <= c < clips.len() && frames_marker_values((#[trigger] clips[c]).frames).contains(
                    value,
                ),
    )
}

proof fn lemma_markers_add_what_was_asked(
    pre: MappingIdRefresher,
    clip_id: ClipId,
    frame: usize,
    before: Seq<Marker>,
    after: Seq<Marker>,
    post: MappingIdRefresher,
)
    requires
        markers_refreshed(pre, clip_id, frame, before, after, post),
    ensures
        forall|key: u128| #[trigger]
            post.markers().contains_key(key) ==> pre.markers().contains_key(key) || marker_values(
                before,
            ).contains(key),
    decreases before.len(),
{
    if before.len() > 0 {
        let mid = choose|mid: MappingIdRefresher|
            {
                &&& markers_refreshed(
                    pre,
                    clip_id,
                    frame,
                    before.drop_last(),
                    after.drop_last(),
                    mid,
                )
                &&& #[trigger] MappingIdRefresher::marker_step(
                    mid,
                    clip_id,
                    frame,
                    before.last(),
                    post,
                    Ok(after.last()),
                )
            };
        lemma_markers_add_what_was_asked(
            pre,
            clip_id,
            frame,
            before.drop_last(),
            after.drop_last(),
            mid,
        );
        assert forall|key: u128| #[trigger] post.markers().contains_key(key) implies pre.markers().contains_key(
        key) || marker_values(before).contains(key) by {
            if mid.markers().contains_key(key) {
                if !pre.markers().contains_key(key) {
                    let k = choose|k: int|
                        0 <= k < before.drop_last().len() && (#[trigger] before.drop_last()[k])@
                            == key;
                    assert(before[k]@ == key);
                }
            } else {
                assert(before[before.len() - 1]@ == key);
            }
        }
    }
}

proof fn lemma_frames_add_what_was_asked(
    pre: MappingIdRefresher,
    clip_id: ClipId,
    before: Seq<FrameView>,
    after: Seq<FrameView>,
    post: MappingIdRefresher,
)
    requires
        frames_refreshed(pre, clip_id, before, after, post),
    ensures
        forall|key: u128| #[trigger]
            post.markers().contains_key(key) ==> pre.markers().contains_key(key)
                || frames_marker_values(before).contains(key),
    decreases before.len(),
{
    if before.len() > 0 {
        let last = (before.len() - 1) as usize;
        let mid = choose|mid: MappingIdRefresher|
            {
                &&& frames_refreshed(pre, clip_id, before.drop_last(), after.drop_last(), mid)
                &&& #[trigger] frame_refreshed(
                    mid,
                    clip_id,
                    last,
                    before.last(),
                    after.last(),
                    post,
                )
            };
        lemma_frames_add_what_was_asked(pre, clip_id, before.drop_last(), after.drop_last(), mid);
        lemma_markers_add_what_was_asked(
            mid,
            clip_id,
            last,
            before.last().markers,
            after.last().markers,
            post,
        );
        assert forall|key: u128| #[trigger] post.markers().contains_key(key) implies pre.markers().contains_key(
        key) || frames_marker_values(before).contains(key) by {
            if mid.markers().contains_key(key) {
                if !pre.markers().contains_key(key) {
                    let f = choose|f: int|
                        0 <= f < before.drop_last().len() && marker_values(
                            (#[trigger] before.drop_last()[f]).markers,
                        ).contains(key);
                    assert(marker_values(before[f].markers).contains(key));
                }
            } else {
                assert(marker_values(before[before.len() - 1].markers).contains(key));
            }
        }
    }
}

proof fn lemma_clips_add_what_was_asked(
    pre: MappingIdRefresher,
    before: Seq<ClipView>,
    after: Seq<ClipView>,
    post: MappingIdRefresher,
)
    requires
        clips_refreshed(pre, before, after, post),
    ensures
        forall|key: u128| #[trigger]
            post.clip_ids().contains_key(key) ==> pre.clip_ids().contains_key(key)
                || clip_id_values(before).contains(key),
        forall|key: u128| #[trigger]
            post.markers().contains_key(key) ==> pre.markers().contains_key(key)
                || clips_marker_values(before).contains(key),
    decreases before.len(),
{
    if before.len() > 0 {
        let last = (before.len() - 1) as usize;
        let mid = choose|mid: MappingIdRefresher|
            {
                &&& clips_refreshed(pre, before.drop_last(), after.drop_last(), mid)
                &&& #[trigger] clip_refreshed(mid, last, before.last(), after.last(), post)
            };
        lemma_clips_add_what_was_asked(pre, before.drop_last(), after.drop_last(), mid);
        let answered = choose|answered: MappingIdRefresher|
            {
                &&& #[trigger] MappingIdRefresher::clip_id_step(
                    mid,
                    last,
                    before.last().id,
                    answered,
                    Ok(after.last().id),
                )
                &&& frames_refreshed(
                    answered,
                    before.last().id,
                    before.last().frames,
                    after.last().frames,
                    post,
                )
            };
        lemma_frames_rewritten(answered, before.last().id, before.last().frames, after.last().frames, post);
        lemma_frames_add_what_was_asked(
            answered,
            before.last().id,
            before.last().frames,
            after.last().frames,
            post,
        );
        assert forall|key: u128| #[trigger] post.clip_ids().contains_key(key) implies pre.clip_ids().contains_key(
        key) || clip_id_values(before).contains(key) by {
            if mid.clip_ids().contains_key(key) {
                if !pre.clip_ids().contains_key(key) {
                    let c = choose|c: int|
                        0 <= c < before.drop_last().len() && (#[trigger] before.drop_last()[c]).id@
                            == key;
                    assert(before[c].id@ == key);
                }
            } else {
                assert(before[before.len() - 1].id@ == key);
            }
        }
        assert forall|key: u128| #[trigger] post.markers().contains_key(key) implies pre.markers().contains_key(
        key) || clips_marker_values(before).contains(key) by {
            if mid.markers().contains_key(key) {
                if !pre.markers().contains_key(key) {
                    let c = choose|c: int|
                        0 <= c < before.drop_last().len() && frames_marker_values(
                            (#[trigger] before.drop_last()[c]).frames,
                        ).contains(key);
                    assert(frames_marker_values(before[c].frames).contains(key));
                }
            } else {
                assert(frames_marker_values(before[before.len() - 1].frames).contains(key));
            }
        }
    }
}

/// The tables hold what was asked about and nothing more: after a walk, the
/// identifiers that the tables record are those that they recorded before
/// and those that stood in the animation.
///
/// A refresher that started with empty tables thus ends with tables that
/// record the identifiers of the animation and no others.
pub proof fn lemma_tables_record_what_was_asked(
    pre: MappingIdRefresher,
    before: AnimationView,
    after: AnimationView,
    post: MappingIdRefresher,
)
    requires
        animation_refreshed(pre, before, after, post),
    ensures
        post.clip_ids().dom() == pre.clip_ids().dom().union(clip_id_values(before.clips)),
        post.markers().dom() == pre.markers().dom().union(clips_marker_values(before.clips)),
{
    lemma_clips_rewritten(pre, before.clips, after.clips, post);
    lemma_clips_add_what_was_asked(pre, before.clips, after.clips, post);
    let clips = before.clips;
    assert forall|key: u128| clip_id_values(clips).contains(key) implies post.clip_ids().dom().contains(
    key) by {
        let c = choose|c: int| 0 <= c < clips.len() && (#[trigger] clips[c]).id@ == key;
    }
    assert forall|key: u128| clips_marker_values(clips).contains(key) implies post.markers().dom().contains(
    key) by {
        let c = choose|c: int|
            0 <= c < clips.len() && frames_marker_values((#[trigger] clips[c]).frames).contains(
                key,
            );
        let frames = clips[c].frames;
        let f = choose|f: int|
            0 <= f < frames.len() && marker_values((#[trigger] frames[f]).markers).contains(key);
        let markers = frames[f].markers;
        let k = choose|k: int| 0 <= k < markers.len() && (#[trigger] markers[k])@ == key;
        assert(frames_looked_up(post.markers(), frames, after.clips[c].frames));
        assert(markers_looked_up(post.markers(), markers, after.clips[c].frames[f].markers));
    }
    assert forall|key: u128| #[trigger] post.clip_ids().dom().contains(key) implies pre.clip_ids().dom().union(
    clip_id_values(clips)).contains(key) by {
        assert(post.clip_ids().contains_key(key));
    }
    assert forall|key: u128| #[trigger] post.markers().dom().contains(key) implies pre.markers().dom().union(
    clips_marker_values(clips)).contains(key) by {
        assert(post.markers().contains_key(key));
    }
    assert(post.clip_ids().dom() =~= pre.clip_ids().dom().union(clip_id_values(clips)));
    assert(post.markers().dom() =~= pre.markers().dom().union(clips_marker_values(clips)));
}

/// A walk answered by a `MappingIdRefresher` does not fail.
pub proof fn lemma_walk_never_fails(
    pre: MappingIdRefresher,
    before: AnimationView,
    after: AnimationView,
    post: MappingIdRefresher,
    error: Impossible,
)
    ensures
        !animation_failed(pre, before, after, post, error),
{
    if animation_failed(pre, before, after, post, error) {
        let (c, at_clip) = choose|c: int, mid: MappingIdRefresher|
            {
                &&& 0 <= c < before.clips.len()
                &&& after.clips.len() == before.clips.len()
                &&& #[trigger] clips_refreshed(pre, before.clips.take(c), after.clips.take(c), mid)
                &&& clip_failed(mid, c as usize, before.clips[c], after.clips[c], post, error)
                &&& after.clips.skip(c + 1) == before.clips.skip(c + 1)
            };
        let old = before.clips[c];
        let new = after.clips[c];
        assert(!MappingIdRefresher::clip_id_step(at_clip, c as usize, old.id, post, Err(error)));
        let at_frames = choose|mid: MappingIdRefresher|
            {
                &&& #[trigger] MappingIdRefresher::clip_id_step(
                    at_clip,
                    c as usize,
                    old.id,
                    mid,
                    Ok(new.id),
                )
                &&& frames_failed(mid, old.id, old.frames, new.frames, post, error)
            };
        let (f, at_frame) = choose|f: int, mid: MappingIdRefresher|
            {
                &&& 0 <= f < old.frames.len()
                &&& new.frames.len() == old.frames.len()
                &&& #[trigger] frames_refreshed(
                    at_frames,
                    old.id,
                    old.frames.take(f),
                    new.frames.take(f),
                    mid,
                )
                &&& frame_failed(mid, old.id, f as usize, old.frames[f], new.frames[f], post, error)
                &&& new.frames.skip(f + 1) == old.frames.skip(f + 1)
            };
        let asked = old.frames[f].markers;
        let left = new.frames[f].markers;
        let (k, at_marker) = choose|k: int, mid: MappingIdRefresher|
            {
                &&& 0 <= k < asked.len()
                &&& left.len() == asked.len()
                &&& #[trigger] markers_refreshed(
                    at_frame,
                    old.id,
                    f as usize,
                    asked.take(k),
                    left.take(k),
                    mid,
                )
                &&& MappingIdRefresher::marker_step(
                    mid,
                    old.id,
                    f as usize,
                    asked[k],
                    post,
                    Err(error),
                )
                &&& left.skip(k) == asked.skip(k)
            };
        assert(false);
    }
}

/// One identifier, one answer: where the animation held the same clip
/// identifier, or the same marker, at two positions before a walk, it holds
/// the same one at both positions afterwards.
pub proof fn lemma_same_identifier_same_answer(
    pre: MappingIdRefresher,
    before: AnimationView,
    after: AnimationView,
    post: MappingIdRefresher,
)
    requires
        animation_refreshed(pre, before, after, post),
    ensures
        forall|c1: int, c2: int|
            before.has_clip(c1) && before.has_clip(c2) && #[trigger] before.clip_id(c1)
                == #[trigger] before.clip_id(c2) ==> after.clip_id(c1) == after.clip_id(c2),
        forall|c1: int, f1: int, k1: int, c2: int, f2: int, k2: int|
            before.has_marker(c1, f1, k1) && before.has_marker(c2, f2, k2)
                && #[trigger] before.marker(c1, f1, k1) == #[trigger] before.marker(c2, f2, k2)
                ==> after.marker(c1, f1, k1) == after.marker(c2, f2, k2),
{
    lemma_walk_rewrites_by_tables(pre, before, after, post);
    assert forall|c1: int, c2: int|
        before.has_clip(c1) && before.has_clip(c2) && #[trigger] before.clip_id(c1)
            == #[trigger] before.clip_id(c2) implies after.clip_id(c1) == after.clip_id(c2) by {
        lemma_clip_looked_up(post, before, after, c1);
        lemma_clip_looked_up(post, before, after, c2);
        ClipId::lemma_value_is_clip_id(after.clip_id(c1), after.clip_id(c2));
    }
    assert forall|c1: int, f1: int, k1: int, c2: int, f2: int, k2: int|
        before.has_marker(c1, f1, k1) && before.has_marker(c2, f2, k2)
            && #[trigger] before.marker(c1, f1, k1) == #[trigger] before.marker(
            c2,
            f2,
            k2,
        ) implies after.marker(c1, f1, k1) == after.marker(c2, f2, k2) by {
        lemma_marker_looked_up(post, before, after, c1, f1, k1);
        lemma_marker_looked_up(post, before, after, c2, f2, k2);
        Marker::lemma_value_is_marker(after.marker(c1, f1, k1), after.marker(c2, f2, k2));
    }
}

/// Distinct identifiers stay distinct as long as the tables give no
/// identifier to two: where, after a walk, no two clip identifiers are
/// recorded with the same new one and no two markers with the same new one,
/// two positions that held different identifiers before the walk hold
/// different ones afterwards, and a frame that held no marker twice still
/// holds none twice.
///
/// A refresher that started with empty tables ends a walk with such tables
/// exactly if the random draws made for it did not repeat.
pub proof fn lemma_distinct_identifiers_stay_distinct(
    pre: MappingIdRefresher,
    before: AnimationView,
    after: AnimationView,
    post: MappingIdRefresher,
)
    requires
        animation_refreshed(pre, before, after, post),
        post.clip_ids().is_injective(),
        post.markers().is_injective(),
    ensures
        forall|c1: int, c2: int|
            before.has_clip(c1) && before.has_clip(c2) && #[trigger] before.clip_id(c1)
                != #[trigger] before.clip_id(c2) ==> after.clip_id(c1) != after.clip_id(c2),
        forall|c1: int, f1: int, k1: int, c2: int, f2: int, k2: int|
            before.has_marker(c1, f1, k1) && before.has_marker(c2, f2, k2)
                && #[trigger] before.marker(c1, f1, k1) != #[trigger] before.marker(c2, f2, k2)
                ==> after.marker(c1, f1, k1) != after.marker(c2, f2, k2),
        forall|c: int, f: int|
            0 <= c < before.clips.len() && 0 <= f < before.clips[c].frames.len()
                && (#[trigger] before.clips[c].frames[f]).markers_distinct()
                ==> after.clips[c].frames[f].markers_distinct(),
{
    lemma_walk_rewrites_by_tables(pre, before, after, post);
    assert forall|c1: int, c2: int|
        before.has_clip(c1) && before.has_clip(c2) && #[trigger] before.clip_id(c1)
            != #[trigger] before.clip_id(c2) implies after.clip_id(c1) != after.clip_id(c2) by {
        lemma_clip_looked_up(post, before, after, c1);
        lemma_clip_looked_up(post, before, after, c2);
        ClipId::lemma_value_is_clip_id(before.clip_id(c1), before.clip_id(c2));
    }
    assert forall|c1: int, f1: int, k1: int, c2: int, f2: int, k2: int|
        before.has_marker(c1, f1, k1) && before.has_marker(c2, f2, k2)
            && #[trigger] before.marker(c1, f1, k1) != #[trigger] before.marker(
            c2,
            f2,
            k2,
        ) implies after.marker(c1, f1, k1) != after.marker(c2, f2, k2) by {
        lemma_marker_looked_up(post, before, after, c1, f1, k1);
        lemma_marker_looked_up(post, before, after, c2, f2, k2);
        Marker::lemma_value_is_marker(before.marker(c1, f1, k1), before.marker(c2, f2, k2));
    }
    assert forall|c: int, f: int|
        0 <= c < before.clips.len() && 0 <= f < before.clips[c].frames.len()
            && (#[trigger] before.clips[c].frames[f]).markers_distinct()
            implies after.clips[c].frames[f].markers_distinct() by {
        let asked = before.clips[c].frames[f].markers;
        let left = after.clips[c].frames[f].markers;
        assert forall|i: int, j: int| 0 <= i < left.len() && 0 <= j < left.len() && i != j
            implies left[i] != left[j] by {
            lemma_marker_looked_up(post, before, after, c, f, i);
            lemma_marker_looked_up(post, before, after, c, f, j);
            assert(before.marker(c, f, i) != before.marker(c, f, j));
            Marker::lemma_value_is_marker(before.marker(c, f, i), before.marker(c, f, j));
        }
    }
}

/// For a refresher that starts with empty tables, the tables decide: after
/// its walk, positions that held different clip identifiers hold different
/// ones again if and only if the clip table gives no identifier to two, and
/// likewise for markers.
///
/// The tables of such a refresher hold nothing but random draws, one for
/// each identifier of the animation, so they give an identifier to two
/// exactly when a draw repeated an earlier one.
pub proof fn lemma_fresh_walk_keeps_apart_iff_tables_do(
    pre: MappingIdRefresher,
    before: AnimationView,
    after: AnimationView,
    post: MappingIdRefresher,
)
    requires
        animation_refreshed(pre, before, after, post),
        pre.clip_ids() == Map::<u128, u128>::empty(),
        pre.markers() == Map::<u128, u128>::empty(),
    ensures
        post.clip_ids().is_injective() <==> forall|c1: int, c2: int|
            before.has_clip(c1) && before.has_clip(c2) && #[trigger] before.clip_id(c1)
                != #[trigger] before.clip_id(c2) ==> after.clip_id(c1) != after.clip_id(c2),
        post.markers().is_injective() <==> forall|
            c1: int,
            f1: int,
            k1: int,
            c2: int,
            f2: int,
            k2: int,
        |
            before.has_marker(c1, f1, k1) && before.has_marker(c2, f2, k2)
                && #[trigger] before.marker(c1, f1, k1) != #[trigger] before.marker(c2, f2, k2)
                ==> after.marker(c1, f1, k1) != after.marker(c2, f2, k2),
{
    lemma_walk_rewrites_by_tables(pre, before, after, post);
    lemma_tables_record_what_was_asked(pre, before, after, post);
    let clip_table = post.clip_ids();
    let marker_table = post.markers();
    if clip_table.is_injective() {
        assert forall|c1: int, c2: int|
            before.has_clip(c1) && before.has_clip(c2) && #[trigger] before.clip_id(c1)
                != #[trigger] before.clip_id(c2) implies after.clip_id(c1) != after.clip_id(
            c2,
        ) by {
            lemma_clip_looked_up(post, before, after, c1);
            lemma_clip_looked_up(post, before, after, c2);
            ClipId::lemma_value_is_clip_id(before.clip_id(c1), before.clip_id(c2));
        }
    }
    if marker_table.is_injective() {
        assert forall|c1: int, f1: int, k1: int, c2: int, f2: int, k2: int|
            before.has_marker(c1, f1, k1) && before.has_marker(c2, f2, k2)
                && #[trigger] before.marker(c1, f1, k1) != #[trigger] before.marker(
                c2,
                f2,
                k2,
            ) implies after.marker(c1, f1, k1) != after.marker(c2, f2, k2) by {
            lemma_marker_looked_up(post, before, after, c1, f1, k1);
            lemma_marker_looked_up(post, before, after, c2, f2, k2);
            Marker::lemma_value_is_marker(before.marker(c1, f1, k1), before.marker(c2, f2, k2));
        }
    }
    if !clip_table.is_injective() {
        let (x, y) = choose|x: u128, y: u128|
            x != y && clip_table.dom().contains(x) && clip_table.dom().contains(y) && !(
            #[trigger] clip_table.index(x) != #[trigger] clip_table.index(y));
        assert(clip_id_values(before.clips).contains(x));
        assert(clip_id_values(before.clips).contains(y));
        let c1 = choose|c: int|
            0 <= c < before.clips.len() && (#[trigger] before.clips[c]).id@ == x;
        let c2 = choose|c: int|
            0 <= c < before.clips.len() && (#[trigger] before.clips[c]).id@ == y;
        lemma_clip_looked_up(post, before, after, c1);
        lemma_clip_looked_up(post, before, after, c2);
        ClipId::lemma_value_is_clip_id(after.clip_id(c1), after.clip_id(c2));
        assert(before.has_clip(c1) && before.has_clip(c2) && before.clip_id(c1) != before.clip_id(
            c2,
        ) && after.clip_id(c1) == after.clip_id(c2));
    }
    if !marker_table.is_injective() {
        let (x, y) = choose|x: u128, y: u128|
            x != y && marker_table.dom().contains(x) && marker_table.dom().contains(y) && !(
            #[trigger] marker_table.index(x) != #[trigger] marker_table.index(y));
        let (c1, f1, k1) = lemma_marker_value_has_a_place(before, x);
        let (c2, f2, k2) = lemma_marker_value_has_a_place(before, y);
        lemma_marker_looked_up(post, before, after, c1, f1, k1);
        lemma_marker_looked_up(post, before, after, c2, f2, k2);
        Marker::lemma_value_is_marker(after.marker(c1, f1, k1), after.marker(c2, f2, k2));
        assert(before.has_marker(c1, f1, k1) && before.has_marker(c2, f2, k2) && before.marker(
            c1,
            f1,
            k1,
        ) != before.marker(c2, f2, k2) && after.marker(c1, f1, k1) == after.marker(c2, f2, k2));
    }
}

/// A value among the marker values of an animation is the value of a marker
/// at some position of it.
proof fn lemma_marker_value_has_a_place(animation: AnimationView, value: u128) -> (place: (
    int,
    int,
    int,
))
    requires
        clips_marker_values(animation.clips).contains(value),
    ensures
        animation.has_marker(place.0, place.1, place.2),
        animation.marker(place.0, place.1, place.2)@ == value,
{
    let clips = animation.clips;
    let c = choose|c: int|
        0 <= c < clips.len() && frames_marker_values((#[trigger] clips[c]).frames).contains(value);
    let frames = clips[c].frames;
    let f = choose|f: int|
        0 <= f < frames.len() && marker_values((#[trigger] frames[f]).markers).contains(value);
    let markers = frames[f].markers;
    let k = choose|k: int| 0 <= k < markers.len() && (#[trigger] markers[k])@ == value;
    (c, f, k)
}

/// What `looked_up` says of one clip identifier.
proof fn lemma_clip_looked_up(
    refresher: MappingIdRefresher,
    before: AnimationView,
    after: AnimationView,
    c: int,
)
    requires
        looked_up(refresher, before, after),
        before.has_clip(c),
    ensures
        after.has_clip(c),
        refresher.clip_ids().contains_key(before.clip_id(c)@),
        after.clip_id(c)@ == refresher.clip_ids()[before.clip_id(c)@],
{
    let _ = before.clips[c];
}

/// What `looked_up` says of one marker.
proof fn lemma_marker_looked_up(
    refresher: MappingIdRefresher,
    before: AnimationView,
    after: AnimationView,
    c: int,
    f: int,
    k: int,
)
    requires
        looked_up(refresher, before, after),
        before.has_marker(c, f, k),
    ensures
        after.has_marker(c, f, k),
        refresher.markers().contains_key(before.marker(c, f, k)@),
        after.marker(c, f, k)@ == refresher.markers()[before.marker(c, f, k)@],
{
    let clip = before.clips[c];
    let frame = clip.frames[f];
    let marker = frame.markers[k];
    assert(frames_looked_up(refresher.markers(), clip.frames, after.clips[c].frames));
    assert(markers_looked_up(refresher.markers(), frame.markers, after.clips[c].frames[f].markers));
}

/// An answer is recorded when it is given: after a call for a clip
/// identifier, the tables hold what they held before and map the identifier
/// asked about to the answer.
pub proof fn lemma_clip_id_answer_is_recorded(
    pre: MappingIdRefresher,
    index: usize,
    clip_id: ClipId,
    post: MappingIdRefresher,
    answer: ClipId,
)
    requires
        MappingIdRefresher::clip_id_step(pre, index, clip_id, post, Ok(answer)),
    ensures
        extends(pre, post),
        post.clip_ids().contains_key(clip_id@),
        post.clip_ids()[clip_id@] == answer@,
{
}

/// An answer is recorded when it is given: after a call for a marker, the
/// tables hold what they held before and map the marker asked about to the
/// answer.
pub proof fn lemma_marker_answer_is_recorded(
    pre: MappingIdRefresher,
    clip_id: ClipId,
    frame: usize,
    marker: Marker,
    post: MappingIdRefresher,
    answer: Marker,
)
    requires
        MappingIdRefresher::marker_step(pre, clip_id, frame, marker, post, Ok(answer)),
    ensures
        extends(pre, post),
        post.markers().contains_key(marker@),
        post.markers()[marker@] == answer@,
{
}

/// Asked again, a refresher answers the same: whatever its tables took up
/// between two calls for one clip identifier, at whatever positions, the
/// second answer is the first.
pub proof fn lemma_clip_id_asked_again(
    pre: MappingIdRefresher,
    index: usize,
    clip_id: ClipId,
    post: MappingIdRefresher,
    answer: ClipId,
    later_pre: MappingIdRefresher,
    later_index: usize,
    later_post: MappingIdRefresher,
    later_answer: ClipId,
)
    requires
        MappingIdRefresher::clip_id_step(pre, index, clip_id, post, Ok(answer)),
        extends(post, later_pre),
        MappingIdRefresher::clip_id_step(
            later_pre,
            later_index,
            clip_id,
            later_post,
            Ok(later_answer),
        ),
    ensures
        later_answer == answer,
        later_post.clip_ids() == later_pre.clip_ids(),
{
    assert(post.clip_ids().dom().contains(clip_id@));
    ClipId::lemma_value_is_clip_id(later_answer, answer);
}

/// Asked again, a refresher answers the same: whatever its tables took up
/// between two calls for one marker, in whatever clips and frames, the
/// second answer is the first.
pub proof fn lemma_marker_asked_again(
    pre: MappingIdRefresher,
    clip_id: ClipId,
    frame: usize,
    marker: Marker,
    post: MappingIdRefresher,
    answer: Marker,
    later_pre: MappingIdRefresher,
    later_clip_id: ClipId,
    later_frame: usize,
    later_post: MappingIdRefresher,
    later_answer: Marker,
)
    requires
        MappingIdRefresher::marker_step(pre, clip_id, frame, marker, post, Ok(answer)),
        extends(post, later_pre),
        MappingIdRefresher::marker_step(
            later_pre,
            later_clip_id,
            later_frame,
            marker,
            later_post,
            Ok(later_answer),
        ),
    ensures
        later_answer == answer,
        later_post.markers() == later_pre.markers(),
{
    assert(post.markers().dom().contains(marker@));
    Marker::lemma_value_is_marker(later_answer, answer);
}

} // verus!
