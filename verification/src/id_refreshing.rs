//! The refresher protocol: how new identifiers are produced or looked up.

use std::collections::HashMap;
use std::convert::Infallible;
use vstd::prelude::*;
use crate::clip::ClipId;
use crate::events::Marker;
use crate::unique::is_random_uuid;

verus! {

/// A strategy that answers, for each identifier found in an animation, the
/// identifier that takes its place.
///
/// The two spec functions say which answers and which changes of its own state
/// an implementation allows itself; what a walk over an animation does is
/// stated in terms of them. An implementation that says nothing of itself
/// keeps their defaults, which allow every answer and every change.
pub trait IdRefresher: Sized {
    /// What a refresher reports when it cannot answer.
    type Error;

    /// Whether a call of `refresh_clip_id` with these arguments, made in state
    /// `pre`, may return `outcome` and leave the refresher in state `post`.
    open spec fn clip_id_step(
        pre: Self,
        index: usize,
        clip_id: ClipId,
        post: Self,
        outcome: Result<ClipId, Self::Error>,
    ) -> bool {
        true
    }

    /// Whether a call of `refresh_marker` with these arguments, made in state
    /// `pre`, may return `outcome` and leave the refresher in state `post`.
    open spec fn marker_step(
        pre: Self,
        clip_id: ClipId,
        frame: usize,
        marker: Marker,
        post: Self,
        outcome: Result<Marker, Self::Error>,
    ) -> bool {
        true
    }

    /// Answers the identifier that replaces `clip_id`, the identifier of the
    /// clip at position `index` of its animation.
    fn refresh_clip_id(&mut self, index: usize, clip_id: ClipId) -> (outcome: Result<
        ClipId,
        Self::Error,
    >)
        ensures
            Self::clip_id_step(*old(self), index, clip_id, *final(self), outcome),
    ;

    /// Answers the marker that replaces `marker`, found on the frame at
    /// position `frame` of the clip that had the identifier `clip_id` before
    /// the walk reached it.
    fn refresh_marker(&mut self, clip_id: ClipId, frame: usize, marker: Marker) -> (outcome:
        Result<Marker, Self::Error>)
        ensures
            Self::marker_step(*old(self), clip_id, frame, marker, *final(self), outcome),
    ;
}

/// The error of a refresher that cannot fail. No value of this type exists.
#[derive(Debug, Clone, Copy)]
pub struct Impossible {
    never: Infallible,
}

/// A refresher that remembers every answer it gave: the first time it is
/// asked about an identifier it draws a new one at random, and from then on
/// it answers that same one.
///
/// Its two tables, from the value of an old identifier to the value of the
/// new one, can be filled in advance and read afterwards.
pub struct MappingIdRefresher {
    clip_ids: HashMap<u128, u128>,
    markers: HashMap<u128, u128>,
}

impl MappingIdRefresher {
    /// The table of clip identifiers, from old value to new value.
    pub closed spec fn clip_ids(&self) -> Map<u128, u128> {
        self.clip_ids@
    }

    /// The table of markers, from old value to new value.
    pub closed spec fn markers(&self) -> Map<u128, u128> {
        self.markers@
    }

    /// A refresher that starts from the given tables.
    pub fn new(clip_ids: HashMap<u128, u128>, markers: HashMap<u128, u128>) -> (refresher: Self)
        ensures
            refresher.clip_ids() == clip_ids@,
            refresher.markers() == markers@,
    {
        Self { clip_ids, markers }
    }

    /// The table of clip identifiers.
    pub fn clip_id_mapping(&self) -> (table: &HashMap<u128, u128>)
        ensures
            table@ == self.clip_ids(),
    {
        &self.clip_ids
    }

    /// The table of markers.
    pub fn marker_mapping(&self) -> (table: &HashMap<u128, u128>)
        ensures
            table@ == self.markers(),
    {
        &self.markers
    }

    /// Gives up the refresher for its two tables, clip identifiers first.
    pub fn into_inner(self) -> (tables: (HashMap<u128, u128>, HashMap<u128, u128>))
        ensures
            tables.0@ == self.clip_ids(),
            tables.1@ == self.markers(),
    {
        (self.clip_ids, self.markers)
    }

    /// The identifier recorded for `earlier`, if one is.
    pub fn mapped_clip_id(&self, earlier: ClipId) -> (mapped: Option<ClipId>)
        ensures
            match mapped {
                Some(id) => self.clip_ids().contains_key(earlier@) && id@ == self.clip_ids()[earlier@],
                None => !self.clip_ids().contains_key(earlier@),
            },
    {
        match self.clip_ids.get(&earlier.as_u128()) {
            Some(value) => Some(ClipId::from_u128(*value)),
            None => None,
        }
    }

    /// The marker recorded for `earlier`, if one is.
    pub fn mapped_marker(&self, earlier: Marker) -> (mapped: Option<Marker>)
        ensures
            match mapped {
                Some(marker) => self.markers().contains_key(earlier@) && marker@
                    == self.markers()[earlier@],
                None => !self.markers().contains_key(earlier@),
            },
    {
        match self.markers.get(&earlier.as_u128()) {
            Some(value) => Some(Marker::from_u128(*value)),
            None => None,
        }
    }

    /// Answers the identifier recorded for `earlier`; where none is recorded,
    /// records `candidate` for it and answers `candidate`.
    pub fn remap_clip_id(&mut self, earlier: ClipId, candidate: ClipId) -> (mapped: ClipId)
        ensures
            final(self).markers() == old(self).markers(),
            old(self).clip_ids().contains_key(earlier@) ==> {
                &&& mapped@ == old(self).clip_ids()[earlier@]
                &&& final(self).clip_ids() == old(self).clip_ids()
            },
            !old(self).clip_ids().contains_key(earlier@) ==> {
                &&& mapped == candidate
                &&& final(self).clip_ids() == old(self).clip_ids().insert(earlier@, candidate@)
            },
    {
        let value: u128 = *self.clip_ids.entry(earlier.as_u128()).or_insert(candidate.as_u128());
        proof {
            assert(old(self).clip_ids().contains_key(earlier@) ==> self.clip_ids@ =~= old(
                self,
            ).clip_ids@);
        }
        let mapped = ClipId::from_u128(value);
        proof {
            ClipId::lemma_value_is_clip_id(mapped, candidate);
        }
        mapped
    }

    /// Answers the marker recorded for `earlier`; where none is recorded, records
    /// `candidate` for it and answers `candidate`.
    pub fn remap_marker(&mut self, earlier: Marker, candidate: Marker) -> (mapped: Marker)
        ensures
            final(self).clip_ids() == old(self).clip_ids(),
            old(self).markers().contains_key(earlier@) ==> {
                &&& mapped@ == old(self).markers()[earlier@]
                &&& final(self).markers() == old(self).markers()
            },
            !old(self).markers().contains_key(earlier@) ==> {
                &&& mapped == candidate
                &&& final(self).markers() == old(self).markers().insert(earlier@, candidate@)
            },
    {
        let value: u128 = *self.markers.entry(earlier.as_u128()).or_insert(candidate.as_u128());
        proof {
            assert(old(self).markers().contains_key(earlier@) ==> self.markers@ =~= old(
                self,
            ).markers@);
        }
        let mapped = Marker::from_u128(value);
        proof {
            Marker::lemma_value_is_marker(mapped, candidate);
        }
        mapped
    }
}

impl Default for MappingIdRefresher {
    /// A refresher with empty tables.
    fn default() -> (refresher: Self)
        ensures
            refresher.clip_ids() == Map::<u128, u128>::empty(),
            refresher.markers() == Map::<u128, u128>::empty(),
    {
        Self { clip_ids: HashMap::new(), markers: HashMap::new() }
    }
}

impl IdRefresher for MappingIdRefresher {
    type Error = Impossible;

    /// The call succeeds and leaves the marker table alone. The clip table
    /// afterwards maps `clip_id` to the answer: it is the table before, with
    /// one pair more if `clip_id` was not in it, and the answer is then a
    /// random UUID.
    open spec fn clip_id_step(
        pre: Self,
        index: usize,
        clip_id: ClipId,
        post: Self,
        outcome: Result<ClipId, Impossible>,
    ) -> bool {
        &&& outcome is Ok
        &&& post.markers() == pre.markers()
        &&& if pre.clip_ids().contains_key(clip_id@) {
            &&& post.clip_ids() == pre.clip_ids()
            &&& outcome->Ok_0@ == pre.clip_ids()[clip_id@]
        } else {
            &&& post.clip_ids() == pre.clip_ids().insert(clip_id@, outcome->Ok_0@)
            &&& is_random_uuid(outcome->Ok_0@)
        }
    }

    /// The call succeeds and leaves the clip table alone. The marker table
    /// afterwards maps `marker` to the answer: it is the table before, with
    /// one pair more if `marker` was not in it, and the answer is then a
    /// random UUID.
    open spec fn marker_step(
        pre: Self,
        clip_id: ClipId,
        frame: usize,
        marker: Marker,
        post: Self,
        outcome: Result<Marker, Impossible>,
    ) -> bool {
        &&& outcome is Ok
        &&& post.clip_ids() == pre.clip_ids()
        &&& if pre.markers().contains_key(marker@) {
            &&& post.markers() == pre.markers()
            &&& outcome->Ok_0@ == pre.markers()[marker@]
        } else {
            &&& post.markers() == pre.markers().insert(marker@, outcome->Ok_0@)
            &&& is_random_uuid(outcome->Ok_0@)
        }
    }

    fn refresh_clip_id(&mut self, index: usize, clip_id: ClipId) -> (outcome: Result<
        ClipId,
        Impossible,
    >) {
        match self.mapped_clip_id(clip_id) {
            Some(known) => Ok(known),
            None => Ok(self.remap_clip_id(clip_id, ClipId::new())),
        }
    }

    fn refresh_marker(&mut self, clip_id: ClipId, frame: usize, marker: Marker) -> (outcome:
        Result<Marker, Impossible>) {
        match self.mapped_marker(marker) {
            Some(known) => Ok(known),
            None => Ok(self.remap_marker(marker, Marker::new())),
        }
    }
}

/// The refresher to use where no other is asked for.
pub type DefaultIdRefresher = MappingIdRefresher;

} // verus!
