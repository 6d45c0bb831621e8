//! Sprite animation definitions and the remapping of the identifiers they hold.
//!
//! An [`animation::Animation`] is an ordered list of clips, each clip an ordered
//! list of frames, each frame a sprite index with the markers attached to it.
//! Clips and markers are named by opaque identifiers. When a definition is
//! copied or merged into another identifier space, [`animation::Animation::refresh_ids`]
//! walks it and replaces every identifier by the one that an
//! [`id_refreshing::IdRefresher`] answers.
//!
//! - [`clip`], [`events`], [`easing`], [`animation`]: the data and its views.
//! - [`id_refreshing`]: the refresher protocol and the refresher that keeps
//!   tables, [`id_refreshing::MappingIdRefresher`].
//! - [`refresh`]: what a walk does, for every refresher, and what follows
//!   from that.
//! - [`mapping`]: what follows where the refresher keeps tables.
//! - [`unique`]: where new identifier values come from.
//! - [`progress`]: what the walking loops need to know of sequences.

pub mod unique;
pub mod events;
pub mod easing;
pub mod clip;
pub mod animation;
pub mod id_refreshing;
pub mod refresh;
pub mod progress;
pub mod mapping;
