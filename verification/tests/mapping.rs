use std::collections::{HashMap, HashSet};

use spritesheet_animation::animation::Animation;
use spritesheet_animation::clip::{Clip, ClipId, Frame};
use spritesheet_animation::events::Marker;
use spritesheet_animation::id_refreshing::{DefaultIdRefresher, IdRefresher, MappingIdRefresher};

fn frame_with(atlas_index: usize, markers: &[u128]) -> Frame {
    let mut frame = Frame::new(atlas_index);
    for value in markers {
        frame.add_marker(Marker::from_u128(*value));
    }
    frame
}

fn clip_with(id: u128, frames: Vec<Frame>) -> Clip {
    Clip::new(ClipId::from_u128(id), frames, None, None, None, None)
}

fn animation_of(clips: Vec<Clip>) -> Animation {
    Animation::new(clips, None, None, None, None).expect("at least one clip")
}

fn clip_ids(animation: &Animation) -> Vec<u128> {
    animation.clips().iter().map(|clip| clip.id().as_u128()).collect()
}

fn markers(animation: &Animation) -> Vec<Vec<Vec<u128>>> {
    animation
        .clips()
        .iter()
        .map(|clip| {
            clip.frames()
                .iter()
                .map(|frame| frame.markers().iter().map(|marker| marker.as_u128()).collect())
                .collect()
        })
        .collect()
}

fn has_version_four_bits(value: u128) -> bool {
    (value >> 76) & 0xf == 4 && (value >> 62) & 0x3 == 2
}

const C1: u128 = 0xc1;
const C2: u128 = 0xc2;
const M1: u128 = 0x31;
const M2: u128 = 0x32;

/// Clip `C1` with one frame that carries `M1`; clip `C2` with one frame that
/// carries `M1` too and one frame without markers.
fn two_clips_sharing_a_marker() -> Animation {
    animation_of(vec![
        clip_with(C1, vec![frame_with(0, &[M1])]),
        clip_with(C2, vec![frame_with(1, &[M1]), frame_with(2, &[])]),
    ])
}

#[test]
fn two_clips_that_share_a_marker_get_new_ids_and_one_new_marker() {
    let mut animation = two_clips_sharing_a_marker();
    let mut refresher = MappingIdRefresher::default();
    assert!(animation.refresh_ids(&mut refresher).is_ok());

    let new_ids = clip_ids(&animation);
    assert_eq!(new_ids.len(), 2);
    assert_ne!(new_ids[0], new_ids[1]);
    assert_ne!(new_ids[0], C1);
    assert_ne!(new_ids[1], C2);

    let new_markers = markers(&animation);
    assert_eq!(new_markers[0].len(), 1);
    assert_eq!(new_markers[1].len(), 2);
    assert_eq!(new_markers[0][0].len(), 1);
    assert_eq!(new_markers[1][0].len(), 1);
    assert!(new_markers[1][1].is_empty());
    assert_eq!(new_markers[0][0][0], new_markers[1][0][0]);
    assert_ne!(new_markers[0][0][0], M1);

    let clip_table = refresher.clip_id_mapping();
    assert_eq!(clip_table.len(), 2);
    assert_eq!(clip_table.get(&C1), Some(&new_ids[0]));
    assert_eq!(clip_table.get(&C2), Some(&new_ids[1]));
    let marker_table = refresher.marker_mapping();
    assert_eq!(marker_table.len(), 1);
    assert_eq!(marker_table.get(&M1), Some(&new_markers[0][0][0]));
}

#[test]
fn a_marker_recorded_in_advance_is_rewritten_to_what_was_recorded() {
    let kept = 0x4b;
    let mut seeded = HashMap::new();
    seeded.insert(M1, kept);
    let mut refresher = MappingIdRefresher::new(HashMap::new(), seeded);
    let mut animation = animation_of(vec![
        clip_with(C1, vec![frame_with(0, &[M1, M2])]),
        clip_with(C2, vec![frame_with(1, &[M1])]),
    ]);
    assert!(animation.refresh_ids(&mut refresher).is_ok());
    let new_markers = markers(&animation);
    assert_eq!(new_markers[0][0][0], kept);
    assert_eq!(new_markers[1][0][0], kept);
    assert_ne!(new_markers[0][0][1], kept);
    assert!(has_version_four_bits(new_markers[0][0][1]));
    assert_eq!(refresher.marker_mapping().get(&M1), Some(&kept));
    assert_eq!(refresher.marker_mapping().get(&M2), Some(&new_markers[0][0][1]));
    assert_eq!(refresher.marker_mapping().len(), 2);
}

#[test]
fn a_clip_id_recorded_in_advance_is_rewritten_to_what_was_recorded() {
    let mut seeded = HashMap::new();
    seeded.insert(C1, 0x1000);
    let mut refresher = MappingIdRefresher::new(seeded, HashMap::new());
    let mut animation = animation_of(vec![clip_with(C1, vec![]), clip_with(C2, vec![])]);
    assert!(animation.refresh_ids(&mut refresher).is_ok());
    let new_ids = clip_ids(&animation);
    assert_eq!(new_ids[0], 0x1000);
    assert!(has_version_four_bits(new_ids[1]));
    assert_eq!(refresher.clip_id_mapping().get(&C2), Some(&new_ids[1]));
}

#[test]
fn distinct_identifiers_get_distinct_new_ones() {
    let mut animation = animation_of(
        (0..20u128)
            .map(|c| clip_with(c, vec![frame_with(0, &[3 * c, 3 * c + 1]), frame_with(1, &[3 * c + 2])]))
            .collect(),
    );
    let mut refresher = MappingIdRefresher::default();
    assert!(animation.refresh_ids(&mut refresher).is_ok());
    let new_ids: HashSet<u128> = clip_ids(&animation).into_iter().collect();
    assert_eq!(new_ids.len(), 20);
    let new_markers: HashSet<u128> = markers(&animation).into_iter().flatten().flatten().collect();
    assert_eq!(new_markers.len(), 60);
    assert!(new_ids.iter().all(|id| has_version_four_bits(*id)));
    assert!(new_markers.iter().all(|marker| has_version_four_bits(*marker)));
    assert_eq!(refresher.clip_id_mapping().len(), 20);
    assert_eq!(refresher.marker_mapping().len(), 60);
}

#[test]
fn one_identifier_in_several_places_gets_one_new_one() {
    // A copied clip keeps the identifier and the markers of the clip it was copied from.
    let mut animation = animation_of(vec![
        clip_with(C1, vec![frame_with(0, &[M1, M2]), frame_with(1, &[M2])]),
        clip_with(C2, vec![frame_with(0, &[M2])]),
        clip_with(C1, vec![frame_with(0, &[M1, M2]), frame_with(1, &[M2])]),
    ]);
    let mut refresher = MappingIdRefresher::default();
    assert!(animation.refresh_ids(&mut refresher).is_ok());
    let new_ids = clip_ids(&animation);
    assert_eq!(new_ids[0], new_ids[2]);
    assert_ne!(new_ids[0], new_ids[1]);
    let new_markers = markers(&animation);
    let m1 = new_markers[0][0][0];
    let m2 = new_markers[0][0][1];
    assert_ne!(m1, m2);
    assert_eq!(
        new_markers,
        vec![
            vec![vec![m1, m2], vec![m2]],
            vec![vec![m2]],
            vec![vec![m1, m2], vec![m2]],
        ]
    );
    assert_eq!(refresher.clip_id_mapping().len(), 2);
    assert_eq!(refresher.marker_mapping().len(), 2);
}

#[test]
fn the_tables_answer_the_same_after_the_walk_as_during_it() {
    let mut animation = two_clips_sharing_a_marker();
    let mut refresher = MappingIdRefresher::default();
    assert!(animation.refresh_ids(&mut refresher).is_ok());
    let new_ids = clip_ids(&animation);
    let new_marker = markers(&animation)[0][0][0];
    for _ in 0..3 {
        assert_eq!(refresher.mapped_clip_id(ClipId::from_u128(C1)), Some(ClipId::from_u128(new_ids[0])));
        assert_eq!(refresher.mapped_clip_id(ClipId::from_u128(C2)), Some(ClipId::from_u128(new_ids[1])));
        assert_eq!(refresher.mapped_marker(Marker::from_u128(M1)), Some(Marker::from_u128(new_marker)));
    }
    assert_eq!(refresher.mapped_clip_id(ClipId::from_u128(0xdead)), None);
    assert_eq!(refresher.mapped_marker(Marker::from_u128(0xdead)), None);
    // Asked again, at another position, it answers the same and records nothing new.
    assert_eq!(
        refresher.refresh_clip_id(9, ClipId::from_u128(C1)).ok(),
        Some(ClipId::from_u128(new_ids[0]))
    );
    assert_eq!(
        refresher.refresh_marker(ClipId::from_u128(C2), 5, Marker::from_u128(M1)).ok(),
        Some(Marker::from_u128(new_marker))
    );
    assert_eq!(refresher.clip_id_mapping().len(), 2);
    assert_eq!(refresher.marker_mapping().len(), 1);
}

#[test]
fn a_second_animation_walked_by_the_same_refresher_shares_its_answers() {
    let mut first = two_clips_sharing_a_marker();
    let mut second = animation_of(vec![clip_with(C2, vec![frame_with(0, &[M2, M1])])]);
    let mut refresher = MappingIdRefresher::default();
    assert!(first.refresh_ids(&mut refresher).is_ok());
    assert!(second.refresh_ids(&mut refresher).is_ok());
    assert_eq!(clip_ids(&second)[0], clip_ids(&first)[1]);
    assert_eq!(markers(&second)[0][0][1], markers(&first)[0][0][0]);
    assert_ne!(markers(&second)[0][0][0], markers(&first)[0][0][0]);
    assert_eq!(refresher.marker_mapping().len(), 2);
}

#[test]
fn walking_again_maps_the_new_identifiers_anew() {
    let mut animation = two_clips_sharing_a_marker();
    let mut refresher = MappingIdRefresher::default();
    assert!(animation.refresh_ids(&mut refresher).is_ok());
    let once = clip_ids(&animation);
    assert!(animation.refresh_ids(&mut refresher).is_ok());
    let twice = clip_ids(&animation);
    assert_ne!(once, twice);
    assert_eq!(refresher.clip_id_mapping().len(), 4);
    assert_eq!(refresher.clip_id_mapping().get(&once[0]), Some(&twice[0]));
    assert_eq!(refresher.clip_id_mapping().get(&once[1]), Some(&twice[1]));
}

#[test]
fn separate_refreshers_answer_independently() {
    let mut first = two_clips_sharing_a_marker();
    let mut second = two_clips_sharing_a_marker();
    assert!(first.refresh_ids(&mut MappingIdRefresher::default()).is_ok());
    assert!(second.refresh_ids(&mut MappingIdRefresher::default()).is_ok());
    assert_ne!(clip_ids(&first), clip_ids(&second));
    assert_ne!(markers(&first), markers(&second));
}

#[test]
fn remapping_records_the_candidate_only_for_an_unknown_identifier() {
    let mut refresher = MappingIdRefresher::default();
    let first = refresher.remap_clip_id(ClipId::from_u128(1), ClipId::from_u128(10));
    assert_eq!(first, ClipId::from_u128(10));
    let second = refresher.remap_clip_id(ClipId::from_u128(1), ClipId::from_u128(11));
    assert_eq!(second, ClipId::from_u128(10));
    let third = refresher.remap_clip_id(ClipId::from_u128(2), ClipId::from_u128(10));
    assert_eq!(third, ClipId::from_u128(10));
    let mut expected = HashMap::new();
    expected.insert(1u128, 10u128);
    expected.insert(2u128, 10u128);
    assert_eq!(refresher.clip_id_mapping(), &expected);
    assert!(refresher.marker_mapping().is_empty());

    let marker = refresher.remap_marker(Marker::from_u128(1), Marker::from_u128(20));
    assert_eq!(marker, Marker::from_u128(20));
    let again = refresher.remap_marker(Marker::from_u128(1), Marker::from_u128(21));
    assert_eq!(again, Marker::from_u128(20));
    let mut expected_markers = HashMap::new();
    expected_markers.insert(1u128, 20u128);
    assert_eq!(refresher.marker_mapping(), &expected_markers);
    assert_eq!(refresher.clip_id_mapping(), &expected);
}

#[test]
fn a_refresher_asked_directly_draws_once_per_identifier() {
    let mut refresher = DefaultIdRefresher::default();
    let first = refresher.refresh_clip_id(0, ClipId::from_u128(1)).ok().expect("cannot fail");
    assert_ne!(first, ClipId::from_u128(1));
    assert!(has_version_four_bits(first.as_u128()));
    let again = refresher.refresh_clip_id(3, ClipId::from_u128(1)).ok().expect("cannot fail");
    assert_eq!(again, first);
    let other = refresher.refresh_clip_id(0, ClipId::from_u128(2)).ok().expect("cannot fail");
    assert_ne!(other, first);

    let marker = refresher
        .refresh_marker(ClipId::from_u128(1), 0, Marker::from_u128(1))
        .ok()
        .expect("cannot fail");
    assert!(has_version_four_bits(marker.as_u128()));
    // The clip and the frame do not matter to the answer.
    let elsewhere = refresher
        .refresh_marker(ClipId::from_u128(2), 9, Marker::from_u128(1))
        .ok()
        .expect("cannot fail");
    assert_eq!(elsewhere, marker);
    // Clip identifiers and markers are recorded apart, even under equal values.
    assert_ne!(marker.as_u128(), first.as_u128());
    assert_eq!(refresher.clip_id_mapping().len(), 2);
    assert_eq!(refresher.marker_mapping().len(), 1);
}

#[test]
fn a_refresher_starts_from_the_tables_it_is_given_and_gives_them_back() {
    let mut clip_table = HashMap::new();
    clip_table.insert(1u128, 2u128);
    let mut marker_table = HashMap::new();
    marker_table.insert(3u128, 4u128);
    marker_table.insert(5u128, 6u128);
    let refresher = MappingIdRefresher::new(clip_table.clone(), marker_table.clone());
    assert_eq!(refresher.clip_id_mapping(), &clip_table);
    assert_eq!(refresher.marker_mapping(), &marker_table);
    assert_eq!(refresher.mapped_clip_id(ClipId::from_u128(1)), Some(ClipId::from_u128(2)));
    assert_eq!(refresher.mapped_marker(Marker::from_u128(5)), Some(Marker::from_u128(6)));
    assert_eq!(refresher.into_inner(), (clip_table, marker_table));
}

#[test]
fn a_default_refresher_starts_empty() {
    let refresher = MappingIdRefresher::default();
    assert!(refresher.clip_id_mapping().is_empty());
    assert!(refresher.marker_mapping().is_empty());
}

#[test]
fn tables_recorded_in_advance_may_give_one_identifier_to_two() {
    let mut seeded = HashMap::new();
    seeded.insert(M1, 0x4b);
    seeded.insert(M2, 0x4b);
    let mut refresher = MappingIdRefresher::new(HashMap::new(), seeded);
    let mut animation = animation_of(vec![clip_with(C1, vec![frame_with(0, &[M1, M2])])]);
    assert!(animation.refresh_ids(&mut refresher).is_ok());
    assert_eq!(markers(&animation), vec![vec![vec![0x4b, 0x4b]]]);
}
