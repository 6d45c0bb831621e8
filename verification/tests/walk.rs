use spritesheet_animation::animation::{
    Animation, AnimationDirection, AnimationDuration, AnimationRepeat,
};
use spritesheet_animation::clip::{Clip, ClipId, Frame};
use spritesheet_animation::easing::{Easing, EasingVariety};
use spritesheet_animation::events::Marker;
use spritesheet_animation::id_refreshing::IdRefresher;

#[derive(Debug, Clone, PartialEq, Eq)]
enum Call {
    ClipId { index: usize, clip_id: u128 },
    Marker { clip_id: u128, frame: usize, marker: u128 },
}

/// Answers every identifier with its value plus `shift` and keeps a record
/// of the calls; fails with the number of the call on call number `fail_at`.
struct Recorder {
    shift: u128,
    fail_at: Option<usize>,
    calls: Vec<Call>,
}

impl Recorder {
    fn new(shift: u128) -> Self {
        Recorder { shift, fail_at: None, calls: Vec::new() }
    }

    fn failing_at(shift: u128, call: usize) -> Self {
        Recorder { shift, fail_at: Some(call), calls: Vec::new() }
    }
}

impl IdRefresher for Recorder {
    type Error = usize;

    fn refresh_clip_id(&mut self, index: usize, clip_id: ClipId) -> Result<ClipId, usize> {
        let number = self.calls.len();
        self.calls.push(Call::ClipId { index, clip_id: clip_id.as_u128() });
        if self.fail_at == Some(number) {
            return Err(number);
        }
        Ok(ClipId::from_u128(clip_id.as_u128() + self.shift))
    }

    fn refresh_marker(&mut self, clip_id: ClipId, frame: usize, marker: Marker) -> Result<Marker, usize> {
        let number = self.calls.len();
        self.calls.push(Call::Marker {
            clip_id: clip_id.as_u128(),
            frame,
            marker: marker.as_u128(),
        });
        if self.fail_at == Some(number) {
            return Err(number);
        }
        Ok(Marker::from_u128(marker.as_u128() + self.shift))
    }
}

fn frame(atlas_index: usize, markers: &[u128]) -> Frame {
    let mut frame = Frame::new(atlas_index);
    for value in markers {
        assert!(frame.add_marker(Marker::from_u128(*value)));
    }
    frame
}

fn clip(id: u128, frames: Vec<Frame>) -> Clip {
    Clip::new(ClipId::from_u128(id), frames, None, None, None, None)
}

fn animation(clips: Vec<Clip>) -> Animation {
    Animation::new(clips, None, None, None, None).expect("at least one clip")
}

/// The identifiers of an animation, clip by clip: the clip's identifier and,
/// frame by frame, the markers.
fn identifiers(animation: &Animation) -> Vec<(u128, Vec<Vec<u128>>)> {
    animation
        .clips()
        .iter()
        .map(|clip| {
            let frames = clip
                .frames()
                .iter()
                .map(|frame| frame.markers().iter().map(|marker| marker.as_u128()).collect())
                .collect();
            (clip.id().as_u128(), frames)
        })
        .collect()
}

/// Three clips: the first with markers on two of three frames, the second
/// without frames, the third with one frame.
fn three_clips() -> Animation {
    animation(vec![
        clip(10, vec![frame(0, &[1, 2]), frame(1, &[]), frame(2, &[3])]),
        clip(20, vec![]),
        clip(30, vec![frame(7, &[1])]),
    ])
}

#[test]
fn calls_come_in_walking_order_with_positions_and_old_clip_ids() {
    let mut animation = three_clips();
    let mut recorder = Recorder::new(100);
    assert_eq!(animation.refresh_ids(&mut recorder), Ok(()));
    assert_eq!(
        recorder.calls,
        vec![
            Call::ClipId { index: 0, clip_id: 10 },
            Call::Marker { clip_id: 10, frame: 0, marker: 1 },
            Call::Marker { clip_id: 10, frame: 0, marker: 2 },
            Call::Marker { clip_id: 10, frame: 2, marker: 3 },
            Call::ClipId { index: 1, clip_id: 20 },
            Call::ClipId { index: 2, clip_id: 30 },
            Call::Marker { clip_id: 30, frame: 0, marker: 1 },
        ]
    );
}

#[test]
fn every_identifier_is_replaced_by_its_answer() {
    let mut animation = three_clips();
    let mut recorder = Recorder::new(100);
    assert_eq!(animation.refresh_ids(&mut recorder), Ok(()));
    assert_eq!(
        identifiers(&animation),
        vec![
            (110, vec![vec![101, 102], vec![], vec![103]]),
            (120, vec![]),
            (130, vec![vec![101]]),
        ]
    );
}

#[test]
fn a_walk_changes_nothing_but_identifiers() {
    let first = Clip::new(
        ClipId::from_u128(1),
        vec![frame(4, &[9]), frame(5, &[])],
        Some(AnimationDuration::PerRepetition(2000)),
        Some(AnimationRepeat::Times(10)),
        Some(AnimationDirection::PingPong),
        Some(Easing::In(EasingVariety::Quadratic)),
    );
    let mut animation = Animation::new(
        vec![first],
        Some(AnimationDuration::PerFrame(50)),
        Some(AnimationRepeat::Loop),
        Some(AnimationDirection::Backwards),
        Some(Easing::Linear),
    )
    .expect("one clip");
    let mut recorder = Recorder::new(1);
    assert_eq!(animation.refresh_ids(&mut recorder), Ok(()));
    assert_eq!(animation.duration(), &Some(AnimationDuration::PerFrame(50)));
    assert_eq!(animation.repetitions(), &Some(AnimationRepeat::Loop));
    assert_eq!(animation.direction(), &Some(AnimationDirection::Backwards));
    assert_eq!(animation.easing(), &Some(Easing::Linear));
    let clip = &animation.clips()[0];
    assert_eq!(clip.duration(), &Some(AnimationDuration::PerRepetition(2000)));
    assert_eq!(clip.repetitions(), &Some(AnimationRepeat::Times(10)));
    assert_eq!(clip.direction(), &Some(AnimationDirection::PingPong));
    assert_eq!(clip.easing(), &Some(Easing::In(EasingVariety::Quadratic)));
    assert_eq!(clip.frames().len(), 2);
    assert_eq!(clip.frames()[0].atlas_index(), 4);
    assert_eq!(clip.frames()[1].atlas_index(), 5);
    assert_eq!(identifiers(&animation), vec![(2, vec![vec![10], vec![]])]);
}

#[test]
fn failure_on_the_second_clip_id_keeps_the_first_clip_and_leaves_the_rest() {
    let mut animation = three_clips();
    // Calls 0 to 3 belong to the first clip; call 4 asks for the second clip's identifier.
    let mut recorder = Recorder::failing_at(100, 4);
    assert_eq!(animation.refresh_ids(&mut recorder), Err(4));
    assert_eq!(
        identifiers(&animation),
        vec![
            (110, vec![vec![101, 102], vec![], vec![103]]),
            (20, vec![]),
            (30, vec![vec![1]]),
        ]
    );
    assert_eq!(recorder.calls.len(), 5);
    assert_eq!(recorder.calls[4], Call::ClipId { index: 1, clip_id: 20 });
}

#[test]
fn failure_on_a_marker_keeps_what_was_answered_before_it() {
    let mut animation = three_clips();
    // Call 2 asks for the second marker of the first frame of the first clip.
    let mut recorder = Recorder::failing_at(100, 2);
    assert_eq!(animation.refresh_ids(&mut recorder), Err(2));
    assert_eq!(
        identifiers(&animation),
        vec![
            (110, vec![vec![101, 2], vec![], vec![3]]),
            (20, vec![]),
            (30, vec![vec![1]]),
        ]
    );
    assert_eq!(recorder.calls.len(), 3);
}

#[test]
fn failure_on_the_first_call_changes_nothing() {
    let mut animation = three_clips();
    let untouched = identifiers(&animation);
    let mut recorder = Recorder::failing_at(100, 0);
    assert_eq!(animation.refresh_ids(&mut recorder), Err(0));
    assert_eq!(identifiers(&animation), untouched);
    assert_eq!(recorder.calls, vec![Call::ClipId { index: 0, clip_id: 10 }]);
}

#[test]
fn failure_on_the_last_call_keeps_all_answers_but_that_one() {
    let mut animation = three_clips();
    let mut recorder = Recorder::failing_at(100, 6);
    assert_eq!(animation.refresh_ids(&mut recorder), Err(6));
    assert_eq!(
        identifiers(&animation),
        vec![
            (110, vec![vec![101, 102], vec![], vec![103]]),
            (120, vec![]),
            (130, vec![vec![1]]),
        ]
    );
}

#[test]
fn a_clip_walks_its_frames_under_the_id_it_came_with() {
    let mut clip = clip(10, vec![frame(0, &[1]), frame(1, &[2, 3])]);
    let mut recorder = Recorder::new(5);
    assert_eq!(clip.refresh_ids(4, &mut recorder), Ok(()));
    assert_eq!(
        recorder.calls,
        vec![
            Call::ClipId { index: 4, clip_id: 10 },
            Call::Marker { clip_id: 10, frame: 0, marker: 1 },
            Call::Marker { clip_id: 10, frame: 1, marker: 2 },
            Call::Marker { clip_id: 10, frame: 1, marker: 3 },
        ]
    );
    assert_eq!(clip.id().as_u128(), 15);
    assert_eq!(clip.frames()[1].markers()[1].as_u128(), 8);
}

#[test]
fn a_frame_asks_for_its_markers_in_order() {
    let mut frame = frame(3, &[7, 5, 6]);
    let mut recorder = Recorder::new(1);
    assert_eq!(frame.refresh_markers(ClipId::from_u128(9), 2, &mut recorder), Ok(()));
    assert_eq!(
        recorder.calls,
        vec![
            Call::Marker { clip_id: 9, frame: 2, marker: 7 },
            Call::Marker { clip_id: 9, frame: 2, marker: 5 },
            Call::Marker { clip_id: 9, frame: 2, marker: 6 },
        ]
    );
    let markers: Vec<u128> = frame.markers().iter().map(|marker| marker.as_u128()).collect();
    assert_eq!(markers, vec![8, 6, 7]);
    assert_eq!(frame.atlas_index(), 3);
}

#[test]
fn a_frame_without_markers_asks_nothing() {
    let mut frame = Frame::new(3);
    let mut recorder = Recorder::new(1);
    assert_eq!(frame.refresh_markers(ClipId::from_u128(7), 0, &mut recorder), Ok(()));
    assert!(recorder.calls.is_empty());
}

#[test]
fn the_empty_animation_asks_for_one_clip_id_only() {
    let mut animation = Animation::empty();
    let old_id = animation.clips()[0].id().as_u128();
    let mut recorder = Recorder::new(0);
    assert_eq!(animation.refresh_ids(&mut recorder), Ok(()));
    assert_eq!(recorder.calls, vec![Call::ClipId { index: 0, clip_id: old_id }]);
}

#[test]
fn refreshing_a_copy_leaves_the_copied_animation_alone() {
    let kept = three_clips();
    let mut copy = kept.clone();
    assert_eq!(identifiers(&copy), identifiers(&kept));
    let mut recorder = Recorder::failing_at(100, 5);
    assert_eq!(copy.refresh_ids(&mut recorder), Err(5));
    assert_eq!(
        identifiers(&kept),
        vec![
            (10, vec![vec![1, 2], vec![], vec![3]]),
            (20, vec![]),
            (30, vec![vec![1]]),
        ]
    );
    assert_eq!(identifiers(&copy)[0].0, 110);
}
