use iyon_tui::tracks::{allocate_tracks, TrackAllocation, TrackSize};

#[test]
fn fixed_and_flex_tracks_share_a_bounded_column() {
    let tracks = [TrackSize::Fixed(2), TrackSize::Flex { min: 0 }, TrackSize::Flex { min: 0 }, TrackSize::Fixed(1)];
    let allocation = allocate_tracks(10, 0, &tracks, |_, _| 0);
    assert_eq!(allocation, TrackAllocation { tracks: vec![2, 4, 3, 1], gap: 0 });
}

#[test]
fn gaps_are_shrunk_to_fit_and_taken_before_tracks() {
    let tracks = [TrackSize::Fixed(3), TrackSize::Fixed(3), TrackSize::Fixed(3)];
    let allocation = allocate_tracks(8, 5, &tracks, |_, _| 0);
    assert_eq!(allocation.gap, 4);
    assert_eq!(allocation.tracks, vec![0, 0, 0]);
    let allocation = allocate_tracks(11, 1, &tracks, |_, _| 0);
    assert_eq!(allocation, TrackAllocation { tracks: vec![3, 3, 3], gap: 1 });
}

#[test]
fn content_tracks_are_measured_with_the_space_left_and_capped() {
    let tracks = [TrackSize::Fixed(4), TrackSize::Content { max: Some(3) }, TrackSize::Content { max: None }];
    let allocation = allocate_tracks(10, 0, &tracks, |index, remaining| if index == 1 { 5 } else { remaining });
    assert_eq!(allocation.tracks, vec![4, 3, 3]);
}

#[test]
fn capped_flex_tracks_give_their_share_to_the_others() {
    let tracks = [TrackSize::FlexMax { min: 1, max: 2 }, TrackSize::Flex { min: 0 }];
    let allocation = allocate_tracks(9, 0, &tracks, |_, _| 0);
    assert_eq!(allocation.tracks, vec![2, 7]);
}

#[test]
fn all_capped_flex_tracks_leave_space_unused() {
    let tracks = [TrackSize::FlexMax { min: 0, max: 2 }, TrackSize::FlexMax { min: 1, max: 3 }];
    let allocation = allocate_tracks(20, 0, &tracks, |_, _| 0);
    assert_eq!(allocation.tracks, vec![2, 3]);
}

#[test]
fn no_tracks_get_no_gap() {
    let allocation = allocate_tracks(10, 3, &[], |_, _| 0);
    assert_eq!(allocation, TrackAllocation { tracks: vec![], gap: 0 });
}
