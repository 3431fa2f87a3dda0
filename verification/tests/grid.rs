use k2f_layout::grid::{grid_axis_gaps, resolve_tracks, resolve_tracks_with_intrinsics, sum_prefix, sum_with_gaps};
use k2f_layout::model::GridTrack;
use k2f_layout::pt::Pt;

#[test]
fn overflowing_auto_tracks_shrink_to_available() {
    let tracks = vec![GridTrack::Auto { auto: true }, GridTrack::Auto { auto: true }];
    let out = resolve_tracks_with_intrinsics(&tracks, Pt(1000), Pt(100_000), &[Pt(80_000), Pt(80_000)]).unwrap();
    assert_eq!(out, vec![Pt(49_500), Pt(49_500)]);
    assert_eq!(sum_with_gaps(&out, Pt(1000)), Pt(100_000));
}

#[test]
fn auto_that_fits_is_unchanged_and_leftover_goes_to_fr() {
    let tracks = vec![GridTrack::Fr { fr: 1 }, GridTrack::Auto { auto: true }];
    let out = resolve_tracks_with_intrinsics(&tracks, Pt(0), Pt(100_000), &[Pt(0), Pt(30_000)]).unwrap();
    assert_eq!(out, vec![Pt(70_000), Pt(30_000)]);
}

#[test]
fn unbounded_available_does_not_shrink_auto() {
    let tracks = vec![GridTrack::Auto { auto: true }, GridTrack::Auto { auto: true }];
    let out = resolve_tracks_with_intrinsics(&tracks, Pt(0), Pt(i128::MAX), &[Pt(80_000), Pt(80_000)]).unwrap();
    assert_eq!(out, vec![Pt(80_000), Pt(80_000)]);
}

#[test]
fn test_grid_fr_remainder_distribution_is_stable() {
    let tracks = vec![GridTrack::Fr { fr: 1 }, GridTrack::Fr { fr: 1 }, GridTrack::Fr { fr: 1 }];

    // 10 units, 3 tracks -> 3,3,3 remainder 1 -> earliest fr gets +1
    let out = resolve_tracks(&tracks, Pt(0), Pt(10)).unwrap();
    assert_eq!(out, vec![Pt(4), Pt(3), Pt(3)]);

    // Same, but with gaps: available includes gaps, so only (10 - 2*1)=8 to distribute.
    let out_with_gaps = resolve_tracks(&tracks, Pt(1), Pt(10)).unwrap();
    assert_eq!(out_with_gaps, vec![Pt(3), Pt(3), Pt(2)]);
}

#[test]
fn test_resolve_tracks_rejects_auto_without_intrinsics() {
    let err = resolve_tracks(&[GridTrack::Auto { auto: true }], Pt(0), Pt(100)).unwrap_err();
    assert!(err.contains("auto"));
}

#[test]
fn column_widths_sum_to_content_width() {
    let gap = Pt(10_000);
    let available = Pt(180_000);
    let tracks = vec![GridTrack::Fr { fr: 1 }, GridTrack::Fr { fr: 1 }];
    let widths = resolve_tracks(&tracks, gap, available).unwrap();
    assert_eq!(widths.len(), 2);
    assert_eq!(Pt(widths[0].0 + widths[1].0 + gap.0), available);
}

#[test]
fn fr_tracks_fill_available_with_mixed_tracks() {
    // pt 10000 + fr 1 + fr 2 over 100000 with gap 500: fr space = 100000 - 1000 - 10000 = 89000.
    let tracks = vec![GridTrack::Pt { pt: 10_000 }, GridTrack::Fr { fr: 1 }, GridTrack::Fr { fr: 2 }];
    let out = resolve_tracks(&tracks, Pt(500), Pt(100_000)).unwrap();
    assert_eq!(out, vec![Pt(10_000), Pt(29_667), Pt(59_333)]);
    assert_eq!(sum_with_gaps(&out, Pt(500)), Pt(100_000));
}

#[test]
fn fr_with_infinite_available_is_rejected() {
    let tracks = vec![GridTrack::Fr { fr: 1 }];
    let err = resolve_tracks(&tracks, Pt(0), Pt(i128::MAX)).unwrap_err();
    assert!(err.contains("infinite"));
}

#[test]
fn auto_false_track_is_rejected() {
    let tracks = vec![GridTrack::Auto { auto: false }];
    assert!(resolve_tracks_with_intrinsics(&tracks, Pt(0), Pt(100), &[Pt(10)]).is_err());
}

#[test]
fn empty_tracks_resolve_to_nothing() {
    assert_eq!(resolve_tracks(&[], Pt(5), Pt(100)).unwrap(), vec![]);
}

#[test]
fn shrunk_autos_give_the_rounding_leftover_to_the_last_auto() {
    // room = 10 - 1 = 9; autos 10 and 20 share: 10*9/30 = 3, 20*9/30 = 6 -> exact.
    // room 10 with autos 7,7: 7*10/14 = 5, 5 -> exact; use 3 autos of 10 over room 10: 3,3,3+1.
    let tracks = vec![GridTrack::Auto { auto: true }, GridTrack::Auto { auto: true }, GridTrack::Auto { auto: true }];
    let out = resolve_tracks_with_intrinsics(&tracks, Pt(0), Pt(10), &[Pt(10), Pt(10), Pt(10)]).unwrap();
    assert_eq!(out, vec![Pt(3), Pt(3), Pt(4)]);
}

#[test]
fn axis_gaps_fall_back_to_gap() {
    assert_eq!(grid_axis_gaps(7, None, Some(3)), (Pt(7), Pt(3)));
    assert_eq!(grid_axis_gaps(7, Some(1), None), (Pt(1), Pt(7)));
}

#[test]
fn prefix_sums_include_a_gap_after_each_track() {
    let items = vec![Pt(10), Pt(20), Pt(30)];
    assert_eq!(sum_prefix(&items, 0, Pt(5)), Pt(0));
    assert_eq!(sum_prefix(&items, 2, Pt(5)), Pt(40));
    assert_eq!(sum_with_gaps(&items, Pt(5)), Pt(70));
    assert_eq!(sum_with_gaps(&items, Pt(0)), Pt(60));
}
