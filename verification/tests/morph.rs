use alass_util::morph::{morph_closing, morph_dilation, morph_erosion, morph_opening};

fn track(text: &str) -> Vec<bool> {
    text.chars().map(|c| c == '#').collect()
}

fn inverted(data: &[bool]) -> Vec<bool> {
    data.iter().map(|b| !b).collect()
}

#[test]
fn erosion_keeps_only_full_windows() {
    assert_eq!(morph_erosion(&track("..###.#.."), 1), track("...#....."));
    assert_eq!(morph_erosion(&track("..#####.."), 2), track("....#...."));
    assert_eq!(morph_erosion(&track("#########"), 3), track("#########"));
}

#[test]
fn dilation_spreads_into_full_windows() {
    assert_eq!(morph_dilation(&track("....#...."), 1), track("...###..."));
    assert_eq!(morph_dilation(&track("....#...."), 2), track("..#####.."));
    assert_eq!(morph_dilation(&track("........."), 4), track("........."));
}

#[test]
fn edges_are_left_unchanged() {
    // Positions closer than the radius to an end have no full window.
    assert_eq!(morph_erosion(&track("#...#"), 1), track("#...#"));
    assert_eq!(morph_erosion(&track(".#####..."), 2), track(".#.#....."));
    assert_eq!(morph_erosion(&track("##.##"), 2), track("##.##"));
    assert_eq!(morph_dilation(&track(".#..."), 2), track(".##.."));
    assert_eq!(morph_dilation(&track("#...."), 1), track("##..."));
}

#[test]
fn radius_zero_changes_nothing() {
    let data = track("#.##..#");
    assert_eq!(morph_erosion(&data, 0), data);
    assert_eq!(morph_dilation(&data, 0), data);
    assert_eq!(morph_opening(&data, 0), data);
    assert_eq!(morph_closing(&data, 0), data);
}

#[test]
fn radius_beyond_the_track_changes_nothing() {
    let data = track("#.#");
    assert_eq!(morph_erosion(&data, 2), data);
    assert_eq!(morph_dilation(&data, 2), data);
    assert_eq!(morph_erosion(&data, 4), data);
    assert_eq!(morph_dilation(&data, 4), data);
    assert_eq!(morph_opening(&data, usize::MAX), data);
    assert_eq!(morph_closing(&data, usize::MAX), data);
}

#[test]
fn empty_track_stays_empty() {
    assert_eq!(morph_erosion(&[], 0), Vec::<bool>::new());
    assert_eq!(morph_dilation(&[], 3), Vec::<bool>::new());
    assert_eq!(morph_opening(&[], 1), Vec::<bool>::new());
    assert_eq!(morph_closing(&[], 1), Vec::<bool>::new());
}

#[test]
fn opening_removes_short_runs() {
    assert_eq!(morph_opening(&track("..#..###..##.."), 1), track(".....###......"));
    assert_eq!(morph_opening(&track("...####....#####..."), 2), track("...........#####..."));
}

#[test]
fn closing_fills_short_gaps() {
    assert_eq!(morph_closing(&track("..###..###...."), 1), track("..########...."));
    assert_eq!(morph_closing(&track("..###...###..."), 1), track("..###...###..."));
    // Dilation does not reach the positions next to the ends, so erosion takes the
    // activity next to them away.
    assert_eq!(morph_closing(&track(".###.###..###."), 1), track("..##########.."));
    assert_eq!(morph_closing(&track("..###..###...."), 2), track("....######...."));
}

#[test]
fn opening_is_dilation_of_erosion() {
    let data = track("#..##.###.####..#.#");
    for radius in 0..5 {
        let eroded = morph_erosion(&data, radius);
        assert_eq!(morph_opening(&data, radius), morph_dilation(&eroded, radius));
        let dilated = morph_dilation(&data, radius);
        assert_eq!(morph_closing(&data, radius), morph_erosion(&dilated, radius));
    }
}

#[test]
fn erosion_and_dilation_are_dual() {
    let data = track("#..##.###.####..#.#...##");
    for radius in 0..6 {
        assert_eq!(
            morph_dilation(&data, radius),
            inverted(&morph_erosion(&inverted(&data), radius))
        );
        assert_eq!(
            morph_closing(&data, radius),
            inverted(&morph_opening(&inverted(&data), radius))
        );
    }
}

#[test]
fn silence_is_left_as_it_is() {
    for len in 0..12 {
        let data = vec![false; len];
        for radius in 0..5 {
            assert_eq!(morph_opening(&data, radius), data);
            assert_eq!(morph_closing(&data, radius), data);
        }
    }
}
