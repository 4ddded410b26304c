use alass_util::VoiceActivity;

fn track(text: &str) -> Vec<bool> {
    text.chars().map(|c| c == '#').collect()
}

fn activity(text: &str) -> VoiceActivity {
    VoiceActivity { data: track(text), chunk_millis: 30 }
}

#[test]
fn clean_with_zero_radii_copies_the_track() {
    let given = activity("#.##..#");
    let cleaned = given.clean(0, 0);
    assert_eq!(cleaned.data, track("#.##..#"));
    assert_eq!(cleaned.chunk_millis, 30);
    assert_eq!(given.data, track("#.##..#"));
}

#[test]
fn clean_removes_noise_at_the_ends_too() {
    // The track is taken to lie in silence, so a short run at an end goes as well.
    assert_eq!(activity("#...###...#").clean(1, 0).data, track("....###...."));
    assert_eq!(activity("##..###..##").clean(1, 0).data, track("....###...."));
    assert_eq!(activity("###.###.###").clean(1, 0).data, track("###.###.###"));
}

#[test]
fn clean_fills_gaps() {
    assert_eq!(activity("..###.###..").clean(0, 1).data, track("..#######.."));
    assert_eq!(activity("..###..###..").clean(0, 1).data, track("..########.."));
    assert_eq!(activity("..###...###..").clean(0, 1).data, track("..###...###.."));
    assert_eq!(activity("..###..#..###..").clean(0, 2).data, track("..###########.."));
}

#[test]
fn clean_takes_the_track_to_lie_in_silence() {
    // Activity closer to an end than the closing radius borders on the silence around the
    // track and is worn away.
    assert_eq!(activity("###.###..###").clean(0, 1).data, track(".##########."));
    assert_eq!(activity("###.###..###").clean(0, 2).data, track("..########.."));
    assert_eq!(activity(".###.###.").clean(0, 1).data, track(".#######."));
}

#[test]
fn clean_opens_before_it_closes() {
    // The stray frame is removed first; the gap it stood in is then too wide to fill.
    assert_eq!(activity("..###..#..###..").clean(1, 1).data, track("..###.....###.."));
    // Closing alone would have bridged it.
    assert_eq!(activity("..###..#..###..").clean(0, 1).data, track("..###########.."));
    assert_eq!(activity("..###.#.###..").clean(0, 1).data, track("..#########.."));
    assert_eq!(activity("..###.#.###..").clean(1, 1).data, track("..###...###.."));
    assert_eq!(activity("..###..#..###..").clean(1, 2).data, track("..###.....###.."));
}

#[test]
fn clean_keeps_length_and_duration() {
    let given = VoiceActivity { data: track("#.#.#.#.#"), chunk_millis: 96 };
    for opening in 0..4 {
        for closing in 0..4 {
            let cleaned = given.clean(opening, closing);
            assert_eq!(cleaned.data.len(), 9);
            assert_eq!(cleaned.chunk_millis, 96);
        }
    }
}

#[test]
fn clean_keeps_silence() {
    let cleaned = activity(".......").clean(2, 3);
    assert_eq!(cleaned.data, track("......."));
    assert_eq!(VoiceActivity { data: vec![], chunk_millis: 30 }.clean(2, 3).data, Vec::<bool>::new());
}
