use canicasbrawl::voice_tracker::{
    clean_ghost_segments, save_voice_tracker_on_exit, track_race_leader, RaceSegment,
    VoiceTracker, GHOST_MAX_MICROS, INTRO_MICROS,
};

fn seg(leader: &str, start: u64, end: u64) -> RaceSegment {
    RaceSegment { leader: leader.to_string(), start_micros: start, end_micros: end }
}

fn view(v: &[RaceSegment]) -> Vec<(String, u64, u64)> {
    v.iter().map(|s| (s.leader.clone(), s.start_micros, s.end_micros)).collect()
}

fn own(v: &[(&str, u64, u64)]) -> Vec<(String, u64, u64)> {
    v.iter().map(|(l, a, b)| (l.to_string(), *a, *b)).collect()
}

#[test]
fn ghosts_at_the_start_go_to_the_first_real_leader() {
    let input = vec![seg("A", 0, 20_000), seg("B", 20_000, 50_000), seg("C", 50_000, 900_000)];
    let out = clean_ghost_segments(input, GHOST_MAX_MICROS, INTRO_MICROS);
    assert_eq!(view(&out), own(&[("C", 0, 900_000)]));
}

#[test]
fn a_ghost_after_a_lead_extends_it() {
    let input = vec![
        seg("A", 0, 500_000),
        seg("B", 500_000, 550_000),
        seg("A", 550_000, 3_000_000),
        seg("C", 3_000_000, 3_010_000),
    ];
    let out = clean_ghost_segments(input, GHOST_MAX_MICROS, INTRO_MICROS);
    // B is a ghost during the intro; A swallows it; C is short but past the intro.
    assert_eq!(view(&out), own(&[("A", 0, 3_000_000), ("C", 3_000_000, 3_010_000)]));
}

#[test]
fn only_ghosts_leave_nothing() {
    let input = vec![seg("A", 0, 10), seg("B", 10, 20)];
    assert!(clean_ghost_segments(input, GHOST_MAX_MICROS, INTRO_MICROS).is_empty());
}

#[test]
fn clean_tracks_are_unchanged() {
    let input = vec![seg("A", 0, 2_500_000), seg("B", 2_500_000, 2_600_000), seg("A", 2_600_000, 9_000_000)];
    let expected = view(&input);
    assert_eq!(view(&clean_ghost_segments(input, GHOST_MAX_MICROS, INTRO_MICROS)), expected);
}

#[test]
fn reversed_times_count_as_short() {
    let input = vec![seg("A", 0, 1_000_000), seg("B", 1_000_000, 500_000)];
    let out = clean_ghost_segments(input, GHOST_MAX_MICROS, INTRO_MICROS);
    assert_eq!(view(&out), own(&[("A", 0, 500_000)]));
}

#[test]
fn tracker_records_leader_changes() {
    let mut t = VoiceTracker::new();
    track_race_leader(&mut t, "Finn", 0);
    track_race_leader(&mut t, "Finn", 100);
    track_race_leader(&mut t, "Bart", 3_000_000);
    track_race_leader(&mut t, "Finn", 5_000_000);
    assert_eq!(view(t.segments()), own(&[("Finn", 0, 3_000_000), ("Bart", 3_000_000, 5_000_000)]));
    let out = save_voice_tracker_on_exit(&mut t, 7_000_000);
    assert_eq!(
        view(&out),
        own(&[("Finn", 0, 3_000_000), ("Bart", 3_000_000, 5_000_000), ("Finn", 5_000_000, 7_000_000)])
    );
    assert!(t.segments().is_empty());
}

#[test]
fn saving_an_empty_tracker_gives_nothing() {
    let mut t = VoiceTracker::new();
    assert!(save_voice_tracker_on_exit(&mut t, 10).is_empty());
}

#[test]
fn cleaned_leaders_are_the_real_leaders_without_repeats() {
    let input = vec![
        seg("A", 0, 300_000),
        seg("B", 300_000, 310_000),
        seg("A", 310_000, 700_000),
        seg("C", 700_000, 1_500_000),
        seg("C", 1_500_000, 1_600_000),
        seg("D", 1_600_000, 1_650_000),
        seg("C", 1_650_000, 2_500_000),
    ];
    let out = clean_ghost_segments(input, GHOST_MAX_MICROS, INTRO_MICROS);
    let leaders: Vec<String> = out.iter().map(|s| s.leader.clone()).collect();
    assert_eq!(leaders, vec!["A", "C"]);
}
