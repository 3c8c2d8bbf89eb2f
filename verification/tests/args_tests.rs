use canicasbrawl::args::{
    has_arg, parse_characters, parse_command, parse_palette, parse_roster_spec, parse_seed,
    random_seed, seed_from_args, seed_from_nanos, Command, CommandError, PaletteName, RosterFlagConflict, RosterSpec, SimulationMode,
};

fn args(list: &[&str]) -> Vec<String> {
    list.iter().map(|a| a.to_string()).collect()
}

#[test]
fn seed_flag_fixes_the_seed() {
    let a = args(&["game", "--seed", "12345"]);
    assert_eq!(seed_from_args(&a), Some(12345));
    assert_eq!(parse_seed(&a), Some(12345));
}

#[test]
fn unreadable_or_missing_seed_comes_from_the_clock() {
    assert_eq!(seed_from_args(&args(&["game", "--seed", "abc"])), None);
    assert_eq!(seed_from_args(&args(&["game", "--seed"])), None);
    assert_eq!(seed_from_args(&args(&["game"])), None);
    assert_eq!(seed_from_args(&args(&["game", "--seed", "-5"])), None);
}

#[test]
fn only_the_first_seed_flag_counts() {
    let a = args(&["game", "--seed", "x", "--seed", "7"]);
    assert_eq!(seed_from_args(&a), None);
}

#[test]
fn palette_flags() {
    assert_eq!(parse_palette(&args(&["game"])), PaletteName::Azul);
    assert_eq!(parse_palette(&args(&["game", "--rosa"])), PaletteName::Rosa);
    assert_eq!(parse_palette(&args(&["game", "--neon"])), PaletteName::Neon);
    assert_eq!(parse_palette(&args(&["game", "--rosa", "--neon"])), PaletteName::Neon);
}

#[test]
fn characters_are_split_and_trimmed() {
    let a = args(&["game", "--characters", "goku, bart ,finn"]);
    assert_eq!(parse_characters(&a), Some(args(&["goku", "bart", "finn"])));
    assert_eq!(parse_characters(&args(&["game", "--characters"])), None);
    assert_eq!(parse_characters(&args(&["game"])), None);
    assert_eq!(parse_characters(&args(&["game", "--characters", ""])), Some(args(&[""])));
}

#[test]
fn roster_spec_from_flags() {
    assert!(matches!(parse_roster_spec(&args(&["game"])), Ok(RosterSpec::Default)));
    assert!(matches!(parse_roster_spec(&args(&["game", "--slots", "5"])), Ok(RosterSpec::Slots(5))));
    match parse_roster_spec(&args(&["game", "--characters", "goku,bart"])) {
        Ok(RosterSpec::Characters(names)) => assert_eq!(names, args(&["goku", "bart"])),
        _ => panic!("expected characters"),
    }
    assert!(matches!(parse_roster_spec(&args(&["game", "--slots", "many"])), Ok(RosterSpec::Default)));
}

#[test]
fn slots_and_characters_exclude_each_other() {
    let a = args(&["game", "--slots", "3", "--characters", "goku"]);
    assert!(parse_roster_spec(&a).is_err());
    assert!(matches!(
        parse_command(&a),
        Err(CommandError::RosterFlagConflict(RosterFlagConflict))
    ));
}

#[test]
fn process_modules_wins() {
    let a = args(&["game", "--preprocess", "--process-modules", "--slots", "3", "--characters", "x"]);
    assert!(matches!(parse_command(&a), Ok(Command::BuildModules)));
    assert!(matches!(parse_command(&args(&["game", "--preprocess"])), Ok(Command::PreprocessConcaveColliders)));
}

#[test]
fn simulation_command() {
    let a = args(&["game", "--sim-raw", "--seed", "9", "--slots", "4", "--rosa"]);
    match parse_command(&a) {
        Ok(Command::Simulation(mode, seed, RosterSpec::Slots(4), palette)) => {
            assert_eq!(mode, SimulationMode::Raw);
            assert_eq!(seed, 9);
            assert_eq!(palette, PaletteName::Rosa);
        }
        _ => panic!("expected a simulation"),
    }
    match parse_command(&args(&["game", "--seed", "1"])) {
        Ok(Command::Simulation(mode, 1, RosterSpec::Default, PaletteName::Azul)) => {
            assert_eq!(mode, SimulationMode::Precomputed)
        }
        _ => panic!("expected a default simulation"),
    }
}

#[test]
fn flags_match_whole_arguments() {
    assert!(!has_arg(&args(&["game", "--neonx"]), "--neon"));
    assert!(has_arg(&args(&["game", "--neon"]), "--neon"));
}

#[test]
fn roster_flag_conflict_reads_as_a_message() {
    assert_eq!(
        RosterFlagConflict.message(),
        "--slots y --characters son excluyentes: la timeline se escribe anónima con --slots y se viste con --characters al reproducirla (--play)."
    );
}

#[test]
fn clock_seed_keeps_the_low_64_bits_of_the_nanoseconds() {
    assert_eq!(seed_from_nanos(None), None);
    assert_eq!(seed_from_nanos(Some(42)), Some(42));
    assert_eq!(seed_from_nanos(Some((1u128 << 64) + 5)), Some(5));
    assert_eq!(seed_from_nanos(Some(u128::MAX)), Some(u64::MAX));
    let before = std::time::SystemTime::now()
        .duration_since(std::time::UNIX_EPOCH)
        .unwrap()
        .as_nanos() as u64;
    let seed = random_seed().expect("the clock reads after the epoch");
    let after = std::time::SystemTime::now()
        .duration_since(std::time::UNIX_EPOCH)
        .unwrap()
        .as_nanos() as u64;
    assert!(before <= seed && seed <= after);
}
