//! The command line: which flags select which command, seed, roster and palette.
use vstd::prelude::*;

use crate::text::{
    chars_of, parse_unsigned, parse_u64, parse_usize, split_on, split_text, text_eq, texts,
    trim, trim_text,
};

verus! {

/// How the race's marbles are chosen.
pub enum RosterSpec {
    /// The default cast.
    Default,
    /// An explicit cast, by character name.
    Characters(Vec<String>),
    /// That many anonymous marbles.
    Slots(usize),
}

/// The colour palette selected on the command line.
#[derive(Clone, Copy, Debug, PartialEq, Eq, Structural)]
pub enum PaletteName {
    Azul,
    Neon,
    Rosa,
}

/// How the physics of a race is run.
#[derive(Clone, Copy, Debug, PartialEq, Eq, Structural)]
pub enum SimulationMode {
    /// Stepped live (`--sim-raw`).
    Raw,
    /// Played from precomputed poses.
    Precomputed,
}

/// What the program is asked to do.
pub enum Command {
    /// Run a race: mode, level seed, cast and palette.
    Simulation(SimulationMode, u64, RosterSpec, PaletteName),
    /// Rebuild the level modules from their raw exports (`--process-modules`).
    BuildModules,
    /// Precompute the concave colliders (`--preprocess`).
    PreprocessConcaveColliders,
}

/// `--slots` and `--characters` were both given; they exclude each other.
#[derive(Clone, Copy, Debug, PartialEq, Eq, Structural)]
pub struct RosterFlagConflict;

/// The message the conflict between `--slots` and `--characters` is reported with.
pub open spec fn conflict_message() -> Seq<char> {
    "--slots y --characters son excluyentes: la timeline se escribe anónima con --slots y se viste con --characters al reproducirla (--play)."@
}

impl RosterFlagConflict {
    /// The message the conflict is reported with.
    pub fn message(&self) -> (m: String)
        ensures
            m@ == conflict_message(),
    {
        String::from_str(
            "--slots y --characters son excluyentes: la timeline se escribe anónima con --slots y se viste con --characters al reproducirla (--play).",
        )
    }
}

/// Why the arguments give no command.
#[derive(Clone, Copy, Debug, PartialEq, Eq, Structural)]
pub enum CommandError {
    /// No `--seed` reads, and the clock reads earlier than the Unix epoch, so no seed can
    /// be taken from it.
    ClockBeforeEpoch,
    /// `--slots` and `--characters` were both given.
    RosterFlagConflict(RosterFlagConflict),
}

// ---------------------------------------------------------------------------
// Specification of flag lookup
// ---------------------------------------------------------------------------

/// Whether `flag` occurs among `args[..end]`.
pub open spec fn flag_before(args: Seq<Seq<char>>, flag: Seq<char>, end: int) -> bool {
    exists|j: int| 0 <= j < end && args[j] == flag
}

/// Whether `flag` is one of the arguments.
pub open spec fn has_flag(args: Seq<Seq<char>>, flag: Seq<char>) -> bool {
    flag_before(args, flag, args.len() as int)
}

/// The position of the first argument equal to `flag`.
pub open spec fn flag_index(args: Seq<Seq<char>>, flag: Seq<char>) -> Option<int> {
    if has_flag(args, flag) {
        Some(choose|i: int| 0 <= i < args.len() && args[i] == flag && !flag_before(args, flag, i))
    } else {
        None
    }
}

/// The argument right after the first occurrence of `flag`, if there is one.
pub open spec fn flag_value(args: Seq<Seq<char>>, flag: Seq<char>) -> Option<Seq<char>> {
    match flag_index(args, flag) {
        Some(i) => if i + 1 < args.len() {
            Some(args[i + 1])
        } else {
            None
        },
        None => None,
    }
}

/// The palette the arguments select: `--neon` wins over `--rosa`; neither gives azul.
pub open spec fn spec_palette(args: Seq<Seq<char>>) -> PaletteName {
    if has_flag(args, "--neon"@) {
        PaletteName::Neon
    } else if has_flag(args, "--rosa"@) {
        PaletteName::Rosa
    } else {
        PaletteName::Azul
    }
}

/// The names listed after `--characters`: the comma-separated pieces, each trimmed.
pub open spec fn spec_characters(args: Seq<Seq<char>>) -> Option<Seq<Seq<char>>> {
    match flag_value(args, "--characters"@) {
        Some(list) => Some(split_text(list, ',').map_values(|piece: Seq<char>| trim_text(piece))),
        None => None,
    }
}

/// The slot count given after `--slots`, when it reads as a `usize`.
pub open spec fn spec_slots(args: Seq<Seq<char>>) -> Option<nat> {
    match flag_value(args, "--slots"@) {
        Some(text) => parse_unsigned(text, usize::MAX as nat),
        None => None,
    }
}

/// The seed given after `--seed`, when it reads as a `u64`.
pub open spec fn spec_seed(args: Seq<Seq<char>>) -> Option<nat> {
    match flag_value(args, "--seed"@) {
        Some(text) => parse_unsigned(text, u64::MAX as nat),
        None => None,
    }
}

/// Whether a roster spec is the one the arguments ask for (when they do not conflict).
pub open spec fn roster_spec_matches(args: Seq<Seq<char>>, spec: RosterSpec) -> bool {
    match (spec_slots(args), spec_characters(args)) {
        (Some(n), None) => spec matches RosterSpec::Slots(m) && m == n,
        (None, Some(names)) => spec matches RosterSpec::Characters(v) && texts(v@) == names,
        (None, None) => spec is Default,
        (Some(_), Some(_)) => false,
    }
}

// ---------------------------------------------------------------------------
// Flag lookup
// ---------------------------------------------------------------------------

/// The position of the first argument equal to `flag`.
pub fn flag_position(args: &Vec<String>, flag: &str) -> (r: Option<usize>)
    ensures
        match r {
            Some(i) => flag_index(texts(args@), flag@) == Some(i as int),
            None => flag_index(texts(args@), flag@) is None,
        },
{
    let ghost a = texts(args@);
    let mut i: usize = 0;
    while i < args.len()
        invariant
            i <= args.len(),
            a == texts(args@),
            a.len() == args.len(),
            !flag_before(a, flag@, i as int),
        decreases args.len() - i,
    {
        if text_eq(args[i].as_str(), flag) {
            assert(a[i as int] == flag@);
            assert(has_flag(a, flag@));
            let ghost k = choose|k: int|
                0 <= k < a.len() && a[k] == flag@ && !flag_before(a, flag@, k);
            proof {
                if k < i {
                    assert(flag_before(a, flag@, i as int));
                } else if k > i {
                    assert(flag_before(a, flag@, k));
                }
            }
            return Some(i);
        }
        i += 1;
    }
    None
}

/// Whether `flag` is one of the arguments.
pub fn has_arg(args: &Vec<String>, flag: &str) -> (r: bool)
    ensures
        r == has_flag(texts(args@), flag@),
{
    flag_position(args, flag).is_some()
}

/// The argument right after the first occurrence of `flag`.
pub fn arg_after(args: &Vec<String>, flag: &str) -> (r: Option<String>)
    ensures
        match r {
            Some(v) => flag_value(texts(args@), flag@) == Some(v@),
            None => flag_value(texts(args@), flag@) is None,
        },
{
    match flag_position(args, flag) {
        Some(i) => {
            if i < args.len() - 1 {
                Some(args[i + 1].clone())
            } else {
                None
            }
        },
        None => None,
    }
}

// ---------------------------------------------------------------------------
// The command line
// ---------------------------------------------------------------------------

/// The command the arguments ask for. `--process-modules` wins over `--preprocess`;
/// otherwise a race, whose roster fails when `--slots` and `--characters` are both given.
pub fn parse_command(args: &Vec<String>) -> (r: Result<Command, CommandError>)
    ensures
        ({
            let a = texts(args@);
            if has_flag(a, "--process-modules"@) {
                r matches Ok(Command::BuildModules)
            } else if has_flag(a, "--preprocess"@) {
                r matches Ok(Command::PreprocessConcaveColliders)
            } else {
                match r {
                    Ok(Command::Simulation(mode, seed, roster, palette)) => {
                        &&& (mode == SimulationMode::Raw) == has_flag(a, "--sim-raw"@)
                        &&& palette == spec_palette(a)
                        &&& roster_spec_matches(a, roster)
                        &&& (spec_seed(a) matches Some(n) ==> seed == n)
                        &&& (spec_seed(a) is None ==> exists|nanos: Option<u128>|
                            Some(seed) == #[trigger] spec_seed_from_nanos(nanos))
                    },
                    Ok(_) => false,
                    Err(CommandError::ClockBeforeEpoch) => spec_seed(a) is None,
                    Err(CommandError::RosterFlagConflict(_)) => spec_slots(a) is Some
                        && spec_characters(a) is Some,
                }
            }
        }),
{
    if has_arg(args, "--process-modules") {
        return Ok(Command::BuildModules);
    }
    if has_arg(args, "--preprocess") {
        return Ok(Command::PreprocessConcaveColliders);
    }
    let mode = if has_arg(args, "--sim-raw") {
        SimulationMode::Raw
    } else {
        SimulationMode::Precomputed
    };
    let palette = parse_palette(args);
    let seed = match parse_seed(args) {
        Some(seed) => seed,
        None => return Err(CommandError::ClockBeforeEpoch),
    };
    match parse_roster_spec(args) {
        Ok(roster) => Ok(Command::Simulation(mode, seed, roster, palette)),
        Err(e) => Err(CommandError::RosterFlagConflict(e)),
    }
}

/// The palette the arguments select.
pub fn parse_palette(args: &Vec<String>) -> (r: PaletteName)
    ensures
        r == spec_palette(texts(args@)),
{
    if has_arg(args, "--neon") {
        PaletteName::Neon
    } else if has_arg(args, "--rosa") {
        PaletteName::Rosa
    } else {
        PaletteName::Azul
    }
}

/// The names listed after `--characters`, split on commas and trimmed.
pub fn parse_characters(args: &Vec<String>) -> (r: Option<Vec<String>>)
    ensures
        match r {
            Some(v) => spec_characters(texts(args@)) == Some(texts(v@)),
            None => spec_characters(texts(args@)) is None,
        },
{
    match arg_after(args, "--characters") {
        Some(list) => {
            let pieces = split_on(list.as_str(), ',');
            let mut names: Vec<String> = Vec::new();
            let mut i: usize = 0;
            while i < pieces.len()
                invariant
                    i <= pieces.len(),
                    texts(pieces@) == split_text(list@, ','),
                    texts(names@) =~= texts(pieces@).take(i as int).map_values(
                        |piece: Seq<char>| trim_text(piece),
                    ),
                decreases pieces.len() - i,
            {
                let name = trim(pieces[i].as_str());
                let ghost old_names = names@;
                names.push(name);
                assert(texts(pieces@)[i as int] == pieces@[i as int]@);
                assert(texts(names@) =~= texts(old_names).push(name@));
                assert(texts(pieces@).take(i + 1) =~= texts(pieces@).take(i as int).push(
                    pieces@[i as int]@,
                ));
                i += 1;
            }
            assert(texts(pieces@).take(pieces.len() as int) =~= texts(pieces@));
            Some(names)
        },
        None => None,
    }
}

/// The slot count given after `--slots`, when it reads as a number.
fn parse_slots(args: &Vec<String>) -> (r: Option<usize>)
    ensures
        match r {
            Some(n) => spec_slots(texts(args@)) == Some(n as nat),
            None => spec_slots(texts(args@)) is None,
        },
{
    match arg_after(args, "--slots") {
        Some(text) => parse_usize(text.as_str()),
        None => None,
    }
}

/// The roster the arguments ask for; `--slots` together with `--characters` is refused.
pub fn parse_roster_spec(args: &Vec<String>) -> (r: Result<RosterSpec, RosterFlagConflict>)
    ensures
        match r {
            Ok(spec) => roster_spec_matches(texts(args@), spec),
            Err(_) => spec_slots(texts(args@)) is Some && spec_characters(texts(args@)) is Some,
        },
{
    let slots = parse_slots(args);
    let characters = parse_characters(args);
    match (slots, characters) {
        (Some(_), Some(_)) => Err(RosterFlagConflict),
        (Some(n), None) => Ok(RosterSpec::Slots(n)),
        (None, Some(names)) => Ok(RosterSpec::Characters(names)),
        (None, None) => Ok(RosterSpec::Default),
    }
}

/// The seed given after `--seed`, when it reads as a `u64`.
pub fn seed_from_args(args: &Vec<String>) -> (r: Option<u64>)
    ensures
        match r {
            Some(n) => spec_seed(texts(args@)) == Some(n as nat),
            None => spec_seed(texts(args@)) is None,
        },
{
    match arg_after(args, "--seed") {
        Some(text) => parse_u64(text.as_str()),
        None => None,
    }
}

/// The level seed: the one given after `--seed`, or else one taken from the clock; none
/// when no seed is given and the clock reads earlier than the Unix epoch.
pub fn parse_seed(args: &Vec<String>) -> (r: Option<u64>)
    ensures
        spec_seed(texts(args@)) matches Some(n) ==> r == Some(n as u64),
        spec_seed(texts(args@)) is None ==> exists|nanos: Option<u128>|
            r == #[trigger] spec_seed_from_nanos(nanos),
{
    match seed_from_args(args) {
        Some(n) => Some(n),
        None => random_seed(),
    }
}

/// Calls `SystemTime::now().duration_since(UNIX_EPOCH)`: the nanoseconds elapsed since
/// the Unix epoch, or `None` when the clock reads earlier than the epoch. Nothing is
/// promised of the value: it is the time.
#[verifier::external_body]
fn nanos_since_unix_epoch() -> (r: Option<u128>) {
    match std::time::SystemTime::now().duration_since(std::time::UNIX_EPOCH) {
        Ok(elapsed) => Some(elapsed.as_nanos()),
        Err(_) => None,
    }
}

/// The seed of a clock reading: the low 64 bits of the nanoseconds since the Unix epoch;
/// none for a clock that reads earlier than the epoch.
pub open spec fn spec_seed_from_nanos(nanos: Option<u128>) -> Option<u64> {
    match nanos {
        Some(n) => Some((n % 0x1_0000_0000_0000_0000) as u64),
        None => None,
    }
}

/// The seed of a clock reading (nanoseconds since the Unix epoch, when the clock reads
/// after it): its low 64 bits; none for a clock that reads earlier than the epoch.
pub fn seed_from_nanos(nanos: Option<u128>) -> (seed: Option<u64>)
    ensures
        seed == spec_seed_from_nanos(nanos),
{
    match nanos {
        Some(n) => Some((n % 0x1_0000_0000_0000_0000u128) as u64),
        None => None,
    }
}

/// A seed taken from the clock: the seed of the clock's reading now; none when the clock
/// reads earlier than the Unix epoch. Which reading that is depends on the time, so any
/// `u64` may come out.
pub fn random_seed() -> (seed: Option<u64>)
    ensures
        exists|nanos: Option<u128>| seed == #[trigger] spec_seed_from_nanos(nanos),
{
    let nanos = nanos_since_unix_epoch();
    let seed = seed_from_nanos(nanos);
    assert(seed == spec_seed_from_nanos(nanos));
    seed
}

} // verus!
