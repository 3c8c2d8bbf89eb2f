//! How the level grows: which module comes next, when the finish line closes the level,
//! and which effect an effect slot of a module turns into.
use vstd::prelude::*;

use rand::rngs::SmallRng;
use rand::seq::SliceRandom;

use crate::text::{text_eq, texts};

verus! {

#[verifier::external_type_specification]
#[verifier::external_body]
pub struct ExSmallRng(SmallRng);

// ---------------------------------------------------------------------------
// Modules
// ---------------------------------------------------------------------------

/// The modules a level is made of, each with its weight in the draw.
pub open spec fn spec_module_pool() -> Seq<(Seq<char>, nat)> {
    seq![
        ("crosses"@, 5nat),
        ("zigzag"@, 5nat),
        ("spheres"@, 5nat),
        ("diamonds"@, 2nat),
        ("mini_zigzag"@, 3nat),
        ("more_stones"@, 2nat),
        ("hex_stones"@, 3nat),
        ("stones"@, 0nat),
        ("bars"@, 0nat),
        ("toruses"@, 5nat),
        ("bouncy_walls"@, 5nat),
    ]
}

/// The modules a level is made of, each with its weight in the draw.
pub fn module_pool() -> (pool: Vec<(&'static str, usize)>)
    ensures
        pool_of(pool@) == spec_module_pool(),
        pool_of(pool@) == seq![
            ("crosses"@, 5nat),
            ("zigzag"@, 5nat),
            ("spheres"@, 5nat),
            ("diamonds"@, 2nat),
            ("mini_zigzag"@, 3nat),
            ("more_stones"@, 2nat),
            ("hex_stones"@, 3nat),
            ("stones"@, 0nat),
            ("bars"@, 0nat),
            ("toruses"@, 5nat),
            ("bouncy_walls"@, 5nat),
        ],
        pool@.len() == 11,
        forall|i: int| 0 <= i < 11 ==> (#[trigger] pool@[i]).1 <= 5,
{
    let mut pool: Vec<(&'static str, usize)> = Vec::new();
    pool.push(("crosses", 5));
    pool.push(("zigzag", 5));
    pool.push(("spheres", 5));
    pool.push(("diamonds", 2));
    pool.push(("mini_zigzag", 3));
    pool.push(("more_stones", 2));
    pool.push(("hex_stones", 3));
    pool.push(("stones", 0));
    pool.push(("bars", 0));
    pool.push(("toruses", 5));
    pool.push(("bouncy_walls", 5));
    assert(pool_of(pool@) =~= spec_module_pool());
    pool
}

/// The draw of a weighted pool: each name repeated as many times as its weight, in
/// pool order.
pub open spec fn weighted(pool: Seq<(Seq<char>, nat)>) -> Seq<Seq<char>>
    decreases pool.len(),
{
    if pool.len() == 0 {
        Seq::<Seq<char>>::empty()
    } else {
        weighted(pool.drop_last()) + Seq::new(pool.last().1, |i: int| pool.last().0)
    }
}

/// The texts of a vector of names.
pub open spec fn names_of(v: Seq<&'static str>) -> Seq<Seq<char>> {
    v.map_values(|s: &'static str| s@)
}

/// A pool's entries as values.
pub open spec fn pool_of(v: Seq<(&'static str, usize)>) -> Seq<(Seq<char>, nat)> {
    v.map_values(|e: (&'static str, usize)| (e.0@, e.1 as nat))
}

/// The weighted draw of the module pool.
pub fn weighted_modules() -> (draw: Vec<&'static str>)
    ensures
        names_of(draw@) == weighted(spec_module_pool()),
        draw@.len() <= 55,
        names_of(draw@) == Seq::new(5, |_i: int| "crosses"@) + Seq::new(5, |_i: int| "zigzag"@)
            + Seq::new(5, |_i: int| "spheres"@) + Seq::new(2, |_i: int| "diamonds"@) + Seq::new(
            3,
            |_i: int| "mini_zigzag"@,
        ) + Seq::new(2, |_i: int| "more_stones"@) + Seq::new(3, |_i: int| "hex_stones"@)
            + Seq::new(5, |_i: int| "toruses"@) + Seq::new(5, |_i: int| "bouncy_walls"@),
{
    let pool = module_pool();
    let ghost p = pool_of(pool@);
    let mut draw: Vec<&'static str> = Vec::new();
    let mut i: usize = 0;
    assert(p.take(0) =~= Seq::<(Seq<char>, nat)>::empty());
    while i < pool.len()
        invariant
            i <= pool.len() == 11,
            p == pool_of(pool@),
            p == spec_module_pool(),
            forall|j: int| 0 <= j < 11 ==> (#[trigger] pool@[j]).1 <= 5,
            names_of(draw@) =~= weighted(p.take(i as int)),
            draw@.len() <= 5 * i,
        decreases pool.len() - i,
    {
        let (name, weight) = pool[i];
        let ghost before = names_of(draw@);
        let mut k: usize = 0;
        while k < weight
            invariant
                k <= weight <= 5,
                names_of(draw@) =~= before + Seq::new(k as nat, |j: int| name@),
                draw@.len() == before.len() + k,
            decreases weight - k,
        {
            let ghost prev = draw@;
            draw.push(name);
            assert(names_of(draw@) =~= names_of(prev).push(name@));
            assert(Seq::new((k + 1) as nat, |j: int| name@) =~= Seq::new(k as nat, |j: int| name@).push(name@));
            k += 1;
        }
        assert(p.take(i + 1).drop_last() =~= p.take(i as int));
        assert(p.take(i + 1).last() == (name@, weight as nat));
        i += 1;
    }
    assert(p.take(11) =~= p);
    proof {
        lemma_module_draw_layout();
    }
    draw
}

/// The module draw holds 35 entries and never a disabled module (weight 0: `stones`,
/// `bars`); roll 22 is `hex_stones`, whose three entries follow `more_stones`.
pub proof fn law_module_draw_skips_disabled_modules()
    ensures
        weighted(spec_module_pool()).len() == 35,
        forall|i: int|
            0 <= i < 35 ==> #[trigger] weighted(spec_module_pool())[i] != "stones"@
                && weighted(spec_module_pool())[i] != "bars"@,
        weighted(spec_module_pool())[22] == "hex_stones"@,
{
    lemma_module_draw_layout();
    reveal_strlit("stones");
    reveal_strlit("bars");
    reveal_strlit("crosses");
    reveal_strlit("zigzag");
    reveal_strlit("spheres");
    reveal_strlit("diamonds");
    reveal_strlit("mini_zigzag");
    reveal_strlit("more_stones");
    reveal_strlit("hex_stones");
    reveal_strlit("toruses");
    reveal_strlit("bouncy_walls");
    let w = weighted(spec_module_pool());
    assert forall|i: int| 0 <= i < 35 implies #[trigger] w[i] != "stones"@ && w[i] != "bars"@ by {
        assert(w[i].len() != 6 || w[i][0] != 's' || w[i][1] != 't');
        assert(w[i].len() != 4 || w[i][0] != 'b');
    }
}

/// The draw of the first `k + 1` entries of a pool: that of the first `k`, then entry
/// `k`'s name repeated by its weight.
proof fn lemma_weighted_step(p: Seq<(Seq<char>, nat)>, k: int)
    requires
        0 <= k < p.len(),
    ensures
        weighted(p.take(k + 1)) == weighted(p.take(k)) + Seq::new(p[k].1, |_i: int| p[k].0),
{
    assert(p.take(k + 1).drop_last() =~= p.take(k));
    assert(p.take(k + 1).last() == p[k]);
}

/// The module draw, entry by entry: each module repeated by its weight, in pool order;
/// `stones` and `bars` (weight 0) never appear.
proof fn lemma_module_draw_layout()
    ensures
        weighted(spec_module_pool()) == Seq::new(5, |_i: int| "crosses"@) + Seq::new(
            5,
            |_i: int| "zigzag"@,
        ) + Seq::new(5, |_i: int| "spheres"@) + Seq::new(2, |_i: int| "diamonds"@) + Seq::new(
            3,
            |_i: int| "mini_zigzag"@,
        ) + Seq::new(2, |_i: int| "more_stones"@) + Seq::new(3, |_i: int| "hex_stones"@)
            + Seq::new(5, |_i: int| "toruses"@) + Seq::new(5, |_i: int| "bouncy_walls"@),
{
    let p = spec_module_pool();
    assert(p.take(0) =~= Seq::<(Seq<char>, nat)>::empty());
    lemma_weighted_step(p, 0);
    lemma_weighted_step(p, 1);
    lemma_weighted_step(p, 2);
    lemma_weighted_step(p, 3);
    lemma_weighted_step(p, 4);
    lemma_weighted_step(p, 5);
    lemma_weighted_step(p, 6);
    lemma_weighted_step(p, 7);
    lemma_weighted_step(p, 8);
    lemma_weighted_step(p, 9);
    lemma_weighted_step(p, 10);
    assert(p.take(11) =~= p);
    let e = Seq::<Seq<char>>::empty();
    assert(Seq::new(0, |_i: int| "stones"@) =~= e);
    assert(Seq::new(0, |_i: int| "bars"@) =~= e);
    assert(weighted(p) =~= Seq::new(5, |_i: int| "crosses"@) + Seq::new(5, |_i: int| "zigzag"@)
        + Seq::new(5, |_i: int| "spheres"@) + Seq::new(2, |_i: int| "diamonds"@) + Seq::new(
        3,
        |_i: int| "mini_zigzag"@,
    ) + Seq::new(2, |_i: int| "more_stones"@) + Seq::new(3, |_i: int| "hex_stones"@)
        + Seq::new(5, |_i: int| "toruses"@) + Seq::new(5, |_i: int| "bouncy_walls"@));
}

/// What the level generator does on a tick.
#[derive(Clone, Copy, Debug, PartialEq, Eq, Structural)]
pub enum LevelGenerationAction {
    GenerateModule,
    SpawnFinishLine,
    DoNothing,
}

/// The generator's memory: the last module placed, how many modules so far, and
/// whether the finish line closed the level.
pub struct LevelGen {
    pub last_module: Option<&'static str>,
    pub modules_spawned: u32,
    pub finish_spawned: bool,
}

impl LevelGen {
    /// A level with nothing placed yet.
    pub fn new() -> (g: LevelGen)
        ensures
            g.last_module is None,
            g.modules_spawned == 0,
            !g.finish_spawned,
    {
        LevelGen { last_module: None, modules_spawned: 0, finish_spawned: false }
    }
}

/// What the generator does now: nothing once the finish line is placed; the finish line
/// once the race time is up; a module while the leader is near the end of the track
/// built so far; otherwise nothing.
pub fn decide_level_action(
    level_gen: &LevelGen,
    race_time_is_up: bool,
    leader_is_near_the_horizon: bool,
) -> (action: LevelGenerationAction)
    ensures
        action == if level_gen.finish_spawned {
            LevelGenerationAction::DoNothing
        } else if race_time_is_up {
            LevelGenerationAction::SpawnFinishLine
        } else if leader_is_near_the_horizon {
            LevelGenerationAction::GenerateModule
        } else {
            LevelGenerationAction::DoNothing
        },
{
    if level_gen.finish_spawned {
        return LevelGenerationAction::DoNothing;
    }
    if race_time_is_up {
        return LevelGenerationAction::SpawnFinishLine;
    }
    if leader_is_near_the_horizon {
        return LevelGenerationAction::GenerateModule;
    }
    LevelGenerationAction::DoNothing
}

/// How close (millimetres) the leader may come to the top of the next module before that
/// module is drawn.
pub const MODULE_TRIGGER_MM: i64 = 3000;

/// Whether the leader is near the end of the track built so far: less than three metres
/// above the top of the next module (heights in millimetres, up positive).
pub fn leader_is_near_the_horizon(leader_y_mm: i64, next_top_mm: i64) -> (r: bool)
    ensures
        r == (leader_y_mm - next_top_mm < MODULE_TRIGGER_MM),
{
    (leader_y_mm as i128) - (next_top_mm as i128) < MODULE_TRIGGER_MM as i128
}

/// How long before the end of the video (microseconds) the level closes, so that the last
/// marbles still fall on camera.
pub const FINISH_TAIL_MICROS: u64 = 12_000_000;

/// The race time (microseconds) at which the finish line closes the level: the video's
/// length less the tail (negative for a video shorter than the tail).
pub fn finish_target_micros(video_micros: u64) -> (t: i128)
    ensures
        t == video_micros - FINISH_TAIL_MICROS,
{
    video_micros as i128 - FINISH_TAIL_MICROS as i128
}

/// Whether the race time is up: the race has run for at least the target time.
pub fn race_time_is_up(elapsed_micros: u64, target_micros: i128) -> (r: bool)
    ensures
        r == (elapsed_micros >= target_micros),
{
    elapsed_micros as i128 >= target_micros
}

/// Whether a drawn module may be placed: never the module placed just before, and
/// never `spheres` as the first module (it jams the marbles at the start).
pub open spec fn acceptable_pick(g: LevelGen, pick: Seq<char>) -> bool {
    &&& !(g.last_module matches Some(last) && last@ == pick)
    &&& !(g.modules_spawned == 0 && pick == "spheres"@)
}

/// The module a roll of the dice picks from the weighted draw, when it may be placed;
/// none when the roll must be made again.
pub fn pick_module(level_gen: &LevelGen, draw: &Vec<&'static str>, roll: usize) -> (r: Option<
    &'static str,
>)
    requires
        roll < draw.len(),
    ensures
        match r {
            Some(pick) => pick@ == draw@[roll as int]@ && acceptable_pick(*level_gen, pick@),
            None => !acceptable_pick(*level_gen, draw@[roll as int]@),
        },
{
    let pick = draw[roll];
    let repeats_last = match level_gen.last_module {
        Some(last) => text_eq(last, pick),
        None => false,
    };
    let spheres_as_first = level_gen.modules_spawned == 0 && text_eq(pick, "spheres");
    if !repeats_last && !spheres_as_first {
        Some(pick)
    } else {
        None
    }
}

/// The module the dice pick, rolling again while a roll is refused: the first of `rolls`
/// whose module may be placed, with its position among the rolls; none when every roll
/// is refused.
pub fn pick_module_from_rolls(level_gen: &LevelGen, draw: &Vec<&'static str>, rolls: &Vec<usize>) -> (r:
    Option<(usize, &'static str)>)
    requires
        forall|j: int| 0 <= j < rolls.len() ==> #[trigger] rolls@[j] < draw.len(),
    ensures
        match r {
            Some((k, pick)) => {
                &&& k < rolls.len()
                &&& pick@ == draw@[rolls@[k as int] as int]@
                &&& acceptable_pick(*level_gen, pick@)
                &&& forall|j: int|
                    0 <= j < k ==> !acceptable_pick(*level_gen, draw@[#[trigger] rolls@[j] as int]@)
            },
            None => forall|j: int|
                0 <= j < rolls.len() ==> !acceptable_pick(*level_gen, draw@[#[trigger] rolls@[j] as int]@),
        },
{
    let mut k: usize = 0;
    while k < rolls.len()
        invariant
            k <= rolls.len(),
            forall|j: int| 0 <= j < rolls.len() ==> #[trigger] rolls@[j] < draw.len(),
            forall|j: int|
                0 <= j < k ==> !acceptable_pick(*level_gen, draw@[#[trigger] rolls@[j] as int]@),
        decreases rolls.len() - k,
    {
        let roll = rolls[k];
        if let Some(pick) = pick_module(level_gen, draw, roll) {
            return Some((k, pick));
        }
        k += 1;
    }
    None
}

/// The draw of the first `n` entries of a pool is the start of the pool's draw.
proof fn lemma_weighted_prefix(p: Seq<(Seq<char>, nat)>, n: int)
    requires
        0 <= n <= p.len(),
    ensures
        weighted(p.take(n)).len() <= weighted(p).len(),
        forall|i: int| 0 <= i < weighted(p.take(n)).len() ==> weighted(p)[i] == #[trigger] weighted(p.take(n))[i],
    decreases p.len() - n,
{
    if n < p.len() {
        lemma_weighted_prefix(p, n + 1);
        let q = p.take(n + 1);
        assert(q.drop_last() =~= p.take(n));
        let w = weighted(p.take(n));
        assert forall|i: int| 0 <= i < w.len() implies weighted(p)[i] == #[trigger] w[i] by {
            assert(weighted(q)[i] == w[i]);
        }
    } else {
        assert(p.take(n) =~= p);
    }
}

/// Some entry of the module draw may always be placed, whatever was placed before: at
/// most one module is the last one and `spheres` is the only one barred at the start, so
/// `crosses` or `zigzag` is acceptable. Rolling again until a roll is accepted therefore
/// ends, for a fair die, with probability one.
pub proof fn law_some_module_is_acceptable(level_gen: LevelGen)
    ensures
        exists|i: int|
            0 <= i < weighted(spec_module_pool()).len() && acceptable_pick(
                level_gen,
                #[trigger] weighted(spec_module_pool())[i],
            ),
{
    reveal_strlit("crosses");
    reveal_strlit("zigzag");
    reveal_strlit("spheres");
    let p = spec_module_pool();
    lemma_weighted_prefix(p, 2);
    let front = p.take(2);
    assert(front.drop_last() =~= p.take(1));
    assert(p.take(1).drop_last() =~= Seq::<(Seq<char>, nat)>::empty());
    reveal_with_fuel(weighted, 3);
    let w = weighted(front);
    assert(w.len() == 10);
    assert(w[0] == "crosses"@);
    assert(w[5] == "zigzag"@);
    assert(weighted(p)[0] == w[0]);
    assert(weighted(p)[5] == w[5]);
    assert("crosses"@ != "spheres"@ && "zigzag"@ != "spheres"@ && "crosses"@ != "zigzag"@) by {
        assert("crosses"@[0] != "spheres"@[0]);
        assert("zigzag"@[0] != "spheres"@[0]);
        assert("crosses"@[0] != "zigzag"@[0]);
    }
    if acceptable_pick(level_gen, weighted(p)[0]) {
    } else {
        assert(acceptable_pick(level_gen, weighted(p)[5]));
    }
}

/// Remembers a module placed.
pub fn record_module(level_gen: &mut LevelGen, name: &'static str)
    requires
        old(level_gen).modules_spawned < u32::MAX,
    ensures
        final(level_gen).last_module == Some(name),
        final(level_gen).modules_spawned == old(level_gen).modules_spawned + 1,
        final(level_gen).finish_spawned == old(level_gen).finish_spawned,
{
    level_gen.last_module = Some(name);
    level_gen.modules_spawned = level_gen.modules_spawned + 1;
}

/// Remembers that the finish line closed the level.
pub fn record_finish(level_gen: &mut LevelGen)
    ensures
        final(level_gen).finish_spawned,
        final(level_gen).last_module == old(level_gen).last_module,
        final(level_gen).modules_spawned == old(level_gen).modules_spawned,
{
    level_gen.finish_spawned = true;
}

/// The modules whose bottom acts as a gate: once it leaves the screen, its colliders
/// are switched off.
pub fn module_acts_as_gate(name: &str) -> (r: bool)
    ensures
        r == (name@ == "toruses"@ || name@ == "bouncy_walls"@ || name@ == "bars"@),
{
    text_eq(name, "toruses") || text_eq(name, "bouncy_walls") || text_eq(name, "bars")
}

/// The replay key of an object of a module: the module's seed with the object's position,
/// counted from 1, mixed into the upper half of its bits.
pub open spec fn spec_body_key(module_seed: u64, obj_idx: u64) -> u64 {
    module_seed ^ (((obj_idx + 1) as u64) << 32u64)
}

/// The key under which the body of object `obj_idx` of a module drawn with `module_seed`
/// is recorded, so that a replay finds the same body again.
pub fn body_key(module_seed: u64, obj_idx: usize) -> (key: u64)
    requires
        obj_idx < u64::MAX,
    ensures
        key == spec_body_key(module_seed, obj_idx as u64),
{
    let position: u64 = obj_idx as u64;
    module_seed ^ ((position + 1) << 32u64)
}

/// Within one module, two different objects (of the first 2^32 - 1) never share a key.
pub proof fn law_body_keys_are_distinct(module_seed: u64, i: u64, j: u64)
    requires
        i < 0xffff_ffffu64,
        j < 0xffff_ffffu64,
        i != j,
    ensures
        spec_body_key(module_seed, i) != spec_body_key(module_seed, j),
{
    let a: u64 = (i + 1) as u64;
    let b: u64 = (j + 1) as u64;
    assert(a != b && a <= 0xffff_ffffu64 && b <= 0xffff_ffffu64);
    assert((module_seed ^ (a << 32u64)) != (module_seed ^ (b << 32u64))) by (bit_vector)
        requires
            a != b,
            a <= 0xffff_ffffu64,
            b <= 0xffff_ffffu64,
    ;
}

// ---------------------------------------------------------------------------
// Effects
// ---------------------------------------------------------------------------

/// The effects a sensor can apply to a marble.
#[derive(Clone, Copy, Debug, PartialEq, Eq, Structural)]
pub enum EffectVariant {
    Freeze,
    Shrink,
    Swap,
}

/// The effect a variant name selects.
pub open spec fn spec_effect_variant(name: Seq<char>) -> Option<EffectVariant> {
    if name == "freeze"@ {
        Some(EffectVariant::Freeze)
    } else if name == "shrink"@ {
        Some(EffectVariant::Shrink)
    } else if name == "swap"@ {
        Some(EffectVariant::Swap)
    } else {
        None
    }
}

/// The effect a variant name selects; none for an unknown name.
pub fn effect_variant(name: &str) -> (r: Option<EffectVariant>)
    ensures
        r == spec_effect_variant(name@),
{
    if text_eq(name, "freeze") {
        Some(EffectVariant::Freeze)
    } else if text_eq(name, "shrink") {
        Some(EffectVariant::Shrink)
    } else if text_eq(name, "swap") {
        Some(EffectVariant::Swap)
    } else {
        None
    }
}

/// Whether an effect is left out where it stands: a swap is not placed above the line
/// below which swaps are allowed.
pub open spec fn spec_should_skip_effect(variant: Seq<char>, above_swap_line: bool) -> bool {
    variant == "swap"@ && above_swap_line
}

/// Whether an effect is left out where it stands.
pub fn should_skip_effect(variant: &str, above_swap_line: bool) -> (r: bool)
    ensures
        r == spec_should_skip_effect(variant@, above_swap_line),
{
    above_swap_line && text_eq(variant, "swap")
}

/// The default effects of a slot, by weight: freeze four times, swap three, shrink once.
pub open spec fn default_effect_draw() -> Seq<Seq<char>> {
    seq!["freeze"@, "freeze"@, "freeze"@, "freeze"@, "swap"@, "swap"@, "swap"@, "shrink"@]
}

/// The names of `names` that are not skipped, in order.
pub open spec fn kept_effects(names: Seq<Seq<char>>, above_swap_line: bool) -> Seq<Seq<char>>
    decreases names.len(),
{
    if names.len() == 0 {
        Seq::<Seq<char>>::empty()
    } else {
        let rest = kept_effects(names.drop_last(), above_swap_line);
        if spec_should_skip_effect(names.last(), above_swap_line) {
            rest
        } else {
            rest.push(names.last())
        }
    }
}

/// The effects a slot may become: its own options, or the weighted defaults when it
/// lists none; less those skipped where it stands.
pub open spec fn spec_slot_candidates(options: Seq<Seq<char>>, above_swap_line: bool) -> Seq<
    Seq<char>,
> {
    if options.len() == 0 {
        kept_effects(default_effect_draw(), above_swap_line)
    } else {
        kept_effects(options, above_swap_line)
    }
}

/// The effects a slot may become.
pub fn slot_candidates(options: &Vec<String>, above_swap_line: bool) -> (r: Vec<String>)
    ensures
        texts(r@) == spec_slot_candidates(texts(options@), above_swap_line),
{
    let mut names: Vec<String> = Vec::new();
    if options.len() == 0 {
        names.push(String::from_str("freeze"));
        names.push(String::from_str("freeze"));
        names.push(String::from_str("freeze"));
        names.push(String::from_str("freeze"));
        names.push(String::from_str("swap"));
        names.push(String::from_str("swap"));
        names.push(String::from_str("swap"));
        names.push(String::from_str("shrink"));
        assert(texts(names@) =~= default_effect_draw());
    } else {
        let mut j: usize = 0;
        while j < options.len()
            invariant
                j <= options.len(),
                texts(names@) =~= texts(options@).take(j as int),
            decreases options.len() - j,
        {
            names.push(options[j].clone());
            assert(texts(options@).take(j + 1) =~= texts(options@).take(j as int).push(
                options@[j as int]@,
            ));
            j += 1;
        }
        assert(texts(options@).take(options.len() as int) =~= texts(options@));
    }
    let ghost all = texts(names@);
    let mut kept: Vec<String> = Vec::new();
    let mut i: usize = 0;
    assert(all.take(0) =~= Seq::<Seq<char>>::empty());
    while i < names.len()
        invariant
            i <= names.len(),
            all == texts(names@),
            texts(kept@) =~= kept_effects(all.take(i as int), above_swap_line),
        decreases names.len() - i,
    {
        assert(all.take(i + 1).drop_last() =~= all.take(i as int));
        assert(all[i as int] == names@[i as int]@);
        if !should_skip_effect(names[i].as_str(), above_swap_line) {
            let ghost before = kept@;
            kept.push(names[i].clone());
            assert(texts(kept@) =~= texts(before).push(names@[i as int]@));
        }
        i += 1;
    }
    assert(all.take(names.len() as int) =~= all);
    kept
}

/// Calls `SliceRandom::choose` on the candidates: none when there are none, else one of
/// them (which one depends on the generator's state, and is left unsaid).
#[verifier::external_body]
fn choose_candidate(candidates: &Vec<String>, rng: &mut SmallRng) -> (r: Option<String>)
    ensures
        candidates.len() == 0 <==> r is None,
        r matches Some(c) ==> exists|i: int| 0 <= i < candidates.len() && (#[trigger] candidates@[i])@ == c@,
{
    candidates.as_slice().choose(rng).cloned()
}

/// The effect a slot becomes. A slot's first draw on the module's generator is a
/// uniform `f32` in [0, 1); below the skip chance (0.40) the slot stays empty. The
/// library holds no floating-point numbers, so the caller makes that draw on `rng` and
/// passes its outcome as `skipped`. A skipped slot stays empty and the generator is not
/// drawn from again; otherwise one candidate is drawn with the same generator, and the
/// slot stays empty only when no candidate is left where it stands.
pub fn resolve_slot_variant(
    options: &Vec<String>,
    above_swap_line: bool,
    skipped: bool,
    rng: &mut SmallRng,
) -> (r: Option<String>)
    ensures
        skipped ==> r is None && *final(rng) == *old(rng),
        !skipped ==> (spec_slot_candidates(texts(options@), above_swap_line).len() == 0 <==> r is None),
        r matches Some(v) ==> spec_slot_candidates(texts(options@), above_swap_line).contains(v@),
{
    if skipped {
        return None;
    }
    let candidates = slot_candidates(options, above_swap_line);
    let r = choose_candidate(&candidates, rng);
    proof {
        if r is Some {
            let v = r->0;
            let i = choose|i: int| 0 <= i < candidates.len() && (#[trigger] candidates@[i])@ == v@;
            assert(texts(candidates@)[i] == v@);
        }
    }
    r
}

} // verus!
