//! The race's referee: who leads, who has finished and in which order, and which marble
//! a swap sensor trades places with. Marbles are named by their index in the cast;
//! heights come as integer keys ordered like the heights themselves (lower key, lower
//! marble: further down the track, so further ahead).
use vstd::prelude::*;

verus! {

// ---------------------------------------------------------------------------
// The leader
// ---------------------------------------------------------------------------

/// Who leads the race now. Once a marble crosses the finish line first, it keeps the
/// lead for good.
pub struct RaceLeader {
    marble: Option<usize>,
    locked: bool,
}

impl RaceLeader {
    /// Nobody leads yet, and the lead is open.
    pub fn new() -> (r: RaceLeader)
        ensures
            r.leader_spec() is None,
            !r.is_locked_spec(),
    {
        RaceLeader { marble: None, locked: false }
    }

    /// The marble leading now.
    pub closed spec fn leader_spec(&self) -> Option<usize> {
        self.marble
    }

    /// The marble leading now.
    pub fn marble(&self) -> (r: Option<usize>)
        ensures
            r == self.leader_spec(),
    {
        self.marble
    }

    /// Whether the winner holds the lead for good.
    pub closed spec fn is_locked_spec(&self) -> bool {
        self.locked
    }

    /// Whether the winner holds the lead for good.
    pub fn is_locked(&self) -> (r: bool)
        ensures
            r == self.is_locked_spec(),
    {
        self.locked
    }
}

/// Updates the leader: the first marble over the line takes the lead for good; until
/// then the lowest marble leads. Nothing changes once the lead is locked.
pub fn update_race_leader(
    leader: &mut RaceLeader,
    first_finisher: Option<usize>,
    front_runner: Option<usize>,
)
    ensures
        old(leader).is_locked_spec() ==> final(leader).leader_spec() == old(leader).leader_spec()
            && final(leader).is_locked_spec(),
        !old(leader).is_locked_spec() ==> match first_finisher {
            Some(w) => final(leader).leader_spec() == Some(w) && final(leader).is_locked_spec(),
            None => !final(leader).is_locked_spec() && final(leader).leader_spec() == match front_runner {
                Some(f) => Some(f),
                None => old(leader).leader_spec(),
            },
        },
{
    if leader.locked {
        return;
    }
    if let Some(winner) = first_finisher {
        leader.marble = Some(winner);
        leader.locked = true;
        return;
    }
    if let Some(front) = front_runner {
        leader.marble = Some(front);
    }
}

/// The position of the first smallest key, as `Iterator::min_by` picks it.
pub open spec fn is_first_min(keys: Seq<i64>, i: int) -> bool {
    &&& 0 <= i < keys.len()
    &&& forall|j: int| 0 <= j < keys.len() ==> keys[i] <= #[trigger] keys[j]
    &&& forall|j: int| 0 <= j < i ==> keys[i] < #[trigger] keys[j]
}

/// The entry with the lowest key (the first of them on a tie): the marble furthest
/// down the track. None when there are no entries.
pub fn lowest_marble(marbles: &Vec<(usize, i64)>) -> (r: Option<(usize, i64)>)
    ensures
        marbles.len() == 0 <==> r is None,
        r matches Some(m) ==> exists|i: int|
            is_first_min(marbles@.map_values(|e: (usize, i64)| e.1), i) && marbles@[i] == m,
{
    if marbles.len() == 0 {
        return None;
    }
    let ghost keys = marbles@.map_values(|e: (usize, i64)| e.1);
    let mut best: usize = 0;
    let mut i: usize = 1;
    while i < marbles.len()
        invariant
            1 <= i <= marbles.len(),
            best < i,
            keys == marbles@.map_values(|e: (usize, i64)| e.1),
            forall|j: int| 0 <= j < i ==> keys[best as int] <= #[trigger] keys[j],
            forall|j: int| 0 <= j < best ==> keys[best as int] < #[trigger] keys[j],
        decreases marbles.len() - i,
    {
        if marbles[i].1 < marbles[best].1 {
            best = i;
        }
        i += 1;
    }
    assert(is_first_min(keys, best as int));
    Some(marbles[best])
}

// ---------------------------------------------------------------------------
// The finish
// ---------------------------------------------------------------------------

/// The marbles over the finish line, in the order they crossed, each with the race time
/// (microseconds) at which it was seen over the line.
pub struct RaceResult {
    pub finishers: Vec<(usize, u64)>,
}

/// Whether `marble` is among the finishers.
pub open spec fn has_finished(finishers: Seq<(usize, u64)>, marble: usize) -> bool {
    exists|i: int| 0 <= i < finishers.len() && (#[trigger] finishers[i]).0 == marble
}

/// The finishers after the marbles `crossing` (in order) are seen over the line at `now`:
/// each not yet finished is appended.
pub open spec fn record_crossings(
    finishers: Seq<(usize, u64)>,
    crossing: Seq<usize>,
    now: u64,
) -> Seq<(usize, u64)>
    decreases crossing.len(),
{
    if crossing.len() == 0 {
        finishers
    } else {
        let before = record_crossings(finishers, crossing.drop_last(), now);
        if has_finished(before, crossing.last()) {
            before
        } else {
            before.push((crossing.last(), now))
        }
    }
}

/// No marble finishes twice.
pub open spec fn no_repeat_finishers(finishers: Seq<(usize, u64)>) -> bool {
    forall|i: int, j: int|
        0 <= i < j < finishers.len() ==> (#[trigger] finishers[i]).0 != (#[trigger] finishers[j]).0
}

impl RaceResult {
    /// Nobody has finished.
    pub fn new() -> (r: RaceResult)
        ensures
            r.finishers@.len() == 0,
    {
        RaceResult { finishers: Vec::new() }
    }
}

/// Whether `marble` is among the finishers.
fn finished(finishers: &Vec<(usize, u64)>, marble: usize) -> (r: bool)
    ensures
        r == has_finished(finishers@, marble),
{
    let mut i: usize = 0;
    while i < finishers.len()
        invariant
            i <= finishers.len(),
            forall|j: int| 0 <= j < i ==> (#[trigger] finishers@[j]).0 != marble,
        decreases finishers.len() - i,
    {
        if finishers[i].0 == marble {
            return true;
        }
        i += 1;
    }
    false
}

/// Records the marbles seen over the finish line at race time `now` (those at or below
/// the line, in the order they were examined): each that has not finished yet finishes
/// now. Returns the new finishers, in order.
pub fn check_finish_crossing(result: &mut RaceResult, crossing: &Vec<usize>, now: u64) -> (fresh:
    Vec<usize>)
    ensures
        final(result).finishers@ == record_crossings(old(result).finishers@, crossing@, now),
        final(result).finishers@ == old(result).finishers@ + fresh@.map_values(
            |m: usize| (m, now),
        ),
{
    let mut fresh: Vec<usize> = Vec::new();
    let mut i: usize = 0;
    assert(crossing@.take(0) =~= Seq::<usize>::empty());
    assert(old(result).finishers@ + fresh@.map_values(|m: usize| (m, now)) =~= old(
        result,
    ).finishers@);
    while i < crossing.len()
        invariant
            i <= crossing.len(),
            result.finishers@ == record_crossings(old(result).finishers@, crossing@.take(i as int), now),
            result.finishers@ == old(result).finishers@ + fresh@.map_values(|m: usize| (m, now)),
        decreases crossing.len() - i,
    {
        let marble = crossing[i];
        assert(crossing@.take(i + 1).drop_last() =~= crossing@.take(i as int));
        if !finished(&result.finishers, marble) {
            result.finishers.push((marble, now));
            fresh.push(marble);
            assert(result.finishers@ =~= old(result).finishers@ + fresh@.map_values(
                |m: usize| (m, now),
            ));
        }
        i += 1;
    }
    assert(crossing@.take(crossing.len() as int) =~= crossing@);
    fresh
}

/// Recording crossings keeps the earlier finishers and their order, never lets a marble
/// finish twice, and leaves every marble seen over the line among the finishers.
pub proof fn law_finish_order_is_kept(finishers: Seq<(usize, u64)>, crossing: Seq<usize>, now: u64)
    requires
        no_repeat_finishers(finishers),
    ensures
        ({
            let after = record_crossings(finishers, crossing, now);
            &&& after.len() >= finishers.len()
            &&& after.take(finishers.len() as int) == finishers
            &&& no_repeat_finishers(after)
            &&& forall|k: int| 0 <= k < crossing.len() ==> has_finished(after, #[trigger] crossing[k])
        }),
    decreases crossing.len(),
{
    if crossing.len() > 0 {
        let front = crossing.drop_last();
        law_finish_order_is_kept(finishers, front, now);
        let before = record_crossings(finishers, front, now);
        let after = record_crossings(finishers, crossing, now);
        if !has_finished(before, crossing.last()) {
            assert(after.take(finishers.len() as int) =~= before.take(finishers.len() as int));
            assert forall|i: int, j: int| 0 <= i < j < after.len() implies (#[trigger] after[i]).0 != (#[trigger] after[j]).0 by {
                if j == after.len() - 1 {
                    assert(after[i] == before[i]);
                }
            }
        }
        assert forall|k: int| 0 <= k < crossing.len() implies has_finished(after, #[trigger] crossing[k]) by {
            if k < front.len() {
                assert(crossing[k] == front[k]);
                assert(has_finished(before, front[k]));
                let i = choose|i: int| 0 <= i < before.len() && (#[trigger] before[i]).0 == front[k];
                assert(after[i] == before[i]);
            } else {
                if !has_finished(before, crossing.last()) {
                    assert(after[after.len() - 1].0 == crossing.last());
                }
            }
        }
    }
}

// ---------------------------------------------------------------------------
// Swapping places
// ---------------------------------------------------------------------------

/// Whether entry `j` is another marble ahead of the target (lower key).
pub open spec fn is_ahead(all: Seq<(usize, i64)>, target: usize, target_key: i64, j: int) -> bool {
    all[j].0 != target && all[j].1 < target_key
}

/// Whether entry `j` is another marble behind the target (higher key).
pub open spec fn is_behind(all: Seq<(usize, i64)>, target: usize, target_key: i64, j: int) -> bool {
    all[j].0 != target && all[j].1 > target_key
}

/// Whether entry `i` is a swap partner for the target at height `target_key`: the marble
/// right ahead of it (highest key below the target's; the last of them on a tie, as
/// `Iterator::max_by` picks it), or, when none is ahead, the marble right behind it
/// (lowest key above the target's; the first on a tie, as `Iterator::min_by` picks it).
pub open spec fn is_swap_partner(all: Seq<(usize, i64)>, target: usize, target_key: i64, i: int) -> bool {
    &&& 0 <= i < all.len()
    &&& if exists|j: int| 0 <= j < all.len() && #[trigger] is_ahead(all, target, target_key, j) {
        &&& is_ahead(all, target, target_key, i)
        &&& forall|j: int| 0 <= j < all.len() && #[trigger] is_ahead(all, target, target_key, j) ==> all[j].1 <= all[i].1
        &&& forall|j: int| i < j < all.len() && #[trigger] is_ahead(all, target, target_key, j) ==> all[j].1 < all[i].1
    } else {
        &&& is_behind(all, target, target_key, i)
        &&& forall|j: int| 0 <= j < all.len() && #[trigger] is_behind(all, target, target_key, j) ==> all[i].1 <= all[j].1
        &&& forall|j: int| 0 <= j < i && #[trigger] is_behind(all, target, target_key, j) ==> all[i].1 < all[j].1
    }
}

/// The marble a swap sensor trades the target's place with: the one right ahead of it,
/// or else the one right behind it; none when every other marble is level with it.
pub fn find_swap_partner(target: usize, target_key: i64, all: &Vec<(usize, i64)>) -> (r: Option<
    (usize, i64),
>)
    ensures
        match r {
            Some(p) => exists|i: int| is_swap_partner(all@, target, target_key, i) && all@[i] == p,
            None => forall|j: int|
                0 <= j < all.len() && (#[trigger] all@[j]).0 != target ==> all@[j].1 == target_key,
        },
{
    let ghost a_s = all@;
    let mut ahead: Option<usize> = None;
    let mut i: usize = 0;
    while i < all.len()
        invariant
            i <= all.len(),
            a_s == all@,
            match ahead {
                Some(a) => a < i && is_ahead(a_s, target, target_key, a as int) && (forall|j: int|
                    0 <= j < i && #[trigger] is_ahead(a_s, target, target_key, j) ==> a_s[j].1
                        <= a_s[a as int].1) && (forall|j: int|
                    a < j < i && #[trigger] is_ahead(a_s, target, target_key, j) ==> a_s[j].1
                        < a_s[a as int].1),
                None => forall|j: int| 0 <= j < i ==> !#[trigger] is_ahead(a_s, target, target_key, j),
            },
        decreases all.len() - i,
    {
        if all[i].0 != target && all[i].1 < target_key {
            match ahead {
                Some(a) => {
                    if all[i].1 >= all[a].1 {
                        ahead = Some(i);
                    }
                },
                None => {
                    ahead = Some(i);
                },
            }
        }
        i += 1;
    }
    if let Some(a) = ahead {
        assert(is_swap_partner(a_s, target, target_key, a as int));
        return Some(all[a]);
    }
    let mut behind: Option<usize> = None;
    let mut k: usize = 0;
    while k < all.len()
        invariant
            k <= all.len(),
            a_s == all@,
            forall|j: int| 0 <= j < all.len() ==> !#[trigger] is_ahead(a_s, target, target_key, j),
            match behind {
                Some(b) => b < k && is_behind(a_s, target, target_key, b as int) && (forall|j: int|
                    0 <= j < k && #[trigger] is_behind(a_s, target, target_key, j) ==> a_s[b as int].1
                        <= a_s[j].1) && (forall|j: int|
                    0 <= j < b && #[trigger] is_behind(a_s, target, target_key, j) ==> a_s[b as int].1
                        < a_s[j].1),
                None => forall|j: int| 0 <= j < k ==> !#[trigger] is_behind(a_s, target, target_key, j),
            },
        decreases all.len() - k,
    {
        if all[k].0 != target && all[k].1 > target_key {
            match behind {
                Some(b) => {
                    if all[k].1 < all[b].1 {
                        behind = Some(k);
                    }
                },
                None => {
                    behind = Some(k);
                },
            }
        }
        k += 1;
    }
    match behind {
        Some(b) => {
            assert(is_swap_partner(a_s, target, target_key, b as int));
            Some(all[b])
        },
        None => {
            assert forall|j: int| 0 <= j < all.len() && (#[trigger] a_s[j]).0 != target implies a_s[j].1 == target_key by {
                assert(!is_ahead(a_s, target, target_key, j));
                assert(!is_behind(a_s, target, target_key, j));
            }
            None
        },
    }
}

} // verus!
