//! The leader track of a race: who leads from when to when, as segments of race time,
//! for the narration. Times are microseconds of race time.
use vstd::prelude::*;

use crate::text::text_eq;

verus! {

/// How short (in microseconds) a lead during the start may be before it counts as
/// solver jitter rather than a real lead.
pub const GHOST_MAX_MICROS: u64 = 90_000;

/// How long (in microseconds) the start lasts, during which short leads are filtered.
pub const INTRO_MICROS: u64 = 2_000_000;

/// One stretch of the race during which one marble leads.
pub struct RaceSegment {
    pub leader: String,
    pub start_micros: u64,
    pub end_micros: u64,
}

/// A segment as a value: leader, start, end.
pub type Seg = (Seq<char>, u64, u64);

pub open spec fn seg_of(s: RaceSegment) -> Seg {
    (s.leader@, s.start_micros, s.end_micros)
}

/// The segments of a vector, as values.
pub open spec fn segs_of(v: Seq<RaceSegment>) -> Seq<Seg> {
    v.map_values(|s: RaceSegment| seg_of(s))
}

// ---------------------------------------------------------------------------
// Cleaning the start of the race
// ---------------------------------------------------------------------------

/// Whether a segment is a ghost: it starts during the intro and lasts less than `min`.
pub open spec fn is_ghost(seg: Seg, min: u64, intro: u64) -> bool {
    seg.1 < intro && (seg.2 as int) - (seg.1 as int) < min as int
}

/// One step of cleaning: a ghost's time goes to the segment before it (or, before any
/// real lead, is held back to become the start of the first real lead); a real lead
/// extends the previous segment when it has the same leader, and is appended otherwise.
pub open spec fn clean_step(
    state: (Seq<Seg>, Option<u64>),
    seg: Seg,
    min: u64,
    intro: u64,
) -> (Seq<Seg>, Option<u64>) {
    let (cleaned, unclaimed) = state;
    if is_ghost(seg, min, intro) {
        if cleaned.len() > 0 {
            let last = cleaned.last();
            (cleaned.update(cleaned.len() - 1, (last.0, last.1, seg.2)), unclaimed)
        } else {
            (cleaned, if unclaimed is Some { unclaimed } else { Some(seg.1) })
        }
    } else {
        let start = match unclaimed {
            Some(s) => s,
            None => seg.1,
        };
        if cleaned.len() > 0 && cleaned.last().0 == seg.0 {
            let last = cleaned.last();
            (cleaned.update(cleaned.len() - 1, (last.0, last.1, seg.2)), None)
        } else {
            (cleaned.push((seg.0, start, seg.2)), None)
        }
    }
}

/// The state after cleaning the segments in order.
pub open spec fn clean_fold(segs: Seq<Seg>, min: u64, intro: u64) -> (Seq<Seg>, Option<u64>)
    decreases segs.len(),
{
    if segs.len() == 0 {
        (Seq::<Seg>::empty(), None)
    } else {
        clean_step(clean_fold(segs.drop_last(), min, intro), segs.last(), min, intro)
    }
}

/// The segments with the start-of-race ghosts cleaned away.
pub open spec fn spec_clean(segs: Seq<Seg>, min: u64, intro: u64) -> Seq<Seg> {
    clean_fold(segs, min, intro).0
}

/// Replaces the end of the last segment of `v`.
fn extend_last(v: &mut Vec<RaceSegment>, end_micros: u64)
    requires
        old(v).len() > 0,
    ensures
        segs_of(final(v)@) == segs_of(old(v)@).update(
            old(v).len() - 1,
            (old(v)@.last().leader@, old(v)@.last().start_micros, end_micros),
        ),
{
    let mut last = v.pop().unwrap();
    last.end_micros = end_micros;
    v.push(last);
    assert(segs_of(v@) =~= segs_of(old(v)@).update(
        old(v).len() - 1,
        (old(v)@.last().leader@, old(v)@.last().start_micros, end_micros),
    ));
}

/// Cleans the start of the race: during the first `intro_micros`, a lead that lasts less
/// than `min_micros` is jitter of the falling cluster; its time goes to whoever led
/// before. Past the intro nothing is filtered. Consecutive segments of one leader merge.
pub fn clean_ghost_segments(segments: Vec<RaceSegment>, min_micros: u64, intro_micros: u64) -> (r:
    Vec<RaceSegment>)
    ensures
        segs_of(r@) == spec_clean(segs_of(segments@), min_micros, intro_micros),
{
    let ghost input = segs_of(segments@);
    let mut cleaned: Vec<RaceSegment> = Vec::new();
    let mut unclaimed: Option<u64> = None;
    let mut i: usize = 0;
    assert(input.take(0) =~= Seq::<Seg>::empty());
    assert(segs_of(cleaned@) =~= Seq::<Seg>::empty());
    while i < segments.len()
        invariant
            i <= segments.len(),
            input == segs_of(segments@),
            (segs_of(cleaned@), unclaimed) == clean_fold(input.take(i as int), min_micros, intro_micros),
        decreases segments.len() - i,
    {
        let seg = &segments[i];
        assert(input.take(i + 1).drop_last() =~= input.take(i as int));
        assert(input.take(i + 1).last() == seg_of(*seg));
        let in_intro = seg.start_micros < intro_micros;
        let short = seg.end_micros < seg.start_micros || seg.end_micros - seg.start_micros
            < min_micros;
        if in_intro && short {
            if cleaned.len() > 0 {
                extend_last(&mut cleaned, seg.end_micros);
            } else if unclaimed.is_none() {
                unclaimed = Some(seg.start_micros);
            }
        } else {
            let start = match unclaimed {
                Some(s) => s,
                None => seg.start_micros,
            };
            unclaimed = None;
            if cleaned.len() > 0 && text_eq(
                cleaned[cleaned.len() - 1].leader.as_str(),
                seg.leader.as_str(),
            ) {
                extend_last(&mut cleaned, seg.end_micros);
            } else {
                let ghost before = cleaned@;
                cleaned.push(
                    RaceSegment {
                        leader: seg.leader.clone(),
                        start_micros: start,
                        end_micros: seg.end_micros,
                    },
                );
                assert(segs_of(cleaned@) =~= segs_of(before).push(
                    (seg.leader@, start, seg.end_micros),
                ));
            }
        }
        i += 1;
    }
    assert(input.take(segments.len() as int) =~= input);
    cleaned
}

// ---------------------------------------------------------------------------
// What cleaning keeps
// ---------------------------------------------------------------------------

/// No two consecutive segments have the same leader.
pub open spec fn leaders_alternate(s: Seq<Seg>) -> bool {
    forall|i: int| 0 <= i < s.len() - 1 ==> (#[trigger] s[i]).0 != s[i + 1].0
}

/// Each segment ends where the next one starts.
pub open spec fn is_contiguous(s: Seq<Seg>) -> bool {
    forall|i: int| 0 <= i < s.len() - 1 ==> (#[trigger] s[i]).2 == s[i + 1].1
}

/// Whether `leader` leads some segment of `segs` that is not a ghost.
pub open spec fn leads_for_real(segs: Seq<Seg>, leader: Seq<char>, min: u64, intro: u64) -> bool {
    exists|i: int| 0 <= i < segs.len() && !is_ghost(segs[i], min, intro) && (#[trigger] segs[i]).0 == leader
}

proof fn lemma_clean_fold(segs: Seq<Seg>, min: u64, intro: u64)
    ensures
        ({
            let (c, u) = clean_fold(segs, min, intro);
            &&& c.len() <= segs.len()
            &&& leaders_alternate(c)
            &&& forall|j: int| 0 <= j < c.len() ==> leads_for_real(segs, (#[trigger] c[j]).0, min, intro)
            &&& c.len() > 0 ==> u is None
            &&& (is_contiguous(segs) && segs.len() > 0) ==> {
                &&& c.len() == 0 ==> u == Some(segs[0].1)
                &&& c.len() > 0 ==> is_contiguous(c) && c[0].1 == segs[0].1 && c.last().2
                    == segs.last().2
            }
        }),
    decreases segs.len(),
{
    if segs.len() > 0 {
        let front = segs.drop_last();
        let seg = segs.last();
        lemma_clean_fold(front, min, intro);
        let (c0, u0) = clean_fold(front, min, intro);
        let (c, u) = clean_fold(segs, min, intro);
        assert forall|j: int| 0 <= j < c.len() implies leads_for_real(segs, (#[trigger] c[j]).0, min, intro) by {
            if j < c0.len() {
                assert(c[j].0 == c0[j].0);
                assert(leads_for_real(front, c0[j].0, min, intro));
                let i = choose|i: int| 0 <= i < front.len() && !is_ghost(front[i], min, intro) && (#[trigger] front[i]).0 == c0[j].0;
                assert(segs[i] == front[i]);
            } else {
                assert(segs[segs.len() - 1] == seg);
            }
        }
        if is_contiguous(segs) {
            assert(is_contiguous(front)) by {
                assert forall|i: int| 0 <= i < front.len() - 1 implies (#[trigger] front[i]).2 == front[i + 1].1 by {
                    assert(segs[i] == front[i] && segs[i + 1] == front[i + 1]);
                }
            }
            if front.len() > 0 {
                assert(segs[front.len() - 1] == front.last());
                assert(front.last().2 == seg.1);
                assert(front[0] == segs[0]);
            }
        }
    }
}

/// Cleaning never lengthens the track.
pub proof fn law_clean_never_grows(segs: Seq<Seg>, min: u64, intro: u64)
    ensures
        spec_clean(segs, min, intro).len() <= segs.len(),
{
    lemma_clean_fold(segs, min, intro);
}

/// After cleaning, consecutive segments always have different leaders.
pub proof fn law_clean_leaders_alternate(segs: Seq<Seg>, min: u64, intro: u64)
    ensures
        leaders_alternate(spec_clean(segs, min, intro)),
{
    lemma_clean_fold(segs, min, intro);
}

/// A ghost never gets to lead: every leader of the cleaned track leads some input
/// segment that is not a ghost.
pub proof fn law_clean_only_real_leaders(segs: Seq<Seg>, min: u64, intro: u64)
    ensures
        forall|j: int|
            0 <= j < spec_clean(segs, min, intro).len() ==> leads_for_real(
                segs,
                (#[trigger] spec_clean(segs, min, intro)[j]).0,
                min,
                intro,
            ),
{
    lemma_clean_fold(segs, min, intro);
}

/// Cleaning a contiguous track keeps it contiguous and keeps its span: the cleaned
/// track starts where the input starts and ends where it ends (unless every segment
/// was a ghost, and nothing is left).
pub proof fn law_clean_keeps_timeline(segs: Seq<Seg>, min: u64, intro: u64)
    requires
        is_contiguous(segs),
        segs.len() > 0,
    ensures
        ({
            let c = spec_clean(segs, min, intro);
            c.len() > 0 ==> is_contiguous(c) && c[0].1 == segs[0].1 && c.last().2 == segs.last().2
        }),
{
    lemma_clean_fold(segs, min, intro);
}

/// The leaders of the segments that are not ghosts, in order, a leader that follows
/// itself counted once.
pub open spec fn real_leaders(segs: Seq<Seg>, min: u64, intro: u64) -> Seq<Seq<char>>
    decreases segs.len(),
{
    if segs.len() == 0 {
        Seq::<Seq<char>>::empty()
    } else {
        let r = real_leaders(segs.drop_last(), min, intro);
        let seg = segs.last();
        if is_ghost(seg, min, intro) || (r.len() > 0 && r.last() == seg.0) {
            r
        } else {
            r.push(seg.0)
        }
    }
}

/// The leader of each segment, in order.
pub open spec fn leaders_of(segs: Seq<Seg>) -> Seq<Seq<char>> {
    segs.map_values(|seg: Seg| seg.0)
}

proof fn lemma_real_leaders_not_empty(segs: Seq<Seg>, min: u64, intro: u64, i: int)
    requires
        0 <= i < segs.len(),
        !is_ghost(segs[i], min, intro),
    ensures
        real_leaders(segs, min, intro).len() > 0,
    decreases segs.len(),
{
    if i < segs.len() - 1 {
        assert(segs.drop_last()[i] == segs[i]);
        lemma_real_leaders_not_empty(segs.drop_last(), min, intro, i);
    }
}

/// Cleaning keeps exactly the real leads: the leaders of the cleaned track are the
/// leaders of the segments that are not ghosts, a leader that follows itself counted
/// once; and the cleaned track is not empty as soon as one segment is not a ghost.
pub proof fn law_clean_leaders_are_the_real_ones(segs: Seq<Seg>, min: u64, intro: u64)
    ensures
        leaders_of(spec_clean(segs, min, intro)) == real_leaders(segs, min, intro),
        (exists|i: int| 0 <= i < segs.len() && !is_ghost(#[trigger] segs[i], min, intro))
            ==> spec_clean(segs, min, intro).len() > 0,
    decreases segs.len(),
{
    if segs.len() > 0 {
        let front = segs.drop_last();
        law_clean_leaders_are_the_real_ones(front, min, intro);
        let c = clean_fold(front, min, intro).0;
        let seg = segs.last();
        let r = real_leaders(front, min, intro);
        assert(leaders_of(c) == r);
        let after = spec_clean(segs, min, intro);
        if c.len() > 0 {
            assert(r.last() == c.last().0);
            let updated = c.update(c.len() - 1, (c.last().0, c.last().1, seg.2));
            assert(leaders_of(updated) =~= leaders_of(c));
        }
        if !(is_ghost(seg, min, intro) || (c.len() > 0 && c.last().0 == seg.0)) {
            let start = after.last().1;
            assert(leaders_of(c.push((seg.0, start, seg.2))) =~= leaders_of(c).push(seg.0));
        }
        assert(leaders_of(after) =~= real_leaders(segs, min, intro));
        if exists|i: int| 0 <= i < segs.len() && !is_ghost(#[trigger] segs[i], min, intro) {
            let i = choose|i: int| 0 <= i < segs.len() && !is_ghost(#[trigger] segs[i], min, intro);
            lemma_real_leaders_not_empty(segs, min, intro, i);
            assert(leaders_of(after).len() == after.len());
        }
    }
}

/// A track with no ghosts whose consecutive leaders already differ is left unchanged.
pub proof fn law_clean_keeps_clean_tracks(segs: Seq<Seg>, min: u64, intro: u64)
    requires
        forall|i: int| 0 <= i < segs.len() ==> !is_ghost(#[trigger] segs[i], min, intro),
        leaders_alternate(segs),
    ensures
        spec_clean(segs, min, intro) == segs,
    decreases segs.len(),
{
    if segs.len() > 0 {
        let front = segs.drop_last();
        assert forall|i: int| 0 <= i < front.len() implies !is_ghost(#[trigger] front[i], min, intro) by {
            assert(front[i] == segs[i]);
        }
        assert(leaders_alternate(front)) by {
            assert forall|i: int| 0 <= i < front.len() - 1 implies (#[trigger] front[i]).0 != front[i + 1].0 by {
                assert(front[i] == segs[i] && front[i + 1] == segs[i + 1]);
            }
        }
        law_clean_keeps_clean_tracks(front, min, intro);
        lemma_clean_fold(front, min, intro);
        assert(!is_ghost(segs[segs.len() - 1], min, intro));
        if front.len() > 0 {
            assert(front.last() == segs[segs.len() - 2]);
        }
        let seg = segs.last();
        assert(front.push((seg.0, seg.1, seg.2)) =~= segs);
    }
}

// ---------------------------------------------------------------------------
// The tracker
// ---------------------------------------------------------------------------

/// Follows the race leader and records each stretch of a lead as a segment.
pub struct VoiceTracker {
    segments: Vec<RaceSegment>,
    current_leader: Option<String>,
    current_leader_start: u64,
}

/// The tracker as a value: closed segments, the leader now singing, and since when.
pub struct TrackerView {
    pub segments: Seq<Seg>,
    pub current_leader: Option<Seq<char>>,
    pub current_start: u64,
}

impl View for VoiceTracker {
    type V = TrackerView;

    closed spec fn view(&self) -> TrackerView {
        TrackerView {
            segments: segs_of(self.segments@),
            current_leader: match self.current_leader {
                Some(l) => Some(l@),
                None => None,
            },
            current_start: self.current_leader_start,
        }
    }
}

/// A well-kept track: the closed segments meet end to start and change leader each time;
/// when there are closed segments, a leader is singing now, another than the last one,
/// since the last segment's end.
pub open spec fn tracker_wf(t: TrackerView) -> bool {
    &&& is_contiguous(t.segments)
    &&& leaders_alternate(t.segments)
    &&& t.segments.len() > 0 ==> (t.current_leader matches Some(l) && l != t.segments.last().0
        && t.current_start == t.segments.last().2)
}

/// The segments when the current lead closes at `now`.
pub open spec fn closed_segments(t: TrackerView, now: u64) -> Seq<Seg> {
    match t.current_leader {
        Some(l) => t.segments.push((l, t.current_start, now)),
        None => t.segments,
    }
}

/// The view of an optional leader name.
pub open spec fn leader_view(leader: Option<String>) -> Option<Seq<char>> {
    match leader {
        Some(l) => Some(l@),
        None => None,
    }
}

impl VoiceTracker {
    /// Every tracker is well kept.
    #[verifier::type_invariant]
    spec fn well_kept(self) -> bool {
        tracker_wf(self@)
    }

    /// An empty tracker: no segments, nobody singing.
    pub fn new() -> (t: VoiceTracker)
        ensures
            t@.segments.len() == 0,
            t@.current_leader is None,
            t@.current_start == 0,
            tracker_wf(t@),
    {
        let t = VoiceTracker { segments: Vec::new(), current_leader: None, current_leader_start: 0 };
        assert(t@.segments =~= Seq::<Seg>::empty());
        t
    }

    /// The closed segments.
    pub fn segments(&self) -> (s: &Vec<RaceSegment>)
        ensures
            segs_of(s@) == self@.segments,
    {
        &self.segments
    }

    /// Whether `new_leader` is not the leader singing now.
    fn leader_changed(&self, new_leader: &str) -> (r: bool)
        ensures
            r == !(self@.current_leader == Some(new_leader@)),
    {
        match &self.current_leader {
            Some(current) => !text_eq(current.as_str(), new_leader),
            None => true,
        }
    }

    /// Takes the closed segments and the current leader out, leaving no segments and
    /// nobody singing.
    fn take_all(&mut self) -> (r: (Vec<RaceSegment>, Option<String>))
        ensures
            segs_of(r.0@) == old(self)@.segments,
            leader_view(r.1) == old(self)@.current_leader,
            final(self)@.segments.len() == 0,
            final(self)@.current_leader is None,
            final(self)@.current_start == old(self)@.current_start,
    {
        let mut segments: Vec<RaceSegment> = Vec::new();
        std::mem::swap(&mut segments, &mut self.segments);
        let mut leader: Option<String> = None;
        std::mem::swap(&mut leader, &mut self.current_leader);
        (segments, leader)
    }
}

/// Ends the lead of `leader` (singing since `start`) at `now`: the segments with that
/// lead appended; the segments unchanged when nobody is singing.
fn close_current_segment(
    segments: Vec<RaceSegment>,
    leader: Option<String>,
    start: u64,
    now: u64,
) -> (closed: Vec<RaceSegment>)
    ensures
        segs_of(closed@) == closed_segments(
            TrackerView {
                segments: segs_of(segments@),
                current_leader: leader_view(leader),
                current_start: start,
            },
            now,
        ),
{
    let mut segments = segments;
    match leader {
        Some(leader) => {
            let ghost before = segments@;
            let ghost l = leader@;
            segments.push(RaceSegment { leader, start_micros: start, end_micros: now });
            assert(segs_of(segments@) =~= segs_of(before).push((l, start, now)));
        },
        None => {},
    }
    segments
}

/// Records the race leader at race time `now`: when the leader differs from the one
/// singing, the current lead closes at `now` and the new leader's lead opens at `now`.
pub fn track_race_leader(tracker: &mut VoiceTracker, leader: &str, now: u64)
    ensures
        tracker_wf(final(tracker)@),
        final(tracker)@.current_leader == Some(leader@),
        old(tracker)@.current_leader == Some(leader@) ==> final(tracker)@ == old(tracker)@,
        old(tracker)@.current_leader != Some(leader@) ==> {
            &&& final(tracker)@.segments == closed_segments(old(tracker)@, now)
            &&& final(tracker)@.current_start == now
        },
{
    proof {
        use_type_invariant(&*tracker);
    }
    if tracker.leader_changed(leader) {
        let ghost before = tracker@;
        let start = tracker.current_leader_start;
        let (segments, current) = tracker.take_all();
        let segments = close_current_segment(segments, current, start, now);
        proof {
            let segs = segs_of(segments@);
            assert(segs == closed_segments(before, now));
            if let Some(l) = before.current_leader {
                assert(segs.last() == (l, before.current_start, now));
                assert(segs.drop_last() =~= before.segments);
                assert forall|i: int| 0 <= i < segs.len() - 1 implies (#[trigger] segs[i]).2 == segs[i + 1].1 by {
                    if i < segs.len() - 2 {
                        assert(segs[i] == before.segments[i] && segs[i + 1] == before.segments[i + 1]);
                    } else {
                        assert(segs[i] == before.segments.last());
                    }
                }
                assert forall|i: int| 0 <= i < segs.len() - 1 implies (#[trigger] segs[i]).0 != segs[i + 1].0 by {
                    if i < segs.len() - 2 {
                        assert(segs[i] == before.segments[i] && segs[i + 1] == before.segments[i + 1]);
                    } else {
                        assert(segs[i] == before.segments.last());
                    }
                }
            }
        }
        *tracker = VoiceTracker {
            segments,
            current_leader: Some(String::from_str(leader)),
            current_leader_start: now,
        };
    }
    proof {
        use_type_invariant(&*tracker);
    }
}

/// Ends the race at time `now`: closes the current lead, takes every segment out of
/// the tracker, and returns them with the start-of-race ghosts cleaned.
pub fn save_voice_tracker_on_exit(tracker: &mut VoiceTracker, now: u64) -> (r: Vec<RaceSegment>)
    ensures
        segs_of(r@) == spec_clean(closed_segments(old(tracker)@, now), GHOST_MAX_MICROS, INTRO_MICROS),
        final(tracker)@.segments.len() == 0,
        final(tracker)@.current_leader is None,
        tracker_wf(final(tracker)@),
{
    let start = tracker.current_leader_start;
    let (segments, current) = tracker.take_all();
    let segments = close_current_segment(segments, current, start, now);
    proof {
        use_type_invariant(&*tracker);
    }
    clean_ghost_segments(segments, GHOST_MAX_MICROS, INTRO_MICROS)
}

/// The segments of a well-kept tracker, once its current lead closes at `now`, meet end
/// to start and change leader at each boundary.
pub proof fn law_tracker_tiles_the_race(t: TrackerView, now: u64)
    requires
        tracker_wf(t),
    ensures
        is_contiguous(closed_segments(t, now)),
        leaders_alternate(closed_segments(t, now)),
{
    let segs = closed_segments(t, now);
    if let Some(l) = t.current_leader {
        assert forall|i: int| 0 <= i < segs.len() - 1 implies (#[trigger] segs[i]).2 == segs[i + 1].1 by {
            if i < segs.len() - 2 {
                assert(segs[i] == t.segments[i] && segs[i + 1] == t.segments[i + 1]);
            } else {
                assert(segs[i] == t.segments.last());
            }
        }
        assert forall|i: int| 0 <= i < segs.len() - 1 implies (#[trigger] segs[i]).0 != segs[i + 1].0 by {
            if i < segs.len() - 2 {
                assert(segs[i] == t.segments[i] && segs[i + 1] == t.segments[i + 1]);
            } else {
                assert(segs[i] == t.segments.last());
            }
        }
    }
}

} // verus!
