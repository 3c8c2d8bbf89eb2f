//! The event track written while a race is baked and read back when it is replayed:
//! one line of white-space separated tokens per event. Writing (`payload`) and reading
//! (`try_parse`) live together, so the format has a single definition.
//!
//! Marble indices and module seeds are integers the library reads and writes itself.
//! Positions, durations and amplitudes are `f32` quantities; the library carries them
//! as the text that stands for them, accepts a line only when that text reads as an
//! `f32`, and leaves the conversion to the caller.
use vstd::prelude::*;

use crate::float_text::{is_float, is_float_text, lemma_float_text_has_no_space};
use crate::text::{
    decimal, is_white_space, parse_u64, parse_unsigned, parse_usize, push_decimal,
    split_whitespace, text_eq, texts, ws_tokens,
};

verus! {

/// An event of the track. Fields of `String` type hold the decimal text of an `f32`.
pub enum BakedEvent {
    Freeze { marble: usize, x: String, y: String, duration: String },
    Shrink { marble: usize, x: String, y: String, duration: String },
    Swap { marble_a: usize, marble_b: usize, x: String, y: String },
    Bouncy { x: String, y: String, amplitude: String },
    Module { name: String, top: String, seed: u64 },
    Finish { top: String },
}

/// The tokens of an event's line.
pub open spec fn event_tokens(e: BakedEvent) -> Seq<Seq<char>> {
    match e {
        BakedEvent::Freeze { marble, x, y, duration } => seq![
            "freeze"@,
            decimal(marble as nat),
            x@,
            y@,
            duration@,
        ],
        BakedEvent::Shrink { marble, x, y, duration } => seq![
            "shrink"@,
            decimal(marble as nat),
            x@,
            y@,
            duration@,
        ],
        BakedEvent::Swap { marble_a, marble_b, x, y } => seq![
            "swap"@,
            decimal(marble_a as nat),
            decimal(marble_b as nat),
            x@,
            y@,
        ],
        BakedEvent::Bouncy { x, y, amplitude } => seq!["bouncy"@, x@, y@, amplitude@],
        BakedEvent::Module { name, top, seed } => seq!["module"@, name@, top@, decimal(seed as nat)],
        BakedEvent::Finish { top } => seq!["finish"@, top@],
    }
}

/// The tokens joined by single spaces.
pub open spec fn join_tokens(t: Seq<Seq<char>>) -> Seq<char>
    decreases t.len(),
{
    if t.len() == 0 {
        Seq::<char>::empty()
    } else if t.len() == 1 {
        t[0]
    } else {
        join_tokens(t.drop_last()) + seq![' '] + t.last()
    }
}

/// The line an event is written as.
pub open spec fn spec_payload(e: BakedEvent) -> Seq<char> {
    join_tokens(event_tokens(e))
}

/// Whether `n` is the `usize` that the token reads as.
pub open spec fn reads_usize(token: Seq<char>, n: usize) -> bool {
    parse_unsigned(token, usize::MAX as nat) == Some(n as nat)
}

/// Whether a token reads as a `usize`.
pub open spec fn is_usize_text(token: Seq<char>) -> bool {
    parse_unsigned(token, usize::MAX as nat) is Some
}

/// Whether a line's tokens form an event: a known keyword, the right number of tokens,
/// integer fields that read as integers and `f32` fields that read as `f32`s.
pub open spec fn is_event_line(t: Seq<Seq<char>>) -> bool {
    ||| t.len() == 5 && (t[0] == "freeze"@ || t[0] == "shrink"@) && is_usize_text(t[1])
        && is_float_text(t[2]) && is_float_text(t[3]) && is_float_text(t[4])
    ||| t.len() == 5 && t[0] == "swap"@ && is_usize_text(t[1]) && is_usize_text(t[2])
        && is_float_text(t[3]) && is_float_text(t[4])
    ||| t.len() == 4 && t[0] == "bouncy"@ && is_float_text(t[1]) && is_float_text(t[2])
        && is_float_text(t[3])
    ||| t.len() == 4 && t[0] == "module"@ && is_float_text(t[2]) && parse_unsigned(
        t[3],
        u64::MAX as nat,
    ) is Some
    ||| t.len() == 2 && t[0] == "finish"@ && is_float_text(t[1])
}

/// Whether `e` is the event that the tokens `t` spell.
pub open spec fn read_as(t: Seq<Seq<char>>, e: BakedEvent) -> bool {
    match e {
        BakedEvent::Freeze { marble, x, y, duration } => t.len() == 5 && t[0] == "freeze"@
            && reads_usize(t[1], marble) && x@ == t[2] && y@ == t[3] && duration@ == t[4],
        BakedEvent::Shrink { marble, x, y, duration } => t.len() == 5 && t[0] == "shrink"@
            && reads_usize(t[1], marble) && x@ == t[2] && y@ == t[3] && duration@ == t[4],
        BakedEvent::Swap { marble_a, marble_b, x, y } => t.len() == 5 && t[0] == "swap"@
            && reads_usize(t[1], marble_a) && reads_usize(t[2], marble_b) && x@ == t[3] && y@
            == t[4],
        BakedEvent::Bouncy { x, y, amplitude } => t.len() == 4 && t[0] == "bouncy"@ && x@
            == t[1] && y@ == t[2] && amplitude@ == t[3],
        BakedEvent::Module { name, top, seed } => t.len() == 4 && t[0] == "module"@ && name@
            == t[1] && top@ == t[2] && parse_unsigned(t[3], u64::MAX as nat) == Some(seed as nat),
        BakedEvent::Finish { top } => t.len() == 2 && t[0] == "finish"@ && top@ == t[1],
    }
}

/// Whether two events carry the same kind and the same field values.
pub open spec fn same_event(a: BakedEvent, b: BakedEvent) -> bool {
    event_tokens(a) == event_tokens(b)
}

/// Appends a token, preceded by a space.
fn push_token(line: &mut String, token: &str)
    ensures
        final(line)@ == old(line)@ + seq![' '] + token@,
{
    line.push(' ');
    line.append(token);
}

/// Appends a decimal number token, preceded by a space.
fn push_number_token(line: &mut String, n: u64)
    ensures
        final(line)@ == old(line)@ + seq![' '] + decimal(n as nat),
{
    line.push(' ');
    push_decimal(line, n);
    assert(final(line)@ =~= old(line)@ + seq![' '] + decimal(n as nat));
}

impl BakedEvent {
    /// The line this event is written as.
    pub fn payload(&self) -> (line: String)
        ensures
            line@ == spec_payload(*self),
    {
        let mut line = String::new();
        match self {
            BakedEvent::Freeze { marble, x, y, duration } => {
                line.append("freeze");
                push_number_token(&mut line, *marble as u64);
                push_token(&mut line, x.as_str());
                push_token(&mut line, y.as_str());
                push_token(&mut line, duration.as_str());
            },
            BakedEvent::Shrink { marble, x, y, duration } => {
                line.append("shrink");
                push_number_token(&mut line, *marble as u64);
                push_token(&mut line, x.as_str());
                push_token(&mut line, y.as_str());
                push_token(&mut line, duration.as_str());
            },
            BakedEvent::Swap { marble_a, marble_b, x, y } => {
                line.append("swap");
                push_number_token(&mut line, *marble_a as u64);
                push_number_token(&mut line, *marble_b as u64);
                push_token(&mut line, x.as_str());
                push_token(&mut line, y.as_str());
            },
            BakedEvent::Bouncy { x, y, amplitude } => {
                line.append("bouncy");
                push_token(&mut line, x.as_str());
                push_token(&mut line, y.as_str());
                push_token(&mut line, amplitude.as_str());
            },
            BakedEvent::Module { name, top, seed } => {
                line.append("module");
                push_token(&mut line, name.as_str());
                push_token(&mut line, top.as_str());
                push_number_token(&mut line, *seed);
            },
            BakedEvent::Finish { top } => {
                line.append("finish");
                push_token(&mut line, top.as_str());
            },
        }
        proof {
            let t = event_tokens(*self);
            reveal_with_fuel(join_tokens, 6);
            assert(line@ =~= join_tokens(t));
        }
        line
    }

    /// The event a line spells, when it spells one.
    pub fn try_parse(payload: &str) -> (r: Option<BakedEvent>)
        ensures
            match r {
                Some(e) => is_event_line(ws_tokens(payload@)) && read_as(ws_tokens(payload@), e),
                None => !is_event_line(ws_tokens(payload@)),
            },
    {
        let parts = split_whitespace(payload);
        let ghost t = texts(parts@);
        assert(t.len() == parts.len());
        if parts.len() == 5 {
            assert(t[0] == parts@[0]@ && t[1] == parts@[1]@ && t[2] == parts@[2]@);
            assert(t[3] == parts@[3]@ && t[4] == parts@[4]@);
            let kind = parts[0].as_str();
            if text_eq(kind, "freeze") || text_eq(kind, "shrink") {
                let marble = match parse_usize(parts[1].as_str()) {
                    Some(m) => m,
                    None => return None,
                };
                if !(is_float(parts[2].as_str()) && is_float(parts[3].as_str()) && is_float(
                    parts[4].as_str(),
                )) {
                    return None;
                }
                let x = parts[2].clone();
                let y = parts[3].clone();
                let duration = parts[4].clone();
                if text_eq(kind, "freeze") {
                    return Some(BakedEvent::Freeze { marble, x, y, duration });
                } else {
                    return Some(BakedEvent::Shrink { marble, x, y, duration });
                }
            }
            if text_eq(kind, "swap") {
                let marble_a = match parse_usize(parts[1].as_str()) {
                    Some(m) => m,
                    None => return None,
                };
                let marble_b = match parse_usize(parts[2].as_str()) {
                    Some(m) => m,
                    None => return None,
                };
                if !(is_float(parts[3].as_str()) && is_float(parts[4].as_str())) {
                    return None;
                }
                return Some(
                    BakedEvent::Swap {
                        marble_a,
                        marble_b,
                        x: parts[3].clone(),
                        y: parts[4].clone(),
                    },
                );
            }
            return None;
        }
        if parts.len() == 4 {
            assert(t[0] == parts@[0]@ && t[1] == parts@[1]@ && t[2] == parts@[2]@);
            assert(t[3] == parts@[3]@);
            let kind = parts[0].as_str();
            if text_eq(kind, "bouncy") {
                if !(is_float(parts[1].as_str()) && is_float(parts[2].as_str()) && is_float(
                    parts[3].as_str(),
                )) {
                    proof {
                        reveal_strlit("bouncy");
                        reveal_strlit("module");
                        assert("bouncy"@[0] != "module"@[0]);
                    }
                    return None;
                }
                return Some(
                    BakedEvent::Bouncy {
                        x: parts[1].clone(),
                        y: parts[2].clone(),
                        amplitude: parts[3].clone(),
                    },
                );
            }
            if text_eq(kind, "module") {
                if !is_float(parts[2].as_str()) {
                    return None;
                }
                let seed = match parse_u64(parts[3].as_str()) {
                    Some(s) => s,
                    None => return None,
                };
                return Some(
                    BakedEvent::Module { name: parts[1].clone(), top: parts[2].clone(), seed },
                );
            }
            return None;
        }
        if parts.len() == 2 {
            assert(t[0] == parts@[0]@ && t[1] == parts@[1]@);
            if text_eq(parts[0].as_str(), "finish") && is_float(parts[1].as_str()) {
                return Some(BakedEvent::Finish { top: parts[1].clone() });
            }
            return None;
        }
        None
    }

    /// The event a line spells; the line must spell one (a track that the bake wrote and
    /// the replay cannot read means the two disagree on the format).
    pub fn parse(payload: &str) -> (e: BakedEvent)
        requires
            is_event_line(ws_tokens(payload@)),
        ensures
            read_as(ws_tokens(payload@), e),
    {
        BakedEvent::try_parse(payload).unwrap()
    }
}

// ---------------------------------------------------------------------------
// Writing then reading gives the event back
// ---------------------------------------------------------------------------

/// A token that survives a round trip through a line: not empty, no white space.
pub open spec fn is_clean_token(w: Seq<char>) -> bool {
    w.len() > 0 && forall|i: int| 0 <= i < w.len() ==> !is_white_space(#[trigger] w[i])
}

/// Whether every field of an event can be written and read back: its `f32` fields are
/// texts that read as an `f32`, a module's name is a clean token (the keyword and the
/// integer fields always are).
pub open spec fn has_readable_fields(e: BakedEvent) -> bool {
    match e {
        BakedEvent::Freeze { x, y, duration, .. } => is_float_text(x@) && is_float_text(y@)
            && is_float_text(duration@),
        BakedEvent::Shrink { x, y, duration, .. } => is_float_text(x@) && is_float_text(y@)
            && is_float_text(duration@),
        BakedEvent::Swap { x, y, .. } => is_float_text(x@) && is_float_text(y@),
        BakedEvent::Bouncy { x, y, amplitude } => is_float_text(x@) && is_float_text(y@)
            && is_float_text(amplitude@),
        BakedEvent::Module { name, top, .. } => is_clean_token(name@) && is_float_text(top@),
        BakedEvent::Finish { top } => is_float_text(top@),
    }
}

/// A text that reads as an `f32` is a clean token.
proof fn lemma_float_is_clean(w: Seq<char>)
    requires
        is_float_text(w),
    ensures
        is_clean_token(w),
{
    lemma_float_text_has_no_space(w);
}

proof fn lemma_tokens_after_space(u: Seq<char>, w: Seq<char>)
    requires
        u.len() == 0 || is_white_space(u.last()),
        forall|i: int| 0 <= i < w.len() ==> !is_white_space(#[trigger] w[i]),
        w.len() > 0,
    ensures
        ws_tokens(u + w) == ws_tokens(u).push(w),
    decreases w.len(),
{
    let s = u + w;
    assert(s.drop_last() =~= u + w.drop_last());
    assert(s.last() == w.last());
    assert(!is_white_space(w.last()));
    if w.len() == 1 {
        assert(w.drop_last() =~= Seq::<char>::empty());
        assert(u + w.drop_last() =~= u);
        assert(w =~= seq![w.last()]);
        if s.len() >= 2 {
            assert(s[s.len() - 2] == u.last());
        }
    } else {
        lemma_tokens_after_space(u, w.drop_last());
        assert(s[s.len() - 2] == w[w.len() - 2]);
        assert(!is_white_space(w[w.len() - 2]));
        assert(w.drop_last().push(w.last()) =~= w);
    }
}

proof fn lemma_tokens_of_space(u: Seq<char>)
    ensures
        ws_tokens(u + seq![' ']) == ws_tokens(u),
{
    let s = u + seq![' '];
    assert(s.drop_last() =~= u);
    assert(is_white_space(' '));
}

/// Joining clean tokens with spaces and splitting the line at white space gives the
/// tokens back.
pub proof fn lemma_join_then_split(t: Seq<Seq<char>>)
    requires
        forall|i: int| 0 <= i < t.len() ==> is_clean_token(#[trigger] t[i]),
    ensures
        ws_tokens(join_tokens(t)) == t,
    decreases t.len(),
{
    if t.len() == 0 {
    } else if t.len() == 1 {
        assert(is_clean_token(t[0]));
        lemma_tokens_after_space(Seq::<char>::empty(), t[0]);
        assert(Seq::<char>::empty() + t[0] =~= t[0]);
        assert(Seq::<Seq<char>>::empty().push(t[0]) =~= t);
    } else {
        let front = t.drop_last();
        assert forall|i: int| 0 <= i < front.len() implies is_clean_token(#[trigger] front[i]) by {
            assert(front[i] == t[i]);
        }
        lemma_join_then_split(front);
        let u = join_tokens(front) + seq![' '];
        lemma_tokens_of_space(join_tokens(front));
        assert(is_clean_token(t[t.len() - 1]));
        lemma_tokens_after_space(u, t.last());
        assert(front.push(t.last()) =~= t);
    }
}

proof fn lemma_decimal_clean(n: nat)
    ensures
        is_clean_token(decimal(n)),
        parse_unsigned(decimal(n), usize::MAX as nat) == Some(n) || n > usize::MAX,
{
    crate::text::lemma_decimal_digits(n);
    assert forall|i: int| 0 <= i < decimal(n).len() implies !is_white_space(
        #[trigger] decimal(n)[i],
    ) by {
        assert(crate::text::is_digit(decimal(n)[i]));
    }
    if n <= usize::MAX {
        crate::text::lemma_parse_decimal(n, usize::MAX as nat);
    }
}

/// An event whose fields can be read back is written as a line whose tokens are the
/// event's tokens; that line is an event line; and any event read from it is the same
/// event.
pub proof fn law_payload_round_trip(e: BakedEvent, read: BakedEvent)
    requires
        has_readable_fields(e),
    ensures
        ws_tokens(spec_payload(e)) == event_tokens(e),
        is_event_line(event_tokens(e)),
        read_as(event_tokens(e), read) ==> same_event(e, read),
{
    reveal_strlit("freeze");
    reveal_strlit("shrink");
    reveal_strlit("swap");
    reveal_strlit("bouncy");
    reveal_strlit("module");
    reveal_strlit("finish");
    let t = event_tokens(e);
    assert("bouncy"@[0] != "module"@[0]);
    assert("freeze"@[0] != "shrink"@[0]);
    assert(is_clean_token("freeze"@) && is_clean_token("shrink"@) && is_clean_token("swap"@)
        && is_clean_token("bouncy"@) && is_clean_token("module"@) && is_clean_token("finish"@));
    match e {
        BakedEvent::Freeze { marble, x, y, duration } => {
            lemma_decimal_clean(marble as nat);
            lemma_float_is_clean(x@);
            lemma_float_is_clean(y@);
            lemma_float_is_clean(duration@);
        },
        BakedEvent::Shrink { marble, x, y, duration } => {
            lemma_decimal_clean(marble as nat);
            lemma_float_is_clean(x@);
            lemma_float_is_clean(y@);
            lemma_float_is_clean(duration@);
        },
        BakedEvent::Swap { marble_a, marble_b, x, y } => {
            lemma_decimal_clean(marble_a as nat);
            lemma_decimal_clean(marble_b as nat);
            lemma_float_is_clean(x@);
            lemma_float_is_clean(y@);
        },
        BakedEvent::Bouncy { x, y, amplitude } => {
            lemma_float_is_clean(x@);
            lemma_float_is_clean(y@);
            lemma_float_is_clean(amplitude@);
        },
        BakedEvent::Module { seed, top, .. } => {
            lemma_decimal_clean(seed as nat);
            lemma_float_is_clean(top@);
            crate::text::lemma_parse_decimal(seed as nat, u64::MAX as nat);
        },
        BakedEvent::Finish { top } => {
            lemma_float_is_clean(top@);
        },
    }
    assert forall|i: int| 0 <= i < t.len() implies is_clean_token(#[trigger] t[i]) by {
    }
    lemma_join_then_split(t);
    if read_as(t, read) {
        match read {
            BakedEvent::Freeze { marble, .. } => {
                lemma_decimal_clean(marble as nat);
                crate::text::lemma_decimal_digits(marble as nat);
            },
            BakedEvent::Shrink { marble, .. } => {
                lemma_decimal_clean(marble as nat);
            },
            BakedEvent::Swap { marble_a, marble_b, .. } => {
                lemma_decimal_clean(marble_a as nat);
                lemma_decimal_clean(marble_b as nat);
            },
            BakedEvent::Module { seed, .. } => {
                crate::text::lemma_parse_decimal(seed as nat, u64::MAX as nat);
                if let BakedEvent::Module { seed: written, .. } = e {
                    crate::text::lemma_parse_decimal(written as nat, u64::MAX as nat);
                    assert(t[3] == decimal(written as nat));
                    assert(seed == written);
                }
            },
            _ => {},
        }
        assert(t.len() == event_tokens(read).len());
        assert(t[0] == event_tokens(read)[0]);
        assert(t[1] == event_tokens(read)[1]);
        assert(t.len() > 2 ==> t[2] == event_tokens(read)[2]);
        assert(t.len() > 3 ==> t[3] == event_tokens(read)[3]);
        assert(t.len() > 4 ==> t[4] == event_tokens(read)[4]);
        assert(event_tokens(read) =~= t);
    }
}

} // verus!
