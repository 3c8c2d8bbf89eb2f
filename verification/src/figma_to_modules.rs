//! The naming conventions of the level editor's layers and frames: what kind of object
//! a layer is, which tags it carries, and how a frame's name becomes a module's file name.
use vstd::prelude::*;

use crate::float_text::{is_float, is_float_text};
use crate::text::{
    occurs_at, char_to_lowercase, chars_of, find_char, find_text, first_char_index, first_occurrence,
    is_ascii_upper, lowercase_of_char, lowercase_of_text, split_on, split_text, string_of,
    string_of_range, text_eq, texts, to_lowercase, trim, trim_text,
};

verus! {

/// The kind of world object a layer exports to.
#[derive(Clone, Copy, Debug, PartialEq, Eq, Structural)]
pub enum ShapeKind {
    Box,
    Sphere,
    Torus,
    Image,
    Effect,
    Slot,
}

/// `s` in snake case, as a module file name: every ASCII upper-case letter but the
/// first character is preceded by `_`, and every character is lower-cased.
pub open spec fn snake_case(s: Seq<char>) -> Seq<char>
    decreases s.len(),
{
    if s.len() == 0 {
        Seq::<char>::empty()
    } else {
        let c = s.last();
        let sep = if is_ascii_upper(c) && s.len() > 1 {
            seq!['_']
        } else {
            Seq::<char>::empty()
        };
        snake_case(s.drop_last()) + sep + lowercase_of_char(c)
    }
}

/// Appends the characters `v` to `out`.
fn push_chars(out: &mut String, v: &Vec<char>)
    ensures
        final(out)@ == old(out)@ + v@,
{
    let mut i: usize = 0;
    while i < v.len()
        invariant
            i <= v.len(),
            out@ == old(out)@ + v@.take(i as int),
        decreases v.len() - i,
    {
        out.push(v[i]);
        assert(v@.take(i + 1) == v@.take(i as int).push(v@[i as int]));
        i += 1;
    }
    assert(v@.take(v.len() as int) == v@);
}

/// A frame's name in snake case (`ZigZag` → `zig_zag`).
pub fn to_snake_case(s: &str) -> (out: String)
    ensures
        out@ == snake_case(s@),
{
    let v = chars_of(s);
    let mut out = String::new();
    let mut i: usize = 0;
    assert(v@.take(0) =~= Seq::<char>::empty());
    while i < v.len()
        invariant
            i <= v.len(),
            v@ == s@,
            out@ == snake_case(v@.take(i as int)),
        decreases v.len() - i,
    {
        let c = v[i];
        assert(v@.take(i + 1).drop_last() =~= v@.take(i as int));
        if 'A' <= c && c <= 'Z' && i > 0 {
            out.push('_');
        }
        let lower = char_to_lowercase(c);
        push_chars(&mut out, &lower);
        assert(out@ =~= snake_case(v@.take(i + 1)));
        i += 1;
    }
    assert(v@.take(v.len() as int) =~= v@);
    out
}

/// A frame's name split at its first `|`: the module's name, and the tags from that `|`
/// on (empty when the name has none).
pub open spec fn spec_split_frame_name(frame: Seq<char>) -> (Seq<char>, Seq<char>) {
    match first_char_index(frame, '|') {
        Some(i) => (frame.take(i), frame.skip(i)),
        None => (frame, Seq::<char>::empty()),
    }
}

/// Splits a frame's name into the module's name and the tags that every layer of the
/// frame inherits.
pub fn split_frame_name(frame: &str) -> (r: (String, String))
    ensures
        (r.0@, r.1@) == spec_split_frame_name(frame@),
{
    let v = chars_of(frame);
    match find_char(&v, '|') {
        Some(i) => {
            let slug = string_of_range(&v, 0, i);
            let tags = string_of_range(&v, i, v.len());
            assert(v@.subrange(0, i as int) =~= frame@.take(i as int));
            assert(v@.subrange(i as int, v.len() as int) =~= frame@.skip(i as int));
            (slug, tags)
        },
        None => (String::from_str(frame), String::new()),
    }
}

/// A layer's name with the frame's tags appended.
pub fn merge_frame_tags(name: &str, frame_tags: &str) -> (merged: String)
    ensures
        merged@ == name@ + frame_tags@,
{
    let mut merged = String::from_str(name);
    merged.append(frame_tags);
    merged
}

/// The first `|`-separated piece of a layer's name, trimmed and lower-cased.
pub open spec fn spec_base_name(name: Seq<char>) -> Seq<char> {
    lowercase_of_text(trim_text(split_text(name, '|')[0]))
}

/// The base name of a layer: its first `|`-separated piece, trimmed, in lower case.
pub fn base_name(name: &str) -> (r: String)
    ensures
        r@ == spec_base_name(name@),
{
    let pieces = split_on(name, '|');
    proof {
        crate::text::lemma_split_text_nonempty(name@, '|');
    }
    assert(texts(pieces@)[0] == pieces@[0]@);
    let trimmed = trim(pieces[0].as_str());
    to_lowercase(trimmed.as_str())
}

/// The kind of object a base name selects; any name not listed is a box.
pub open spec fn spec_shape_kind(base: Seq<char>) -> ShapeKind {
    if base == "sphere"@ {
        ShapeKind::Sphere
    } else if base == "torus"@ {
        ShapeKind::Torus
    } else if base == "image"@ {
        ShapeKind::Image
    } else if base == "effect"@ {
        ShapeKind::Effect
    } else if base == "slot"@ {
        ShapeKind::Slot
    } else {
        ShapeKind::Box
    }
}

/// The kind of world object a layer exports to, by its base name.
pub fn shape_kind(name: &str) -> (k: ShapeKind)
    ensures
        k == spec_shape_kind(spec_base_name(name@)),
{
    let base = base_name(name);
    let b = base.as_str();
    if text_eq(b, "sphere") {
        ShapeKind::Sphere
    } else if text_eq(b, "torus") {
        ShapeKind::Torus
    } else if text_eq(b, "image") {
        ShapeKind::Image
    } else if text_eq(b, "effect") {
        ShapeKind::Effect
    } else if text_eq(b, "slot") {
        ShapeKind::Slot
    } else {
        ShapeKind::Box
    }
}

/// The label a layer carries after its first `|`, trimmed (the texture of an image, the
/// variant of an effect); none when there is no `|` or the label is empty.
pub open spec fn spec_layer_label(name: Seq<char>) -> Option<Seq<char>> {
    let pieces = split_text(name, '|');
    if pieces.len() >= 2 && trim_text(pieces[1]).len() > 0 {
        Some(trim_text(pieces[1]))
    } else {
        None
    }
}

/// The label after a layer's first `|`, trimmed, when it is not empty.
pub fn layer_label(name: &str) -> (r: Option<String>)
    ensures
        match r {
            Some(label) => spec_layer_label(name@) == Some(label@),
            None => spec_layer_label(name@) is None,
        },
{
    let pieces = split_on(name, '|');
    if pieces.len() < 2 {
        return None;
    }
    assert(texts(pieces@)[1] == pieces@[1]@);
    let label = trim(pieces[1].as_str());
    if label.as_str().unicode_len() == 0 {
        None
    } else {
        Some(label)
    }
}

/// The texture of an image layer: `img/<label>.png`.
pub fn image_texture(name: &str) -> (r: Option<String>)
    ensures
        match r {
            Some(t) => spec_layer_label(name@) matches Some(label) && t@ == "img/"@ + label
                + ".png"@,
            None => spec_layer_label(name@) is None,
        },
{
    match layer_label(name) {
        Some(label) => {
            let mut texture = String::from_str("img/");
            texture.append(label.as_str());
            texture.append(".png");
            Some(texture)
        },
        None => None,
    }
}

/// Whether a character may belong to a tag's number (`0`–`9`, `.`, `-`).
pub open spec fn is_number_char(c: char) -> bool {
    ('0' <= c && c <= '9') || c == '.' || c == '-'
}

/// How many characters at the start of `s` may belong to a number.
pub open spec fn number_run(s: Seq<char>) -> nat
    decreases s.len(),
{
    if s.len() > 0 && is_number_char(s[0]) {
        1 + number_run(s.drop_first())
    } else {
        0
    }
}

/// The text of the number that follows the first occurrence of `tag` in `name`: the
/// longest run of number characters right after it. None when the tag does not occur.
pub open spec fn spec_tag_text(name: Seq<char>, tag: Seq<char>) -> Option<Seq<char>> {
    match first_occurrence(name, tag) {
        Some(i) => {
            let rest = name.skip(i + tag.len());
            Some(rest.take(number_run(rest) as int))
        },
        None => None,
    }
}

proof fn lemma_number_run(s: Seq<char>, k: int)
    requires
        0 <= k <= s.len(),
        forall|j: int| 0 <= j < k ==> is_number_char(s[j]),
        k == s.len() || !is_number_char(s[k]),
    ensures
        number_run(s) == k,
    decreases k,
{
    if k > 0 {
        lemma_number_run(s.drop_first(), k - 1);
    }
}

/// The number text that follows `tag` in a layer's name (`|r45` → `45`).
pub fn tag_text(name: &str, tag: &str) -> (r: Option<String>)
    ensures
        match r {
            Some(t) => spec_tag_text(name@, tag@) == Some(t@),
            None => spec_tag_text(name@, tag@) is None,
        },
{
    let v = chars_of(name);
    let pat = chars_of(tag);
    match find_text(&v, &pat) {
        Some(start) => {
            assert(occurs_at(v@, pat@, start as int));
            assert(start + pat@.len() <= v@.len());
            assert(pat@.len() == pat.len() && v@.len() == v.len());
            let from = start + pat.len();
            let mut end = from;
            while end < v.len() && (('0' <= v[end] && v[end] <= '9') || v[end] == '.' || v[end]
                == '-')
                invariant
                    from <= end <= v.len(),
                    forall|j: int| from <= j < end ==> is_number_char(v@[j]),
                decreases v.len() - end,
            {
                end += 1;
            }
            proof {
                let rest = v@.skip(from as int);
                lemma_number_run(rest, end - from);
                assert(rest.take(end - from) =~= v@.subrange(from as int, end as int));
            }
            Some(string_of_range(&v, from, end))
        },
        None => None,
    }
}

/// Whether `tag` occurs in a layer's name (`|bouncy`).
pub fn has_tag(name: &str, tag: &str) -> (r: bool)
    ensures
        r == (first_occurrence(name@, tag@) is Some),
{
    let v = chars_of(name);
    let pat = chars_of(tag);
    find_text(&v, &pat).is_some()
}

/// The number a tag gives, as text: the number text after `tag`, when the tag occurs and
/// that text reads as an `f32`.
pub open spec fn spec_optional_tag(name: Seq<char>, tag: Seq<char>) -> Option<Seq<char>> {
    match spec_tag_text(name, tag) {
        Some(t) => if is_float_text(t) {
            Some(t)
        } else {
            None
        },
        None => None,
    }
}

/// The number text after `tag` (`|fr0.4` → `0.4`), when the tag is there and its text
/// reads as an `f32`.
pub fn optional_tag(name: &str, tag: &str) -> (r: Option<String>)
    ensures
        match r {
            Some(t) => spec_optional_tag(name@, tag@) == Some(t@),
            None => spec_optional_tag(name@, tag@) is None,
        },
{
    match tag_text(name, tag) {
        Some(t) => if is_float(t.as_str()) {
            Some(t)
        } else {
            None
        },
        None => None,
    }
}

/// Why a tag that a layer needs gives no number.
#[derive(Clone, Copy, Debug, PartialEq, Eq, Structural)]
pub enum TagError {
    /// The layer's name does not carry the tag.
    Missing,
    /// The text after the tag does not read as an `f32`.
    NotANumber,
}

/// The number text after a tag that the layer must carry (a torus's tube radius `|t`).
pub fn required_tag(name: &str, tag: &str) -> (r: Result<String, TagError>)
    ensures
        match r {
            Ok(t) => spec_optional_tag(name@, tag@) == Some(t@),
            Err(TagError::Missing) => spec_tag_text(name@, tag@) is None,
            Err(TagError::NotANumber) => spec_tag_text(name@, tag@) matches Some(t)
                && !is_float_text(t),
        },
{
    match tag_text(name, tag) {
        Some(t) => if is_float(t.as_str()) {
            Ok(t)
        } else {
            Err(TagError::NotANumber)
        },
        None => Err(TagError::Missing),
    }
}

/// Whether a text names one of the sensor effects.
pub open spec fn is_sensor_variant(t: Seq<char>) -> bool {
    t == "freeze"@ || t == "shrink"@ || t == "swap"@
}

/// The trimmed, non-empty pieces of `pieces`, in order.
pub open spec fn kept_options(pieces: Seq<Seq<char>>) -> Seq<Seq<char>>
    decreases pieces.len(),
{
    if pieces.len() == 0 {
        Seq::<Seq<char>>::empty()
    } else {
        let rest = kept_options(pieces.drop_last());
        let t = trim_text(pieces.last());
        if t.len() > 0 {
            rest.push(t)
        } else {
            rest
        }
    }
}

/// The effect options of a slot layer: the comma-separated list after its first `|`,
/// trimmed, empty entries dropped; kept only when every entry names a sensor effect.
pub open spec fn spec_slot_options(name: Seq<char>) -> Seq<Seq<char>> {
    let pieces = split_text(name, '|');
    if pieces.len() < 2 {
        Seq::<Seq<char>>::empty()
    } else {
        let options = kept_options(split_text(pieces[1], ','));
        if forall|i: int| 0 <= i < options.len() ==> is_sensor_variant(#[trigger] options[i]) {
            options
        } else {
            Seq::<Seq<char>>::empty()
        }
    }
}

/// Text added after `s` leaves every piece of `s` but the last in place.
proof fn lemma_split_keeps_front(s: Seq<char>, t: Seq<char>, sep: char)
    ensures
        split_text(s + t, sep).len() >= split_text(s, sep).len(),
        forall|i: int|
            0 <= i < split_text(s, sep).len() - 1 ==> split_text(s + t, sep)[i]
                == #[trigger] split_text(s, sep)[i],
    decreases t.len(),
{
    crate::text::lemma_split_text_nonempty(s, sep);
    if t.len() == 0 {
        assert(s + t =~= s);
    } else {
        lemma_split_keeps_front(s, t.drop_last(), sep);
        assert((s + t).drop_last() =~= s + t.drop_last());
        crate::text::lemma_split_text_nonempty(s + t.drop_last(), sep);
    }
}

/// A text holding `sep` splits into at least two pieces.
proof fn lemma_split_at_sep(s: Seq<char>, sep: char)
    requires
        s.contains(sep),
    ensures
        split_text(s, sep).len() >= 2,
    decreases s.len(),
{
    crate::text::lemma_split_text_nonempty(s.drop_last(), sep);
    if s.last() != sep {
        let i = choose|i: int| 0 <= i < s.len() && s[i] == sep;
        assert(s.drop_last()[i] == sep);
        lemma_split_at_sep(s.drop_last(), sep);
    }
}

/// A slot layer's options are read from its first tag alone: once its name holds a `|`,
/// appending further `|`-tags (a rotation `|r30`, a frame's `|wz1.5`) leaves its options
/// as they were.
pub proof fn law_slot_options_come_from_the_first_tag(name: Seq<char>, more: Seq<char>)
    requires
        name.contains('|'),
    ensures
        spec_slot_options(name + seq!['|'] + more) == spec_slot_options(name),
{
    lemma_split_at_sep(name, '|');
    let tagged = name + seq!['|'];
    assert(tagged.drop_last() =~= name);
    assert(split_text(tagged, '|') == split_text(name, '|').push(Seq::<char>::empty()));
    lemma_split_keeps_front(tagged, more, '|');
    assert(split_text(tagged + more, '|')[1] == split_text(tagged, '|')[1]);
}

/// Whether a text names one of the sensor effects.
pub fn sensor_variant(t: &str) -> (r: bool)
    ensures
        r == is_sensor_variant(t@),
{
    text_eq(t, "freeze") || text_eq(t, "shrink") || text_eq(t, "swap")
}

/// The effect options a slot layer lists (`slot|freeze, swap`).
pub fn parse_slot_options(name: &str) -> (r: Vec<String>)
    ensures
        texts(r@) == spec_slot_options(name@),
{
    let pieces = split_on(name, '|');
    if pieces.len() < 2 {
        let none: Vec<String> = Vec::new();
        assert(texts(none@) =~= Seq::<Seq<char>>::empty());
        return none;
    }
    assert(texts(pieces@)[1] == pieces@[1]@);
    let parts = split_on(pieces[1].as_str(), ',');
    let mut options: Vec<String> = Vec::new();
    let mut all_known = true;
    let mut i: usize = 0;
    assert(texts(parts@).take(0) =~= Seq::<Seq<char>>::empty());
    while i < parts.len()
        invariant
            i <= parts.len(),
            texts(options@) =~= kept_options(texts(parts@).take(i as int)),
            all_known == (forall|j: int|
                0 <= j < options.len() ==> is_sensor_variant(#[trigger] texts(options@)[j])),
        decreases parts.len() - i,
    {
        let option = trim(parts[i].as_str());
        assert(texts(parts@).take(i + 1).drop_last() =~= texts(parts@).take(i as int));
        assert(texts(parts@)[i as int] == parts@[i as int]@);
        if option.as_str().unicode_len() > 0 {
            let known = sensor_variant(option.as_str());
            let ghost before = options@;
            let ghost was_known = all_known;
            options.push(option);
            assert(texts(options@) =~= texts(before).push(option@));
            all_known = all_known && known;
            proof {
                let now = texts(options@);
                assert(now[before.len() as int] == option@);
                assert forall|j: int| 0 <= j < before.len() implies now[j] == texts(before)[j] by {
                }
                if all_known {
                    assert forall|j: int| 0 <= j < options.len() implies is_sensor_variant(
                        #[trigger] now[j],
                    ) by {
                        if j < before.len() {
                            assert(is_sensor_variant(texts(before)[j]));
                        }
                    }
                } else if !known {
                    assert(!is_sensor_variant(now[before.len() as int]));
                } else {
                    assert(!was_known);
                    let j = choose|j: int|
                        0 <= j < before.len() && !is_sensor_variant(#[trigger] texts(before)[j]);
                    assert(!is_sensor_variant(now[j]));
                }
            }
        }
        i += 1;
    }
    assert(texts(parts@).take(parts.len() as int) =~= texts(parts@));
    if all_known {
        options
    } else {
        let none: Vec<String> = Vec::new();
        assert(texts(none@) =~= Seq::<Seq<char>>::empty());
        none
    }
}

} // verus!
