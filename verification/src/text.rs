//! Text primitives the library's parsers are built from: character classes,
//! trimming, splitting, searching, and decimal numbers, each with a
//! specification over `Seq<char>` (the view of a `String` or `&str`).
use vstd::prelude::*;

verus! {

/// Appending a character to a `String` extends its characters by that one.
pub assume_specification[ String::push ](s: &mut String, ch: char)
    ensures
        final(s)@ == old(s)@.push(ch),
;

// ---------------------------------------------------------------------------
// Character classes
// ---------------------------------------------------------------------------

pub open spec fn is_digit(c: char) -> bool {
    '0' <= c && c <= '9'
}

pub open spec fn is_ascii_upper(c: char) -> bool {
    'A' <= c && c <= 'Z'
}

pub open spec fn is_ascii_char(c: char) -> bool {
    (c as u32) < 128
}

/// The value of a decimal digit character.
pub open spec fn digit_value(c: char) -> nat {
    (c as int - '0' as int) as nat
}

/// The digit character of a value below ten.
pub open spec fn digit_char(d: nat) -> char {
    (d + '0' as int) as char
}

/// The Unicode `White_Space` property: the characters that `char::is_whitespace`,
/// `str::trim` and `str::split_whitespace` treat as white space.
pub open spec fn is_white_space(c: char) -> bool {
    let u = c as u32;
    ||| 0x09 <= u && u <= 0x0d
    ||| u == 0x20
    ||| u == 0x85
    ||| u == 0xa0
    ||| u == 0x1680
    ||| 0x2000 <= u && u <= 0x200a
    ||| u == 0x2028
    ||| u == 0x2029
    ||| u == 0x202f
    ||| u == 0x205f
    ||| u == 0x3000
}

/// Whether `c` has the Unicode `White_Space` property.
pub fn is_whitespace(c: char) -> (b: bool)
    ensures
        b == is_white_space(c),
{
    let u = c as u32;
    (0x09 <= u && u <= 0x0d) || u == 0x20 || u == 0x85 || u == 0xa0 || u == 0x1680 || (0x2000
        <= u && u <= 0x200a) || u == 0x2028 || u == 0x2029 || u == 0x202f || u == 0x205f || u
        == 0x3000
}

// ---------------------------------------------------------------------------
// Conversions between strings and character vectors
// ---------------------------------------------------------------------------

/// The characters of `s`, in order.
pub fn chars_of(s: &str) -> (v: Vec<char>)
    ensures
        v@ == s@,
{
    let mut v: Vec<char> = Vec::new();
    for c in it: s.chars()
        invariant
            v@ == it.seq().take(it.index() as int),
            it.seq() == s@,
    {
        v.push(c);
    }
    v
}

/// The string made of the characters of `v`.
pub fn string_of(v: &[char]) -> (s: String)
    ensures
        s@ == v@,
{
    let mut s = String::new();
    let mut i: usize = 0;
    while i < v.len()
        invariant
            i <= v.len(),
            s@ == v@.take(i as int),
        decreases v.len() - i,
    {
        s.push(v[i]);
        assert(v@.take(i + 1) == v@.take(i as int).push(v@[i as int]));
        i += 1;
    }
    assert(v@.take(v.len() as int) == v@);
    s
}

/// The string made of the characters `v[from..to]`.
pub fn string_of_range(v: &Vec<char>, from: usize, to: usize) -> (s: String)
    requires
        from <= to <= v.len(),
    ensures
        s@ == v@.subrange(from as int, to as int),
{
    let mut s = String::new();
    let mut i: usize = from;
    while i < to
        invariant
            from <= i <= to <= v.len(),
            s@ == v@.subrange(from as int, i as int),
        decreases to - i,
    {
        s.push(v[i]);
        assert(v@.subrange(from as int, i + 1) == v@.subrange(from as int, i as int).push(
            v@[i as int],
        ));
        i += 1;
    }
    s
}

/// Whether two texts hold the same characters.
pub fn text_eq(a: &str, b: &str) -> (r: bool)
    ensures
        r == (a@ == b@),
{
    let va = chars_of(a);
    let vb = chars_of(b);
    if va.len() != vb.len() {
        return false;
    }
    let mut i: usize = 0;
    while i < va.len()
        invariant
            va.len() == vb.len(),
            i <= va.len(),
            va@ == a@,
            vb@ == b@,
            forall|j: int| 0 <= j < i ==> va@[j] == vb@[j],
        decreases va.len() - i,
    {
        if va[i] != vb[i] {
            return false;
        }
        i += 1;
    }
    assert(va@ =~= vb@);
    true
}

// ---------------------------------------------------------------------------
// Trimming
// ---------------------------------------------------------------------------

/// `s` without its leading white space.
pub open spec fn trim_front(s: Seq<char>) -> Seq<char>
    decreases s.len(),
{
    if s.len() > 0 && is_white_space(s[0]) {
        trim_front(s.drop_first())
    } else {
        s
    }
}

/// `s` without its trailing white space.
pub open spec fn trim_back(s: Seq<char>) -> Seq<char>
    decreases s.len(),
{
    if s.len() > 0 && is_white_space(s.last()) {
        trim_back(s.drop_last())
    } else {
        s
    }
}

/// `s` without leading and trailing white space, as `str::trim` gives it.
pub open spec fn trim_text(s: Seq<char>) -> Seq<char> {
    trim_back(trim_front(s))
}

proof fn lemma_trim_front_skip(s: Seq<char>, k: int)
    requires
        0 <= k <= s.len(),
        forall|j: int| 0 <= j < k ==> is_white_space(s[j]),
    ensures
        trim_front(s) == trim_front(s.skip(k)),
    decreases k,
{
    if k > 0 {
        assert(s.skip(1) == s.drop_first());
        lemma_trim_front_skip(s.drop_first(), k - 1);
        assert(s.drop_first().skip(k - 1) =~= s.skip(k));
    } else {
        assert(s.skip(0) =~= s);
    }
}

proof fn lemma_trim_back_take(s: Seq<char>, k: int)
    requires
        0 <= k <= s.len(),
        forall|j: int| k <= j < s.len() ==> is_white_space(s[j]),
    ensures
        trim_back(s) == trim_back(s.take(k)),
    decreases s.len() - k,
{
    if k < s.len() {
        lemma_trim_back_take(s.drop_last(), k);
        assert(s.drop_last().take(k) =~= s.take(k));
    } else {
        assert(s.take(k) =~= s);
    }
}

/// `s` without leading and trailing white space.
pub fn trim(s: &str) -> (t: String)
    ensures
        t@ == trim_text(s@),
{
    let v = chars_of(s);
    let mut start: usize = 0;
    while start < v.len() && is_whitespace(v[start])
        invariant
            start <= v.len(),
            v@ == s@,
            forall|j: int| 0 <= j < start ==> is_white_space(v@[j]),
        decreases v.len() - start,
    {
        start += 1;
    }
    proof {
        lemma_trim_front_skip(v@, start as int);
    }
    let ghost front = v@.skip(start as int);
    assert(trim_front(front) == front);
    let mut end: usize = v.len();
    while end > start && is_whitespace(v[end - 1])
        invariant
            start <= end <= v.len(),
            v@ == s@,
            forall|j: int| end <= j < v.len() ==> is_white_space(v@[j]),
        decreases end - start,
    {
        end -= 1;
    }
    proof {
        lemma_trim_back_take(front, end - start);
        assert(front.take(end - start) =~= v@.subrange(start as int, end as int));
    }
    string_of_range(&v, start, end)
}

// ---------------------------------------------------------------------------
// Splitting and searching
// ---------------------------------------------------------------------------

/// The texts of a vector of strings.
pub open spec fn texts(v: Seq<String>) -> Seq<Seq<char>> {
    v.map_values(|x: String| x@)
}

/// The pieces of `s` between occurrences of `sep`, as `str::split(sep)` yields them:
/// always at least one piece, empty pieces kept.
pub open spec fn split_text(s: Seq<char>, sep: char) -> Seq<Seq<char>>
    decreases s.len(),
{
    if s.len() == 0 {
        seq![Seq::<char>::empty()]
    } else {
        let rest = split_text(s.drop_last(), sep);
        if s.last() == sep {
            rest.push(Seq::<char>::empty())
        } else {
            rest.update(rest.len() - 1, rest.last().push(s.last()))
        }
    }
}

pub proof fn lemma_split_text_nonempty(s: Seq<char>, sep: char)
    ensures
        split_text(s, sep).len() >= 1,
    decreases s.len(),
{
    if s.len() > 0 {
        lemma_split_text_nonempty(s.drop_last(), sep);
    }
}

/// The pieces of `s` between occurrences of `sep`.
pub fn split_on(s: &str, sep: char) -> (pieces: Vec<String>)
    ensures
        texts(pieces@) == split_text(s@, sep),
{
    let v = chars_of(s);
    let mut pieces: Vec<String> = Vec::new();
    let mut current = String::new();
    let mut i: usize = 0;
    assert(v@.take(0) =~= Seq::<char>::empty());
    while i < v.len()
        invariant
            i <= v.len(),
            v@ == s@,
            texts(pieces@).push(current@) =~= split_text(v@.take(i as int), sep),
        decreases v.len() - i,
    {
        let c = v[i];
        proof {
            lemma_split_text_nonempty(v@.take(i as int), sep);
            assert(v@.take(i + 1).drop_last() =~= v@.take(i as int));
        }
        if c == sep {
            let done = current;
            pieces.push(done);
            current = String::new();
            assert(texts(pieces@) =~= texts(pieces@.drop_last()).push(done@));
        } else {
            current.push(c);
        }
        i += 1;
    }
    assert(v@.take(v.len() as int) =~= v@);
    pieces.push(current);
    assert(texts(pieces@) =~= texts(pieces@.drop_last()).push(current@));
    pieces
}

/// Whether `c` occurs in `s` before position `end`.
pub open spec fn has_char_before(s: Seq<char>, c: char, end: int) -> bool {
    exists|j: int| 0 <= j < end && s[j] == c
}

/// The position of the first `c` in `s`, as `str::find(c)` reports it (counted in characters).
pub open spec fn first_char_index(s: Seq<char>, c: char) -> Option<int> {
    if has_char_before(s, c, s.len() as int) {
        Some(choose|i: int| 0 <= i < s.len() && s[i] == c && !has_char_before(s, c, i))
    } else {
        None
    }
}

/// When `c` occurs in `s`, its first position is where `first_char_index` points.
pub proof fn lemma_first_char_index(s: Seq<char>, c: char)
    requires
        has_char_before(s, c, s.len() as int),
    ensures
        first_char_index(s, c) matches Some(d) && 0 <= d < s.len() && s[d] == c
            && !has_char_before(s, c, d),
{
    lemma_least_char(s, c, s.len() as int);
}

proof fn lemma_least_char(s: Seq<char>, c: char, end: int)
    requires
        end <= s.len(),
        has_char_before(s, c, end),
    ensures
        exists|i: int| 0 <= i < s.len() && s[i] == c && !has_char_before(s, c, i),
    decreases end,
{
    if has_char_before(s, c, end - 1) {
        lemma_least_char(s, c, end - 1);
    } else {
        let j = choose|j: int| 0 <= j < end && s[j] == c;
        assert(j == end - 1);
        assert(0 <= end - 1 < s.len() && s[end - 1] == c && !has_char_before(s, c, end - 1));
    }
}

/// Whether `pat` occurs in `s` starting at `i`.
pub open spec fn occurs_at(s: Seq<char>, pat: Seq<char>, i: int) -> bool {
    0 <= i && i + pat.len() <= s.len() && s.subrange(i, i + pat.len()) == pat
}

/// Whether `pat` occurs in `s` at some start before `end`.
pub open spec fn occurs_before(s: Seq<char>, pat: Seq<char>, end: int) -> bool {
    exists|j: int| 0 <= j < end && occurs_at(s, pat, j)
}

/// The start of the first occurrence of `pat` in `s`, as `str::find(pat)` reports it
/// (counted in characters).
pub open spec fn first_occurrence(s: Seq<char>, pat: Seq<char>) -> Option<int> {
    if occurs_before(s, pat, s.len() + 1int) {
        Some(choose|i: int| occurs_at(s, pat, i) && !occurs_before(s, pat, i))
    } else {
        None
    }
}

/// The position of the first `c` in `v`.
pub fn find_char(v: &Vec<char>, c: char) -> (r: Option<usize>)
    ensures
        r matches Some(i) ==> i < v.len() && v@[i as int] == c && !has_char_before(v@, c, i as int),
        r is None ==> !has_char_before(v@, c, v.len() as int),
        r matches Some(i) ==> first_char_index(v@, c) == Some(i as int),
        r is None ==> first_char_index(v@, c) is None,
{
    let mut i: usize = 0;
    while i < v.len()
        invariant
            i <= v.len(),
            !has_char_before(v@, c, i as int),
        decreases v.len() - i,
    {
        if v[i] == c {
            let ghost k = choose|k: int| 0 <= k < v.len() && v@[k] == c && !has_char_before(v@, c, k);
            assert(has_char_before(v@, c, v.len() as int));
            proof {
                if k < i {
                    assert(has_char_before(v@, c, i as int));
                } else if k > i {
                    assert(has_char_before(v@, c, k));
                }
            }
            return Some(i);
        }
        i += 1;
    }
    None
}

/// Whether `pat` occurs in `v` starting at `i`.
fn matches_at(v: &Vec<char>, pat: &Vec<char>, i: usize) -> (r: bool)
    requires
        i <= v.len(),
    ensures
        r == occurs_at(v@, pat@, i as int),
{
    if pat.len() > v.len() - i {
        return false;
    }
    let mut k: usize = 0;
    while k < pat.len()
        invariant
            k <= pat.len(),
            i + pat.len() <= v.len(),
            forall|j: int| 0 <= j < k ==> v@[i + j] == pat@[j],
        decreases pat.len() - k,
    {
        if v[i + k] != pat[k] {
            assert(v@.subrange(i as int, i + pat.len())[k as int] != pat@[k as int]);
            return false;
        }
        k += 1;
    }
    assert(v@.subrange(i as int, i + pat.len()) =~= pat@);
    true
}

/// The start of the first occurrence of `pat` in `v`.
pub fn find_text(v: &Vec<char>, pat: &Vec<char>) -> (r: Option<usize>)
    ensures
        r matches Some(i) ==> occurs_at(v@, pat@, i as int) && !occurs_before(v@, pat@, i as int),
        r is None ==> !occurs_before(v@, pat@, v.len() + 1int),
        r matches Some(i) ==> first_occurrence(v@, pat@) == Some(i as int),
        r is None ==> first_occurrence(v@, pat@) is None,
{
    let mut i: usize = 0;
    while i <= v.len()
        invariant
            i <= v.len() + 1,
            !occurs_before(v@, pat@, i as int),
        decreases v.len() + 1 - i,
    {
        if matches_at(v, pat, i) {
            let ghost k = choose|k: int| occurs_at(v@, pat@, k) && !occurs_before(v@, pat@, k);
            assert(occurs_before(v@, pat@, v.len() + 1int));
            proof {
                if k < i {
                    assert(occurs_before(v@, pat@, i as int));
                } else if k > i {
                    assert(occurs_before(v@, pat@, k));
                }
            }
            return Some(i);
        }
        if i == v.len() {
            proof {
                assert forall|j: int| 0 <= j < v.len() + 1 implies !occurs_at(v@, pat@, j) by {
                    if j < i {
                        assert(!occurs_before(v@, pat@, i as int));
                    }
                }
            }
            return None;
        }
        i += 1;
    }
    None
}

/// The maximal runs of non-white-space characters of `s`, as `str::split_whitespace`
/// yields them.
pub open spec fn ws_tokens(s: Seq<char>) -> Seq<Seq<char>>
    decreases s.len(),
{
    if s.len() == 0 {
        Seq::<Seq<char>>::empty()
    } else {
        let rest = ws_tokens(s.drop_last());
        if is_white_space(s.last()) {
            rest
        } else if s.len() >= 2 && !is_white_space(s[s.len() - 2]) {
            rest.update(rest.len() - 1, rest.last().push(s.last()))
        } else {
            rest.push(seq![s.last()])
        }
    }
}

proof fn lemma_ws_tokens_open(s: Seq<char>)
    requires
        s.len() >= 1,
        !is_white_space(s.last()),
    ensures
        ws_tokens(s).len() >= 1,
    decreases s.len(),
{
    if s.len() >= 2 && !is_white_space(s[s.len() - 2]) {
        lemma_ws_tokens_open(s.drop_last());
    }
}

/// The white-space separated tokens of `s`.
pub fn split_whitespace(s: &str) -> (tokens: Vec<String>)
    ensures
        texts(tokens@) == ws_tokens(s@),
{
    let v = chars_of(s);
    let mut tokens: Vec<String> = Vec::new();
    let mut current = String::new();
    let mut in_token = false;
    let mut i: usize = 0;
    assert(v@.take(0) =~= Seq::<char>::empty());
    while i < v.len()
        invariant
            i <= v.len(),
            v@ == s@,
            in_token ==> i > 0 && !is_white_space(v@[i - 1]),
            !in_token ==> i == 0 || is_white_space(v@[i - 1]),
            !in_token ==> current@ == Seq::<char>::empty(),
            in_token ==> texts(tokens@).push(current@) =~= ws_tokens(v@.take(i as int)),
            !in_token ==> texts(tokens@) =~= ws_tokens(v@.take(i as int)),
        decreases v.len() - i,
    {
        let c = v[i];
        proof {
            let t = v@.take(i + 1);
            assert(t.drop_last() =~= v@.take(i as int));
            if i > 0 {
                assert(t[t.len() - 2] == v@[i - 1]);
            }
        }
        if is_whitespace(c) {
            if in_token {
                let done = current;
                tokens.push(done);
                current = String::new();
                assert(texts(tokens@) =~= texts(tokens@.drop_last()).push(done@));
                in_token = false;
            }
        } else {
            current.push(c);
            if !in_token {
                assert(current@ =~= seq![c]);
            }
            in_token = true;
        }
        i += 1;
    }
    assert(v@.take(v.len() as int) =~= v@);
    if in_token {
        let done = current;
        tokens.push(done);
        assert(texts(tokens@) =~= texts(tokens@.drop_last()).push(done@));
    }
    tokens
}

// ---------------------------------------------------------------------------
// Lower case (Unicode, as std computes it)
// ---------------------------------------------------------------------------

/// The ASCII lower case of `c`: upper-case ASCII letters map to their lower-case
/// letter, every other character to itself.
pub open spec fn ascii_lower(c: char) -> char {
    if is_ascii_upper(c) {
        ((c as int) + 32) as char
    } else {
        c
    }
}

/// What `str::to_lowercase` returns for a text.
pub uninterp spec fn lowercase_of_text(s: Seq<char>) -> Seq<char>;

/// What `char::to_lowercase` yields for a character.
pub uninterp spec fn lowercase_of_char(c: char) -> Seq<char>;

/// Calls `str::to_lowercase`: its result is named `lowercase_of_text`; on an all-ASCII
/// text it is the ASCII lower case, character by character (the Unicode lower-case
/// mapping of an ASCII character is its ASCII lower case). The mapping of other
/// characters is left unsaid.
#[verifier::external_body]
pub fn to_lowercase(s: &str) -> (r: String)
    ensures
        r@ == lowercase_of_text(s@),
        (forall|i: int| 0 <= i < s@.len() ==> is_ascii_char(#[trigger] s@[i])) ==> r@ == s@.map_values(
            |c: char| ascii_lower(c),
        ),
{
    s.to_lowercase()
}

/// Calls `char::to_lowercase` and collects what it yields: the result is named
/// `lowercase_of_char`; for an ASCII character it is that character's ASCII lower
/// case alone.
#[verifier::external_body]
pub fn char_to_lowercase(c: char) -> (r: Vec<char>)
    ensures
        r@ == lowercase_of_char(c),
        is_ascii_char(c) ==> r@ == seq![ascii_lower(c)],
{
    c.to_lowercase().collect()
}

// ---------------------------------------------------------------------------
// Decimal numbers
// ---------------------------------------------------------------------------

/// Whether every character of `s` is a decimal digit.
pub open spec fn all_digits(s: Seq<char>) -> bool {
    forall|i: int| 0 <= i < s.len() ==> is_digit(#[trigger] s[i])
}

/// The number that the decimal digits `s` denote.
pub open spec fn digits_number(s: Seq<char>) -> nat
    decreases s.len(),
{
    if s.len() == 0 {
        0
    } else {
        digits_number(s.drop_last()) * 10 + digit_value(s.last())
    }
}

/// The digits of an unsigned number text: the text without one leading `+`.
pub open spec fn unsigned_body(s: Seq<char>) -> Seq<char> {
    if s.len() > 0 && s[0] == '+' {
        s.drop_first()
    } else {
        s
    }
}

/// The value of `s` read as `u64`/`usize` text is read by `str::parse` (an optional `+`,
/// then one or more decimal digits), when it is at most `max`.
pub open spec fn parse_unsigned(s: Seq<char>, max: nat) -> Option<nat> {
    let b = unsigned_body(s);
    if b.len() > 0 && all_digits(b) && digits_number(b) <= max {
        Some(digits_number(b))
    } else {
        None
    }
}

/// The value of `s` read as signed integer text, as `str::parse` reads it (an optional
/// `+` or `-`, then one or more decimal digits), when it lies in `min..=max`.
pub open spec fn parse_signed(s: Seq<char>, min: int, max: int) -> Option<int> {
    if s.len() > 0 && s[0] == '-' {
        let b = s.drop_first();
        if b.len() > 0 && all_digits(b) && -(digits_number(b) as int) >= min {
            Some(-(digits_number(b) as int))
        } else {
            None
        }
    } else {
        match parse_unsigned(s, if max < 0 { 0 } else { max as nat }) {
            Some(n) => if n <= max { Some(n as int) } else { None },
            None => None,
        }
    }
}

proof fn lemma_digits_number_prefix(s: Seq<char>, k: int)
    requires
        0 <= k <= s.len(),
    ensures
        digits_number(s.take(k)) <= digits_number(s),
    decreases s.len() - k,
{
    if k < s.len() {
        lemma_digits_number_prefix(s, k + 1);
        assert(s.take(k + 1).drop_last() =~= s.take(k));
    } else {
        assert(s.take(k) =~= s);
    }
}

/// The number that `v[from..]` denotes as decimal digits, when all of it is digits,
/// it is not empty, and the number is at most `max`.
fn parse_digits(v: &Vec<char>, from: usize, max: u64) -> (r: Option<u64>)
    requires
        from <= v.len(),
        max >= 9,
    ensures
        ({
            let b = v@.skip(from as int);
            match r {
                Some(n) => b.len() > 0 && all_digits(b) && digits_number(b) <= max && n
                    == digits_number(b),
                None => !(b.len() > 0 && all_digits(b) && digits_number(b) <= max),
            }
        }),
{
    let ghost b = v@.skip(from as int);
    if from == v.len() {
        return None;
    }
    let mut acc: u64 = 0;
    let mut i: usize = from;
    assert(b.take(0) =~= Seq::<char>::empty());
    while i < v.len()
        invariant
            from <= i <= v.len(),
            b == v@.skip(from as int),
            all_digits(b.take(i - from)),
            acc == digits_number(b.take(i - from)),
            acc <= max,
            max >= 9,
        decreases v.len() - i,
    {
        let c = v[i];
        assert(b[i - from] == c);
        if !('0' <= c && c <= '9') {
            assert(!all_digits(b));
            return None;
        }
        let d = (c as u32 - '0' as u32) as u64;
        assert(b.take(i - from + 1).drop_last() =~= b.take(i - from));
        if acc > (max - d) / 10 {
            proof {
                assert(acc * 10 + d > max) by (nonlinear_arith)
                    requires
                        acc > (max - d) / 10,
                        d <= max,
                ;
                lemma_digits_number_prefix(b, i - from + 1);
            }
            return None;
        }
        assert(acc * 10 + d <= max) by (nonlinear_arith)
            requires
                acc <= (max - d) / 10,
                d <= 9,
                d <= max,
        ;
        acc = acc * 10 + d;
        i += 1;
        assert(all_digits(b.take(i - from)));
    }
    assert(b.take(i - from) =~= b);
    Some(acc)
}

/// `s` read as a `u64`, as `str::parse::<u64>` reads it.
pub fn parse_u64(s: &str) -> (r: Option<u64>)
    ensures
        match r {
            Some(n) => parse_unsigned(s@, u64::MAX as nat) == Some(n as nat),
            None => parse_unsigned(s@, u64::MAX as nat) is None,
        },
{
    let v = chars_of(s);
    let from: usize = if v.len() > 0 && v[0] == '+' { 1 } else { 0 };
    assert(v@.skip(from as int) =~= unsigned_body(s@));
    parse_digits(&v, from, u64::MAX)
}

/// `s` read as a `usize`, as `str::parse::<usize>` reads it.
pub fn parse_usize(s: &str) -> (r: Option<usize>)
    ensures
        match r {
            Some(n) => parse_unsigned(s@, usize::MAX as nat) == Some(n as nat),
            None => parse_unsigned(s@, usize::MAX as nat) is None,
        },
{
    let v = chars_of(s);
    let from: usize = if v.len() > 0 && v[0] == '+' { 1 } else { 0 };
    assert(v@.skip(from as int) =~= unsigned_body(s@));
    match parse_digits(&v, from, usize::MAX as u64) {
        Some(n) => Some(n as usize),
        None => None,
    }
}

/// `s` read as an `i32`, as `str::parse::<i32>` reads it.
pub fn parse_i32(s: &str) -> (r: Option<i32>)
    ensures
        match r {
            Some(n) => parse_signed(s@, i32::MIN as int, i32::MAX as int) == Some(n as int),
            None => parse_signed(s@, i32::MIN as int, i32::MAX as int) is None,
        },
{
    let v = chars_of(s);
    if v.len() > 0 && v[0] == '-' {
        assert(v@.skip(1) =~= s@.drop_first());
        match parse_digits(&v, 1, 2147483648) {
            Some(n) => {
                let r: i64 = 0 - (n as i64);
                Some(r as i32)
            },
            None => None,
        }
    } else {
        let from: usize = if v.len() > 0 && v[0] == '+' { 1 } else { 0 };
        assert(v@.skip(from as int) =~= unsigned_body(s@));
        match parse_digits(&v, from, 2147483647) {
            Some(n) => Some(n as i32),
            None => None,
        }
    }
}

/// The decimal digits of `n`, as `Display` writes an unsigned number.
pub open spec fn decimal(n: nat) -> Seq<char>
    decreases n,
{
    if n < 10 {
        seq![digit_char(n)]
    } else {
        decimal(n / 10).push(digit_char(n % 10))
    }
}

/// The text of a signed number, as `Display` writes it.
pub open spec fn signed_decimal(n: int) -> Seq<char> {
    if n < 0 {
        seq!['-'] + decimal((-n) as nat)
    } else {
        decimal(n as nat)
    }
}

/// Appends the decimal digits of `n` to `out`.
pub fn push_decimal(out: &mut String, n: u64)
    ensures
        final(out)@ == old(out)@ + decimal(n as nat),
    decreases n,
{
    if n >= 10 {
        push_decimal(out, n / 10);
    }
    let d = n % 10;
    let c = ((d as u32) + ('0' as u32)) as u8 as char;
    assert(c == digit_char(d as nat));
    out.push(c);
    assert(old(out)@ + decimal(n as nat) =~= final(out)@);
}

/// The decimal text of `n`.
pub fn decimal_string(n: u64) -> (s: String)
    ensures
        s@ == decimal(n as nat),
{
    let mut s = String::new();
    push_decimal(&mut s, n);
    assert(s@ =~= decimal(n as nat));
    s
}

/// Appends the text of the signed number `n` to `out`.
pub fn push_signed_decimal(out: &mut String, n: i32)
    ensures
        final(out)@ == old(out)@ + signed_decimal(n as int),
{
    if n < 0 {
        out.push('-');
        let m: i64 = 0 - (n as i64);
        push_decimal(out, m as u64);
        assert(final(out)@ =~= old(out)@ + signed_decimal(n as int));
    } else {
        push_decimal(out, n as u64);
    }
}

/// The decimal text of a number is all digits, starts with no sign, and denotes it.
pub proof fn lemma_decimal_digits(n: nat)
    ensures
        decimal(n).len() >= 1,
        all_digits(decimal(n)),
        decimal(n)[0] != '+',
        decimal(n)[0] != '-',
        digits_number(decimal(n)) == n,
    decreases n,
{
    if n >= 10 {
        lemma_decimal_digits(n / 10);
        let d = decimal(n);
        assert(d.drop_last() =~= decimal(n / 10));
        assert(d[0] == decimal(n / 10)[0]);
        assert(d.last() == digit_char(n % 10));
        assert(digit_value(digit_char(n % 10)) == n % 10);
        assert(digits_number(d) == digits_number(decimal(n / 10)) * 10 + n % 10);
    } else {
        assert(digit_value(digit_char(n)) == n);
        assert(decimal(n).drop_last() =~= Seq::<char>::empty());
        assert(digits_number(Seq::<char>::empty()) == 0);
    }
}

/// Reading back the decimal text of a number gives the number.
pub proof fn lemma_parse_decimal(n: nat, max: nat)
    requires
        n <= max,
    ensures
        parse_unsigned(decimal(n), max) == Some(n),
{
    lemma_decimal_digits(n);
}

/// Reading back the text of a signed number gives the number.
pub proof fn lemma_parse_signed_decimal(n: int, min: int, max: int)
    requires
        min <= n <= max,
        min <= 0,
    ensures
        parse_signed(signed_decimal(n), min, max) == Some(n),
{
    if n < 0 {
        lemma_decimal_digits((-n) as nat);
        assert((seq!['-'] + decimal((-n) as nat)).drop_first() =~= decimal((-n) as nat));
    } else {
        lemma_decimal_digits(n as nat);
    }
}

} // verus!
