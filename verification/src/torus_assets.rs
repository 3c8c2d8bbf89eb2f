//! The names of the torus collider models: `torus_R<major>_r<minor>`, radii in
//! millimetres, written when a model is generated and read back to size a module.
use vstd::prelude::*;

use crate::text::{
    chars_of, parse_i32, parse_signed, push_signed_decimal, signed_decimal, split_on,
    split_text, string_of_range, text_eq, texts,
};

verus! {

/// The model name of a torus with the given radii (millimetres).
pub open spec fn spec_torus_model_name(major_mm: int, minor_mm: int) -> Seq<char> {
    "torus_R"@ + signed_decimal(major_mm) + "_r"@ + signed_decimal(minor_mm)
}

/// The model name of a torus with the given radii (millimetres).
pub fn torus_model_name(major_mm: i32, minor_mm: i32) -> (name: String)
    ensures
        name@ == spec_torus_model_name(major_mm as int, minor_mm as int),
{
    let mut name = String::from_str("torus_R");
    push_signed_decimal(&mut name, major_mm);
    name.append("_r");
    push_signed_decimal(&mut name, minor_mm);
    name
}

/// `s` without its leading `c`s, as `str::trim_start_matches(c)` gives it.
pub open spec fn strip_leading(s: Seq<char>, c: char) -> Seq<char>
    decreases s.len(),
{
    if s.len() > 0 && s[0] == c {
        strip_leading(s.drop_first(), c)
    } else {
        s
    }
}

/// The radii (millimetres) a torus model name carries: exactly three `_`-separated parts,
/// `torus`, then the major radius after any leading `R`s, then the minor radius after any
/// leading `r`s, each read as an `i32`.
pub open spec fn spec_torus_radii(name: Seq<char>) -> Option<(int, int)> {
    let parts = split_text(name, '_');
    if parts.len() == 3 && parts[0] == "torus"@ {
        let major = parse_signed(strip_leading(parts[1], 'R'), i32::MIN as int, i32::MAX as int);
        let minor = parse_signed(strip_leading(parts[2], 'r'), i32::MIN as int, i32::MAX as int);
        match (major, minor) {
            (Some(a), Some(b)) => Some((a, b)),
            _ => None,
        }
    } else {
        None
    }
}

proof fn lemma_strip_skip(s: Seq<char>, c: char, k: int)
    requires
        0 <= k <= s.len(),
        forall|j: int| 0 <= j < k ==> s[j] == c,
        k == s.len() || s[k] != c,
    ensures
        strip_leading(s, c) == s.skip(k),
    decreases k,
{
    if k > 0 {
        lemma_strip_skip(s.drop_first(), c, k - 1);
        assert(s.drop_first().skip(k - 1) =~= s.skip(k));
    } else {
        assert(s.skip(0) =~= s);
    }
}

/// `s` without its leading `c`s.
fn strip_leading_char(s: &str, c: char) -> (r: String)
    ensures
        r@ == strip_leading(s@, c),
{
    let v = chars_of(s);
    let mut k: usize = 0;
    while k < v.len() && v[k] == c
        invariant
            k <= v.len(),
            v@ == s@,
            forall|j: int| 0 <= j < k ==> v@[j] == c,
        decreases v.len() - k,
    {
        k += 1;
    }
    proof {
        lemma_strip_skip(v@, c, k as int);
        assert(v@.subrange(k as int, v.len() as int) =~= v@.skip(k as int));
    }
    string_of_range(&v, k, v.len())
}

/// The radii (millimetres) a torus model name carries, when it is one.
pub fn torus_radii_mm(model_name: &str) -> (r: Option<(i32, i32)>)
    ensures
        match r {
            Some((a, b)) => spec_torus_radii(model_name@) == Some((a as int, b as int)),
            None => spec_torus_radii(model_name@) is None,
        },
{
    let parts = split_on(model_name, '_');
    if parts.len() != 3 {
        return None;
    }
    assert(texts(parts@)[0] == parts@[0]@ && texts(parts@)[1] == parts@[1]@ && texts(parts@)[2]
        == parts@[2]@);
    if !text_eq(parts[0].as_str(), "torus") {
        return None;
    }
    let major_text = strip_leading_char(parts[1].as_str(), 'R');
    let minor_text = strip_leading_char(parts[2].as_str(), 'r');
    let major = parse_i32(major_text.as_str());
    let minor = parse_i32(minor_text.as_str());
    match (major, minor) {
        (Some(a), Some(b)) => Some((a, b)),
        _ => None,
    }
}

/// The outer radius (millimetres) of the torus a model name describes: its two radii
/// added; none when the name is no torus model name.
pub fn torus_outer_radius_mm(model_name: &str) -> (r: Option<i64>)
    ensures
        match spec_torus_radii(model_name@) {
            Some((major, minor)) => r == Some((major + minor) as i64),
            None => r is None,
        },
{
    match torus_radii_mm(model_name) {
        Some((major, minor)) => Some(major as i64 + minor as i64),
        None => None,
    }
}

// ---------------------------------------------------------------------------
// Writing a name then reading it gives the radii back
// ---------------------------------------------------------------------------

proof fn lemma_split_append_plain(s: Seq<char>, t: Seq<char>, sep: char)
    requires
        forall|i: int| 0 <= i < t.len() ==> t[i] != sep,
    ensures
        split_text(s + t, sep) == split_text(s, sep).update(
            split_text(s, sep).len() - 1,
            split_text(s, sep).last() + t,
        ),
    decreases t.len(),
{
    crate::text::lemma_split_text_nonempty(s, sep);
    if t.len() == 0 {
        assert(s + t =~= s);
        assert(split_text(s, sep).last() + t =~= split_text(s, sep).last());
        assert(split_text(s, sep).update(split_text(s, sep).len() - 1, split_text(s, sep).last())
            =~= split_text(s, sep));
    } else {
        lemma_split_append_plain(s, t.drop_last(), sep);
        assert((s + t).drop_last() =~= s + t.drop_last());
        assert((s + t).last() == t.last());
        let base = split_text(s, sep);
        assert(base.last() + t.drop_last() + seq![t.last()] =~= base.last() + t);
        assert((base.last() + t.drop_last()).push(t.last()) =~= base.last() + t);
        assert(split_text(s + t, sep) =~= base.update(base.len() - 1, base.last() + t));
    }
}

proof fn lemma_split_push_sep(s: Seq<char>, sep: char)
    ensures
        split_text(s + seq![sep], sep) == split_text(s, sep).push(Seq::<char>::empty()),
{
    assert((s + seq![sep]).drop_last() =~= s);
}

proof fn lemma_signed_decimal_plain(n: int)
    ensures
        forall|i: int| 0 <= i < signed_decimal(n).len() ==> signed_decimal(n)[i] != '_',
        signed_decimal(n).len() > 0,
        signed_decimal(n)[0] != 'R' && signed_decimal(n)[0] != 'r',
{
    if n < 0 {
        crate::text::lemma_decimal_digits((-n) as nat);
        let d = crate::text::decimal((-n) as nat);
        assert forall|i: int| 0 <= i < signed_decimal(n).len() implies signed_decimal(n)[i] != '_' by {
            if i > 0 {
                assert(signed_decimal(n)[i] == d[i - 1]);
                assert(crate::text::is_digit(d[i - 1]));
            }
        }
    } else {
        crate::text::lemma_decimal_digits(n as nat);
        let d = crate::text::decimal(n as nat);
        assert forall|i: int| 0 <= i < d.len() implies d[i] != '_' by {
            assert(crate::text::is_digit(d[i]));
        }
        assert(crate::text::is_digit(d[0]));
    }
}

/// Reading the radii back out of a torus model name gives the radii it was made from.
pub proof fn law_torus_name_round_trip(major_mm: i32, minor_mm: i32)
    ensures
        spec_torus_radii(spec_torus_model_name(major_mm as int, minor_mm as int)) == Some(
            (major_mm as int, minor_mm as int),
        ),
{
    reveal_strlit("torus_R");
    reveal_strlit("_r");
    reveal_strlit("torus");
    let a = signed_decimal(major_mm as int);
    let b = signed_decimal(minor_mm as int);
    lemma_signed_decimal_plain(major_mm as int);
    lemma_signed_decimal_plain(minor_mm as int);
    let torus = "torus"@;
    let ra = seq!['R'] + a;
    let rb = seq!['r'] + b;
    assert forall|i: int| 0 <= i < torus.len() implies torus[i] != '_' by {
    }
    assert forall|i: int| 0 <= i < ra.len() implies ra[i] != '_' by {
        if i > 0 {
            assert(ra[i] == a[i - 1]);
        }
    }
    assert forall|i: int| 0 <= i < rb.len() implies rb[i] != '_' by {
        if i > 0 {
            assert(rb[i] == b[i - 1]);
        }
    }
    let e = Seq::<char>::empty();
    lemma_split_append_plain(e, torus, '_');
    assert(e + torus =~= torus);
    assert(split_text(e, '_') =~= seq![e]);
    assert(split_text(torus, '_') =~= seq![torus]);
    lemma_split_push_sep(torus, '_');
    let s1 = torus + seq!['_'];
    lemma_split_append_plain(s1, ra, '_');
    let s2 = s1 + ra;
    assert(split_text(s2, '_') =~= seq![torus, ra]);
    lemma_split_push_sep(s2, '_');
    let s3 = s2 + seq!['_'];
    lemma_split_append_plain(s3, rb, '_');
    let s4 = s3 + rb;
    assert(split_text(s4, '_') =~= seq![torus, ra, rb]);
    assert(s4 =~= spec_torus_model_name(major_mm as int, minor_mm as int));
    lemma_strip_skip(ra, 'R', 1);
    assert(ra.skip(1) =~= a);
    lemma_strip_skip(rb, 'r', 1);
    assert(rb.skip(1) =~= b);
    crate::text::lemma_parse_signed_decimal(major_mm as int, i32::MIN as int, i32::MAX as int);
    crate::text::lemma_parse_signed_decimal(minor_mm as int, i32::MIN as int, i32::MAX as int);
}

// ---------------------------------------------------------------------------
// The faces of the torus mesh
// ---------------------------------------------------------------------------

/// Rings around the torus's main circle.
pub const MAJOR_SEGMENTS: usize = 48;

/// Vertices around each ring.
pub const MINOR_SEGMENTS: usize = 24;

/// The 1-based vertex number of vertex `j` of ring `i`.
pub open spec fn vertex_number(i: int, j: int) -> int {
    i * MINOR_SEGMENTS + j + 1
}

/// The two triangles of the quad between ring `i` and the next ring (wrapping around),
/// from vertex `j` to the next vertex (wrapping around).
pub open spec fn quad_triangles(i: int, j: int) -> ((usize, usize, usize), (usize, usize, usize)) {
    let i_next = (i + 1) % (MAJOR_SEGMENTS as int);
    let j_next = (j + 1) % (MINOR_SEGMENTS as int);
    let a = vertex_number(i, j) as usize;
    let b = vertex_number(i_next, j) as usize;
    let c = vertex_number(i_next, j_next) as usize;
    let d = vertex_number(i, j_next) as usize;
    ((a, b, c), (a, c, d))
}

/// The triangles of the torus mesh, as 1-based vertex numbers of the OBJ file: for each
/// ring and each vertex of it, the two triangles of the quad that starts there.
pub fn torus_faces() -> (faces: Vec<(usize, usize, usize)>)
    ensures
        faces.len() == 2 * MAJOR_SEGMENTS * MINOR_SEGMENTS,
        forall|i: int, j: int|
            #![trigger quad_triangles(i, j)]
            0 <= i < MAJOR_SEGMENTS && 0 <= j < MINOR_SEGMENTS ==> {
                let (first, second) = quad_triangles(i, j);
                &&& faces@[2 * (i * MINOR_SEGMENTS + j)] == first
                &&& faces@[2 * (i * MINOR_SEGMENTS + j) + 1] == second
            },
{
    let mut faces: Vec<(usize, usize, usize)> = Vec::new();
    let mut i: usize = 0;
    while i < MAJOR_SEGMENTS
        invariant
            i <= MAJOR_SEGMENTS,
            faces.len() == 2 * i * MINOR_SEGMENTS,
            forall|ii: int, jj: int|
                #![trigger quad_triangles(ii, jj)]
                0 <= ii < i && 0 <= jj < MINOR_SEGMENTS ==> {
                    let (first, second) = quad_triangles(ii, jj);
                    &&& faces@[2 * (ii * MINOR_SEGMENTS + jj)] == first
                    &&& faces@[2 * (ii * MINOR_SEGMENTS + jj) + 1] == second
                },
        decreases MAJOR_SEGMENTS - i,
    {
        let i_next = (i + 1) % MAJOR_SEGMENTS;
        let mut j: usize = 0;
        while j < MINOR_SEGMENTS
            invariant
                i < MAJOR_SEGMENTS,
                i_next == (i + 1) % (MAJOR_SEGMENTS as int),
                j <= MINOR_SEGMENTS,
                faces.len() == 2 * (i * MINOR_SEGMENTS + j),
                forall|ii: int, jj: int|
                    #![trigger quad_triangles(ii, jj)]
                    (0 <= ii < i && 0 <= jj < MINOR_SEGMENTS) || (ii == i && 0 <= jj < j) ==> {
                        let (first, second) = quad_triangles(ii, jj);
                        &&& faces@[2 * (ii * MINOR_SEGMENTS + jj)] == first
                        &&& faces@[2 * (ii * MINOR_SEGMENTS + jj) + 1] == second
                    },
            decreases MINOR_SEGMENTS - j,
        {
            let j_next = (j + 1) % MINOR_SEGMENTS;
            let a = i * MINOR_SEGMENTS + j + 1;
            let b = i_next * MINOR_SEGMENTS + j + 1;
            let c = i_next * MINOR_SEGMENTS + j_next + 1;
            let d = i * MINOR_SEGMENTS + j_next + 1;
            let ghost before = faces@;
            faces.push((a, b, c));
            faces.push((a, c, d));
            proof {
                assert(quad_triangles(i as int, j as int) == ((a, b, c), (a, c, d)));
                assert forall|ii: int, jj: int|
                    #![trigger quad_triangles(ii, jj)]
                    (0 <= ii < i && 0 <= jj < MINOR_SEGMENTS) || (ii == i && 0 <= jj < j + 1) implies {
                        let (first, second) = quad_triangles(ii, jj);
                        &&& faces@[2 * (ii * MINOR_SEGMENTS + jj)] == first
                        &&& faces@[2 * (ii * MINOR_SEGMENTS + jj) + 1] == second
                    } by {
                    if ii < i {
                        assert(ii * MINOR_SEGMENTS + jj < i * MINOR_SEGMENTS) by (nonlinear_arith)
                            requires
                                ii < i,
                                jj < MINOR_SEGMENTS,
                        ;
                    }
                }
            }
            j += 1;
        }
        i += 1;
    }
    faces
}

/// Every triangle of the torus mesh refers to vertices that the mesh has (numbered from 1
/// to rings times vertices per ring).
pub proof fn law_torus_faces_use_existing_vertices(i: int, j: int)
    requires
        0 <= i < MAJOR_SEGMENTS,
        0 <= j < MINOR_SEGMENTS,
    ensures
        ({
            let (first, second) = quad_triangles(i, j);
            let n = MAJOR_SEGMENTS * MINOR_SEGMENTS;
            &&& 1 <= first.0 <= n && 1 <= first.1 <= n && 1 <= first.2 <= n
            &&& 1 <= second.0 <= n && 1 <= second.1 <= n && 1 <= second.2 <= n
        }),
{
}

} // verus!
