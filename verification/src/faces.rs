//! The body colour of a marble, read off its face image: the most common colour among
//! the pixels that are neither transparent, nor background white, nor outline black,
//! with colours grouped into cubes of 32 levels per channel.
use vstd::prelude::*;

use image::GenericImageView;

verus! {

/// Whether a pixel (red, green, blue, alpha) takes part in the count.
pub open spec fn is_counted(p: [u8; 4]) -> bool {
    let (r, g, b, a) = (p[0], p[1], p[2], p[3]);
    &&& a >= 128
    &&& !(r > 200 && g > 200 && b > 200)
    &&& !(r < 40 && g < 40 && b < 40)
}

/// The colour cube of a pixel: each channel with its low five bits cleared.
pub open spec fn cube_of(p: [u8; 4]) -> (u8, u8, u8) {
    (p[0] & 0xE0, p[1] & 0xE0, p[2] & 0xE0)
}

/// How many counted pixels fall in a cube.
pub open spec fn cube_count(pixels: Seq<[u8; 4]>, cube: (u8, u8, u8)) -> nat
    decreases pixels.len(),
{
    if pixels.len() == 0 {
        0
    } else {
        let p = pixels.last();
        cube_count(pixels.drop_last(), cube) + if is_counted(p) && cube_of(p) == cube {
            1nat
        } else {
            0nat
        }
    }
}

/// The colour reported for a cube: its centre (each channel plus 16).
pub open spec fn cube_centre(cube: (u8, u8, u8)) -> (u8, u8, u8) {
    ((cube.0 + 16) as u8, (cube.1 + 16) as u8, (cube.2 + 16) as u8)
}

/// The slot of a cube in the table of counts.
spec fn slot_of(cube: (u8, u8, u8)) -> int {
    (cube.0 / 32) * 64 + (cube.1 / 32) * 8 + cube.2 / 32
}

/// The cube a slot of the table stands for.
spec fn cube_at(slot: int) -> (u8, u8, u8) {
    (((slot / 64) * 32) as u8, (((slot / 8) % 8) * 32) as u8, ((slot % 8) * 32) as u8)
}

proof fn lemma_mask(x: u8)
    ensures
        x & 0xE0 == (x / 32) * 32,
        (x & 0xE0) / 32 == x / 32,
        x & 0xE0 <= 0xE0,
{
    assert(x & 0xE0 == (x / 32) * 32) by (bit_vector);
    assert((x & 0xE0) / 32 == x / 32) by (bit_vector);
    assert(x & 0xE0 <= 0xE0) by (bit_vector);
}

proof fn lemma_split_slot(a: u32, b: u32, c: u32)
    requires
        a < 8,
        b < 8,
        c < 8,
    ensures
        (a * 64 + b * 8 + c) / 64 == a,
        ((a * 64 + b * 8 + c) / 8) % 8 == b,
        (a * 64 + b * 8 + c) % 8 == c,
        a * 64 + b * 8 + c < 512,
{
    assert((a * 64 + b * 8 + c) / 64 == a) by (bit_vector)
        requires
            a < 8,
            b < 8,
            c < 8,
    ;
    assert(((a * 64 + b * 8 + c) / 8) % 8 == b) by (bit_vector)
        requires
            a < 8,
            b < 8,
            c < 8,
    ;
    assert((a * 64 + b * 8 + c) % 8 == c) by (bit_vector)
        requires
            a < 8,
            b < 8,
            c < 8,
    ;
}

proof fn lemma_join_slot(slot: u32)
    requires
        slot < 512,
    ensures
        (slot / 64) * 64 + ((slot / 8) % 8) * 8 + slot % 8 == slot,
        slot / 64 < 8,
{
    assert((slot / 64) * 64 + ((slot / 8) % 8) * 8 + slot % 8 == slot) by (bit_vector)
        requires
            slot < 512,
    ;
    assert(slot / 64 < 8) by (bit_vector)
        requires
            slot < 512,
    ;
}

proof fn lemma_slot_of_cube(p: [u8; 4])
    ensures
        0 <= slot_of(cube_of(p)) < 512,
        cube_at(slot_of(cube_of(p))) == cube_of(p),
        slot_of(cube_of(p)) == (p[0] / 32) * 64 + (p[1] / 32) * 8 + p[2] / 32,
{
    lemma_mask(p[0]);
    lemma_mask(p[1]);
    lemma_mask(p[2]);
    let (a, b, c) = ((p[0] / 32) as u32, (p[1] / 32) as u32, (p[2] / 32) as u32);
    lemma_split_slot(a, b, c);
}

proof fn lemma_slot_cube(slot: int)
    requires
        0 <= slot < 512,
    ensures
        slot_of(cube_at(slot)) == slot,
{
    lemma_join_slot(slot as u32);
}

/// Whether a cube is one that some slot stands for (its channels are multiples of 32).
spec fn is_cube(cube: (u8, u8, u8)) -> bool {
    cube.0 % 32 == 0 && cube.1 % 32 == 0 && cube.2 % 32 == 0
}

proof fn lemma_cube_slot(cube: (u8, u8, u8))
    requires
        is_cube(cube),
    ensures
        0 <= slot_of(cube) < 512,
        cube_at(slot_of(cube)) == cube,
{
    let (a, b, c) = ((cube.0 / 32) as u32, (cube.1 / 32) as u32, (cube.2 / 32) as u32);
    lemma_split_slot(a, b, c);
}

proof fn lemma_count_of_non_cube(pixels: Seq<[u8; 4]>, cube: (u8, u8, u8))
    requires
        !is_cube(cube),
    ensures
        cube_count(pixels, cube) == 0,
    decreases pixels.len(),
{
    if pixels.len() > 0 {
        lemma_count_of_non_cube(pixels.drop_last(), cube);
        let p = pixels.last();
        lemma_mask(p[0]);
        lemma_mask(p[1]);
        lemma_mask(p[2]);
    }
}

/// Whether `r` is a dominant colour of `pixels`: none exactly when no pixel counts, else
/// the centre of a cube that holds counted pixels and at least as many as any other cube.
pub open spec fn is_dominant_colour(pixels: Seq<[u8; 4]>, r: Option<(u8, u8, u8)>) -> bool {
    &&& r is None <==> forall|i: int| 0 <= i < pixels.len() ==> !is_counted(#[trigger] pixels[i])
    &&& r matches Some(c) ==> exists|cube: (u8, u8, u8)|
        cube_centre(cube) == c && cube_count(pixels, cube) > 0 && forall|other: (u8, u8, u8)|
            cube_count(pixels, other) <= #[trigger] cube_count(pixels, cube)
}

/// The dominant colour of a face image's pixels: the centre of the cube with the most
/// counted pixels (which of several equally common cubes is left open); none when no
/// pixel counts.
pub fn dominant_color(pixels: &Vec<[u8; 4]>) -> (r: Option<(u8, u8, u8)>)
    ensures
        is_dominant_colour(pixels@, r),
{
    let mut counts: Vec<u64> = Vec::new();
    let mut s: usize = 0;
    while s < 512
        invariant
            s <= 512,
            counts.len() == s,
            forall|j: int| 0 <= j < s ==> counts@[j] == 0,
        decreases 512 - s,
    {
        counts.push(0);
        s += 1;
    }
    let ghost px = pixels@;
    let mut i: usize = 0;
    let mut any = false;
    assert(px.take(0) =~= Seq::<[u8; 4]>::empty());
    while i < pixels.len()
        invariant
            i <= pixels.len(),
            px == pixels@,
            counts.len() == 512,
            forall|j: int| 0 <= j < 512 ==> #[trigger] counts@[j] == cube_count(px.take(i as int), cube_at(j)),
            forall|j: int| 0 <= j < 512 ==> #[trigger] counts@[j] <= i,
            any == exists|k: int| 0 <= k < i && is_counted(#[trigger] px[k]),
        decreases pixels.len() - i,
    {
        let p = pixels[i];
        assert(px.take(i + 1).drop_last() =~= px.take(i as int));
        assert(px.take(i + 1).last() == p);
        let (r, g, b, a) = (p[0], p[1], p[2], p[3]);
        let counted = a >= 128 && !(r > 200 && g > 200 && b > 200) && !(r < 40 && g < 40 && b < 40);
        proof {
            lemma_slot_of_cube(p);
        }
        if counted {
            let slot = (r / 32) as usize * 64 + (g / 32) as usize * 8 + (b / 32) as usize;
            let old_count = counts[slot];
            counts.set(slot, old_count + 1);
            any = true;
            proof {
                assert forall|j: int| 0 <= j < 512 implies #[trigger] counts@[j] == cube_count(px.take(i + 1), cube_at(j)) by {
                    if j != slot {
                        lemma_slot_cube(j);
                        assert(cube_at(j) != cube_of(p));
                    }
                }
            }
        } else {
            assert forall|j: int| 0 <= j < 512 implies #[trigger] counts@[j] == cube_count(px.take(i + 1), cube_at(j)) by {
            }
        }
        i += 1;
    }
    assert(px.take(pixels.len() as int) =~= px);
    if !any {
        return None;
    }
    let mut best: usize = 0;
    let mut j: usize = 1;
    while j < 512
        invariant
            1 <= j <= 512,
            best < j,
            counts.len() == 512,
            forall|k: int| 0 <= k < j ==> counts@[k] <= #[trigger] counts@[best as int],
        decreases 512 - j,
    {
        if counts[j] > counts[best] {
            best = j;
        }
        j += 1;
    }
    let ghost cube = cube_at(best as int);
    proof {
        let k = choose|k: int| 0 <= k < pixels.len() && is_counted(#[trigger] px[k]);
        lemma_slot_of_cube(px[k]);
        let ks = slot_of(cube_of(px[k]));
        assert(counts@[ks] == cube_count(px, cube_of(px[k])));
        lemma_count_positive(px, k);
        assert forall|other: (u8, u8, u8)| cube_count(px, other) <= #[trigger] cube_count(px, cube) by {
            if is_cube(other) {
                lemma_cube_slot(other);
                assert(counts@[slot_of(other)] == cube_count(px, other));
            } else {
                lemma_count_of_non_cube(px, other);
            }
        }
    }
    let top_r: u8 = ((best / 64) * 32) as u8;
    let top_g: u8 = (((best / 8) % 8) * 32) as u8;
    let top_b: u8 = ((best % 8) * 32) as u8;
    Some((top_r + 16, top_g + 16, top_b + 16))
}

/// Whether a pixel is left out of the count by its own values: transparent (alpha below
/// 128), background white (every colour channel above 200) or outline black (every
/// colour channel below 40).
pub open spec fn is_background_pixel(p: [u8; 4]) -> bool {
    ||| p[3] < 128
    ||| (p[0] > 200 && p[1] > 200 && p[2] > 200)
    ||| (p[0] < 40 && p[1] < 40 && p[2] < 40)
}

proof fn lemma_count_ignores_background(pixels: Seq<[u8; 4]>, q: [u8; 4], cube: (u8, u8, u8))
    requires
        is_background_pixel(q),
    ensures
        cube_count(pixels.push(q), cube) == cube_count(pixels, cube),
{
    assert(pixels.push(q).drop_last() =~= pixels);
}

/// Transparent, background-white and outline-black pixels do not change a face's colour:
/// adding one to the image leaves the dominant colours exactly as they were.
pub proof fn law_background_pixels_do_not_count(pixels: Seq<[u8; 4]>, q: [u8; 4], r: Option<(u8, u8, u8)>)
    requires
        is_background_pixel(q),
    ensures
        is_dominant_colour(pixels.push(q), r) == is_dominant_colour(pixels, r),
{
    let more = pixels.push(q);
    assert(!is_counted(q));
    assert forall|cube: (u8, u8, u8)| #[trigger] cube_count(more, cube) == cube_count(pixels, cube) by {
        lemma_count_ignores_background(pixels, q, cube);
    }
    if let Some(c) = r {
        if is_dominant_colour(pixels, r) {
            let b = choose|b: (u8, u8, u8)|
                cube_centre(b) == c && cube_count(pixels, b) > 0 && forall|other: (u8, u8, u8)|
                    cube_count(pixels, other) <= #[trigger] cube_count(pixels, b);
            assert(cube_count(more, b) == cube_count(pixels, b));
            assert forall|other: (u8, u8, u8)| cube_count(more, other) <= #[trigger] cube_count(more, b) by {
                assert(cube_count(more, other) == cube_count(pixels, other));
            }
        }
        if is_dominant_colour(more, r) {
            let b = choose|b: (u8, u8, u8)|
                cube_centre(b) == c && cube_count(more, b) > 0 && forall|other: (u8, u8, u8)|
                    cube_count(more, other) <= #[trigger] cube_count(more, b);
            assert(cube_count(more, b) == cube_count(pixels, b));
            assert forall|other: (u8, u8, u8)| cube_count(pixels, other) <= #[trigger] cube_count(pixels, b) by {
                assert(cube_count(more, other) == cube_count(pixels, other));
            }
        }
    }
    assert((forall|i: int| 0 <= i < more.len() ==> !is_counted(#[trigger] more[i])) == (forall|i: int|
        0 <= i < pixels.len() ==> !is_counted(#[trigger] pixels[i]))) by {
        if forall|i: int| 0 <= i < pixels.len() ==> !is_counted(#[trigger] pixels[i]) {
            assert forall|i: int| 0 <= i < more.len() implies !is_counted(#[trigger] more[i]) by {
                if i < pixels.len() {
                    assert(more[i] == pixels[i]);
                } else {
                    assert(more[i] == q);
                }
            }
        }
        if forall|i: int| 0 <= i < more.len() ==> !is_counted(#[trigger] more[i]) {
            assert forall|i: int| 0 <= i < pixels.len() implies !is_counted(#[trigger] pixels[i]) by {
                assert(more[i] == pixels[i]);
            }
        }
    }
}

proof fn lemma_count_outside_cube(pixels: Seq<[u8; 4]>, cube: (u8, u8, u8), other: (u8, u8, u8))
    requires
        other != cube,
        forall|i: int| 0 <= i < pixels.len() ==> is_background_pixel(#[trigger] pixels[i]) || cube_of(pixels[i]) == cube,
    ensures
        cube_count(pixels, other) == 0,
    decreases pixels.len(),
{
    if pixels.len() > 0 {
        let front = pixels.drop_last();
        assert forall|i: int| 0 <= i < front.len() implies is_background_pixel(#[trigger] front[i]) || cube_of(front[i]) == cube by {
            assert(front[i] == pixels[i]);
        }
        lemma_count_outside_cube(front, cube, other);
        assert(is_background_pixel(pixels[pixels.len() - 1]) || cube_of(pixels.last()) == cube);
    }
}

/// A face whose pixels, leaving the background aside, all fall in one colour cube — and
/// at least one does — has that cube's centre as its colour: a red body drawn with a black
/// outline on white reads as red.
pub proof fn law_single_colour_face(pixels: Seq<[u8; 4]>, k: int, r: Option<(u8, u8, u8)>)
    requires
        0 <= k < pixels.len(),
        !is_background_pixel(pixels[k]),
        forall|i: int|
            0 <= i < pixels.len() ==> is_background_pixel(#[trigger] pixels[i]) || cube_of(pixels[i])
                == cube_of(pixels[k]),
        is_dominant_colour(pixels, r),
    ensures
        r == Some(cube_centre(cube_of(pixels[k]))),
{
    let cube = cube_of(pixels[k]);
    lemma_count_positive(pixels, k);
    assert(is_counted(pixels[k]));
    match r {
        Some(c) => {
            let best = choose|b: (u8, u8, u8)|
                cube_centre(b) == c && cube_count(pixels, b) > 0 && forall|other: (u8, u8, u8)|
                    cube_count(pixels, other) <= #[trigger] cube_count(pixels, b);
            if best != cube {
                lemma_count_outside_cube(pixels, cube, best);
            }
        },
        None => {
            assert(!is_counted(pixels[k]));
        },
    }
}

/// The pixels that `image::load_from_memory` decodes from the bytes of an image file,
/// row by row, each as red, green, blue and alpha; none when it cannot decode them.
pub uninterp spec fn decoded_rgba_pixels(bytes: Seq<u8>) -> Option<Seq<[u8; 4]>>;

/// Decodes an image file's bytes with `image::load_from_memory` and lists its pixels, each
/// converted to 8-bit RGBA as the decoded image's pixel view does. Trusted: the result is
/// only tied to the bytes by the name `decoded_rgba_pixels`; what decoding gives is not
/// stated.
#[verifier::external_body]
fn decode_rgba_pixels(bytes: &Vec<u8>) -> (r: Option<Vec<[u8; 4]>>)
    ensures
        match r {
            Some(p) => decoded_rgba_pixels(bytes@) == Some(p@),
            None => decoded_rgba_pixels(bytes@) is None,
        },
{
    match image::load_from_memory(bytes.as_slice()) {
        Ok(img) => Some(img.pixels().map(|(_, _, p)| p.0).collect()),
        Err(_) => None,
    }
}

/// The dominant colour of a face image given as the bytes of its PNG file: none when the
/// bytes do not decode, else the dominant colour of its pixels.
pub fn dominant_color_from_png(bytes: &Vec<u8>) -> (r: Option<(u8, u8, u8)>)
    ensures
        match decoded_rgba_pixels(bytes@) {
            Some(pixels) => is_dominant_colour(pixels, r),
            None => r is None,
        },
{
    match decode_rgba_pixels(bytes) {
        Some(pixels) => dominant_color(&pixels),
        None => None,
    }
}

proof fn lemma_count_positive(pixels: Seq<[u8; 4]>, k: int)
    requires
        0 <= k < pixels.len(),
        is_counted(pixels[k]),
    ensures
        cube_count(pixels, cube_of(pixels[k])) > 0,
    decreases pixels.len(),
{
    if k < pixels.len() - 1 {
        lemma_count_positive(pixels.drop_last(), k);
        assert(pixels.drop_last()[k] == pixels[k]);
    }
}

} // verus!
