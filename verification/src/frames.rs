//! Pictures: written out, and looked at.
//!
//! A picture is rows of pixels, four bytes each, from the bottom up.
use crate::text;

use vstd::prelude::*;

verus! {

/// The bytes of the characters of a text that is made of ASCII.
pub open spec fn ascii(s: Seq<char>) -> Seq<u8> {
    s.map_values(|c: char| c as u8)
}

/// The head of a picture file.
pub open spec fn ppm_head(width: nat, height: nat) -> Seq<u8> {
    ascii(
        "P6\n"@ + text::numeral(width) + seq![' '] + text::numeral(height) + "\n255\n"@,
    )
}

/// The colours of a row of pixels, the first `n` of them.
pub open spec fn row_of(pixels: Seq<u8>, start: int, n: int) -> Seq<u8>
    decreases n,
{
    if n <= 0 {
        seq![]
    } else {
        let at = start + (n - 1) * 4;
        row_of(pixels, start, n - 1) + seq![pixels[at], pixels[at + 1], pixels[at + 2]]
    }
}

/// The colours of the topmost `n` rows, from the top down.
pub open spec fn rows_of(pixels: Seq<u8>, width: int, height: int, n: int) -> Seq<u8>
    decreases n,
{
    if n <= 0 {
        seq![]
    } else {
        rows_of(pixels, width, height, n - 1) + row_of(pixels, (height - n) * width * 4, width)
    }
}

fn push_ascii(out: &mut Vec<u8>, s: &str)
    requires
        forall|i: int| 0 <= i < s@.len() ==> (#[trigger] s@[i] as u32) < 128,
    ensures
        final(out)@ == old(out)@ + ascii(s@),
{
    let chars = text::chars_of(s);
    let n: usize = chars.len();
    let mut i: usize = 0;
    while i < n
        invariant
            n == chars@.len(),
            chars@ == s@,
            i <= n,
            forall|i: int| 0 <= i < s@.len() ==> (#[trigger] s@[i] as u32) < 128,
            out@ == old(out)@ + ascii(s@.take(i as int)),
        decreases n - i,
    {
        assert(s@.take(i + 1) == s@.take(i as int).push(s@[i as int]));
        assert(ascii(s@.take(i + 1)) =~= ascii(s@.take(i as int)).push(s@[i as int] as u8));
        out.push(chars[i] as u8);
        i += 1;
    }
    assert(s@.take(n as int) == s@);
}

/// A picture as a file: a head, and the colours of the rows from the top down.
pub fn ppm(width: usize, height: usize, pixels: &Vec<u8>) -> (out: Vec<u8>)
    requires
        pixels@.len() == width * height * 4,
    ensures
        out@ == ppm_head(width as nat, height as nat) + rows_of(
            pixels@,
            width as int,
            height as int,
            height as int,
        ),
{
    let size: usize = pixels.len();
    let mut out: Vec<u8> = Vec::new();
    proof {
        reveal_strlit("P6\n");
        reveal_strlit(" ");
        reveal_strlit("\n255\n");
        text::numeral_is_ascii(width as nat);
        text::numeral_is_ascii(height as nat);
    }
    let w = text::decimal(width);
    let h = text::decimal(height);
    push_ascii(&mut out, "P6\n");
    push_ascii(&mut out, w.as_str());
    push_ascii(&mut out, " ");
    push_ascii(&mut out, h.as_str());
    push_ascii(&mut out, "\n255\n");
    assert(out@ =~= ppm_head(width as nat, height as nat)) by {
        assert(" "@ =~= seq![' ']);
        assert(ascii(
            "P6\n"@ + text::numeral(width as nat) + seq![' '] + text::numeral(height as nat)
                + "\n255\n"@,
        ) =~= ascii("P6\n"@) + ascii(text::numeral(width as nat)) + ascii(seq![' ']) + ascii(
            text::numeral(height as nat),
        ) + ascii("\n255\n"@));
    }
    let ghost head = out@;
    let mut row: usize = 0;
    while row < height
        invariant
            row <= height,
            size == pixels@.len(),
            pixels@.len() == width * height * 4,
            out@ == head + rows_of(pixels@, width as int, height as int, row as int),
        decreases height - row,
    {
        let up: usize = height - row - 1;
        let ghost start = (height - (row + 1)) * width * 4;
        let ghost so_far = out@;
        let mut col: usize = 0;
        while col < width
            invariant
                col <= width,
                row < height,
                up == height - row - 1,
                start == up * width * 4,
                size == pixels@.len(),
                pixels@.len() == width * height * 4,
                out@ == so_far + row_of(pixels@, start, col as int),
            decreases width - col,
        {
            assert(0 <= up * width && 0 <= (up * width + col) * 4 && (up * width + col) * 4 + 4
                <= size) by (nonlinear_arith)
                requires
                    size == width * height * 4,
                    0 <= up < height,
                    0 <= col < width,
            ;
            let at: usize = (up * width + col) * 4;
            proof {
                assert(at == start + col * 4) by (nonlinear_arith)
                    requires
                        at == (up * width + col) * 4,
                        start == up * width * 4,
                ;
            }
            out.push(pixels[at]);
            out.push(pixels[at + 1]);
            out.push(pixels[at + 2]);
            assert(out@ =~= so_far + row_of(pixels@, start, col + 1));
            col += 1;
        }
        assert(out@ =~= head + rows_of(pixels@, width as int, height as int, row + 1));
        row += 1;
    }
    out
}

/// Do two pixels differ in their colour?
pub open spec fn differs(a: Seq<u8>, b: Seq<u8>, i: int) -> bool {
    a[i * 4] != b[i * 4] || a[i * 4 + 1] != b[i * 4 + 1] || a[i * 4 + 2] != b[i * 4 + 2]
}

/// How many of the first `n` pixels differ.
pub open spec fn moved_of(a: Seq<u8>, b: Seq<u8>, n: int) -> int
    decreases n,
{
    if n <= 0 {
        0
    } else {
        moved_of(a, b, n - 1) + if differs(a, b, n - 1) {
            1int
        } else {
            0
        }
    }
}

/// How many pixels differ between two pictures.
pub fn moved(first: &Vec<u8>, later: &Vec<u8>) -> (n: usize)
    requires
        first@.len() == later@.len(),
    ensures
        n == moved_of(first@, later@, first@.len() as int / 4),
{
    let size: usize = first.len();
    let total: usize = size / 4;
    let mut n: usize = 0;
    let mut i: usize = 0;
    while i < total
        invariant
            first@.len() == later@.len(),
            size == first@.len(),
            total == size / 4,
            i <= total,
            n <= i,
            n == moved_of(first@, later@, i as int),
        decreases total - i,
    {
        let at: usize = i * 4;
        if first[at] != later[at] || first[at + 1] != later[at + 1] || first[at + 2] != later[at
            + 2] {
            n += 1;
        }
        i += 1;
    }
    n
}

/// The colour of a cleared picture.
pub const CLEAR: [u8; 3] = [13, 15, 23];

/// Is a channel more than one off?
pub open spec fn off(a: u8, b: u8) -> bool {
    a - b > 1 || b - a > 1
}

fn is_off(a: u8, b: u8) -> (r: bool)
    ensures
        r == off(a, b),
{
    (a as i32) - (b as i32) > 1 || (b as i32) - (a as i32) > 1
}

/// Has something been drawn on a pixel?
pub open spec fn drawn(p: Seq<u8>, i: int) -> bool {
    off(p[i * 4], CLEAR@[0]) || off(p[i * 4 + 1], CLEAR@[1]) || off(p[i * 4 + 2], CLEAR@[2])
}

/// The colour of a pixel as one number.
pub open spec fn colour(p: Seq<u8>, i: int) -> u32 {
    (p[i * 4] * 65536 + p[i * 4 + 1] * 256 + p[i * 4 + 2]) as u32
}

/// How many of the first `n` pixels have been drawn on, and the colours of
/// those.
pub open spec fn drawn_of(p: Seq<u8>, n: int) -> (int, Set<u32>)
    decreases n,
{
    if n <= 0 {
        (0, Set::empty())
    } else {
        let (k, c) = drawn_of(p, n - 1);
        if drawn(p, n - 1) {
            (k + 1, c.insert(colour(p, n - 1)))
        } else {
            (k, c)
        }
    }
}

/// How many pixels have been drawn on, and in how many colours.
pub fn coverage(pixels: &Vec<u8>) -> (r: (usize, usize))
    ensures
        ({
            let (k, c) = drawn_of(pixels@, pixels@.len() as int / 4);
            r.0 == k && r.1 == c.len()
        }),
{
    broadcast use vstd::std_specs::hash::group_hash_axioms;

    let size: usize = pixels.len();
    let total: usize = size / 4;
    let mut n: usize = 0;
    let mut seen: std::collections::HashSet<u32> = std::collections::HashSet::new();
    let mut i: usize = 0;
    while i < total
        invariant
            size == pixels@.len(),
            total == size / 4,
            i <= total,
            n <= i,
            n == drawn_of(pixels@, i as int).0,
            seen@ == drawn_of(pixels@, i as int).1,
            vstd::std_specs::hash::obeys_key_model::<u32>(),
            vstd::std_specs::hash::builds_valid_hashers::<std::collections::hash_map::RandomState>(),
        decreases total - i,
    {
        let at: usize = i * 4;
        let (r, g, b) = (pixels[at], pixels[at + 1], pixels[at + 2]);
        if is_off(r, 13) || is_off(g, 15) || is_off(b, 23) {
            n += 1;
            let code: u32 = (r as u32) * 65536 + (g as u32) * 256 + (b as u32);
            seen.insert(code);
        }
        i += 1;
    }
    (n, seen.len())
}

/// What a picture of a level says.
#[derive(Clone, Copy, Debug, PartialEq, Eq, Structural)]
pub enum Verdict {
    /// Less than one part in fifty has been drawn on.
    AlmostNothing,
    /// It has fewer colours than textures would give it.
    NoTextures,
    Fine,
}

/// Judge a picture by how many of its pixels have been drawn on and in how many
/// colours.
pub fn judge(drawn: usize, total: usize, colours: usize) -> (v: Verdict)
    ensures
        v == (if drawn * 50 < total {
            Verdict::AlmostNothing
        } else if colours < 256 {
            Verdict::NoTextures
        } else {
            Verdict::Fine
        }),
{
    if (drawn as u128) * 50 < total as u128 {
        Verdict::AlmostNothing
    } else if colours < 256 {
        Verdict::NoTextures
    } else {
        Verdict::Fine
    }
}

// ---------------------------------------------------------------------------
// Pixel by pixel
// ---------------------------------------------------------------------------
/// A picture begins with its kind and a line feed, and its head ends with the
/// greatest value on a line of its own; in between stand its width and its
/// height, with a space between them.
pub proof fn a_picture_says_its_size(width: nat, height: nat)
    ensures
        ({
            let w = ascii(text::numeral(width));
            let h = ascii(text::numeral(height));
            ppm_head(width, height) == seq![80u8, 54, 10] + w + seq![32u8] + h + seq![
                10u8,
                50,
                53,
                53,
                10,
            ]
        }),
{
    reveal_strlit("P6\n");
    reveal_strlit("\n255\n");
    let w = text::numeral(width);
    let h = text::numeral(height);
    let all = "P6\n"@ + w + seq![' '] + h + "\n255\n"@;
    let out = seq![80u8, 54, 10] + ascii(w) + seq![32u8] + ascii(h) + seq![10u8, 50, 53, 53, 10];
    assert(ascii(all).len() == out.len());
    assert forall|i: int| 0 <= i < out.len() implies ascii(all)[i] == out[i] by {
        let a = 3 + w.len();
        let b = a + 1 + h.len();
        assert(ascii(all)[i] == all[i] as u8);
        if i < 3 {
            assert(all[i] == "P6\n"@[i]);
        } else if i < a {
            assert(all[i] == w[i - 3]);
            assert(out[i] == ascii(w)[i - 3]);
        } else if i < a + 1 {
        } else if i < b {
            assert(all[i] == h[i - a - 1]);
            assert(out[i] == ascii(h)[i - a - 1]);
        } else {
            assert(all[i] == "\n255\n"@[i - b]);
        }
    }
    assert(ascii(all) =~= out);
}

/// A row holds of each pixel its three colours, one pixel behind the other, and
/// not the fourth byte.
pub proof fn a_row_has_three_bytes_a_pixel(pixels: Seq<u8>, start: int, n: int, c: int, k: int)
    requires
        0 <= c < n,
        0 <= k < 3,
    ensures
        row_of(pixels, start, n).len() == n * 3,
        row_of(pixels, start, n)[c * 3 + k] == pixels[start + c * 4 + k],
    decreases n,
{
    row_len(pixels, start, n);
    row_len(pixels, start, n - 1);
    if c < n - 1 {
        a_row_has_three_bytes_a_pixel(pixels, start, n - 1, c, k);
    }
}

proof fn row_len(pixels: Seq<u8>, start: int, n: int)
    requires
        0 <= n,
    ensures
        row_of(pixels, start, n).len() == n * 3,
    decreases n,
{
    if n > 0 {
        row_len(pixels, start, n - 1);
    }
}

proof fn rows_len(pixels: Seq<u8>, width: int, height: int, n: int)
    requires
        0 <= n,
        0 <= width,
    ensures
        rows_of(pixels, width, height, n).len() == n * width * 3,
    decreases n,
{
    if n > 0 {
        rows_len(pixels, width, height, n - 1);
        row_len(pixels, (height - n) * width * 4, width);
        assert(n * width * 3 == (n - 1) * width * 3 + width * 3) by (nonlinear_arith);
    } else {
        assert(n * width * 3 == 0) by (nonlinear_arith)
            requires
                n == 0,
        ;
    }
}

/// The rows of a picture are those of the frame from the last to the first: the
/// pixel in the column `c` of the row `r` from the top is the one in that column
/// of the row `r` from the bottom.
pub proof fn a_picture_is_the_frame_upside_down(
    pixels: Seq<u8>,
    width: int,
    height: int,
    n: int,
    r: int,
    c: int,
    k: int,
)
    requires
        0 <= r < n,
        0 <= c < width,
        0 <= k < 3,
    ensures
        rows_of(pixels, width, height, n).len() == n * width * 3,
        rows_of(pixels, width, height, n)[r * width * 3 + c * 3 + k] == pixels[(height - 1 - r)
            * width * 4 + c * 4 + k],
    decreases n,
{
    rows_len(pixels, width, height, n);
    rows_len(pixels, width, height, n - 1);
    let start = (height - n) * width * 4;
    let before = rows_of(pixels, width, height, n - 1);
    let row = row_of(pixels, start, width);
    row_len(pixels, start, width);
    a_row_has_three_bytes_a_pixel(pixels, start, width, c, k);
    if r < n - 1 {
        a_picture_is_the_frame_upside_down(pixels, width, height, n - 1, r, c, k);
        assert(r * width * 3 + c * 3 + k < (n - 1) * width * 3) by (nonlinear_arith)
            requires
                0 <= r < n - 1,
                0 <= c < width,
                0 <= k < 3,
        ;
        assert(0 <= r * width * 3) by (nonlinear_arith)
            requires
                0 <= r,
                0 <= width,
        ;
        assert((before + row)[r * width * 3 + c * 3 + k] == before[r * width * 3 + c * 3 + k]);
    } else {
        assert((before + row)[r * width * 3 + c * 3 + k] == row[c * 3 + k]);
        assert((height - 1 - r) * width * 4 == start) by (nonlinear_arith)
            requires
                start == (height - n) * width * 4,
                r == n - 1,
        ;
    }
}

/// How many pixels moved is how many there are of which one of the three
/// colours is not what it was.
pub proof fn every_changed_pixel_is_counted(a: Seq<u8>, b: Seq<u8>, n: int)
    requires
        0 <= n,
    ensures
        Set::new(
            |i: int|
                0 <= i < n && (a[i * 4] != b[i * 4] || a[i * 4 + 1] != b[i * 4 + 1] || a[i * 4 + 2]
                    != b[i * 4 + 2]),
        ).finite(),
        moved_of(a, b, n) == Set::new(
            |i: int|
                0 <= i < n && (a[i * 4] != b[i * 4] || a[i * 4 + 1] != b[i * 4 + 1] || a[i * 4 + 2]
                    != b[i * 4 + 2]),
        ).len(),
    decreases n,
{
    let all = Set::new(
        |i: int|
            0 <= i < n && (a[i * 4] != b[i * 4] || a[i * 4 + 1] != b[i * 4 + 1] || a[i * 4 + 2]
                != b[i * 4 + 2]),
    );
    if n > 0 {
        every_changed_pixel_is_counted(a, b, n - 1);
        let rest = Set::new(
            |i: int|
                0 <= i < n - 1 && (a[i * 4] != b[i * 4] || a[i * 4 + 1] != b[i * 4 + 1] || a[i * 4
                    + 2] != b[i * 4 + 2]),
        );
        if differs(a, b, n - 1) {
            assert(all =~= rest.insert(n - 1));
        } else {
            assert(all =~= rest);
        }
    } else {
        assert(all =~= Set::empty());
    }
}

/// Has a pixel been drawn on: is one of its three colours more than one off
/// what the frame was cleared to?
pub open spec fn not_clear(p: Seq<u8>, i: int) -> bool {
    ||| p[i * 4] < 12 || p[i * 4] > 14
    ||| p[i * 4 + 1] < 14 || p[i * 4 + 1] > 16
    ||| p[i * 4 + 2] < 22 || p[i * 4 + 2] > 24
}

/// How much has been drawn on is how many pixels there are that one of the
/// three colours shows to be; and the colours are theirs, each once, with the
/// first in the highest byte.
pub proof fn every_drawn_pixel_is_counted(p: Seq<u8>, n: int, i: int)
    requires
        0 <= n,
    ensures
        Set::new(|x: int| 0 <= x < n && not_clear(p, x)).finite(),
        drawn_of(p, n).0 == Set::new(|x: int| 0 <= x < n && not_clear(p, x)).len(),
        0 <= i < n && not_clear(p, i) ==> drawn_of(p, n).1.contains(
            (p[i * 4] * 65536 + p[i * 4 + 1] * 256 + p[i * 4 + 2]) as u32,
        ),
        drawn_of(p, n).1.finite(),
        drawn_of(p, n).1.len() <= drawn_of(p, n).0,
        forall|c: u32| #[trigger]
            drawn_of(p, n).1.contains(c) ==> exists|x: int|
                0 <= x < n && #[trigger] not_clear(p, x) && c == (p[x * 4] * 65536 + p[x * 4 + 1]
                    * 256 + p[x * 4 + 2]) as u32,
    decreases n,
{
    let all = Set::new(|x: int| 0 <= x < n && not_clear(p, x));
    if n > 0 {
        every_drawn_pixel_is_counted(p, n - 1, i);
        let rest = Set::new(|x: int| 0 <= x < n - 1 && not_clear(p, x));
        assert(CLEAR@[0] == 13 && CLEAR@[1] == 15 && CLEAR@[2] == 23);
        assert(drawn(p, n - 1) <==> not_clear(p, n - 1));
        if not_clear(p, n - 1) {
            assert(all =~= rest.insert(n - 1));
        } else {
            assert(all =~= rest);
        }
        assert forall|c: u32| #[trigger] drawn_of(p, n).1.contains(c) implies exists|x: int|
            0 <= x < n && #[trigger] not_clear(p, x) && c == (p[x * 4] * 65536 + p[x * 4 + 1] * 256
                + p[x * 4 + 2]) as u32 by {
            if drawn_of(p, n - 1).1.contains(c) {
                let x = choose|x: int|
                    0 <= x < n - 1 && #[trigger] not_clear(p, x) && c == (p[x * 4] * 65536 + p[x * 4
                        + 1] * 256 + p[x * 4 + 2]) as u32;
                assert(not_clear(p, x));
            } else {
                assert(not_clear(p, n - 1));
            }
        }
    } else {
        assert(all =~= Set::empty());
    }
}

} // verus!
