//! The save file that the pause menu writes, and where each field is in it.
//!
//! ```text
//! 0x00000  u32      the version
//! 0x00004  0x80     the description, padded with zeros
//! 0x00084  u32      the side of the thumbnail
//! 0x00088  0x30000  the thumbnail, this much whatever the side is
//! 0x30088  u8       the level
//! 0x30089  u8       the checkpoint
//! 0x3008a  f32      the difficulty
//! ```
//!
//! A file that some other program wrote may go on with something else behind
//! the checkpoint. Its four bytes there are then no difficulty, and are read as
//! none. The difficulty is held as the bit pattern of its `f32` throughout.
//!
//! All functions are over the bytes of a file; reading and writing the file
//! itself is the caller's part.
use vstd::prelude::*;

verus! {

/// The room for the description, and so the longest one there is.
pub const DESCRIPTION: usize = 0x80;

/// The room for the thumbnail: 256 * 256 * 3.
pub const THUMBNAIL: usize = 0x30000;

/// Where the level and the checkpoint are.
pub const WHERE: usize = 0x30088;

/// The one version there is.
pub const VERSION: u32 = 7;

/// The bit pattern of the least difficulty, 0.05.
pub const EASIEST: u32 = 0x3d4c_cccd;

/// The bit pattern of the greatest difficulty, 1.0.
pub const HARDEST: u32 = 0x3f80_0000;

/// Is this the bit pattern of an `f32` between 0.05 and 1.0? Positive floats
/// are ordered as their bit patterns are, and no other float has one in this
/// range.
pub open spec fn is_difficulty(bits: u32) -> bool {
    EASIEST <= bits <= HARDEST
}

/// The number that four bytes hold, the lowest first.
pub open spec fn little(b: Seq<u8>) -> u32
    recommends
        b.len() == 4,
{
    (b[0] + 0x100 * b[1] + 0x1_0000 * b[2] + 0x100_0000 * b[3]) as u32
}

/// The four bytes that hold a number, the lowest first.
pub open spec fn little_bytes(n: u32) -> Seq<u8> {
    seq![
        (n % 0x100) as u8,
        (n / 0x100 % 0x100) as u8,
        (n / 0x1_0000 % 0x100) as u8,
        (n / 0x100_0000) as u8,
    ]
}

/// Four bytes hold the number that was put into them.
pub proof fn little_round_trip(n: u32)
    ensures
        little(little_bytes(n)) == n,
        little_bytes(n).len() == 4,
{
    assert(n == n % 0x100 + 0x100 * (n / 0x100 % 0x100) + 0x1_0000 * (n / 0x1_0000 % 0x100)
        + 0x100_0000 * (n / 0x100_0000)) by (bit_vector);
}

/// The word at `at`, if the file reaches that far.
pub open spec fn word(file: Seq<u8>, at: int) -> Option<u32> {
    if at + 4 <= file.len() {
        Some(little(file.subrange(at, at + 4)))
    } else {
        None
    }
}

fn word_at(file: &[u8], at: usize) -> (r: Option<u32>)
    requires
        at + 4 <= usize::MAX,
    ensures
        r == word(file@, at as int),
{
    if file.len() < at + 4 {
        return None;
    }
    let a: u32 = file[at] as u32;
    let b: u32 = file[at + 1] as u32;
    let c: u32 = file[at + 2] as u32;
    let d: u32 = file[at + 3] as u32;
    Some(a + 0x100 * b + 0x1_0000 * c + 0x100_0000 * d)
}

/// The bytes before the first zero, or all of them.
pub open spec fn up_to_zero(s: Seq<u8>) -> Seq<u8>
    decreases s.len(),
{
    if s.len() == 0 || s[0] == 0 {
        seq![]
    } else {
        seq![s[0]] + up_to_zero(s.drop_first())
    }
}

/// The name under `root` of a file that a script calls `name`. The scripts
/// write `\` between the parts of a name; a name that begins at the root of the
/// file system replaces `root`.
pub open spec fn beside_name(root: Seq<char>, name: Seq<char>) -> Seq<char> {
    let part = name.map_values(
        |c: char|
            if c == '\\' {
                '/'
            } else {
                c
            },
    );
    if root.len() == 0 || part.len() > 0 && part[0] == '/' {
        part
    } else if root.last() == '/' {
        root + part
    } else {
        root.push('/') + part
    }
}

/// A script's `save\3.sav` as a path under the installation.
pub fn beside(root: &str, name: &str) -> (r: String)
    ensures
        r@ == beside_name(root@, name@),
{
    let base = crate::text::chars_of(root);
    let given = crate::text::chars_of(name);
    let mut out: Vec<char> = Vec::new();
    let absolute: bool = given.len() > 0 && (given[0] == '/' || given[0] == '\\');
    if base.len() > 0 && !absolute {
        crate::text::append_range(&mut out, base.as_slice(), 0, base.len());
        if base[base.len() - 1] != '/' {
            out.push('/');
        }
    }
    let ghost head = out@;
    let ghost part = name@.map_values(
        |c: char|
            if c == '\\' {
                '/'
            } else {
                c
            },
    );
    let mut i: usize = 0;
    while i < given.len()
        invariant
            i <= given@.len(),
            given@ == name@,
            part == name@.map_values(
                |c: char|
                    if c == '\\' {
                        '/'
                    } else {
                        c
                    },
            ),
            out@ == head + part.take(i as int),
        decreases given@.len() - i,
    {
        let c: char = if given[i] == '\\' {
            '/'
        } else {
            given[i]
        };
        out.push(c);
        proof {
            assert(part.take(i + 1) == part.take(i as int).push(part[i as int]));
        }
        i = i + 1;
    }
    proof {
        assert(part.take(i as int) == part);
        assert(base@.subrange(0, base@.len() as int) == base@);
        assert(Seq::<char>::empty() + part == part);
    }
    crate::text::string_of(out.as_slice())
}

/// The description that a file holds, if it is long enough to hold one.
pub open spec fn described(file: Seq<u8>) -> Option<Seq<u8>> {
    if 4 + DESCRIPTION <= file.len() {
        Some(up_to_zero(file.subrange(4, 4 + DESCRIPTION)))
    } else {
        None
    }
}

/// The description in a save file. The bytes are the code page's, the way the
/// font is indexed, so they come back as bytes.
pub fn description(file: &[u8]) -> (r: Option<Vec<u8>>)
    ensures
        match described(file@) {
            Some(text) => r matches Some(v) && v@ == text,
            None => r is None,
        },
{
    if file.len() < 4 + DESCRIPTION {
        return None;
    }
    let ghost field = file@.subrange(4, 4 + DESCRIPTION);
    let mut out: Vec<u8> = Vec::new();
    proof {
        assert(field.skip(0) == field);
        assert(out@ + up_to_zero(field) == up_to_zero(field));
    }
    let mut i: usize = 4;
    while i < 4 + DESCRIPTION && file[i] != 0
        invariant
            4 <= i <= 4 + DESCRIPTION <= file@.len(),
            field == file@.subrange(4, 4 + DESCRIPTION),
            out@ + up_to_zero(field.skip(i - 4)) == up_to_zero(field),
        decreases 4 + DESCRIPTION - i,
    {
        out.push(file[i]);
        proof {
            let rest = field.skip(i - 4);
            assert(rest.drop_first() == field.skip(i + 1 - 4));
            assert(out@ + up_to_zero(field.skip(i + 1 - 4)) == out@.drop_last() + up_to_zero(rest));
        }
        i = i + 1;
    }
    proof {
        assert(up_to_zero(field.skip(i - 4)) == Seq::<u8>::empty());
        assert(out@ + Seq::<u8>::empty() == out@);
    }
    Some(out)
}

/// Where a save was taken: its level, its checkpoint, and its difficulty where
/// the file holds one.
pub ghost struct Taken {
    pub level: u32,
    pub checkpoint: u32,
    pub difficulty: Option<u32>,
}

/// What a file says about where it was taken, if it is a save at all.
pub open spec fn resumed(file: Seq<u8>) -> Option<Taken> {
    if word(file, 0) == Some(VERSION) && WHERE + 1 < file.len() {
        Some(
            Taken {
                level: file[WHERE as int] as u32,
                checkpoint: file[WHERE + 1] as u32,
                difficulty: match word(file, WHERE + 2) {
                    Some(bits) => if is_difficulty(bits) {
                        Some(bits)
                    } else {
                        None
                    },
                    None => None,
                },
            },
        )
    } else {
        None
    }
}

/// The level and the checkpoint that a save was taken at, and the difficulty it
/// was being fought at, as bits, where those four bytes are one.
pub fn resume(file: &[u8]) -> (r: Option<(u32, u32, Option<u32>)>)
    ensures
        match resumed(file@) {
            Some(t) => r == Some((t.level, t.checkpoint, t.difficulty)),
            None => r is None,
        },
{
    match word_at(file, 0) {
        Some(version) => {
            if version != VERSION {
                return None;
            }
        },
        None => {
            return None;
        },
    }
    if file.len() <= WHERE + 1 {
        return None;
    }
    let level: u32 = file[WHERE] as u32;
    let checkpoint: u32 = file[WHERE + 1] as u32;
    let difficulty: Option<u32> = match word_at(file, WHERE + 2) {
        Some(bits) => if EASIEST <= bits && bits <= HARDEST {
            Some(bits)
        } else {
            None
        },
        None => None,
    };
    Some((level, checkpoint, difficulty))
}

/// The first `n` bytes of `s`, with zeros behind them where there are fewer.
pub open spec fn padded(s: Seq<u8>, n: nat) -> Seq<u8> {
    Seq::new(
        n,
        |i: int|
            if i < s.len() {
                s[i]
            } else {
                0
            },
    )
}

/// A number as one byte, at most 255.
pub open spec fn clipped(n: u32) -> u8 {
    if n < 255 {
        n as u8
    } else {
        255
    }
}

/// A description as it fits into its room.
pub open spec fn fitted(description: Seq<u8>) -> Seq<u8> {
    if description.len() <= DESCRIPTION {
        description
    } else {
        description.take(DESCRIPTION as int)
    }
}

/// The bytes of a save file.
pub open spec fn image(
    description: Seq<u8>,
    level: u32,
    checkpoint: u32,
    difficulty: u32,
    side: u32,
    pixels: Seq<u8>,
) -> Seq<u8> {
    little_bytes(VERSION) + padded(fitted(description), DESCRIPTION as nat) + little_bytes(side)
        + padded(pixels, THUMBNAIL as nat) + seq![clipped(level), clipped(checkpoint)]
        + little_bytes(difficulty)
}

fn push_word(out: &mut Vec<u8>, n: u32)
    ensures
        final(out)@ == old(out)@ + little_bytes(n),
{
    out.push((n % 0x100) as u8);
    out.push((n / 0x100 % 0x100) as u8);
    out.push((n / 0x1_0000 % 0x100) as u8);
    assert(n / 0x100_0000 < 0x100) by (bit_vector);
    out.push((n / 0x100_0000) as u8);
}

fn push_padded(out: &mut Vec<u8>, s: &[u8], keep: usize, n: usize)
    requires
        keep <= s@.len(),
    ensures
        final(out)@ == old(out)@ + padded(s@.take(keep as int), n as nat),
{
    let ghost field = padded(s@.take(keep as int), n as nat);
    let mut i: usize = 0;
    while i < n
        invariant
            i <= n,
            keep <= s@.len(),
            field == padded(s@.take(keep as int), n as nat),
            out@ == old(out)@ + field.take(i as int),
        decreases n - i,
    {
        let b: u8 = if i < keep {
            s[i]
        } else {
            0
        };
        out.push(b);
        proof {
            assert(field.take(i + 1) == field.take(i as int).push(b));
        }
        i = i + 1;
    }
    assert(field.take(n as int) == field);
}

/// The bytes of the save that the pause menu asks for. The thumbnail is its
/// side and its pixels, where there is one.
pub fn write(
    description: &[u8],
    level: u32,
    checkpoint: u32,
    difficulty: u32,
    thumbnail: Option<(u32, &[u8])>,
) -> (out: Vec<u8>)
    ensures
        out@ == match thumbnail {
            Some((side, pixels)) => image(
                description@,
                level,
                checkpoint,
                difficulty,
                side,
                pixels@,
            ),
            None => image(description@, level, checkpoint, difficulty, 0, seq![]),
        },
{
    let mut out: Vec<u8> = Vec::new();
    push_word(&mut out, VERSION);
    let n: usize = if description.len() <= DESCRIPTION {
        description.len()
    } else {
        DESCRIPTION
    };
    push_padded(&mut out, description, n, DESCRIPTION);
    assert(description@.take(n as int) == fitted(description@));
    match thumbnail {
        Some((side, pixels)) => {
            push_word(&mut out, side);
            push_padded(&mut out, pixels, pixels.len(), THUMBNAIL);
            assert(pixels@.take(pixels@.len() as int) == pixels@);
        },
        None => {
            push_word(&mut out, 0);
            let none: [u8; 0] = [];
            push_padded(&mut out, &none, 0, THUMBNAIL);
            assert(none@.take(0) == Seq::<u8>::empty());
        },
    }
    out.push(
        if level < 255 {
            level as u8
        } else {
            255
        },
    );
    out.push(
        if checkpoint < 255 {
            checkpoint as u8
        } else {
            255
        },
    );
    push_word(&mut out, difficulty);
    out
}

/// The autosave is a format of its own: a word that has to be zero, a second
/// that is skipped, then the level, the checkpoint and the difficulty.
pub open spec fn autosaved(file: Seq<u8>) -> Option<(u32, u32, u32)> {
    match (word(file, 0), word(file, 8), word(file, 12), word(file, 16)) {
        (Some(zero), Some(level), Some(checkpoint), Some(difficulty)) => if zero == 0 {
            Some((level, checkpoint, difficulty))
        } else {
            None
        },
        _ => None,
    }
}

/// The level, the checkpoint and the difficulty, as bits, of an autosave.
pub fn autosave(file: &[u8]) -> (r: Option<(u32, u32, u32)>)
    ensures
        r == autosaved(file@),
{
    match (word_at(file, 0), word_at(file, 8), word_at(file, 12), word_at(file, 16)) {
        (Some(zero), Some(level), Some(checkpoint), Some(difficulty)) => if zero == 0 {
            Some((level, checkpoint, difficulty))
        } else {
            None
        },
        _ => None,
    }
}

proof fn image_fields(
    description: Seq<u8>,
    level: u32,
    checkpoint: u32,
    difficulty: u32,
    side: u32,
    pixels: Seq<u8>,
)
    ensures
        ({
            let file = image(description, level, checkpoint, difficulty, side, pixels);
            &&& file.len() == WHERE + 6
            &&& file.subrange(0, 4) == little_bytes(VERSION)
            &&& file.subrange(4, 4 + DESCRIPTION) == padded(fitted(description), DESCRIPTION as nat)
            &&& file.subrange(4 + DESCRIPTION, 8 + DESCRIPTION) == little_bytes(side)
            &&& file.subrange(8 + DESCRIPTION, WHERE as int) == padded(pixels, THUMBNAIL as nat)
            &&& file[WHERE as int] == clipped(level)
            &&& file[WHERE + 1] == clipped(checkpoint)
            &&& file.subrange(WHERE + 2, WHERE + 6) == little_bytes(difficulty)
        }),
{
    let file = image(description, level, checkpoint, difficulty, side, pixels);
    assert(file.subrange(0, 4) =~= little_bytes(VERSION));
    assert(file.subrange(4, 4 + DESCRIPTION) =~= padded(fitted(description), DESCRIPTION as nat));
    assert(file.subrange(4 + DESCRIPTION, 8 + DESCRIPTION) =~= little_bytes(side));
    assert(file.subrange(8 + DESCRIPTION, WHERE as int) =~= padded(pixels, THUMBNAIL as nat));
    assert(file.subrange(WHERE + 2, WHERE + 6) =~= little_bytes(difficulty));
}

proof fn up_to_zero_of_padded(s: Seq<u8>, n: nat)
    requires
        s.len() <= n,
    ensures
        up_to_zero(padded(s, n)) == up_to_zero(s),
    decreases n,
{
    if s.len() > 0 {
        assert(padded(s, n).drop_first() == padded(s.drop_first(), (n - 1) as nat));
        up_to_zero_of_padded(s.drop_first(), (n - 1) as nat);
    }
}

/// A save says where it was taken and what it was called. Level and checkpoint
/// come back clipped to a byte, the difficulty where it is one, and the
/// description up to its first zero and as far as there is room for it.
pub proof fn a_save_reads_back(
    description: Seq<u8>,
    level: u32,
    checkpoint: u32,
    difficulty: u32,
    side: u32,
    pixels: Seq<u8>,
)
    ensures
        ({
            let file = image(description, level, checkpoint, difficulty, side, pixels);
            &&& resumed(file) == Some(
                Taken {
                    level: clipped(level) as u32,
                    checkpoint: clipped(checkpoint) as u32,
                    difficulty: if is_difficulty(difficulty) {
                        Some(difficulty)
                    } else {
                        None
                    },
                },
            )
            &&& described(file) == Some(up_to_zero(fitted(description)))
            &&& file[WHERE as int] == clipped(level)
        }),
{
    image_fields(description, level, checkpoint, difficulty, side, pixels);
    little_round_trip(VERSION);
    little_round_trip(difficulty);
    up_to_zero_of_padded(fitted(description), DESCRIPTION as nat);
}

proof fn up_to_zero_whole(s: Seq<u8>)
    requires
        !s.contains(0),
    ensures
        up_to_zero(s) == s,
    decreases s.len(),
{
    if s.len() > 0 {
        assert(s.contains(s[0]));
        assert forall|b: u8| s.drop_first().contains(b) implies s.contains(b) by {
            let k = s.drop_first().index_of(b);
            assert(s[k + 1] == b);
        }
        up_to_zero_whole(s.drop_first());
        assert(seq![s[0]] + s.drop_first() == s);
    }
}

/// A description that fits and holds no zero is read back as it was written.
pub proof fn a_fitting_description_reads_back_whole(
    description: Seq<u8>,
    level: u32,
    checkpoint: u32,
    difficulty: u32,
    side: u32,
    pixels: Seq<u8>,
)
    requires
        description.len() <= DESCRIPTION,
        !description.contains(0),
    ensures
        described(image(description, level, checkpoint, difficulty, side, pixels)) == Some(
            description,
        ),
{
    a_save_reads_back(description, level, checkpoint, difficulty, side, pixels);
    up_to_zero_whole(description);
}

// ---------------------------------------------------------------------------
// Where everything stands
// ---------------------------------------------------------------------------
/// Four bytes stand for a number with the lowest first.
pub proof fn the_lowest_byte_comes_first(a: u8, b: u8, c: u8, d: u8)
    ensures
        little(seq![a, b, c, d]) == a + 256 * b + 65536 * c + 16777216 * d,
        little_bytes((a + 256 * b + 65536 * c + 16777216 * d) as u32) == seq![a, b, c, d],
{
    let n = a + 256 * b + 65536 * c + 16777216 * d;
    assert(n % 256 == a as int);
    assert(n / 256 == b + 256 * c + 65536 * d);
    assert(n / 256 % 256 == b as int);
    assert(n / 65536 == c + 256 * d);
    assert(n / 65536 % 256 == c as int);
    assert(n / 16777216 == d as int);
    assert(little_bytes(n as u32) =~= seq![a, b, c, d]);
}

/// A save begins with its version; a hundred and twenty-eight bytes of
/// description follow, filled up with noughts; then the side of its picture and
/// the picture; and at its place behind them one byte for the level, one for the
/// checkpoint, and four for the difficulty.
pub proof fn a_save_has_its_fields_in_place(
    description: Seq<u8>,
    level: u32,
    checkpoint: u32,
    difficulty: u32,
    side: u32,
    pixels: Seq<u8>,
    i: int,
)
    ensures
        ({
            let file = image(description, level, checkpoint, difficulty, side, pixels);
            &&& file.len() == 0x30088 + 6
            &&& file.subrange(0, 4) == seq![7u8, 0, 0, 0]
            &&& 0 <= i < 128 ==> file[4 + i] == (if i < description.len() {
                description[i]
            } else {
                0
            })
            &&& little(file.subrange(132, 136)) == side
            &&& 0 <= i < 0x30000 ==> file[136 + i] == (if i < pixels.len() {
                pixels[i]
            } else {
                0
            })
            &&& level <= 255 ==> file[0x30088] == level
            &&& level > 255 ==> file[0x30088] == 255
            &&& checkpoint <= 255 ==> file[0x30089] == checkpoint
            &&& checkpoint > 255 ==> file[0x30089] == 255
            &&& little(file.subrange(0x3008a, 0x3008e)) == difficulty
        }),
{
    let file = image(description, level, checkpoint, difficulty, side, pixels);
    little_round_trip(7);
    little_round_trip(side);
    little_round_trip(difficulty);
    let d = padded(fitted(description), DESCRIPTION as nat);
    let p = padded(pixels, THUMBNAIL as nat);
    assert(d.len() == 128);
    assert(p.len() == 0x30000);
    assert(little_bytes(VERSION) =~= seq![7u8, 0, 0, 0]);
    assert(file.subrange(0, 4) =~= little_bytes(VERSION));
    assert(file.subrange(132, 136) =~= little_bytes(side));
    assert(file.subrange(0x3008a, 0x3008e) =~= little_bytes(difficulty));
    if 0 <= i < 128 {
        assert(file[4 + i] == d[i]);
        if description.len() > 128 {
            assert(fitted(description)[i] == description[i]);
        }
    }
    if 0 <= i < 0x30000 {
        assert(file[136 + i] == p[i]);
    }
    assert(file[0x30088] == clipped(level));
    assert(file[0x30089] == clipped(checkpoint));
}

/// A save is taken up where its first four bytes are its version and it is long
/// enough to say where; its difficulty counts where it is between a twentieth
/// and one. Anything else is no save.
pub proof fn a_save_is_taken_up(file: Seq<u8>)
    ensures
        file.len() > 0x30089 && file.subrange(0, 4) == seq![7u8, 0, 0, 0] ==> (resumed(
            file,
        ) matches Some(t) && {
            &&& t.level == file[0x30088] && t.checkpoint == file[0x30089]
            &&& file.len() < 0x3008e ==> t.difficulty is None
            &&& file.len() >= 0x3008e && 0x3d4c_cccd <= little(file.subrange(0x3008a, 0x3008e))
                <= 0x3f80_0000 ==> t.difficulty == Some(little(file.subrange(0x3008a, 0x3008e)))
            &&& file.len() >= 0x3008e && !(0x3d4c_cccd <= little(file.subrange(0x3008a, 0x3008e))
                <= 0x3f80_0000) ==> t.difficulty is None
        }),
        file.len() <= 0x30089 ==> resumed(file) is None,
        file.len() >= 4 && file.subrange(0, 4) != seq![7u8, 0, 0, 0] ==> resumed(file) is None,
{
    if file.len() >= 4 {
        let f = file.subrange(0, 4);
        assert(f =~= seq![file[0], file[1], file[2], file[3]]);
        the_lowest_byte_comes_first(file[0], file[1], file[2], file[3]);
        if f != seq![7u8, 0, 0, 0] {
            assert(file[0] != 7 || file[1] != 0 || file[2] != 0 || file[3] != 0);
        }
    }
}

/// What is described ends before the first nought, or with the field; and only
/// a file that is long enough is described.
pub proof fn a_description_ends_at_nought(file: Seq<u8>, n: int)
    ensures
        file.len() < 132 ==> described(file) is None,
        file.len() >= 132 && 0 <= n <= 128 && (forall|k: int|
            0 <= k < n ==> #[trigger] file[4 + k] != 0) && (n < 128 ==> file[4 + n] == 0)
            ==> described(file) == Some(file.subrange(4, 4 + n)),
{
    if file.len() >= 132 && 0 <= n <= 128 && (forall|k: int|
        0 <= k < n ==> #[trigger] file[4 + k] != 0) && (n < 128 ==> file[4 + n] == 0) {
        let s = file.subrange(4, 132);
        assert forall|k: int| 0 <= k < n implies #[trigger] s[k] != 0 by {
            assert(s[k] == file[4 + k]);
        }
        if n < 128 {
            assert(s[n] == file[4 + n]);
        }
        the_first_nought_ends_it(s, n);
        assert(s.take(n) =~= file.subrange(4, 4 + n));
    }
}

/// What stands up to the first nought is all that comes before it.
pub proof fn the_first_nought_ends_it(s: Seq<u8>, n: int)
    requires
        0 <= n <= s.len(),
        forall|k: int| 0 <= k < n ==> #[trigger] s[k] != 0,
        n < s.len() ==> s[n] == 0,
    ensures
        up_to_zero(s) == s.take(n),
    decreases n,
{
    if n > 0 {
        let rest = s.drop_first();
        assert(s[0] != 0);
        assert forall|k: int| 0 <= k < n - 1 implies #[trigger] rest[k] != 0 by {
            assert(rest[k] == s[k + 1]);
        }
        the_first_nought_ends_it(rest, n - 1);
        assert(seq![s[0]] + rest.take(n - 1) =~= s.take(n));
    } else {
        assert(s.take(0) =~= seq![]);
    }
}

/// What is saved by itself is four numbers behind one that is nought: the level,
/// the checkpoint and the difficulty are the third, the fourth and the fifth.
pub proof fn an_autosave_has_its_words_in_place(file: Seq<u8>)
    ensures
        file.len() >= 20 && little(file.subrange(0, 4)) == 0 ==> autosaved(file) == Some(
            (
                little(file.subrange(8, 12)),
                little(file.subrange(12, 16)),
                little(file.subrange(16, 20)),
            ),
        ),
        file.len() < 20 ==> autosaved(file) is None,
        file.len() >= 20 && little(file.subrange(0, 4)) != 0 ==> autosaved(file) is None,
{
}

/// A name beside the root is put behind it with one slash between, and with
/// slashes for its backslashes; a name that begins with one stands for itself,
/// and so does any where there is no root.
pub proof fn a_name_stands_beside_the_root(root: Seq<char>, name: Seq<char>)
    requires
        !name.contains('\\'),
    ensures
        root.len() == 0 ==> beside_name(root, name) == name,
        name.len() > 0 && name[0] == '/' ==> beside_name(root, name) == name,
        root.len() > 0 && root.last() == '/' && (name.len() == 0 || name[0] != '/') ==> beside_name(
            root,
            name,
        ) == root + name,
        root.len() > 0 && root.last() != '/' && (name.len() == 0 || name[0] != '/') ==> beside_name(
            root,
            name,
        ) == root + seq!['/'] + name,
{
    let part = name.map_values(
        |c: char|
            if c == '\\' {
                '/'
            } else {
                c
            },
    );
    assert forall|k: int| 0 <= k < name.len() implies part[k] == name[k] by {
        assert(name.contains(name[k]));
    }
    assert(part =~= name);
    if root.len() > 0 {
        assert(root.push('/') + part =~= root + seq!['/'] + name);
    }
}

/// A backslash in a name counts as a slash.
pub proof fn backslashes_count_as_slashes(root: Seq<char>, a: Seq<char>, b: Seq<char>)
    ensures
        beside_name(root, a + seq!['\\'] + b) == beside_name(root, a + seq!['/'] + b),
{
    let f = |c: char|
        if c == '\\' {
            '/'
        } else {
            c
        };
    assert((a + seq!['\\'] + b).map_values(f) =~= (a + seq!['/'] + b).map_values(f));
}

} // verus!
