//! Text as sequences of characters: the small vocabulary that the script
//! preprocessor and the name lookups are stated in.
use vstd::prelude::*;

verus! {

/// `String::push` appends one character to the end of the string.
pub assume_specification[ String::push ](s: &mut String, c: char)
    ensures
        final(s)@ == old(s)@.push(c),
;

/// The characters with the Unicode property `White_Space`.
pub open spec fn white(c: char) -> bool {
    ||| 0x9 <= c as u32 <= 0xd
    ||| c as u32 == 0x20
    ||| c as u32 == 0x85
    ||| c as u32 == 0xa0
    ||| c as u32 == 0x1680
    ||| 0x2000 <= c as u32 <= 0x200a
    ||| 0x2028 <= c as u32 <= 0x2029
    ||| c as u32 == 0x202f
    ||| c as u32 == 0x205f
    ||| c as u32 == 0x3000
}

pub fn is_white(c: char) -> (r: bool)
    ensures
        r == white(c),
{
    let n: u32 = c as u32;
    (0x9 <= n && n <= 0xd) || n == 0x20 || n == 0x85 || n == 0xa0 || n == 0x1680 || (0x2000 <= n
        && n <= 0x200a) || n == 0x2028 || n == 0x2029 || n == 0x202f || n == 0x205f || n == 0x3000
}

/// Letters of the ASCII alphabet.
pub open spec fn letter(c: char) -> bool {
    'a' <= c <= 'z' || 'A' <= c <= 'Z'
}

pub fn is_letter(c: char) -> (r: bool)
    ensures
        r == letter(c),
{
    ('a' <= c && c <= 'z') || ('A' <= c && c <= 'Z')
}

/// Decimal digits of ASCII.
pub open spec fn digit(c: char) -> bool {
    '0' <= c <= '9'
}

pub fn is_digit(c: char) -> (r: bool)
    ensures
        r == digit(c),
{
    '0' <= c && c <= '9'
}

/// A character with the case of an ASCII capital taken off.
pub open spec fn lower(c: char) -> char {
    if 'A' <= c <= 'Z' {
        (c as u8 + 32) as char
    } else {
        c
    }
}

pub fn to_lower(c: char) -> (r: char)
    ensures
        r == lower(c),
{
    if 'A' <= c && c <= 'Z' {
        let n: u8 = c as u8;
        (n + 32) as char
    } else {
        c
    }
}

/// A text with the case of its ASCII capitals taken off.
pub open spec fn lowered(s: Seq<char>) -> Seq<char> {
    s.map_values(|c: char| lower(c))
}

/// The characters of a string, in order.
pub fn chars_of(text: &str) -> (out: Vec<char>)
    ensures
        out@ == text@,
{
    let mut out: Vec<char> = Vec::new();
    for c in it: text.chars()
        invariant
            out@ == it.seq().take(it.index() as int),
    {
        out.push(c);
    }
    out
}

/// The string that holds these characters.
pub fn string_of(chars: &[char]) -> (out: String)
    ensures
        out@ == chars@,
{
    let mut out: String = String::new();
    let mut i: usize = 0;
    while i < chars.len()
        invariant
            i <= chars@.len(),
            out@ == chars@.take(i as int),
        decreases chars@.len() - i,
    {
        out.push(chars[i]);
        i = i + 1;
    }
    assert(chars@.take(i as int) == chars@);
    out
}

/// Append the characters of `from` in `[a, b)` to `out`.
pub fn append_range(out: &mut Vec<char>, from: &[char], a: usize, b: usize)
    requires
        a <= b <= from@.len(),
    ensures
        final(out)@ == old(out)@ + from@.subrange(a as int, b as int),
{
    let mut i: usize = a;
    while i < b
        invariant
            a <= i <= b <= from@.len(),
            out@ == old(out)@ + from@.subrange(a as int, i as int),
        decreases b - i,
    {
        out.push(from[i]);
        proof {
            assert(from@.subrange(a as int, i + 1) == from@.subrange(a as int, i as int).push(
                from@[i as int],
            ));
        }
        i = i + 1;
    }
}

/// The same text with its ASCII capitals in lower case.
pub fn lowercase(text: &str) -> (out: String)
    ensures
        out@ == lowered(text@),
{
    let chars = chars_of(text);
    let mut out: String = String::new();
    let mut i: usize = 0;
    while i < chars.len()
        invariant
            i <= chars@.len(),
            out@ == lowered(chars@.take(i as int)),
        decreases chars@.len() - i,
    {
        out.push(to_lower(chars[i]));
        proof {
            assert(chars@.take(i + 1) == chars@.take(i as int).push(chars@[i as int]));
            assert(lowered(chars@.take(i + 1)) == lowered(chars@.take(i as int)).push(
                lower(chars@[i as int]),
            ));
        }
        i = i + 1;
    }
    assert(chars@.take(i as int) == chars@);
    out
}

/// Does `pattern` stand at position `i` of `s`?
pub open spec fn stands_at(s: Seq<char>, i: int, pattern: Seq<char>) -> bool {
    &&& 0 <= i
    &&& i + pattern.len() <= s.len()
    &&& s.subrange(i, i + pattern.len()) == pattern
}

pub fn is_at(s: &[char], i: usize, pattern: &str) -> (r: bool)
    requires
        i <= s@.len(),
    ensures
        r == stands_at(s@, i as int, pattern@),
{
    let p = chars_of(pattern);
    let n: usize = s.len();
    if n - i < p.len() {
        return false;
    }
    let mut k: usize = 0;
    while k < p.len()
        invariant
            i + p@.len() <= s@.len(),
            s@.len() <= usize::MAX,
            k <= p@.len(),
            p@ == pattern@,
            forall|j: int| 0 <= j < k ==> s@[i + j] == #[trigger] p@[j],
        decreases p@.len() - k,
    {
        if s[i + k] != p[k] {
            proof {
                assert(s@.subrange(i as int, i + pattern@.len())[k as int] == s@[i + k]);
            }
            return false;
        }
        k = k + 1;
    }
    assert(s@.subrange(i as int, i + p@.len()) == p@);
    true
}

/// Does the part of `s` before `end` finish with `pattern`?
pub fn is_before(s: &[char], end: usize, pattern: &str) -> (r: bool)
    requires
        end <= s@.len(),
    ensures
        r == stands_at(s@.take(end as int), end - pattern@.len(), pattern@),
{
    let p = chars_of(pattern);
    if end < p.len() {
        return false;
    }
    let r = is_at(s, end - p.len(), pattern);
    proof {
        let i: int = end - p@.len();
        assert(s@.take(end as int).subrange(i, i + p@.len()) == s@.subrange(i, i + p@.len()));
    }
    r
}

/// The first position at or after `i` whose character is not white, or the end.
pub open spec fn skip_white(s: Seq<char>, i: int) -> int
    decreases s.len() - i,
{
    if i < s.len() && white(s[i]) {
        skip_white(s, i + 1)
    } else {
        i
    }
}

pub proof fn skip_white_range(s: Seq<char>, i: int)
    requires
        0 <= i <= s.len(),
    ensures
        i <= skip_white(s, i) <= s.len(),
    decreases s.len() - i,
{
    if i < s.len() && white(s[i]) {
        skip_white_range(s, i + 1);
    }
}

pub fn past_white(s: &[char], i: usize) -> (r: usize)
    requires
        i <= s@.len(),
    ensures
        r == skip_white(s@, i as int),
        i <= r <= s@.len(),
{
    let mut k: usize = i;
    while k < s.len() && is_white(s[k])
        invariant
            i <= k <= s@.len(),
            skip_white(s@, k as int) == skip_white(s@, i as int),
        decreases s@.len() - k,
    {
        k = k + 1;
    }
    k
}

/// The first position at or after `i` whose character is white, or the end.
pub open spec fn skip_word(s: Seq<char>, i: int) -> int
    decreases s.len() - i,
{
    if i < s.len() && !white(s[i]) {
        skip_word(s, i + 1)
    } else {
        i
    }
}

pub fn past_word(s: &[char], i: usize) -> (r: usize)
    requires
        i <= s@.len(),
    ensures
        r == skip_word(s@, i as int),
        i <= r <= s@.len(),
{
    let mut k: usize = i;
    while k < s.len() && !is_white(s[k])
        invariant
            i <= k <= s@.len(),
            skip_word(s@, k as int) == skip_word(s@, i as int),
        decreases s@.len() - k,
    {
        k = k + 1;
    }
    k
}

/// How much of the part of `s` before `end` is left once the white space at
/// its own end is taken off.
pub open spec fn trimmed_end(s: Seq<char>, end: int) -> int
    decreases end,
{
    if 0 < end <= s.len() && white(s[end - 1]) {
        trimmed_end(s, end - 1)
    } else {
        end
    }
}

pub fn trim_end_at(s: &[char], end: usize) -> (r: usize)
    requires
        end <= s@.len(),
    ensures
        r == trimmed_end(s@, end as int),
        r <= end,
{
    let mut k: usize = end;
    while k > 0 && is_white(s[k - 1])
        invariant
            k <= end <= s@.len(),
            trimmed_end(s@, k as int) == trimmed_end(s@, end as int),
        decreases k,
    {
        k = k - 1;
    }
    k
}

/// The first position at or after `i` that holds `c`, or the end.
pub open spec fn first_char(s: Seq<char>, c: char, i: int) -> int
    decreases s.len() - i,
{
    if i < s.len() && s[i] != c {
        first_char(s, c, i + 1)
    } else {
        i
    }
}

pub proof fn first_char_range(s: Seq<char>, c: char, i: int)
    requires
        0 <= i <= s.len(),
    ensures
        i <= first_char(s, c, i) <= s.len(),
        forall|k: int| i <= k < first_char(s, c, i) ==> s[k] != c,
        first_char(s, c, i) < s.len() ==> s[first_char(s, c, i)] == c,
    decreases s.len() - i,
{
    if i < s.len() && s[i] != c {
        first_char_range(s, c, i + 1);
    }
}

pub fn find_char(s: &[char], c: char, i: usize) -> (r: usize)
    requires
        i <= s@.len(),
    ensures
        r == first_char(s@, c, i as int),
        i <= r <= s@.len(),
{
    let mut k: usize = i;
    while k < s.len() && s[k] != c
        invariant
            i <= k <= s@.len(),
            first_char(s@, c, k as int) == first_char(s@, c, i as int),
        decreases s@.len() - k,
    {
        k = k + 1;
    }
    k
}

/// The numeral of a natural number, in base ten.
pub open spec fn numeral(n: nat) -> Seq<char>
    decreases n,
{
    if n < 10 {
        seq![(48 + n) as char]
    } else {
        numeral(n / 10).push((48 + n % 10) as char)
    }
}

fn digit_char(d: u8) -> (c: char)
    requires
        d < 10,
    ensures
        c == (48 + d) as char,
{
    (48 + d) as char
}

fn write_numeral(n: usize, out: &mut Vec<char>)
    ensures
        final(out)@ == old(out)@ + numeral(n as nat),
    decreases n,
{
    if n < 10 {
        out.push(digit_char(n as u8));
    } else {
        write_numeral(n / 10, out);
        out.push(digit_char((n % 10) as u8));
    }
}

/// The numeral of `n`, in base ten.
pub fn decimal(n: usize) -> (s: String)
    ensures
        s@ == numeral(n as nat),
{
    let mut out: Vec<char> = Vec::new();
    write_numeral(n, &mut out);
    string_of(out.as_slice())
}

/// A numeral is made of digits.
pub proof fn numeral_is_ascii(n: nat)
    ensures
        numeral(n).len() > 0,
        forall|i: int| 0 <= i < numeral(n).len() ==> digit(#[trigger] numeral(n)[i]),
    decreases n,
{
    if n >= 10 {
        numeral_is_ascii(n / 10);
    }
}

/// The numeral of an integer, in base ten.
pub open spec fn integral(n: int) -> Seq<char> {
    if n < 0 {
        seq!['-'] + numeral((-n) as nat)
    } else {
        numeral(n as nat)
    }
}

fn write_digits(n: u64, out: &mut Vec<char>)
    ensures
        final(out)@ == old(out)@ + numeral(n as nat),
    decreases n,
{
    if n < 10 {
        out.push(digit_char(n as u8));
    } else {
        write_digits(n / 10, out);
        out.push(digit_char((n % 10) as u8));
    }
}

/// The numeral of `n`, in base ten.
pub fn integer(n: i64) -> (s: String)
    ensures
        s@ == integral(n as int),
{
    let mut out: Vec<char> = Vec::new();
    if n < 0 {
        out.push('-');
        let size: u64 = (-(n as i128)) as u64;
        write_digits(size, &mut out);
        assert(out@ =~= integral(n as int));
    } else {
        write_digits(n as u64, &mut out);
        assert(out@ =~= integral(n as int));
    }
    string_of(out.as_slice())
}

/// The number that digits stand for.
pub open spec fn value_of(s: Seq<char>) -> nat
    decreases s.len(),
{
    if s.len() == 0 {
        0
    } else {
        value_of(s.drop_last()) * 10 + (s.last() as nat - 48) as nat
    }
}

/// Are these digits, and at least one?
pub open spec fn all_digits(s: Seq<char>) -> bool {
    s.len() > 0 && forall|i: int| 0 <= i < s.len() ==> digit(#[trigger] s[i])
}

/// The natural number that a text stands for, if it stands for one: digits,
/// with or without a plus before them.
pub open spec fn natural(s: Seq<char>) -> Option<nat> {
    let body = if s.len() > 0 && s[0] == '+' {
        s.skip(1)
    } else {
        s
    };
    if all_digits(body) {
        Some(value_of(body))
    } else {
        None
    }
}

proof fn value_grows(s: Seq<char>, k: int)
    requires
        0 <= k <= s.len(),
        forall|i: int| 0 <= i < s.len() ==> digit(#[trigger] s[i]),
    ensures
        value_of(s.take(k)) <= value_of(s),
    decreases s.len() - k,
{
    if k < s.len() {
        value_grows(s, k + 1);
        assert(s.take(k + 1).drop_last() == s.take(k));
        assert(s.take(k + 1).last() == s[k]);
        assert(value_of(s.take(k + 1)) >= value_of(s.take(k)) * 10);
    } else {
        assert(s.take(k) == s);
    }
}

/// The number that a text stands for, where it stands for one that fits.
pub fn parse_usize(text: &str) -> (r: Option<usize>)
    ensures
        r == (match natural(text@) {
            Some(n) => if n <= usize::MAX {
                Some(n as usize)
            } else {
                None
            },
            None => None,
        }),
{
    let all = chars_of(text);
    let mut from: usize = 0;
    if all.len() > 0 && all[0] == '+' {
        from = 1;
    }
    let ghost body = all@.skip(from as int);
    assert(from == 0 ==> body =~= all@);
    let n: usize = all.len();
    if from == n {
        return None;
    }
    let mut value: usize = 0;
    let mut i: usize = from;
    assert(body.take(0).len() == 0);
    while i < n
        invariant
            n == all@.len(),
            from <= i <= n,
            body == all@.skip(from as int),
            body.len() > 0,
            natural(text@) == (if all_digits(body) {
                Some(value_of(body))
            } else {
                None
            }),
            forall|k: int| 0 <= k < i - from ==> digit(#[trigger] body[k]),
            value == value_of(body.take(i - from)),
        decreases n - i,
    {
        let c: char = all[i];
        assert(body[i - from] == c);
        if !is_digit(c) {
            assert(!all_digits(body));
            return None;
        }
        let d: usize = (c as u32 - 48) as usize;
        proof {
            assert(body.take(i - from + 1).drop_last() == body.take(i - from));
            assert(body.take(i - from + 1).last() == c);
            assert(value_of(body.take(i - from + 1)) == value * 10 + d);
        }
        if value > usize::MAX / 10 || value * 10 > usize::MAX - d {
            proof {
                if all_digits(body) {
                    value_grows(body, i - from + 1);
                }
            }
            return None;
        }
        value = value * 10 + d;
        i += 1;
    }
    assert(body.take(n - from) == body);
    Some(value)
}

/// Reading a numeral gives back the number it was written from.
pub proof fn numerals_read_back(n: nat)
    ensures
        all_digits(numeral(n)),
        value_of(numeral(n)) == n,
        natural(numeral(n)) == Some(n),
    decreases n,
{
    numeral_is_ascii(n);
    if n >= 10 {
        numerals_read_back(n / 10);
        assert(numeral(n).drop_last() =~= numeral(n / 10));
    } else {
        assert(numeral(n).drop_last() =~= Seq::<char>::empty());
        assert(value_of(numeral(n).drop_last()) == 0);
    }
    assert(digit(numeral(n)[0]));
}

/// White are these characters and no others.
pub proof fn white_is_listed(c: char)
    ensures
        white(c) <==> seq![
            0x9u32,
            0xa,
            0xb,
            0xc,
            0xd,
            0x20,
            0x85,
            0xa0,
            0x1680,
            0x2000,
            0x2001,
            0x2002,
            0x2003,
            0x2004,
            0x2005,
            0x2006,
            0x2007,
            0x2008,
            0x2009,
            0x200a,
            0x2028,
            0x2029,
            0x202f,
            0x205f,
            0x3000,
        ].contains(c as u32),
{
    let all = seq![
        0x9u32,
        0xa,
        0xb,
        0xc,
        0xd,
        0x20,
        0x85,
        0xa0,
        0x1680,
        0x2000,
        0x2001,
        0x2002,
        0x2003,
        0x2004,
        0x2005,
        0x2006,
        0x2007,
        0x2008,
        0x2009,
        0x200a,
        0x2028,
        0x2029,
        0x202f,
        0x205f,
        0x3000,
    ];
    let n = c as u32;
    if white(c) {
        let k: int = if n <= 0xd {
            n - 0x9
        } else if n == 0x20 {
            5
        } else if n == 0x85 {
            6
        } else if n == 0xa0 {
            7
        } else if n == 0x1680 {
            8
        } else if n <= 0x200a {
            9 + n - 0x2000
        } else if n == 0x2028 {
            20
        } else if n == 0x2029 {
            21
        } else if n == 0x202f {
            22
        } else if n == 0x205f {
            23
        } else {
            24
        };
        assert(all[k] == n);
    }
}

/// The letters are the twenty-six small ones and the twenty-six capitals, the
/// digits the ten from nought to nine.
pub proof fn letters_and_digits(c: char)
    ensures
        letter(c) <==> (97 <= (c as u32) < 97 + 26 || 65 <= (c as u32) < 65 + 26),
        digit(c) <==> 48 <= (c as u32) < 48 + 10,
{
}

/// A capital becomes the small letter with the same place in the alphabet, and
/// nothing else changes; nor does any character move.
pub proof fn only_capitals_are_lowered(s: Seq<char>, i: int)
    requires
        0 <= i < s.len(),
    ensures
        lowered(s).len() == s.len(),
        65 <= (s[i] as u32) < 65 + 26 ==> lowered(s)[i] as u32 == s[i] as u32 + 32,
        !(65 <= (s[i] as u32) < 65 + 26) ==> lowered(s)[i] == s[i],
{
}

/// Behind white space stands the first character that is not white, or the
/// end.
pub proof fn white_is_skipped(s: Seq<char>, i: int, end: int)
    requires
        0 <= i <= end <= s.len(),
        forall|k: int| i <= k < end ==> white(#[trigger] s[k]),
        end < s.len() ==> !white(s[end]),
    ensures
        skip_white(s, i) == end,
    decreases end - i,
{
    if i < end {
        assert(white(s[i]));
        white_is_skipped(s, i + 1, end);
    }
}

/// A word ends before the first white character behind it, or at the end.
pub proof fn words_end_before_white(s: Seq<char>, i: int, end: int)
    requires
        0 <= i <= end <= s.len(),
        forall|k: int| i <= k < end ==> !white(#[trigger] s[k]),
        end < s.len() ==> white(s[end]),
    ensures
        skip_word(s, i) == end,
    decreases end - i,
{
    if i < end {
        assert(!white(s[i]));
        words_end_before_white(s, i + 1, end);
    }
}

/// White space at an end is taken off as far back as it reaches.
pub proof fn white_ends_are_trimmed(s: Seq<char>, start: int, end: int)
    requires
        0 <= start <= end <= s.len(),
        forall|k: int| start <= k < end ==> white(#[trigger] s[k]),
        start > 0 ==> !white(s[start - 1]),
    ensures
        trimmed_end(s, end) == start,
    decreases end - start,
{
    if start < end {
        assert(white(s[end - 1]));
        white_ends_are_trimmed(s, start, end - 1);
    }
}

/// The first place of a character is where it is found, from any place before
/// it that has none of it in between.
pub proof fn the_first_is_found(s: Seq<char>, c: char, i: int, at: int)
    requires
        0 <= i <= at <= s.len(),
        forall|k: int| i <= k < at ==> #[trigger] s[k] != c,
        at < s.len() ==> s[at] == c,
    ensures
        first_char(s, c, i) == at,
    decreases at - i,
{
    if i < at {
        assert(s[i] != c);
        the_first_is_found(s, c, i + 1, at);
    }
}

/// A numeral has the digits of its number from the tens down: one more digit
/// stands for ten times the number and that digit, and no numeral but that of
/// nought begins with a nought. Below zero a minus stands before it.
pub proof fn numerals_are_decimal(n: nat, d: nat)
    requires
        d < 10,
    ensures
        numeral(d) == seq![(48 + d) as char],
        n > 0 ==> numeral(10 * n + d) == numeral(n) + seq![(48 + d) as char],
        n > 0 ==> numeral(n)[0] != '0',
        integral(n as int) == numeral(n),
        n > 0 ==> integral(-n) == seq!['-'] + numeral(n),
    decreases n,
{
    if n > 0 {
        assert((10 * n + d) / 10 == n && (10 * n + d) % 10 == d);
        assert(numeral(10 * n + d) =~= numeral(n) + seq![(48 + d) as char]);
        if n >= 10 {
            numerals_are_decimal(n / 10, 0);
            numeral_is_ascii(n / 10);
        }
    }
}

/// A text is read as a number exactly where it is digits, behind a plus or
/// behind nothing: a plus changes nothing, and anything else in it, or no digit
/// at all, makes it no number.
pub proof fn only_digits_are_read(n: nat, s: Seq<char>, i: int)
    ensures
        natural(numeral(n)) == Some(n),
        natural(seq!['+'] + numeral(n)) == Some(n),
        0 < i < s.len() && !('0' <= s[i] <= '9') ==> natural(s) is None,
        s.len() > 0 && s[0] != '+' && !('0' <= s[0] <= '9') ==> natural(s) is None,
        s.len() == 0 ==> natural(s) is None,
        s == seq!['+'] ==> natural(s) is None,
        s.len() > 0 && (forall|k: int|
            0 <= k < s.len() ==> '0' <= #[trigger] s[k] <= '9') ==> natural(s) == Some(
            value_of(s),
        ),
{
    numerals_read_back(n);
    let plus = seq!['+'] + numeral(n);
    assert(plus.skip(1) =~= numeral(n));
    if 0 < i < s.len() && !('0' <= s[i] <= '9') {
        if s[0] == '+' {
            assert(s.skip(1)[i - 1] == s[i]);
            assert(!digit(s.skip(1)[i - 1]));
        } else {
            assert(!digit(s[i]));
        }
    }
    if s.len() > 0 && s[0] != '+' && !('0' <= s[0] <= '9') {
        assert(!digit(s[0]));
    }
    if s.len() > 0 && (forall|k: int| 0 <= k < s.len() ==> '0' <= #[trigger] s[k] <= '9') {
        assert('0' <= s[0]);
        assert(all_digits(s));
    }
}

/// A digit at the end of a number is worth itself, and everything before it
/// ten times as much.
pub proof fn digits_are_worth_their_place(s: Seq<char>, d: nat)
    requires
        d < 10,
    ensures
        value_of(s.push((48 + d) as char)) == 10 * value_of(s) + d,
        value_of(Seq::<char>::empty()) == 0,
{
    assert(s.push((48 + d) as char).drop_last() =~= s);
}

/// A pattern stands where each of its characters does, and only inside the
/// text.
pub proof fn patterns_stand_by_character(s: Seq<char>, i: int, pattern: Seq<char>)
    ensures
        stands_at(s, i, pattern) <==> 0 <= i && i + pattern.len() <= s.len() && (forall|k: int|
            0 <= k < pattern.len() ==> s[i + k] == #[trigger] pattern[k]),
{
    if 0 <= i && i + pattern.len() <= s.len() {
        let part = s.subrange(i, i + pattern.len());
        if stands_at(s, i, pattern) {
            assert forall|k: int| 0 <= k < pattern.len() implies s[i + k] == #[trigger] pattern[k] by {
                assert(part[k] == s[i + k]);
            }
        }
        if forall|k: int| 0 <= k < pattern.len() ==> s[i + k] == #[trigger] pattern[k] {
            assert(part =~= pattern);
        }
    }
}

} // verus!
