//! The shipped scripts: Lua 3, made ready for a stock Lua 5.1.
//!
//! Three things stand between the two. Lua 3 had conditional compilation
//! (`$if`, `$ifnot`, `$else`, `$end`), whose skipped lines are blanked rather
//! than deleted, so that an error message still points at the line the file
//! really has. `%name` was an upvalue reference, and its sigil is dropped. And
//! `break` was an ordinary name, so it is renamed where it is a variable.
//! Both rewrites touch code only: the scripts are full of `%s` inside strings
//! and `%` in comments.
use crate::lua;
use crate::text;
use vstd::prelude::*;

verus! {

// ---------------------------------------------------------------------------
// Where the code is
// ---------------------------------------------------------------------------
/// Where the string ends whose text goes on at `j` and whose quote is `q`:
/// behind the closing quote, or at the end of the text. A backslash takes the
/// character after it along.
pub open spec fn string_end(t: Seq<char>, j: int, q: char) -> int
    decreases t.len() + 1 - j,
{
    if j >= t.len() {
        t.len() as int
    } else if t[j] == q {
        j + 1
    } else if t[j] == '\\' {
        string_end(t, j + 2, q)
    } else {
        string_end(t, j + 1, q)
    }
}

/// Where the long bracket ends that is open at `j`: behind the next `]]`, or
/// at the end of the text.
pub open spec fn bracket_end(t: Seq<char>, j: int) -> int
    decreases t.len() - j,
{
    if j + 1 >= t.len() {
        t.len() as int
    } else if t[j] == ']' && t[j + 1] == ']' {
        j + 2
    } else {
        bracket_end(t, j + 1)
    }
}

/// Two equal characters at `i` and `i + 1`.
pub open spec fn doubled(t: Seq<char>, i: int, c: char) -> bool {
    i + 1 < t.len() && t[i] == c && t[i + 1] == c
}

/// If a string, a comment or a long bracket opens at `i`, where it ends.
pub open spec fn quiet_end(t: Seq<char>, i: int) -> Option<int> {
    if t[i] == '\'' || t[i] == '"' {
        Some(string_end(t, i + 1, t[i]))
    } else if doubled(t, i, '-') {
        Some(text::first_char(t, '\n', i))
    } else if doubled(t, i, '[') {
        Some(bracket_end(t, i))
    } else {
        None
    }
}

pub(crate) proof fn string_end_range(t: Seq<char>, j: int, q: char)
    requires
        0 <= j,
    ensures
        string_end(t, j, q) <= t.len(),
        j <= t.len() ==> j <= string_end(t, j, q),
    decreases t.len() + 1 - j,
{
    if j < t.len() && t[j] != q {
        if t[j] == '\\' {
            string_end_range(t, j + 2, q);
        } else {
            string_end_range(t, j + 1, q);
        }
    }
}

pub(crate) proof fn bracket_end_range(t: Seq<char>, j: int)
    requires
        0 <= j <= t.len(),
    ensures
        j <= bracket_end(t, j) <= t.len(),
    decreases t.len() - j,
{
    if j + 1 < t.len() && !(t[j] == ']' && t[j + 1] == ']') {
        bracket_end_range(t, j + 1);
    }
}

/// What is quiet ends behind where it begins, and inside the text.
pub proof fn quiet_end_range(t: Seq<char>, i: int)
    requires
        0 <= i < t.len(),
    ensures
        quiet_end(t, i) matches Some(e) ==> i < e <= t.len(),
{
    if t[i] == '\'' || t[i] == '"' {
        string_end_range(t, i + 1, t[i]);
    } else if doubled(t, i, '-') {
        text::first_char_range(t, '\n', i + 1);
    } else if doubled(t, i, '[') {
        bracket_end_range(t, i + 1);
    }
}

/// The code that is left of `t` from `i` on, when the span that is being read
/// began at `start`.
pub open spec fn spans_from(t: Seq<char>, i: int, start: int) -> Seq<(int, int)>
    decreases t.len() - i,
{
    if i < 0 || i >= t.len() {
        seq![(start, t.len() as int)]
    } else {
        match quiet_end(t, i) {
            Some(e) => {
                proof {
                    quiet_end_range(t, i);
                }
                seq![(start, i)] + spans_from(t, e, e)
            },
            None => spans_from(t, i + 1, start),
        }
    }
}

/// The parts of a script that are code, in order; between two of them lies one
/// string, comment or long bracket.
pub open spec fn spans(t: Seq<char>) -> Seq<(int, int)> {
    spans_from(t, 0, 0)
}

/// The spans as the numbers that the executable code holds.
pub open spec fn as_spans(v: Seq<(usize, usize)>) -> Seq<(int, int)> {
    v.map_values(|p: (usize, usize)| (p.0 as int, p.1 as int))
}

fn end_of_string(t: &[char], from: usize, q: char) -> (r: usize)
    requires
        from <= t@.len(),
    ensures
        r == string_end(t@, from as int, q),
        from <= r <= t@.len(),
{
    let n: usize = t.len();
    let mut j: usize = from;
    while j < n && t[j] != q
        invariant
            n == t@.len(),
            from <= t@.len(),
            from <= j <= n,
            string_end(t@, j as int, q) == string_end(t@, from as int, q),
        decreases n - j,
    {
        if t[j] == '\\' {
            if n - j <= 2 {
                assert(string_end(t@, j + 2, q) == n);
                j = n;
            } else {
                j = j + 2;
            }
        } else {
            j = j + 1;
        }
    }
    if j < n {
        j + 1
    } else {
        n
    }
}

fn end_of_bracket(t: &[char], from: usize) -> (r: usize)
    requires
        from < t@.len(),
    ensures
        r == bracket_end(t@, from as int),
        from <= r <= t@.len(),
{
    let n: usize = t.len();
    let mut j: usize = from;
    while j < n - 1 && !(t[j] == ']' && t[j + 1] == ']')
        invariant
            n == t@.len(),
            from < n,
            from <= j < n,
            bracket_end(t@, j as int) == bracket_end(t@, from as int),
        decreases n - j,
    {
        j = j + 1;
    }
    if j < n - 1 {
        j + 2
    } else {
        n
    }
}

/// Where in `t` the code is, as opposed to a string or a comment.
pub fn code_spans(t: &[char]) -> (out: Vec<(usize, usize)>)
    ensures
        as_spans(out@) == spans(t@),
{
    let n: usize = t.len();
    let mut i: usize = 0;
    let mut start: usize = 0;
    let mut out: Vec<(usize, usize)> = Vec::new();
    while i < n
        invariant
            n == t@.len(),
            start <= i <= n,
            as_spans(out@) + spans_from(t@, i as int, start as int) == spans(t@),
        decreases n - i,
    {
        let c: char = t[i];
        proof {
            quiet_end_range(t@, i as int);
        }
        let ghost so_far = as_spans(out@);
        let ghost rest = spans_from(t@, i as int, start as int);
        if c == '\'' || c == '"' {
            out.push((start, i));
            i = end_of_string(t, i + 1, c);
            proof {
                assert(as_spans(out@) == so_far.push((start as int, rest[0].1)));
                assert(as_spans(out@) + spans_from(t@, i as int, i as int) == so_far + rest);
            }
            start = i;
        } else if c == '-' && i + 1 < n && t[i + 1] == '-' {
            out.push((start, i));
            i = text::find_char(t, '\n', i);
            proof {
                assert(as_spans(out@) == so_far.push((start as int, rest[0].1)));
                assert(as_spans(out@) + spans_from(t@, i as int, i as int) == so_far + rest);
            }
            start = i;
        } else if c == '[' && i + 1 < n && t[i + 1] == '[' {
            out.push((start, i));
            i = end_of_bracket(t, i);
            proof {
                assert(as_spans(out@) == so_far.push((start as int, rest[0].1)));
                assert(as_spans(out@) + spans_from(t@, i as int, i as int) == so_far + rest);
            }
            start = i;
        } else {
            i = i + 1;
        }
    }
    let ghost so_far = as_spans(out@);
    out.push((start, n));
    proof {
        assert(as_spans(out@) == so_far + seq![(start as int, n as int)]);
    }
    out
}

// ---------------------------------------------------------------------------
// The two rewrites
// ---------------------------------------------------------------------------
/// The characters that a Lua name is made of.
pub open spec fn name_char(c: char) -> bool {
    text::letter(c) || text::digit(c) || c == '_'
}

/// Is this character part of a Lua name?
pub fn word(c: char) -> (r: bool)
    ensures
        r == name_char(c),
{
    text::is_letter(c) || text::is_digit(c) || c == '_'
}

/// `%` in front of a name: an upvalue reference, whose sigil is dropped.
pub open spec fn upvalue_at(s: Seq<char>, i: int) -> bool {
    s[i] == '%' && i + 1 < s.len() && (text::letter(s[i + 1]) || s[i + 1] == '_')
}

/// Does the code before `i`, white space aside, end with `p`?
pub open spec fn after(s: Seq<char>, i: int, p: Seq<char>) -> bool {
    let e = text::trimmed_end(s, i);
    text::stands_at(s.take(e), e - p.len(), p)
}

/// Does the code before `i`, white space aside, end with the word `p`? A longer
/// name that ends with the same letters is another word.
pub open spec fn after_word(s: Seq<char>, i: int, p: Seq<char>) -> bool {
    let start = text::trimmed_end(s, i) - p.len();
    after(s, i, p) && (start == 0 || !name_char(s[start - 1]))
}

/// Does the code from `j` on, white space aside, begin with `p`?
pub open spec fn before(s: Seq<char>, j: int, p: Seq<char>) -> bool {
    text::stands_at(s, text::skip_white(s, j), p)
}

/// What stands before a value or a declared name, and never before the
/// statement `break`.
pub open spec fn declared(s: Seq<char>, i: int) -> bool {
    ||| after_word(s, i, "local"@)
    ||| after_word(s, i, "not"@)
    ||| after_word(s, i, "and"@)
    ||| after_word(s, i, "or"@)
    ||| after(s, i, "("@)
    ||| after(s, i, ","@)
    ||| after(s, i, "="@)
}

/// What stands behind a name that is assigned to or passed on.
pub open spec fn used(s: Seq<char>, j: int) -> bool {
    ||| before(s, j, "="@) && !before(s, j, "=="@)
    ||| before(s, j, ","@)
    ||| before(s, j, ")"@)
}

/// `break` as a variable: a whole word with an assignment or a declaration
/// before or behind it. The statement `do break end` has neither.
pub open spec fn variable_at(s: Seq<char>, i: int) -> bool {
    &&& text::stands_at(s, i, "break"@)
    &&& i == 0 || !name_char(s[i - 1])
    &&& i + 5 >= s.len() || !name_char(s[i + 5])
    &&& declared(s, i) || used(s, i + 5)
}

/// A text with how many upvalue sigils were dropped from it and how many
/// variables named `break` were renamed in it.
pub ghost struct Modern {
    pub text: Seq<char>,
    pub upvalues: nat,
    pub breaks: nat,
}

impl Modern {
    pub open spec fn plus(self, rest: Modern) -> Modern {
        Modern {
            text: self.text + rest.text,
            upvalues: self.upvalues + rest.upvalues,
            breaks: self.breaks + rest.breaks,
        }
    }

    pub open spec fn plain(text: Seq<char>) -> Modern {
        Modern { text, upvalues: 0, breaks: 0 }
    }
}

/// How much of the span one step takes, and what becomes of it.
pub open spec fn rewrite_step(s: Seq<char>, i: int) -> (int, Modern) {
    if upvalue_at(s, i) {
        (1, Modern { text: seq![], upvalues: 1, breaks: 0 })
    } else if variable_at(s, i) {
        (5, Modern { text: "break_"@, upvalues: 0, breaks: 1 })
    } else {
        (1, Modern::plain(seq![s[i]]))
    }
}

/// A span of code, from `i` on, with the two rewrites made.
pub open spec fn rewritten_from(s: Seq<char>, i: int) -> Modern
    decreases s.len() + 5 - i,
{
    if i >= s.len() {
        Modern::plain(seq![])
    } else {
        let (taken, out) = rewrite_step(s, i);
        out.plus(rewritten_from(s, i + taken))
    }
}

/// The text from `last` on: what lies between the spans `k`, `k + 1`, .. is
/// kept as it is, and each of those spans is rewritten.
pub open spec fn modern_from(t: Seq<char>, spans: Seq<(int, int)>, k: int, last: int) -> Modern
    decreases spans.len() - k,
{
    if k >= spans.len() {
        Modern::plain(t.subrange(last, t.len() as int))
    } else {
        let (a, b) = spans[k];
        Modern::plain(t.subrange(last, a)).plus(rewritten_from(t.subrange(a, b), 0)).plus(
            modern_from(t, spans, k + 1, b),
        )
    }
}

/// A script with the two rewrites made in its code and nowhere else.
pub open spec fn modern(t: Seq<char>) -> Modern {
    modern_from(t, spans(t), 0, 0)
}

/// Spans that follow one another inside a text of length `n`, from `last` on.
pub open spec fn ordered(spans: Seq<(int, int)>, n: int, last: int) -> bool {
    &&& 0 <= last <= n
    &&& spans.len() > 0 ==> last <= spans[0].0
    &&& forall|k: int| 0 <= k < spans.len() ==> (#[trigger] spans[k]).0 <= spans[k].1 <= n
    &&& forall|k: int, j: int|
        0 <= k < j < spans.len() ==> (#[trigger] spans[k]).1 <= (#[trigger] spans[j]).0
}

proof fn spans_from_ordered(t: Seq<char>, i: int, start: int)
    requires
        0 <= start <= i <= t.len(),
    ensures
        ordered(spans_from(t, i, start), t.len() as int, start),
        spans_from(t, i, start).len() > 0,
    decreases t.len() - i,
{
    if i < t.len() {
        match quiet_end(t, i) {
            Some(e) => {
                quiet_end_range(t, i);
                spans_from_ordered(t, e, e);
                let rest = spans_from(t, e, e);
                let all = spans_from(t, i, start);
                assert(all == seq![(start, i)] + rest);
                assert forall|k: int, j: int| 0 <= k < j < all.len() implies (#[trigger] all[k]).1
                    <= (#[trigger] all[j]).0 by {
                    assert(all[j] == rest[j - 1]);
                    if k > 0 {
                        assert(all[k] == rest[k - 1]);
                    } else if j > 1 {
                        assert(rest[0].1 <= rest[j - 1].0);
                    }
                }
                assert forall|k: int| 0 <= k < all.len() implies (#[trigger] all[k]).0 <= all[k].1
                    <= t.len() by {
                    if k > 0 {
                        assert(all[k] == rest[k - 1]);
                    }
                }
            },
            None => {
                spans_from_ordered(t, i + 1, start);
            },
        }
    }
}

/// The spans of code follow one another and lie inside the text.
pub proof fn spans_ordered(t: Seq<char>)
    ensures
        ordered(spans(t), t.len() as int, 0),
        spans(t).len() > 0,
{
    spans_from_ordered(t, 0, 0);
}

/// Does the code before `e` end with this word?
fn is_word_before(s: &[char], e: usize, word_here: &str) -> (r: bool)
    requires
        e <= s@.len(),
    ensures
        r == (text::stands_at(s@.take(e as int), e - word_here@.len(), word_here@) && (e
            - word_here@.len() == 0 || !name_char(s@[e - word_here@.len() - 1]))),
{
    if !text::is_before(s, e, word_here) {
        return false;
    }
    let start: usize = e - text::chars_of(word_here).len();
    start == 0 || !word(s[start - 1])
}

fn is_declared(s: &[char], i: usize) -> (r: bool)
    requires
        i <= s@.len(),
    ensures
        r == declared(s@, i as int),
{
    let e: usize = text::trim_end_at(s, i);
    is_word_before(s, e, "local") || is_word_before(s, e, "not") || is_word_before(s, e, "and")
        || is_word_before(s, e, "or") || text::is_before(s, e, "(") || text::is_before(s, e, ",")
        || text::is_before(s, e, "=")
}

fn is_used(s: &[char], j: usize) -> (r: bool)
    requires
        j <= s@.len(),
    ensures
        r == used(s@, j as int),
{
    let a: usize = text::past_white(s, j);
    (text::is_at(s, a, "=") && !text::is_at(s, a, "==")) || text::is_at(s, a, ",") || text::is_at(
        s,
        a,
        ")",
    )
}

fn is_variable(s: &[char], i: usize) -> (r: bool)
    requires
        i < s@.len(),
    ensures
        r == variable_at(s@, i as int),
        r ==> i + 5 <= s@.len(),
{
    proof {
        reveal_strlit("break");
        if text::stands_at(s@, i as int, "break"@) {
            assert(s@.subrange(i as int, i + 5)[0] == 'b');
        }
    }
    let n: usize = s.len();
    s[i] == 'b' && text::is_at(s, i, "break") && (i == 0 || !word(s[i - 1])) && (n - i <= 5
        || !word(s[i + 5])) && (is_declared(s, i) || is_used(s, i + 5))
}

/// Append `s` to `out` with the two rewrites made, and count them.
fn rewrite(s: &[char], out: &mut Vec<char>) -> (counts: (usize, usize))
    ensures
        final(out)@ == old(out)@ + rewritten_from(s@, 0).text,
        counts.0 == rewritten_from(s@, 0).upvalues,
        counts.1 == rewritten_from(s@, 0).breaks,
        counts.0 + counts.1 <= s@.len(),
{
    proof {
        reveal_strlit("break");
        reveal_strlit("break_");
    }
    let n: usize = s.len();
    let mut upvalues: usize = 0;
    let mut breaks: usize = 0;
    let mut i: usize = 0;
    while i < n
        invariant
            n == s@.len(),
            i <= n,
            upvalues + breaks <= i,
            "break"@.len() == 5,
            out@ + rewritten_from(s@, i as int).text == old(out)@ + rewritten_from(s@, 0).text,
            upvalues + rewritten_from(s@, i as int).upvalues == rewritten_from(s@, 0).upvalues,
            breaks + rewritten_from(s@, i as int).breaks == rewritten_from(s@, 0).breaks,
        decreases n - i,
    {
        let c: char = s[i];
        let ghost so_far = out@;
        if c == '%' && i + 1 < n && (text::is_letter(s[i + 1]) || s[i + 1] == '_') {
            upvalues = upvalues + 1;
            i = i + 1;
            assert(seq![] + rewritten_from(s@, i as int).text == rewritten_from(s@, i as int).text);
        } else if is_variable(s, i) {
            breaks = breaks + 1;
            let renamed = text::chars_of("break_");
            text::append_range(out, renamed.as_slice(), 0, renamed.len());
            proof {
                assert(renamed@.subrange(0, renamed@.len() as int) == "break_"@);
                let rest = rewritten_from(s@, i + 5).text;
                assert(out@ + rest == so_far + ("break_"@ + rest));
            }
            i = i + 5;
        } else {
            out.push(c);
            proof {
                let rest = rewritten_from(s@, i + 1).text;
                assert(out@ + rest == so_far + (seq![c] + rest));
            }
            i = i + 1;
        }
    }
    assert(out@ + rewritten_from(s@, i as int).text == out@);
    (upvalues, breaks)
}

/// Rewrite the two Lua 3 constructs that 5.1 rejects, and count them.
pub fn modernise(text: &str) -> (r: (String, usize, usize))
    ensures
        r.0@ == modern(text@).text,
        r.1 == modern(text@).upvalues,
        r.2 == modern(text@).breaks,
{
    let t = text::chars_of(text);
    let found = code_spans(t.as_slice());
    let ghost all = spans(t@);
    proof {
        spans_ordered(t@);
    }
    let n: usize = t.len();
    let mut upvalues: usize = 0;
    let mut breaks: usize = 0;
    let mut out: Vec<char> = Vec::new();
    let mut last: usize = 0;
    let mut k: usize = 0;
    while k < found.len()
        invariant
            n == t@.len(),
            all == spans(t@),
            all == as_spans(found@),
            ordered(all, n as int, 0),
            k <= found@.len(),
            last <= n,
            k < found@.len() ==> last <= found@[k as int].0,
            upvalues + breaks <= last,
            (Modern { text: out@, upvalues: upvalues as nat, breaks: breaks as nat }).plus(
                modern_from(t@, all, k as int, last as int),
            ) == modern(t@),
        decreases found@.len() - k,
    {
        let a: usize = found[k].0;
        let b: usize = found[k].1;
        assert(all[k as int] == (a as int, b as int));
        let ghost kept = Modern { text: out@, upvalues: upvalues as nat, breaks: breaks as nat };
        text::append_range(&mut out, t.as_slice(), last, a);
        let mut span: Vec<char> = Vec::new();
        text::append_range(&mut span, t.as_slice(), a, b);
        assert(span@ == t@.subrange(a as int, b as int));
        let counts = rewrite(span.as_slice(), &mut out);
        upvalues = upvalues + counts.0;
        breaks = breaks + counts.1;
        proof {
            let done = rewritten_from(span@, 0);
            let rest = modern_from(t@, all, k + 1, b as int);
            assert(out@ == kept.text + t@.subrange(last as int, a as int) + done.text);
            assert(out@ + rest.text == kept.text + (t@.subrange(last as int, a as int) + done.text
                + rest.text));
            if k + 1 < found@.len() {
                assert(all[k + 1] == (found@[k + 1].0 as int, found@[k + 1].1 as int));
                assert(all[k as int].1 <= all[k + 1].0);
            }
        }
        last = b;
        k = k + 1;
    }
    text::append_range(&mut out, t.as_slice(), last, n);
    (text::string_of(out.as_slice()), upvalues, breaks)
}

/// How often `c` occurs in a text.
pub open spec fn occurrences(s: Seq<char>, c: char) -> nat {
    s.to_multiset().count(c)
}

proof fn occurrences_add(a: Seq<char>, b: Seq<char>, c: char)
    ensures
        occurrences(a + b, c) == occurrences(a, c) + occurrences(b, c),
{
    vstd::seq_lib::lemma_multiset_commutative(a, b);
}

/// What the rewrites leave alone in a text that they turn into `m`: the number
/// of lines, the length but for the counted changes, and all of it where
/// nothing was counted.
pub open spec fn faithful(from: Seq<char>, m: Modern) -> bool {
    &&& occurrences(m.text, '\n') == occurrences(from, '\n')
    &&& m.text.len() + m.upvalues == from.len() + m.breaks
    &&& m.upvalues == 0 && m.breaks == 0 ==> m.text == from
}

proof fn faithful_plus(a: Seq<char>, ma: Modern, b: Seq<char>, mb: Modern)
    requires
        faithful(a, ma),
        faithful(b, mb),
    ensures
        faithful(a + b, ma.plus(mb)),
{
    occurrences_add(a, b, '\n');
    occurrences_add(ma.text, mb.text, '\n');
}

proof fn rewritten_faithful(s: Seq<char>, i: int)
    requires
        0 <= i <= s.len(),
    ensures
        faithful(s.skip(i), rewritten_from(s, i)),
    decreases s.len() - i,
{
    if i == s.len() {
        assert(s.skip(i) == Seq::<char>::empty());
    } else {
        let (taken, out) = rewrite_step(s, i);
        broadcast use vstd::seq_lib::group_to_multiset_ensures;

        if upvalue_at(s, i) {
            assert(seq![s[i]] == Seq::<char>::empty().push(s[i]));
            assert(faithful(seq![s[i]], out));
            assert(s.skip(i) == seq![s[i]] + s.skip(i + 1));
            rewritten_faithful(s, i + 1);
            faithful_plus(seq![s[i]], out, s.skip(i + 1), rewritten_from(s, i + 1));
        } else if variable_at(s, i) {
            reveal_strlit("break");
            reveal_strlit("break_");
            let word = "break"@;
            assert(word == seq!['b', 'r', 'e', 'a', 'k']);
            assert("break_"@ == word.push('_'));
            assert(faithful(word, out));
            assert(s.skip(i) == word + s.skip(i + 5)) by {
                assert(s.subrange(i, i + 5) == word);
                assert(s.skip(i) == s.subrange(i, i + 5) + s.skip(i + 5));
            }
            rewritten_faithful(s, i + 5);
            faithful_plus(word, out, s.skip(i + 5), rewritten_from(s, i + 5));
        } else {
            assert(faithful(seq![s[i]], out));
            assert(s.skip(i) == seq![s[i]] + s.skip(i + 1));
            rewritten_faithful(s, i + 1);
            faithful_plus(seq![s[i]], out, s.skip(i + 1), rewritten_from(s, i + 1));
        }
    }
}

proof fn modern_from_faithful(t: Seq<char>, spans: Seq<(int, int)>, k: int, last: int)
    requires
        0 <= k <= spans.len(),
        0 <= last <= t.len(),
        k < spans.len() ==> last <= spans[k].0,
        ordered(spans, t.len() as int, 0),
    ensures
        faithful(t.skip(last), modern_from(t, spans, k, last)),
    decreases spans.len() - k,
{
    if k == spans.len() {
        assert(t.subrange(last, t.len() as int) == t.skip(last));
    } else {
        let (a, b) = spans[k];
        let gap = t.subrange(last, a);
        let span = t.subrange(a, b);
        if k + 1 < spans.len() {
            assert(spans[k].1 <= spans[k + 1].0);
        }
        modern_from_faithful(t, spans, k + 1, b);
        rewritten_faithful(span, 0);
        assert(span.skip(0) == span);
        faithful_plus(gap, Modern::plain(gap), span, rewritten_from(span, 0));
        faithful_plus(
            gap + span,
            Modern::plain(gap).plus(rewritten_from(span, 0)),
            t.skip(b),
            modern_from(t, spans, k + 1, b),
        );
        assert(gap + span + t.skip(b) == t.skip(last));
    }
}

/// The rewrites move no line, change nothing but what they count, and leave a
/// script without an upvalue sigil and without a variable named `break` as it
/// is.
pub proof fn modern_is_faithful(t: Seq<char>)
    ensures
        faithful(t, modern(t)),
{
    spans_ordered(t);
    modern_from_faithful(t, spans(t), 0, 0);
    assert(t.skip(0) == t);
}

// ---------------------------------------------------------------------------
// The pragmas
// ---------------------------------------------------------------------------
/// A line without the carriage return that stood before its line feed.
pub open spec fn without_return(line: Seq<char>) -> Seq<char> {
    if line.len() > 0 && line.last() == '\r' {
        line.drop_last()
    } else {
        line
    }
}

/// The lines of `t` from position `i` on. A line feed ends a line; one at the
/// very end opens no further line.
pub open spec fn lines_from(t: Seq<char>, i: int) -> Seq<Seq<char>>
    decreases t.len() - i,
{
    if i < 0 || i >= t.len() {
        seq![]
    } else {
        let k = text::first_char(t, '\n', i);
        if k >= t.len() {
            seq![t.subrange(i, t.len() as int)]
        } else {
            proof {
                text::first_char_range(t, '\n', i);
            }
            seq![without_return(t.subrange(i, k))] + lines_from(t, k + 1)
        }
    }
}

pub open spec fn lines_of(t: Seq<char>) -> Seq<Seq<char>> {
    lines_from(t, 0)
}

/// What a line that begins with `$` asks for.
pub ghost enum Pragma {
    If(Seq<char>),
    IfNot(Seq<char>),
    Else,
    End,
    /// `$debug` and `$nodebug`, which carry no branch.
    Dropped,
    Unknown(Seq<char>),
}

/// The first word at or behind `i`, and where it ends.
pub open spec fn word_at(s: Seq<char>, i: int) -> (Seq<char>, int) {
    let a = text::skip_white(s, i);
    let b = text::skip_word(s, a);
    (s.subrange(a, b), b)
}

/// The pragma that a line holds, if its first character that is not white is
/// a `$`.
pub open spec fn pragma_of(line: Seq<char>) -> Option<Pragma> {
    let a = text::skip_white(line, 0);
    if a >= line.len() || line[a] != '$' {
        None
    } else {
        let (name, b) = word_at(line, a + 1);
        let (arg, _) = word_at(line, b);
        Some(
            if name == "if"@ {
                Pragma::If(arg)
            } else if name == "ifnot"@ {
                Pragma::IfNot(arg)
            } else if name == "else"@ {
                Pragma::Else
            } else if name == "end"@ {
                Pragma::End
            } else if name == "debug"@ || name == "nodebug"@ {
                Pragma::Dropped
            } else {
                Pragma::Unknown(name)
            },
        )
    }
}

/// A name holds when it is among the defined ones. `nil` never does.
pub open spec fn holds(defines: Seq<Seq<char>>, name: Seq<char>) -> bool {
    name != "nil"@ && defines.contains(name)
}

/// Why the pragmas of a script cannot be resolved.
pub ghost enum Fault {
    ElseWithoutIf,
    EndWithoutIf,
    Unknown(Seq<char>),
    Unterminated(nat),
}

impl Fault {
    /// The fault in words.
    pub open spec fn message(self) -> Seq<char> {
        match self {
            Fault::ElseWithoutIf => "$else without $if"@,
            Fault::EndWithoutIf => "$end without $if"@,
            Fault::Unknown(name) => "unknown pragma $"@ + name,
            Fault::Unterminated(n) => text::numeral(n) + " unterminated $if"@,
        }
    }
}

/// The open branches after a pragma, the innermost last.
pub open spec fn branch(stack: Seq<bool>, p: Pragma, defines: Seq<Seq<char>>) -> Result<
    Seq<bool>,
    Fault,
> {
    match p {
        Pragma::If(name) => Ok(stack.push(holds(defines, name))),
        Pragma::IfNot(name) => Ok(stack.push(!holds(defines, name))),
        Pragma::Else => if stack.len() == 0 {
            Err(Fault::ElseWithoutIf)
        } else {
            Ok(stack.update(stack.len() - 1, !stack.last()))
        },
        Pragma::End => if stack.len() == 0 {
            Err(Fault::EndWithoutIf)
        } else {
            Ok(stack.drop_last())
        },
        Pragma::Dropped => Ok(stack),
        Pragma::Unknown(name) => Err(Fault::Unknown(name)),
    }
}

/// Are all the branches taken that are open?
pub open spec fn all_taken(stack: Seq<bool>) -> bool {
    forall|k: int| 0 <= k < stack.len() ==> #[trigger] stack[k]
}

/// The lines from `k` on, with the pragmas and the branches not taken blanked.
pub open spec fn resolved_from(
    lines: Seq<Seq<char>>,
    k: int,
    stack: Seq<bool>,
    defines: Seq<Seq<char>>,
) -> Result<Seq<Seq<char>>, Fault>
    decreases lines.len() - k,
{
    if k >= lines.len() {
        if stack.len() == 0 {
            Ok(seq![])
        } else {
            Err(Fault::Unterminated(stack.len()))
        }
    } else {
        match pragma_of(lines[k]) {
            Some(p) => match branch(stack, p, defines) {
                Ok(next) => onto(seq![seq![]], resolved_from(lines, k + 1, next, defines)),
                Err(f) => Err(f),
            },
            None => {
                let line = if all_taken(stack) {
                    lines[k]
                } else {
                    seq![]
                };
                onto(seq![line], resolved_from(lines, k + 1, stack, defines))
            },
        }
    }
}

/// `lines` in front of what followed them, if that could be resolved.
pub open spec fn onto(lines: Seq<Seq<char>>, rest: Result<Seq<Seq<char>>, Fault>) -> Result<
    Seq<Seq<char>>,
    Fault,
> {
    match rest {
        Ok(more) => Ok(lines + more),
        Err(f) => Err(f),
    }
}

/// The lines of a script with its pragmas resolved.
pub open spec fn resolved(t: Seq<char>, defines: Seq<Seq<char>>) -> Result<Seq<Seq<char>>, Fault> {
    resolved_from(lines_of(t), 0, seq![], defines)
}

/// Lines as one text, a line feed between each and the next.
pub open spec fn joined(lines: Seq<Seq<char>>) -> Seq<char>
    decreases lines.len(),
{
    if lines.len() == 0 {
        seq![]
    } else if lines.len() == 1 {
        lines[0]
    } else {
        joined(lines.drop_last()).push('\n') + lines.last()
    }
}

/// The views of a list of names.
pub open spec fn names(defines: Seq<&str>) -> Seq<Seq<char>> {
    defines.map_values(|d: &str| d@)
}

/// Why a script could not be made ready, loaded or run.
#[derive(Debug)]
pub enum ScriptError {
    Pragma(String),
    Lua(mlua::Error),
}

impl From<mlua::Error> for ScriptError {
    fn from(e: mlua::Error) -> (r: ScriptError) {
        ScriptError::Lua(e)
    }
}

impl vstd::std_specs::convert::FromSpecImpl<mlua::Error> for ScriptError {
    open spec fn obeys_from_spec() -> bool {
        true
    }

    open spec fn from_spec(e: mlua::Error) -> ScriptError {
        ScriptError::Lua(e)
    }
}

fn is_defined(defines: &[&str], s: &[char], a: usize, b: usize) -> (r: bool)
    requires
        a <= b <= s@.len(),
    ensures
        r == holds(names(defines@), s@.subrange(a as int, b as int)),
{
    let ghost name = s@.subrange(a as int, b as int);
    if is_word(s, a, b, "nil") {
        return false;
    }
    let mut k: usize = 0;
    while k < defines.len()
        invariant
            a <= b <= s@.len(),
            name == s@.subrange(a as int, b as int),
            name != "nil"@,
            k <= defines@.len(),
            forall|j: int| 0 <= j < k ==> (#[trigger] defines@[j])@ != name,
        decreases defines@.len() - k,
    {
        if is_word(s, a, b, defines[k]) {
            proof {
                assert(names(defines@)[k as int] == name);
            }
            return true;
        }
        k = k + 1;
    }
    proof {
        if names(defines@).contains(name) {
            let j = names(defines@).index_of(name);
            assert(defines@[j]@ == name);
        }
    }
    false
}

/// Is the part of `s` in `[a, b)` this word?
fn is_word(s: &[char], a: usize, b: usize, w: &str) -> (r: bool)
    requires
        a <= b <= s@.len(),
    ensures
        r == (s@.subrange(a as int, b as int) == w@),
{
    let p = text::chars_of(w);
    if b - a != p.len() {
        return false;
    }
    let r = text::is_at(s, a, w);
    r
}

/// The lines of a text, as lists of characters.
pub open spec fn as_lines(v: Seq<Vec<char>>) -> Seq<Seq<char>> {
    v.map_values(|l: Vec<char>| l@)
}

/// Split a text into its lines.
fn split_lines(t: &[char]) -> (out: Vec<Vec<char>>)
    ensures
        as_lines(out@) == lines_of(t@),
{
    let n: usize = t.len();
    let mut out: Vec<Vec<char>> = Vec::new();
    let mut i: usize = 0;
    while i < n
        invariant
            n == t@.len(),
            i <= n,
            as_lines(out@) + lines_from(t@, i as int) == lines_of(t@),
        decreases n - i,
    {
        let ghost so_far = as_lines(out@);
        let k: usize = text::find_char(t, '\n', i);
        let mut line: Vec<char> = Vec::new();
        if k == n {
            text::append_range(&mut line, t, i, n);
            assert(line@ == t@.subrange(i as int, n as int));
            out.push(line);
            proof {
                assert(as_lines(out@) == so_far + seq![t@.subrange(i as int, n as int)]);
                assert(as_lines(out@) + lines_from(t@, n as int) == as_lines(out@));
            }
            i = n;
        } else {
            let ghost whole = t@.subrange(i as int, k as int);
            if k > i && t[k - 1] == '\r' {
                text::append_range(&mut line, t, i, k - 1);
                assert(line@ == whole.drop_last());
            } else {
                text::append_range(&mut line, t, i, k);
                assert(line@ == whole);
            }
            out.push(line);
            proof {
                assert(as_lines(out@) == so_far + seq![without_return(whole)]);
                assert(as_lines(out@) + lines_from(t@, k + 1) == so_far + (seq![
                    without_return(whole),
                ] + lines_from(t@, k + 1)));
            }
            i = k + 1;
        }
    }
    assert(as_lines(out@) + lines_from(t@, i as int) == as_lines(out@));
    out
}

fn all_true(stack: &Vec<bool>) -> (r: bool)
    ensures
        r == all_taken(stack@),
{
    let mut k: usize = 0;
    while k < stack.len()
        invariant
            k <= stack@.len(),
            forall|j: int| 0 <= j < k ==> #[trigger] stack@[j],
        decreases stack@.len() - k,
    {
        if !stack[k] {
            return false;
        }
        k = k + 1;
    }
    true
}

fn unknown_pragma(line: &[char], a: usize, b: usize) -> (m: String)
    requires
        a <= b <= line@.len(),
    ensures
        m@ == Fault::Unknown(line@.subrange(a as int, b as int)).message(),
{
    let mut m: Vec<char> = text::chars_of("unknown pragma $");
    text::append_range(&mut m, line, a, b);
    text::string_of(m.as_slice())
}

fn unterminated(n: usize) -> (m: String)
    ensures
        m@ == Fault::Unterminated(n as nat).message(),
{
    let mut m: String = text::decimal(n);
    m.append(" unterminated $if");
    m
}

/// What one pragma line does to the open branches. `dollar` is where its `$`
/// stands.
fn take_branch(stack: &mut Vec<bool>, line: &[char], dollar: usize, defines: &[&str]) -> (r: Result<
    (),
    String,
>)
    requires
        dollar < line@.len(),
        dollar == text::skip_white(line@, 0),
        line@[dollar as int] == '$',
    ensures
        pragma_of(line@) matches Some(p) && match branch(old(stack)@, p, names(defines@)) {
            Ok(next) => r is Ok && final(stack)@ == next,
            Err(f) => r matches Err(m) && m@ == f.message(),
        },
{
    let n: usize = line.len();
    assert(dollar < n);
    let a: usize = text::past_white(line, dollar + 1);
    let b: usize = text::past_word(line, a);
    let c: usize = text::past_white(line, b);
    let d: usize = text::past_word(line, c);
    if is_word(line, a, b, "if") {
        stack.push(is_defined(defines, line, c, d));
    } else if is_word(line, a, b, "ifnot") {
        stack.push(!is_defined(defines, line, c, d));
    } else if is_word(line, a, b, "else") {
        let n: usize = stack.len();
        if n == 0 {
            return Err("$else without $if".to_owned());
        }
        let last: bool = stack[n - 1];
        stack.set(n - 1, !last);
    } else if is_word(line, a, b, "end") {
        if stack.len() == 0 {
            return Err("$end without $if".to_owned());
        }
        let _ = stack.pop();
    } else if !is_word(line, a, b, "debug") && !is_word(line, a, b, "nodebug") {
        return Err(unknown_pragma(line, a, b));
    }
    Ok(())
}

/// The pragma pass alone, before the rewrites: what is counted as rewritten is
/// then what gets compiled, and not a line inside a branch never taken.
pub fn pragmas(text: &str, defines: &[&str]) -> (r: Result<String, ScriptError>)
    ensures
        match resolved(text@, names(defines@)) {
            Ok(lines) => r matches Ok(out) && out@ == joined(lines),
            Err(f) => r matches Err(ScriptError::Pragma(m)) && m@ == f.message(),
        },
{
    let t = text::chars_of(text);
    let lines = split_lines(t.as_slice());
    let ghost all = lines_of(t@);
    let ghost asked = names(defines@);
    let ghost mut done: Seq<Seq<char>> = seq![];
    let mut out: Vec<char> = Vec::new();
    let mut stack: Vec<bool> = Vec::new();
    let mut k: usize = 0;
    while k < lines.len()
        invariant
            all == as_lines(lines@),
            all == lines_of(t@),
            t@ == text@,
            asked == names(defines@),
            k <= lines@.len(),
            done.len() == k,
            out@ == joined(done),
            onto(done, resolved_from(all, k as int, stack@, asked)) == resolved(t@, asked),
        decreases lines@.len() - k,
    {
        let line = lines[k].as_slice();
        assert(all[k as int] == line@);
        let ghost was = out@;
        let ghost so_far = done;
        let ghost rest = resolved_from(all, k as int, stack@, asked);
        if k > 0 {
            out.push('\n');
        }
        let a: usize = text::past_white(line, 0);
        if a < line.len() && line[a] == '$' {
            let ghost before = stack@;
            match take_branch(&mut stack, line, a, defines) {
                Ok(_) => {},
                Err(m) => {
                    return Err(ScriptError::Pragma(m));
                },
            }
            proof {
                done = done.push(seq![]);
            }
        } else {
            if all_true(&stack) {
                text::append_range(&mut out, line, 0, line.len());
                assert(line@.subrange(0, line@.len() as int) == line@);
            }
            proof {
                done = done.push(
                    if all_taken(stack@) {
                        line@
                    } else {
                        seq![]
                    },
                );
            }
        }
        proof {
            assert(done.drop_last() == so_far);
            assert(seq![done.last()] + Seq::<Seq<char>>::empty() == seq![done.last()]);
            let next = resolved_from(all, k + 1, stack@, asked);
            assert(rest == onto(seq![done.last()], next));
            match next {
                Ok(more) => {
                    assert(so_far + (seq![done.last()] + more) == done + more);
                },
                Err(_) => {},
            }
            if k == 0 {
                assert(out@ == done[0]);
            } else {
                assert(out@ == was.push('\n') + done.last());
            }
        }
        k = k + 1;
    }
    if stack.len() > 0 {
        return Err(ScriptError::Pragma(unterminated(stack.len())));
    }
    assert(done + Seq::<Seq<char>>::empty() == done);
    Ok(text::string_of(out.as_slice()))
}

/// Resolve the pragmas, then make the two rewrites.
pub fn preprocess(text: &str, defines: &[&str]) -> (r: Result<String, ScriptError>)
    ensures
        match resolved(text@, names(defines@)) {
            Ok(lines) => r matches Ok(out) && out@ == modern(joined(lines)).text,
            Err(f) => r matches Err(ScriptError::Pragma(m)) && m@ == f.message(),
        },
{
    match pragmas(text, defines) {
        Ok(plain) => {
            let done = modernise(plain.as_str());
            Ok(done.0)
        },
        Err(e) => Err(e),
    }
}

// ---------------------------------------------------------------------------
// What the pragma pass keeps
// ---------------------------------------------------------------------------
/// Does no line of `lines` hold a line feed?
pub open spec fn unbroken(lines: Seq<Seq<char>>) -> bool {
    forall|k: int| 0 <= k < lines.len() ==> occurrences(#[trigger] lines[k], '\n') == 0
}

proof fn no_occurrence(s: Seq<char>, c: char)
    requires
        forall|k: int| 0 <= k < s.len() ==> s[k] != c,
    ensures
        occurrences(s, c) == 0,
{
    broadcast use vstd::seq_lib::group_to_multiset_ensures;

    if s.to_multiset().contains(c) {
        assert(s.contains(c));
    }
}

proof fn lines_from_unbroken(t: Seq<char>, i: int)
    ensures
        unbroken(lines_from(t, i)),
    decreases t.len() - i,
{
    if 0 <= i < t.len() {
        text::first_char_range(t, '\n', i);
        let k = text::first_char(t, '\n', i);
        let line = t.subrange(i, k);
        no_occurrence(line, '\n');
        no_occurrence(without_return(line), '\n');
        if k < t.len() {
            lines_from_unbroken(t, k + 1);
            let rest = lines_from(t, k + 1);
            assert forall|j: int| 0 <= j < lines_from(t, i).len() implies occurrences(
                #[trigger] lines_from(t, i)[j],
                '\n',
            ) == 0 by {
                if j > 0 {
                    assert(lines_from(t, i)[j] == rest[j - 1]);
                }
            }
        }
    }
}

/// Line by line, what the pragma pass makes of `lines`: the line itself, or a
/// blank one; and always a blank one for a pragma.
pub open spec fn blanked(lines: Seq<Seq<char>>, out: Seq<Seq<char>>) -> bool {
    &&& out.len() == lines.len()
    &&& forall|k: int|
        0 <= k < out.len() ==> (#[trigger] out[k] == Seq::<char>::empty() || out[k] == lines[k]
            && pragma_of(lines[k]) is None)
}

proof fn resolved_from_blanks(
    lines: Seq<Seq<char>>,
    k: int,
    stack: Seq<bool>,
    defines: Seq<Seq<char>>,
)
    requires
        0 <= k <= lines.len(),
    ensures
        resolved_from(lines, k, stack, defines) matches Ok(out) ==> blanked(lines.skip(k), out),
    decreases lines.len() - k,
{
    if k < lines.len() {
        match pragma_of(lines[k]) {
            Some(p) => match branch(stack, p, defines) {
                Ok(next) => {
                    resolved_from_blanks(lines, k + 1, next, defines);
                    blanked_step(lines, k, seq![], resolved_from(lines, k + 1, next, defines));
                },
                Err(_) => {},
            },
            None => {
                resolved_from_blanks(lines, k + 1, stack, defines);
                let line = if all_taken(stack) {
                    lines[k]
                } else {
                    seq![]
                };
                blanked_step(lines, k, line, resolved_from(lines, k + 1, stack, defines));
            },
        }
    }
}

proof fn blanked_step(
    lines: Seq<Seq<char>>,
    k: int,
    line: Seq<char>,
    rest: Result<Seq<Seq<char>>, Fault>,
)
    requires
        0 <= k < lines.len(),
        rest matches Ok(out) ==> blanked(lines.skip(k + 1), out),
        line == Seq::<char>::empty() || line == lines[k] && pragma_of(lines[k]) is None,
    ensures
        onto(seq![line], rest) matches Ok(out) ==> blanked(lines.skip(k), out),
{
    if let Ok(more) = rest {
        let out = seq![line] + more;
        assert forall|j: int| 0 <= j < out.len() implies (#[trigger] out[j] == Seq::<char>::empty()
            || out[j] == lines.skip(k)[j] && pragma_of(lines.skip(k)[j]) is None) by {
            if j > 0 {
                assert(out[j] == more[j - 1]);
                assert(lines.skip(k)[j] == lines.skip(k + 1)[j - 1]);
            }
        }
    }
}

proof fn joined_breaks(lines: Seq<Seq<char>>)
    requires
        unbroken(lines),
    ensures
        lines.len() > 0 ==> occurrences(joined(lines), '\n') == lines.len() - 1,
    decreases lines.len(),
{
    broadcast use vstd::seq_lib::group_to_multiset_ensures;

    if lines.len() > 1 {
        joined_breaks(lines.drop_last());
        occurrences_add(joined(lines.drop_last()).push('\n'), lines.last(), '\n');
    }
}

/// Line numbers do not move. Where the pragmas resolve, the outcome has as many
/// lines as the script; each is the line that stood there or a blank, and the
/// finished text, rewrites included, breaks into just as many.
pub proof fn line_numbers_do_not_move(t: Seq<char>, defines: Seq<Seq<char>>)
    ensures
        resolved(t, defines) matches Ok(out) ==> {
            &&& blanked(lines_of(t), out)
            &&& t.len() > 0 ==> occurrences(joined(out), '\n') == lines_of(t).len() - 1
            &&& t.len() > 0 ==> occurrences(modern(joined(out)).text, '\n') == lines_of(t).len() - 1
        },
{
    resolved_from_blanks(lines_of(t), 0, seq![], defines);
    assert(lines_of(t).skip(0) == lines_of(t));
    lines_from_unbroken(t, 0);
    if let Ok(out) = resolved(t, defines) {
        no_occurrence(Seq::<char>::empty(), '\n');
        assert(unbroken(out));
        joined_breaks(out);
        modern_is_faithful(joined(out));
        if t.len() > 0 {
            assert(lines_of(t).len() > 0);
        }
    }
}

/// A script in which no line begins with a `$` keeps every line.
pub proof fn plain_scripts_keep_every_line(t: Seq<char>, defines: Seq<Seq<char>>)
    requires
        forall|k: int|
            0 <= k < lines_of(t).len() ==> pragma_of(#[trigger] lines_of(t)[k]) is None,
    ensures
        resolved(t, defines) == Ok::<Seq<Seq<char>>, Fault>(lines_of(t)),
{
    plain_from(lines_of(t), 0, defines);
    assert(lines_of(t).skip(0) == lines_of(t));
}

proof fn plain_from(lines: Seq<Seq<char>>, k: int, defines: Seq<Seq<char>>)
    requires
        0 <= k <= lines.len(),
        forall|j: int| 0 <= j < lines.len() ==> pragma_of(#[trigger] lines[j]) is None,
    ensures
        resolved_from(lines, k, seq![], defines) == Ok::<Seq<Seq<char>>, Fault>(lines.skip(k)),
    decreases lines.len() - k,
{
    if k < lines.len() {
        plain_from(lines, k + 1, defines);
        assert(seq![lines[k]] + lines.skip(k + 1) == lines.skip(k));
    } else {
        assert(lines.skip(k) == Seq::<Seq<char>>::empty());
    }
}

// ---------------------------------------------------------------------------
// The interpreter
// ---------------------------------------------------------------------------
/// What Lua 3 had at the top level and 5.1 moved or dropped.
pub const PRELUDE: &'static str = r#"
strfind, strlen, strsub = string.find, string.len, string.sub
strlower, strupper, strrep = string.lower, string.upper, string.rep
format, gsub, ascii = string.format, string.gsub, string.byte
abs, ceil, floor, sqrt = math.abs, math.ceil, math.floor, math.sqrt
sin, cos, tan, asin, acos = math.sin, math.cos, math.tan, math.asin, math.acos
atan, atan2, exp, log, log10 = math.atan, math.atan2, math.exp, math.log, math.log10
deg, rad, max, min = math.deg, math.rad, math.max, math.min
random, randomseed = math.random, math.randomseed
mod = math.fmod
tinsert, tremove, sort = table.insert, table.remove, table.sort
getn = function(t) return table.getn and table.getn(t) or #t end
date, clock = os.date, os.clock
dostring = function(s) return assert(loadstring(s))() end
call = function(f, a) return f(unpack(a)) end
getglobal = function(n) return _G[n] end
setglobal = function(n, v) _G[n] = v end
rawgetglobal, rawsetglobal = getglobal, setglobal
function foreach(t, f)
  for k, v in pairs(t) do local r = f(k, v); if r ~= nil then return r end end
end
function foreachi(t, f)
  for i, v in ipairs(t) do local r = f(i, v); if r ~= nil then return r end end
end
nextvar = function(n) return next(_G, n) end
settag, newtag, tag = function() end, function() return 0 end, function() return 0 end
settagmethod, gettagmethod = function() end, function() end
"#;

/// A Lua 5.1 state with the Lua 3 names already in it.
pub struct Scripts {
    pub lua: mlua::Lua,
}

impl Scripts {
    /// A state with the prelude run in it. An error is the interpreter's. The
    /// numbers that the scripts know by names in capitals are for the caller to
    /// set: they are not in it.
    pub fn new() -> (r: Result<Scripts, ScriptError>)
        ensures
            match r {
                Ok(s) => lua::ran_in(s.lua, PRELUDE@) && lua::accepted(PRELUDE@),
                Err(e) => e is Lua,
            },
    {
        Scripts::over(lua::primed("prelude", PRELUDE))
    }

    /// What making a state comes to once the interpreter has answered.
    pub fn over(answer: Result<mlua::Lua, mlua::Error>) -> (r: Result<Scripts, ScriptError>)
        ensures
            r == match answer {
                Ok(lua) => Ok(Scripts { lua }),
                Err(e) => Err(ScriptError::Lua(e)),
            },
    {
        match answer {
            Ok(lua) => Ok(Scripts { lua }),
            Err(e) => Err(ScriptError::from(e)),
        }
    }

    /// Preprocess and load, and hand out the chunk, which is to be run with no
    /// arguments. What the interpreter is handed is the source with its pragmas
    /// resolved, nothing being defined, and the rewrites made. A script calls
    /// back into the program and need not end, so that running it is for the
    /// caller; what that comes to is [`Scripts::ran`].
    pub fn prepare(&self, name: &str, source: &str) -> (r: Result<mlua::Function, ScriptError>)
        ensures
            match resolved(source@, seq![]) {
                Ok(lines) => match r {
                    Ok(f) => {
                        &&& lua::chunk_of(f, self.lua, name@, modern(joined(lines)).text)
                        &&& lua::accepted(modern(joined(lines)).text)
                        &&& !name@.contains('\0')
                    },
                    Err(e) => e is Lua,
                },
                Err(f) => r matches Err(ScriptError::Pragma(m)) && m@ == f.message(),
            },
    {
        let none: [&str; 0] = [];
        assert(names(none@) == Seq::<Seq<char>>::empty());
        match preprocess(source, &none) {
            Ok(text) => Scripts::prepared(lua::load(&self.lua, name, text.as_str())),
            Err(e) => Err(e),
        }
    }

    /// What loading comes to once the interpreter has answered.
    pub fn prepared(loaded: Result<mlua::Function, mlua::Error>) -> (r: Result<
        mlua::Function,
        ScriptError,
    >)
        ensures
            r == match loaded {
                Ok(f) => Ok(f),
                Err(e) => Err(ScriptError::Lua(e)),
            },
    {
        match loaded {
            Ok(f) => Ok(f),
            Err(e) => Err(ScriptError::from(e)),
        }
    }

    /// What compiling comes to once the interpreter has answered: the counts
    /// where it took the text, and its error where it did not.
    pub fn compiled(loaded: Result<mlua::Function, mlua::Error>, counts: (usize, usize)) -> (r: Result<
        (usize, usize),
        ScriptError,
    >)
        ensures
            r == match loaded {
                Ok(_) => Ok(counts),
                Err(e) => Err(ScriptError::Lua(e)),
            },
    {
        match loaded {
            Ok(_) => Ok(counts),
            Err(e) => Err(ScriptError::from(e)),
        }
    }

    /// What running comes to once the interpreter has answered.
    pub fn ran(answer: Result<(), mlua::Error>) -> (r: Result<(), ScriptError>)
        ensures
            r == match answer {
                Ok(_) => Ok(()),
                Err(e) => Err(ScriptError::Lua(e)),
            },
    {
        match answer {
            Ok(_) => Ok(()),
            Err(e) => Err(ScriptError::from(e)),
        }
    }

    /// Preprocess and load, without running, and say how many upvalue sigils
    /// and how many variables named `break` were rewritten on the way.
    pub fn compile(&self, name: &str, source: &str) -> (r: Result<(usize, usize), ScriptError>)
        ensures
            match resolved(source@, seq![]) {
                Ok(lines) => match r {
                    Ok(counts) => {
                        &&& counts.0 == modern(joined(lines)).upvalues
                        &&& counts.1 == modern(joined(lines)).breaks
                        &&& exists|f: mlua::Function| #[trigger]
                            lua::chunk_of(f, self.lua, name@, modern(joined(lines)).text)
                        &&& lua::accepted(modern(joined(lines)).text)
                        &&& !name@.contains('\0')
                    },
                    Err(e) => e is Lua,
                },
                Err(f) => r matches Err(ScriptError::Pragma(m)) && m@ == f.message(),
            },
    {
        let none: [&str; 0] = [];
        assert(names(none@) == Seq::<Seq<char>>::empty());
        match pragmas(source, &none) {
            Ok(plain) => {
                let done = modernise(plain.as_str());
                Scripts::compiled(lua::load(&self.lua, name, done.0.as_str()), (done.1, done.2))
            },
            Err(e) => Err(e),
        }
    }
}

// ---------------------------------------------------------------------------
// Line by line
// ---------------------------------------------------------------------------
/// A text without a line feed is one line, and no line where it is empty.
/// Before the first line feed stands the first line, without a carriage return
/// at its end, and behind it the others.
pub proof fn lines_end_at_line_feeds(line: Seq<char>, rest: Seq<char>)
    requires
        !line.contains('\n'),
    ensures
        line.len() > 0 ==> lines_of(line) == seq![line],
        lines_of(Seq::<char>::empty()) == Seq::<Seq<char>>::empty(),
        line.len() == 0 || line.last() != '\r' ==> lines_of(line + seq!['\n'] + rest) == seq![line]
            + lines_of(rest),
        lines_of(line + seq!['\r', '\n'] + rest) == seq![line] + lines_of(rest),
{
    assert forall|k: int| 0 <= k < line.len() implies line[k] != '\n' by {
        assert(line.contains(line[k]));
    }
    let n = line.len() as int;
    if n > 0 {
        text::the_first_is_found(line, '\n', 0, n);
        assert(line.subrange(0, n) =~= line);
    }
    let a = line + seq!['\n'] + rest;
    assert forall|k: int| 0 <= k < n implies #[trigger] a[k] != '\n' by {
        assert(a[k] == line[k]);
    }
    assert(a[n] == '\n');
    text::the_first_is_found(a, '\n', 0, n);
    assert(a.subrange(0, n) =~= line);
    assert(a.skip(n + 1) =~= rest);
    lines_behind(a, n + 1);
    let b = line + seq!['\r', '\n'] + rest;
    assert forall|k: int| 0 <= k < n + 1 implies #[trigger] b[k] != '\n' by {
        if k < n {
            assert(b[k] == line[k]);
        } else {
            assert(b[k] == '\r');
        }
    }
    assert(b[n + 1] == '\n');
    text::the_first_is_found(b, '\n', 0, n + 1);
    assert(b.subrange(0, n + 1) =~= line.push('\r'));
    assert(line.push('\r').drop_last() =~= line);
    assert(b.skip(n + 2) =~= rest);
    lines_behind(b, n + 2);
}

proof fn first_char_behind(t: Seq<char>, c: char, i: int, j: int)
    requires
        0 <= i <= t.len(),
        0 <= j <= t.len() - i,
    ensures
        text::first_char(t, c, i + j) == i + text::first_char(t.skip(i), c, j),
    decreases t.len() - i - j,
{
    if j < t.len() - i {
        assert(t.skip(i)[j] == t[i + j]);
        if t[i + j] != c {
            first_char_behind(t, c, i, j + 1);
        }
    }
}

proof fn lines_shift(t: Seq<char>, i: int, j: int)
    requires
        0 <= i <= t.len(),
        0 <= j,
    ensures
        lines_from(t, i + j) == lines_from(t.skip(i), j),
    decreases t.len() - i - j,
{
    if j < t.len() - i {
        let u = t.skip(i);
        first_char_behind(t, '\n', i, j);
        text::first_char_range(u, '\n', j);
        let k = text::first_char(u, '\n', j);
        if k < u.len() {
            assert(t.subrange(i + j, i + k) =~= u.subrange(j, k));
            lines_shift(t, i, k + 1);
        } else {
            assert(t.subrange(i + j, t.len() as int) =~= u.subrange(j, u.len() as int));
        }
    }
}

proof fn lines_behind(t: Seq<char>, i: int)
    requires
        0 <= i <= t.len(),
    ensures
        lines_from(t, i) == lines_of(t.skip(i)),
{
    lines_shift(t, i, 0);
}

/// Lines are joined with a line feed between each two and none at the end.
pub proof fn joined_lines_have_feeds_between(lines: Seq<Seq<char>>, last: Seq<char>)
    ensures
        joined(Seq::<Seq<char>>::empty()) == Seq::<char>::empty(),
        joined(seq![last]) == last,
        lines.len() > 0 ==> joined(lines + seq![last]) == joined(lines) + seq!['\n'] + last,
{
    if lines.len() > 0 {
        assert((lines + seq![last]).drop_last() =~= lines);
        assert((lines + seq![last]).last() == last);
        assert(joined(lines).push('\n') + last =~= joined(lines) + seq!['\n'] + last);
    }
}

/// Is all of a text white?
pub open spec fn all_white(s: Seq<char>) -> bool {
    forall|k: int| 0 <= k < s.len() ==> text::white(#[trigger] s[k])
}

/// Is none of a text white?
pub open spec fn none_white(s: Seq<char>) -> bool {
    forall|k: int| 0 <= k < s.len() ==> !text::white(#[trigger] s[k])
}

/// A line is a pragma exactly if the first character of it that is not white is
/// a dollar sign.
pub proof fn pragmas_begin_with_a_dollar(before: Seq<char>, c: char, rest: Seq<char>)
    requires
        all_white(before),
        !text::white(c),
    ensures
        pragma_of(before) is None,
        c != '$' ==> pragma_of(before + seq![c] + rest) is None,
        c == '$' ==> pragma_of(before + seq![c] + rest) is Some,
{
    let line = before + seq![c] + rest;
    let n = before.len() as int;
    text::white_is_skipped(before, 0, n);
    assert forall|k: int| 0 <= k < n implies text::white(#[trigger] line[k]) by {
        assert(line[k] == before[k]);
    }
    assert(line[n] == c);
    text::white_is_skipped(line, 0, n);
}

/// What a pragma asks for is told by the word behind its dollar sign, and what
/// of by the word behind that; white space may stand round both, and what comes
/// behind them is not looked at.
pub proof fn pragmas_are_told_by_their_words(
    before: Seq<char>,
    gap: Seq<char>,
    name: Seq<char>,
    space: Seq<char>,
    arg: Seq<char>,
    rest: Seq<char>,
)
    requires
        all_white(before),
        all_white(gap),
        none_white(name) && name.len() > 0,
        all_white(space),
        none_white(arg),
        space.len() > 0 || (arg.len() == 0 && rest.len() == 0),
        rest.len() > 0 ==> text::white(rest[0]) && arg.len() > 0,
    ensures
        ({
            let line = before + seq!['$'] + gap + name + space + arg + rest;
            &&& name == "if"@ ==> pragma_of(line) == Some(Pragma::If(arg))
            &&& name == "ifnot"@ ==> pragma_of(line) == Some(Pragma::IfNot(arg))
            &&& name == "else"@ ==> pragma_of(line) == Some(Pragma::Else)
            &&& name == "end"@ ==> pragma_of(line) == Some(Pragma::End)
            &&& name == "debug"@ || name == "nodebug"@ ==> pragma_of(line) == Some(Pragma::Dropped)
            &&& name != "if"@ && name != "ifnot"@ && name != "else"@ && name != "end"@ && name
                != "debug"@ && name != "nodebug"@ ==> pragma_of(line) == Some(Pragma::Unknown(name))
        }),
{
    let line = before + seq!['$'] + gap + name + space + arg + rest;
    let p0 = before.len() as int;
    let p1 = p0 + 1 + gap.len();
    let p2 = p1 + name.len();
    let p3 = p2 + space.len();
    let p4 = p3 + arg.len();
    assert forall|k: int| 0 <= k < p0 implies text::white(#[trigger] line[k]) by {
        assert(line[k] == before[k]);
    }
    assert(line[p0] == '$');
    text::white_is_skipped(line, 0, p0);
    assert forall|k: int| p0 + 1 <= k < p1 implies text::white(#[trigger] line[k]) by {
        assert(line[k] == gap[k - p0 - 1]);
    }
    assert forall|k: int| p1 <= k < p2 implies !text::white(#[trigger] line[k]) by {
        assert(line[k] == name[k - p1]);
    }
    assert forall|k: int| p2 <= k < p3 implies text::white(#[trigger] line[k]) by {
        assert(line[k] == space[k - p2]);
    }
    assert forall|k: int| p3 <= k < p4 implies !text::white(#[trigger] line[k]) by {
        assert(line[k] == arg[k - p3]);
    }
    assert(!text::white(line[p1]));
    text::white_is_skipped(line, p0 + 1, p1);
    if p2 < line.len() {
        assert(space.len() > 0);
        assert(text::white(line[p2]));
    }
    text::words_end_before_white(line, p1, p2);
    assert(line.subrange(p1, p2) =~= name);
    if p3 < line.len() {
        if arg.len() == 0 {
            assert(rest.len() == 0);
        }
        assert(!text::white(line[p3]));
    }
    text::white_is_skipped(line, p2, p3);
    if p4 < line.len() {
        assert(line[p4] == rest[0]);
    }
    text::words_end_before_white(line, p3, p4);
    assert(line.subrange(p3, p4) =~= arg);
    reveal_strlit("if");
    reveal_strlit("ifnot");
    reveal_strlit("else");
    reveal_strlit("end");
    reveal_strlit("debug");
    reveal_strlit("nodebug");
    assert("ifnot"@[0] == 'i' && "debug"@[0] == 'd');
}

/// A name that is defined opens a branch that is taken, and one that is not a
/// branch that is not; the other way round where it says not. `nil` is never
/// defined. An else turns the innermost branch over, an end closes it, and both
/// need one that is open. What is unknown is at fault, and the rest changes
/// nothing.
pub proof fn pragmas_open_turn_and_close(
    stack: Seq<bool>,
    top: bool,
    name: Seq<char>,
    defines: Seq<Seq<char>>,
)
    ensures
        ({
            let defined = defines.contains(name) && name != "nil"@;
            &&& branch(stack, Pragma::If(name), defines) == Ok::<Seq<bool>, Fault>(
                stack.push(defined),
            )
            &&& branch(stack, Pragma::IfNot(name), defines) == Ok::<Seq<bool>, Fault>(
                stack.push(!defined),
            )
        }),
        branch(stack.push(top), Pragma::Else, defines) == Ok::<Seq<bool>, Fault>(stack.push(!top)),
        branch(stack.push(top), Pragma::End, defines) == Ok::<Seq<bool>, Fault>(stack),
        branch(seq![], Pragma::Else, defines) == Err::<Seq<bool>, Fault>(Fault::ElseWithoutIf),
        branch(seq![], Pragma::End, defines) == Err::<Seq<bool>, Fault>(Fault::EndWithoutIf),
        branch(stack, Pragma::Dropped, defines) == Ok::<Seq<bool>, Fault>(stack),
        branch(stack, Pragma::Unknown(name), defines) == Err::<Seq<bool>, Fault>(
            Fault::Unknown(name),
        ),
        all_taken(stack.push(top)) <==> top && all_taken(stack),
        all_taken(seq![]),
{
    assert(stack.push(top).update(stack.len() as int, !top) =~= stack.push(!top));
    assert(stack.push(top).drop_last() =~= stack);
    let more = stack.push(top);
    if all_taken(more) {
        assert(more[stack.len() as int]);
        assert forall|k: int| 0 <= k < stack.len() implies #[trigger] stack[k] by {
            assert(more[k]);
        }
    }
}

/// A line that is no pragma is kept where every open branch is taken, and is
/// blank where one is not; a pragma is blank, and the lines behind it go by the
/// branches that it leaves open. A branch that is still open at the end is at
/// fault.
pub proof fn lines_are_kept_in_taken_branches(
    lines: Seq<Seq<char>>,
    k: int,
    stack: Seq<bool>,
    defines: Seq<Seq<char>>,
)
    requires
        0 <= k <= lines.len(),
    ensures
        k == lines.len() && stack.len() == 0 ==> resolved_from(lines, k, stack, defines) == Ok::<
            Seq<Seq<char>>,
            Fault,
        >(seq![]),
        k == lines.len() && stack.len() > 0 ==> resolved_from(lines, k, stack, defines) == Err::<
            Seq<Seq<char>>,
            Fault,
        >(Fault::Unterminated(stack.len())),
        k < lines.len() && pragma_of(lines[k]) is None ==> (match resolved_from(
            lines,
            k + 1,
            stack,
            defines,
        ) {
            Ok(rest) => resolved_from(lines, k, stack, defines) == Ok::<Seq<Seq<char>>, Fault>(
                seq![
                    if forall|j: int| 0 <= j < stack.len() ==> #[trigger] stack[j] {
                        lines[k]
                    } else {
                        Seq::<char>::empty()
                    },
                ] + rest,
            ),
            Err(f) => resolved_from(lines, k, stack, defines) == Err::<Seq<Seq<char>>, Fault>(f),
        }),
        k < lines.len() ==> (pragma_of(lines[k]) matches Some(p) ==> (match branch(
            stack,
            p,
            defines,
        ) {
            Ok(next) => match resolved_from(lines, k + 1, next, defines) {
                Ok(rest) => resolved_from(lines, k, stack, defines) == Ok::<Seq<Seq<char>>, Fault>(
                    seq![Seq::<char>::empty()] + rest,
                ),
                Err(f) => resolved_from(lines, k, stack, defines) == Err::<Seq<Seq<char>>, Fault>(
                    f,
                ),
            },
            Err(f) => resolved_from(lines, k, stack, defines) == Err::<Seq<Seq<char>>, Fault>(f),
        })),
{
}

/// Each fault is told in its own words.
pub proof fn faults_are_told_apart(name: Seq<char>, n: nat)
    ensures
        Fault::ElseWithoutIf.message() == "$else without $if"@,
        Fault::EndWithoutIf.message() == "$end without $if"@,
        Fault::Unknown(name).message() == "unknown pragma $"@ + name,
        Fault::Unterminated(n).message() == text::numeral(n) + " unterminated $if"@,
{
}

/// Is none of the lines from `i` to `j` a pragma?
pub open spec fn plain(lines: Seq<Seq<char>>, i: int, j: int) -> bool {
    forall|k: int| i <= k < j ==> pragma_of(#[trigger] lines[k]) is None
}

/// Lines from `i` to `j`, as they are or all of them blank.
pub open spec fn kept(lines: Seq<Seq<char>>, i: int, j: int, keep: bool) -> Seq<Seq<char>> {
    if keep {
        lines.subrange(i, j)
    } else {
        Seq::new(
            if i <= j {
                (j - i) as nat
            } else {
                0
            },
            |k: int| Seq::<char>::empty(),
        )
    }
}

proof fn plain_lines_go_together(
    lines: Seq<Seq<char>>,
    i: int,
    j: int,
    stack: Seq<bool>,
    defines: Seq<Seq<char>>,
)
    requires
        0 <= i <= j <= lines.len(),
        plain(lines, i, j),
    ensures
        resolved_from(lines, i, stack, defines) == onto(
            kept(lines, i, j, all_taken(stack)),
            resolved_from(lines, j, stack, defines),
        ),
    decreases j - i,
{
    let rest = resolved_from(lines, j, stack, defines);
    if i < j {
        plain_lines_go_together(lines, i + 1, j, stack, defines);
        assert(pragma_of(lines[i]) is None);
        let line: Seq<char> = if all_taken(stack) {
            lines[i]
        } else {
            seq![]
        };
        assert(kept(lines, i, j, all_taken(stack)) =~= seq![line] + kept(
            lines,
            i + 1,
            j,
            all_taken(stack),
        ));
        if let Ok(more) = rest {
            assert(seq![line] + (kept(lines, i + 1, j, all_taken(stack)) + more) =~= kept(
                lines,
                i,
                j,
                all_taken(stack),
            ) + more);
        }
    } else if let Ok(more) = rest {
        assert(kept(lines, i, j, all_taken(stack)) + more =~= more);
    }
}

/// A script without a pragma keeps all its lines.
pub proof fn without_a_pragma_every_line_is_kept(t: Seq<char>, defines: Seq<Seq<char>>)
    requires
        plain(lines_of(t), 0, lines_of(t).len() as int),
    ensures
        resolved(t, defines) == Ok::<Seq<Seq<char>>, Fault>(lines_of(t)),
{
    let lines = lines_of(t);
    let n = lines.len() as int;
    plain_lines_go_together(lines, 0, n, seq![], defines);
    assert(kept(lines, 0, n, true) + Seq::<Seq<char>>::empty() =~= lines);
}

/// A script with one conditional keeps the lines before it and behind it. It
/// keeps those up to the else if the name is defined, and those from the else
/// on if it is not; the other way round where the conditional says not. All
/// others are blank, so that no line moves.
pub proof fn a_conditional_keeps_one_branch(
    t: Seq<char>,
    defines: Seq<Seq<char>>,
    name: Seq<char>,
    not: bool,
    a: int,
    b: int,
    c: int,
)
    requires
        0 <= a < b < c < lines_of(t).len(),
        plain(lines_of(t), 0, a),
        pragma_of(lines_of(t)[a]) == Some(
            if not {
                Pragma::IfNot(name)
            } else {
                Pragma::If(name)
            },
        ),
        plain(lines_of(t), a + 1, b),
        pragma_of(lines_of(t)[b]) == Some(Pragma::Else),
        plain(lines_of(t), b + 1, c),
        pragma_of(lines_of(t)[c]) == Some(Pragma::End),
        plain(lines_of(t), c + 1, lines_of(t).len() as int),
    ensures
        ({
            let lines = lines_of(t);
            let first = (defines.contains(name) && name != "nil"@) != not;
            let blank = seq![Seq::<char>::empty()];
            resolved(t, defines) == Ok::<Seq<Seq<char>>, Fault>(
                lines.take(a) + blank + kept(lines, a + 1, b, first) + blank + kept(
                    lines,
                    b + 1,
                    c,
                    !first,
                ) + blank + lines.skip(c + 1),
            )
        }),
{
    let lines = lines_of(t);
    let n = lines.len() as int;
    let first = (defines.contains(name) && name != "nil"@) != not;
    let blank = seq![Seq::<char>::empty()];
    let none = Seq::<bool>::empty();
    plain_lines_go_together(lines, 0, a, none, defines);
    plain_lines_go_together(lines, a + 1, b, none.push(first), defines);
    plain_lines_go_together(lines, b + 1, c, none.push(!first), defines);
    plain_lines_go_together(lines, c + 1, n, none, defines);
    pragmas_open_turn_and_close(none, first, name, defines);
    pragmas_open_turn_and_close(none, !first, name, defines);
    let tail = kept(lines, c + 1, n, true);
    assert(tail =~= lines.skip(c + 1));
    assert(kept(lines, 0, a, true) =~= lines.take(a));
    let end = Seq::<Seq<char>>::empty();
    assert(resolved_from(lines, n, none, defines) == Ok::<Seq<Seq<char>>, Fault>(end));
    assert(tail + end =~= tail);
    assert(resolved_from(lines, c + 1, none, defines) == Ok::<Seq<Seq<char>>, Fault>(tail));
    let r3 = blank + tail;
    assert(resolved_from(lines, c, none.push(!first), defines) == Ok::<Seq<Seq<char>>, Fault>(r3));
    let r2 = kept(lines, b + 1, c, !first) + r3;
    assert(resolved_from(lines, b + 1, none.push(!first), defines) == Ok::<Seq<Seq<char>>, Fault>(
        r2,
    ));
    let r1 = blank + r2;
    assert(resolved_from(lines, b, none.push(first), defines) == Ok::<Seq<Seq<char>>, Fault>(r1));
    let r0 = kept(lines, a + 1, b, first) + r1;
    assert(resolved_from(lines, a + 1, none.push(first), defines) == Ok::<Seq<Seq<char>>, Fault>(
        r0,
    ));
    let r = blank + r0;
    assert(resolved_from(lines, a, none, defines) == Ok::<Seq<Seq<char>>, Fault>(r));
    assert(lines.take(a) + r =~= lines.take(a) + blank + kept(lines, a + 1, b, first) + blank + kept(
        lines,
        b + 1,
        c,
        !first,
    ) + blank + lines.skip(c + 1));
}

/// A conditional that is never closed is at fault, and so is a close or an else
/// without one, and a word that is none of the pragmas.
pub proof fn a_conditional_has_to_be_closed(
    t: Seq<char>,
    defines: Seq<Seq<char>>,
    name: Seq<char>,
    a: int,
)
    requires
        0 <= a < lines_of(t).len(),
        plain(lines_of(t), 0, a),
    ensures
        pragma_of(lines_of(t)[a]) == Some(Pragma::If(name)) && plain(
            lines_of(t),
            a + 1,
            lines_of(t).len() as int,
        ) ==> resolved(t, defines) == Err::<Seq<Seq<char>>, Fault>(Fault::Unterminated(1)),
        pragma_of(lines_of(t)[a]) == Some(Pragma::Else) ==> resolved(t, defines) == Err::<
            Seq<Seq<char>>,
            Fault,
        >(Fault::ElseWithoutIf),
        pragma_of(lines_of(t)[a]) == Some(Pragma::End) ==> resolved(t, defines) == Err::<
            Seq<Seq<char>>,
            Fault,
        >(Fault::EndWithoutIf),
        pragma_of(lines_of(t)[a]) == Some(Pragma::Unknown(name)) ==> resolved(t, defines) == Err::<
            Seq<Seq<char>>,
            Fault,
        >(Fault::Unknown(name)),
{
    let lines = lines_of(t);
    let n = lines.len() as int;
    let none = Seq::<bool>::empty();
    plain_lines_go_together(lines, 0, a, none, defines);
    if pragma_of(lines[a]) == Some(Pragma::If(name)) && plain(lines, a + 1, n) {
        let stack = none.push(holds(defines, name));
        plain_lines_go_together(lines, a + 1, n, stack, defines);
        assert(stack.len() == 1);
    }
}

} // verus!
