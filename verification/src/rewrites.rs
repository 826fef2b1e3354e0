//! What the rewriting of a script does, character by character.
use crate::script;
use crate::text;
use vstd::prelude::*;

verus! {

// ---------------------------------------------------------------------------
// Where the code is
// ---------------------------------------------------------------------------
/// Does a string, a comment or a long bracket open at `i`?
pub open spec fn opener(t: Seq<char>, i: int) -> bool {
    ||| t[i] == '"'
    ||| t[i] == '\''
    ||| i + 1 < t.len() && t[i] == '-' && t[i + 1] == '-'
    ||| i + 1 < t.len() && t[i] == '[' && t[i + 1] == '['
}

/// Does the character `i` lie in the span of code with the number `k`?
pub open spec fn in_span(t: Seq<char>, k: int, i: int) -> bool {
    0 <= k < script::spans(t).len() && script::spans(t)[k].0 <= i < script::spans(t)[k].1
}

/// Does the character `i` lie in the code?
pub open spec fn in_code(t: Seq<char>, i: int) -> bool {
    exists|k: int| in_span(t, k, i)
}

/// Is this what the spans of a text from `start` on are, where nothing opens
/// between `start` and `i`?
spec fn told_apart(t: Seq<char>, i: int, start: int, list: Seq<(int, int)>) -> bool {
    &&& list.len() > 0
    &&& list[0].0 == start
    &&& list.last().1 == t.len()
    &&& forall|k: int, j: int|
        0 <= k < list.len() && (#[trigger] list[k]).0 <= j < list[k].1 && (k > 0 || j >= i)
            ==> !#[trigger] opener(t, j)
    &&& forall|k: int|
        0 <= k < list.len() - 1 ==> {
            &&& (#[trigger] list[k]).1 < t.len()
            &&& opener(t, list[k].1)
            &&& script::quiet_end(t, list[k].1) == Some(list[k + 1].0)
        }
}

proof fn spans_are_told_apart(t: Seq<char>, i: int, start: int)
    requires
        0 <= start <= i <= t.len(),
    ensures
        told_apart(t, i, start, script::spans_from(t, i, start)),
    decreases t.len() - i,
{
    let all = script::spans_from(t, i, start);
    if i < t.len() {
        match script::quiet_end(t, i) {
            Some(e) => {
                script::quiet_end_range(t, i);
                spans_are_told_apart(t, e, e);
                let rest = script::spans_from(t, e, e);
                assert(all == seq![(start, i)] + rest);
                assert(all.last() == rest.last());
                assert forall|k: int| 0 <= k < all.len() - 1 implies {
                    &&& (#[trigger] all[k]).1 < t.len()
                    &&& opener(t, all[k].1)
                    &&& script::quiet_end(t, all[k].1) == Some(all[k + 1].0)
                } by {
                    if k > 0 {
                        assert(all[k] == rest[k - 1]);
                        assert(all[k + 1] == rest[k]);
                    } else {
                        assert(all[1] == rest[0]);
                    }
                }
                assert forall|k: int, j: int|
                    0 <= k < all.len() && (#[trigger] all[k]).0 <= j < all[k].1 && (k > 0 || j
                        >= i) implies !#[trigger] opener(t, j) by {
                    if k > 0 {
                        assert(all[k] == rest[k - 1]);
                    }
                }
            },
            None => {
                spans_are_told_apart(t, i + 1, start);
                assert(!opener(t, i));
            },
        }
    }
}

/// The code of a script begins at its beginning and ends at its end. Nothing
/// opens inside a span of code: no string, no comment, no long bracket. Behind
/// every span but the last something does, and the next span begins where that
/// has closed.
pub proof fn code_is_what_is_not_quiet(t: Seq<char>)
    ensures
        script::spans(t).len() > 0,
        script::spans(t)[0].0 == 0,
        script::spans(t).last().1 == t.len(),
        forall|i: int| #[trigger] in_code(t, i) ==> 0 <= i < t.len() && !opener(t, i),
        forall|k: int|
            0 <= k < script::spans(t).len() - 1 ==> {
                &&& (#[trigger] script::spans(t)[k]).1 < t.len()
                &&& opener(t, script::spans(t)[k].1)
                &&& script::quiet_end(t, script::spans(t)[k].1) == Some(script::spans(t)[k + 1].0)
            },
{
    spans_are_told_apart(t, 0, 0);
    script::spans_ordered(t);
    let all = script::spans(t);
    assert forall|i: int| #[trigger] in_code(t, i) implies 0 <= i < t.len() && !opener(t, i) by {
        let k = choose|k: int| in_span(t, k, i);
        assert(all[k].0 <= i < all[k].1);
        assert(all[k].1 <= t.len());
        if k > 0 {
            assert(all[0].1 <= all[k].0);
            assert(all[0].0 <= all[0].1);
        }
    }
}

/// A string that opens at `i` goes on to the first of its quotes that no
/// backslash stands before, and closes behind it; the other kind of quote does
/// not close it. A backslash takes the character behind it along. A string that
/// is never closed goes on to the end.
pub proof fn a_string_closes_behind_its_quote(t: Seq<char>, i: int, from: int, at: int)
    requires
        0 <= i < from <= at <= t.len(),
        t[i] == '"' || t[i] == '\'',
        forall|j: int| from <= j < at ==> #[trigger] t[j] != t[i] && t[j] != '\\',
    ensures
        script::quiet_end(t, i) == Some(script::string_end(t, i + 1, t[i])),
        at < t.len() && t[at] == t[i] ==> script::string_end(t, from, t[i]) == at + 1,
        at < t.len() && t[at] == '\\' ==> script::string_end(t, from, t[i]) == script::string_end(
            t,
            at + 2,
            t[i],
        ),
        at == t.len() ==> script::string_end(t, from, t[i]) == t.len(),
        script::string_end(t, t.len() as int, t[i]) == t.len(),
        script::string_end(t, t.len() as int + 1, t[i]) == t.len(),
    decreases at - from,
{
    if from < at {
        assert(t[from] != t[i] && t[from] != '\\');
        a_string_closes_behind_its_quote(t, i, from + 1, at);
    }
}

/// A comment goes on to the end of its line, which is code again, or to the end
/// of the text.
pub proof fn a_comment_ends_with_its_line(t: Seq<char>, i: int, at: int)
    requires
        0 <= i < at <= t.len(),
        i + 1 < t.len(),
        t[i] == '-' && t[i + 1] == '-',
        forall|j: int| i <= j < at ==> #[trigger] t[j] != '\n',
        at < t.len() ==> t[at] == '\n',
    ensures
        script::quiet_end(t, i) == Some(at),
{
    text::the_first_is_found(t, '\n', i, at);
}

proof fn bracket_closes(t: Seq<char>, i: int, at: int)
    requires
        0 <= i <= at <= t.len(),
        forall|j: int|
            i <= j < at && j + 1 < t.len() ==> !(#[trigger] t[j] == ']' && t[j + 1] == ']'),
        at + 1 < t.len() ==> t[at] == ']' && t[at + 1] == ']',
    ensures
        script::bracket_end(t, i) == (if at + 1 < t.len() {
            at + 2
        } else {
            t.len() as int
        }),
    decreases at - i,
{
    if i < at && i + 1 < t.len() {
        assert(!(t[i] == ']' && t[i + 1] == ']'));
        bracket_closes(t, i + 1, at);
    }
}

/// A long bracket goes on to the first two closing brackets, and closes behind
/// them; where there are none, it goes on to the end.
pub proof fn a_long_bracket_closes_behind_two(t: Seq<char>, i: int, at: int)
    requires
        0 <= i < at <= t.len(),
        i + 1 < t.len(),
        t[i] == '[' && t[i + 1] == '[',
        forall|j: int|
            i <= j < at && j + 1 < t.len() ==> !(#[trigger] t[j] == ']' && t[j + 1] == ']'),
        at + 1 < t.len() ==> t[at] == ']' && t[at + 1] == ']',
    ensures
        script::quiet_end(t, i) == Some(
            if at + 1 < t.len() {
                at + 2
            } else {
                t.len() as int
            },
        ),
{
    bracket_closes(t, i, at);
}

// ---------------------------------------------------------------------------
// What becomes of each character
// ---------------------------------------------------------------------------
/// Can a name begin with this character?
pub open spec fn begins_a_name(c: char) -> bool {
    'a' <= c <= 'z' || 'A' <= c <= 'Z' || c == '_'
}

/// Can a name hold this character?
pub open spec fn in_a_name(c: char) -> bool {
    begins_a_name(c) || '0' <= c <= '9'
}

/// Is the character `i` the sigil of an upvalue: a percent sign in the code,
/// directly before what a name can begin with? What stands before it does not
/// matter.
pub open spec fn sigil(t: Seq<char>, i: int) -> bool {
    in_code(t, i) && t[i] == '%' && i + 1 < t.len() && begins_a_name(t[i + 1])
}

/// Is there nothing but white space from `a` to `b`?
pub open spec fn blank(t: Seq<char>, a: int, b: int) -> bool {
    a <= b && forall|j: int| a <= j < b ==> text::white(#[trigger] t[j])
}

/// Does the word `w` end at `e`, in code that begins at `a`?
pub open spec fn word_ends(t: Seq<char>, a: int, e: int, w: Seq<char>) -> bool {
    &&& a <= e - w.len()
    &&& t.subrange(e - w.len(), e) == w
    &&& e - w.len() == a || !in_a_name(t[e - w.len() - 1])
}

/// Does something end at `e` that a value or a declared name stands behind?
pub open spec fn leads(t: Seq<char>, a: int, e: int) -> bool {
    ||| a < e && (t[e - 1] == '(' || t[e - 1] == ',' || t[e - 1] == '=')
    ||| word_ends(t, a, e, "local"@)
    ||| word_ends(t, a, e, "not"@)
    ||| word_ends(t, a, e, "and"@)
    ||| word_ends(t, a, e, "or"@)
}

/// Does something begin at `f` that stands behind a name which is assigned to
/// or passed on, in code that ends at `b`?
pub open spec fn follows(t: Seq<char>, f: int, b: int) -> bool {
    &&& f < b
    &&& t[f] == ',' || t[f] == ')' || (t[f] == '=' && !(f + 1 < b && t[f + 1] == '='))
}

/// Does a variable named `break` stand at `i`, in the code from `a` to `b`: the
/// whole word, and before it or behind it, white space aside, what only a
/// variable has there?
pub open spec fn break_in(t: Seq<char>, a: int, b: int, i: int) -> bool {
    &&& a <= i && i + 5 <= b
    &&& t.subrange(i, i + 5) == "break"@
    &&& i == a || !in_a_name(t[i - 1])
    &&& i + 5 == b || !in_a_name(t[i + 5])
    &&& (exists|e: int| a <= e && #[trigger] blank(t, e, i) && leads(t, a, e)) || (exists|f: int|
        #[trigger]
        blank(t, i + 5, f) && follows(t, f, b))
}

/// Does a variable named `break` stand at `i` in the code?
pub open spec fn break_at(t: Seq<char>, i: int) -> bool {
    exists|k: int|
        0 <= k < script::spans(t).len() && break_in(
            t,
            (#[trigger] script::spans(t)[k]).0,
            script::spans(t)[k].1,
            i,
        )
}

/// What becomes of the character `i`: a sigil goes, the last letter of a
/// variable named `break` gets an underscore behind it, and everything else
/// stays what it is.
pub open spec fn becomes(t: Seq<char>, i: int) -> Seq<char> {
    if sigil(t, i) {
        seq![]
    } else if break_at(t, i - 4) {
        seq![t[i], '_']
    } else {
        seq![t[i]]
    }
}

/// What becomes of the characters from `i` to `j`, one behind the other.
pub open spec fn outcome(t: Seq<char>, i: int, j: int) -> Seq<char>
    decreases j - i,
{
    if i >= j {
        seq![]
    } else {
        becomes(t, i) + outcome(t, i + 1, j)
    }
}

/// How many sigils stand from `i` to `j`, and how many variables named `break`.
spec fn counted(t: Seq<char>, i: int, j: int) -> (nat, nat)
    decreases j - i,
{
    if i >= j {
        (0, 0)
    } else {
        let (u, b) = counted(t, i + 1, j);
        (
            if sigil(t, i) {
                u + 1
            } else {
                u
            },
            if break_at(t, i) {
                b + 1
            } else {
                b
            },
        )
    }
}

proof fn one_span(t: Seq<char>, k: int, m: int, i: int)
    requires
        in_span(t, k, i),
        in_span(t, m, i),
    ensures
        k == m,
{
    script::spans_ordered(t);
    let all = script::spans(t);
    if k < m {
        assert(all[k].1 <= all[m].0);
    }
    if m < k {
        assert(all[m].1 <= all[k].0);
    }
}

proof fn trimmed(s: Seq<char>, i: int)
    requires
        0 <= i <= s.len(),
    ensures
        0 <= text::trimmed_end(s, i) <= i,
        forall|j: int| text::trimmed_end(s, i) <= j < i ==> text::white(#[trigger] s[j]),
        text::trimmed_end(s, i) > 0 ==> !text::white(s[text::trimmed_end(s, i) - 1]),
    decreases i,
{
    if i > 0 && text::white(s[i - 1]) {
        trimmed(s, i - 1);
    }
}

proof fn skipped(s: Seq<char>, i: int)
    requires
        0 <= i <= s.len(),
    ensures
        i <= text::skip_white(s, i) <= s.len(),
        forall|j: int| i <= j < text::skip_white(s, i) ==> text::white(#[trigger] s[j]),
    decreases s.len() - i,
{
    if i < s.len() && text::white(s[i]) {
        skipped(s, i + 1);
    }
}

/// A word ends before `i`, white space aside, exactly if it ends where the
/// white space begins.
proof fn word_before(t: Seq<char>, a: int, b: int, i: int, e: int, w: Seq<char>)
    requires
        0 <= a <= e <= i <= b <= t.len(),
        text::trimmed_end(t.subrange(a, b), i - a) == e - a,
    ensures
        script::after_word(t.subrange(a, b), i - a, w) <==> word_ends(t, a, e, w),
{
    let s = t.subrange(a, b);
    let at = e - a - w.len();
    text::patterns_stand_by_character(s.take(e - a), at, w);
    if 0 <= at {
        assert(s.take(e - a).subrange(at, e - a) =~= t.subrange(e - w.len(), e));
        if at > 0 {
            assert(s[at - 1] == t[e - w.len() - 1]);
        }
    }
}

proof fn char_before(t: Seq<char>, a: int, b: int, i: int, e: int, c: char, p: Seq<char>)
    requires
        0 <= a <= e <= i <= b <= t.len(),
        text::trimmed_end(t.subrange(a, b), i - a) == e - a,
        p == seq![c],
    ensures
        script::after(t.subrange(a, b), i - a, p) <==> a < e && t[e - 1] == c,
{
    let s = t.subrange(a, b);
    let u = s.take(e - a);
    text::patterns_stand_by_character(u, e - a - 1, p);
    if a < e {
        assert(u[e - a - 1] == t[e - 1]);
        assert(p[0] == c);
        if u[e - a - 1] == c {
            assert forall|k: int| 0 <= k < p.len() implies u[e - a - 1 + k] == #[trigger] p[k] by {}
        }
    }
}

proof fn leads_is_declared(t: Seq<char>, a: int, b: int, i: int, e: int)
    requires
        0 <= a <= e <= i <= b <= t.len(),
        text::trimmed_end(t.subrange(a, b), i - a) == e - a,
    ensures
        script::declared(t.subrange(a, b), i - a) <==> leads(t, a, e),
{
    reveal_strlit("(");
    reveal_strlit(",");
    reveal_strlit("=");
    assert("("@ =~= seq!['(']);
    assert(","@ =~= seq![',']);
    assert("="@ =~= seq!['=']);
    word_before(t, a, b, i, e, "local"@);
    word_before(t, a, b, i, e, "not"@);
    word_before(t, a, b, i, e, "and"@);
    word_before(t, a, b, i, e, "or"@);
    char_before(t, a, b, i, e, '(', "("@);
    char_before(t, a, b, i, e, ',', ","@);
    char_before(t, a, b, i, e, '=', "="@);
}

proof fn last_of_a_word(t: Seq<char>, a: int, e: int)
    requires
        0 <= a <= e <= t.len(),
        leads(t, a, e),
    ensures
        a < e,
        !text::white(t[e - 1]),
{
    reveal_strlit("local");
    reveal_strlit("not");
    reveal_strlit("and");
    reveal_strlit("or");
    if word_ends(t, a, e, "local"@) {
        assert(t.subrange(e - 5, e)[4] == 'l');
    } else if word_ends(t, a, e, "not"@) {
        assert(t.subrange(e - 3, e)[2] == 't');
    } else if word_ends(t, a, e, "and"@) {
        assert(t.subrange(e - 3, e)[2] == 'd');
    } else if word_ends(t, a, e, "or"@) {
        assert(t.subrange(e - 2, e)[1] == 'r');
    }
}

proof fn declared_is(t: Seq<char>, a: int, b: int, i: int)
    requires
        0 <= a <= i <= b <= t.len(),
    ensures
        script::declared(t.subrange(a, b), i - a) <==> (exists|e: int|
            a <= e && #[trigger] blank(t, e, i) && leads(t, a, e)),
{
    let s = t.subrange(a, b);
    let e0 = text::trimmed_end(s, i - a);
    trimmed(s, i - a);
    leads_is_declared(t, a, b, i, a + e0);
    if script::declared(s, i - a) {
        assert forall|j: int| a + e0 <= j < i implies text::white(#[trigger] t[j]) by {
            assert(s[j - a] == t[j]);
        }
        assert(blank(t, a + e0, i));
    }
    if exists|e: int| a <= e && #[trigger] blank(t, e, i) && leads(t, a, e) {
        let e = choose|e: int| a <= e && #[trigger] blank(t, e, i) && leads(t, a, e);
        last_of_a_word(t, a, e);
        assert forall|j: int| e - a <= j < i - a implies text::white(#[trigger] s[j]) by {
            assert(s[j] == t[j + a]);
        }
        assert(s[e - a - 1] == t[e - 1]);
        text::white_ends_are_trimmed(s, e - a, i - a);
    }
}

proof fn used_is(t: Seq<char>, a: int, b: int, i: int)
    requires
        0 <= a <= i <= b <= t.len(),
    ensures
        script::used(t.subrange(a, b), i - a) <==> (exists|f: int|
            #[trigger]
            blank(t, i, f) && follows(t, f, b)),
{
    reveal_strlit(")");
    reveal_strlit(",");
    reveal_strlit("=");
    reveal_strlit("==");
    let s = t.subrange(a, b);
    let f0 = text::skip_white(s, i - a);
    skipped(s, i - a);
    assert("="@[0] == '=' && ","@[0] == ',' && ")"@[0] == ')');
    assert("=="@[0] == '=' && "=="@[1] == '=');
    text::patterns_stand_by_character(s, f0, ")"@);
    text::patterns_stand_by_character(s, f0, ","@);
    text::patterns_stand_by_character(s, f0, "="@);
    text::patterns_stand_by_character(s, f0, "=="@);
    let here = a + f0;
    if here < b {
        assert(s[f0] == t[here]);
        assert(s[f0 + 0] == t[here]);
        if here + 1 < b {
            assert(s[f0 + 1] == t[here + 1]);
        }
    }
    assert(script::used(s, i - a) <==> follows(t, here, b)) by {
        if follows(t, here, b) {
            if t[here] == ',' {
                assert(text::stands_at(s, f0, ","@));
            } else if t[here] == ')' {
                assert(text::stands_at(s, f0, ")"@));
            } else {
                assert(text::stands_at(s, f0, "="@));
                if text::stands_at(s, f0, "=="@) {
                    assert(s[f0 + 1] == "=="@[1]);
                }
            }
        }
        if script::used(s, i - a) {
            if text::stands_at(s, f0, ","@) {
                assert(s[f0 + 0] == ","@[0]);
            } else if text::stands_at(s, f0, ")"@) {
                assert(s[f0 + 0] == ")"@[0]);
            } else {
                assert(s[f0 + 0] == "="@[0]);
                if here + 1 < b && t[here + 1] == '=' {
                    assert(forall|k: int| 0 <= k < 2 ==> s[f0 + k] == #[trigger] "=="@[k]);
                    assert(text::stands_at(s, f0, "=="@));
                }
            }
        }
    }
    if script::used(s, i - a) {
        assert forall|j: int| i <= j < here implies text::white(#[trigger] t[j]) by {
            assert(s[j - a] == t[j]);
        }
        assert(blank(t, i, here));
    }
    if exists|f: int| #[trigger] blank(t, i, f) && follows(t, f, b) {
        let f = choose|f: int| #[trigger] blank(t, i, f) && follows(t, f, b);
        assert forall|j: int| i - a <= j < f - a implies text::white(#[trigger] s[j]) by {
            assert(s[j] == t[j + a]);
        }
        assert(s[f - a] == t[f]);
        text::white_is_skipped(s, i - a, f - a);
    }
}

proof fn variable_is(t: Seq<char>, a: int, b: int, i: int)
    requires
        0 <= a <= i < b <= t.len(),
    ensures
        script::variable_at(t.subrange(a, b), i - a) <==> break_in(t, a, b, i),
{
    reveal_strlit("break");
    let s = t.subrange(a, b);
    if i + 5 <= b {
        assert(s.subrange(i - a, i - a + 5) =~= t.subrange(i, i + 5));
        if i > a {
            assert(s[i - a - 1] == t[i - 1]);
        }
        if i + 5 < b {
            assert(s[i - a + 5] == t[i + 5]);
        }
        declared_is(t, a, b, i);
        used_is(t, a, b, i + 5);
    }
}

proof fn break_lies(t: Seq<char>, i: int)
    requires
        break_at(t, i),
    ensures
        0 <= i && i + 5 <= t.len(),
        t[i] == 'b' && t[i + 1] == 'r' && t[i + 2] == 'e' && t[i + 3] == 'a' && t[i + 4] == 'k',
        exists|k: int|
            in_span(t, k, i) && in_span(t, k, i + 4) && break_in(
                t,
                (#[trigger] script::spans(t)[k]).0,
                script::spans(t)[k].1,
                i,
            ),
{
    reveal_strlit("break");
    script::spans_ordered(t);
    let all = script::spans(t);
    let k = choose|k: int|
        0 <= k < all.len() && break_in(t, (#[trigger] all[k]).0, all[k].1, i);
    assert(0 <= all[k].0 <= all[k].1 <= t.len()) by {
        if k > 0 {
            assert(all[0].1 <= all[k].0);
        }
    }
    let w = t.subrange(i, i + 5);
    assert(w[0] == t[i] && w[1] == t[i + 1] && w[2] == t[i + 2] && w[3] == t[i + 3] && w[4] == t[i
        + 4]);
    assert(in_span(t, k, i) && in_span(t, k, i + 4));
}

/// In a span of code, what the span alone shows is what the whole text shows.
proof fn the_span_shows_it(t: Seq<char>, k: int, i: int)
    requires
        in_span(t, k, i),
    ensures
        script::upvalue_at(
            t.subrange(script::spans(t)[k].0, script::spans(t)[k].1),
            i - script::spans(t)[k].0,
        ) <==> sigil(t, i),
        script::variable_at(
            t.subrange(script::spans(t)[k].0, script::spans(t)[k].1),
            i - script::spans(t)[k].0,
        ) <==> break_at(t, i),
{
    code_is_what_is_not_quiet(t);
    script::spans_ordered(t);
    let all = script::spans(t);
    let (a, b) = all[k];
    assert(0 <= a <= b <= t.len()) by {
        if k > 0 {
            assert(all[0].1 <= all[k].0);
        }
    }
    let s = t.subrange(a, b);
    assert(in_code(t, i));
    assert(s[i - a] == t[i]);
    if i + 1 < b {
        assert(s[i - a + 1] == t[i + 1]);
    } else if k < all.len() - 1 {
        assert(opener(t, all[k].1));
    } else {
        assert(all.last() == all[k]);
    }
    variable_is(t, a, b, i);
    if break_in(t, a, b, i) {
        assert(break_in(t, all[k].0, all[k].1, i));
        assert(break_at(t, i));
    }
    if break_at(t, i) {
        break_lies(t, i);
        let m = choose|m: int|
            in_span(t, m, i) && in_span(t, m, i + 4) && break_in(
                t,
                (#[trigger] all[m]).0,
                all[m].1,
                i,
            );
        one_span(t, k, m, i);
    }
}

/// What a variable that stands before a span could do to it: nothing.
proof fn no_break_across(t: Seq<char>, k: int, i: int)
    requires
        in_span(t, k, i),
        i - 4 < script::spans(t)[k].0,
    ensures
        !break_at(t, i - 4),
{
    if break_at(t, i - 4) {
        break_lies(t, i - 4);
        let all = script::spans(t);
        let m = choose|m: int|
            in_span(t, m, i - 4) && in_span(t, m, i) && break_in(
                t,
                (#[trigger] all[m]).0,
                all[m].1,
                i - 4,
            );
        one_span(t, k, m, i);
    }
}

proof fn span_becomes(t: Seq<char>, k: int, i: int)
    requires
        0 <= k < script::spans(t).len(),
        script::spans(t)[k].0 <= i <= script::spans(t)[k].1,
        forall|j: int| i - 4 <= j < i && script::spans(t)[k].0 <= j ==> !#[trigger] break_at(t, j),
    ensures
        script::rewritten_from(
            t.subrange(script::spans(t)[k].0, script::spans(t)[k].1),
            i - script::spans(t)[k].0,
        ) == (script::Modern {
            text: outcome(t, i, script::spans(t)[k].1),
            upvalues: counted(t, i, script::spans(t)[k].1).0,
            breaks: counted(t, i, script::spans(t)[k].1).1,
        }),
    decreases script::spans(t)[k].1 - i,
{
    let (a, b) = script::spans(t)[k];
    script::spans_ordered(t);
    assert(0 <= a <= b <= t.len()) by {
        if k > 0 {
            assert(script::spans(t)[0].1 <= script::spans(t)[k].0);
        }
    }
    let s = t.subrange(a, b);
    if i < b {
        assert(in_span(t, k, i));
        the_span_shows_it(t, k, i);
        assert(s[i - a] == t[i]);
        let next = script::rewritten_from(s, i + 1 - a);
        assert(!break_at(t, i - 4)) by {
            if i - 4 < a {
                no_break_across(t, k, i);
            }
        }
        if sigil(t, i) {
            if break_at(t, i) {
                break_lies(t, i);
            }
            span_becomes(t, k, i + 1);
            assert(Seq::<char>::empty() + next.text =~= next.text);
        } else if break_at(t, i) {
            break_lies(t, i);
            reveal_strlit("break");
            reveal_strlit("break_");
            let m = choose|m: int|
                in_span(t, m, i) && in_span(t, m, i + 4) && break_in(
                    t,
                    (#[trigger] script::spans(t)[m]).0,
                    script::spans(t)[m].1,
                    i,
                );
            one_span(t, k, m, i);
            assert forall|j: int| i < j < i + 5 implies !#[trigger] break_at(t, j) by {
                if break_at(t, j) {
                    break_lies(t, j);
                }
            }
            assert forall|j: int| i < j < i + 4 implies !#[trigger] break_at(t, j - 4) by {
                if break_at(t, j - 4) {
                    break_lies(t, j - 4);
                }
            }
            span_becomes(t, k, i + 5);
            let rest = outcome(t, i + 5, b);
            assert(!break_at(t, i + 1 - 4) && !break_at(t, i + 2 - 4) && !break_at(t, i + 3 - 4));
            assert(break_at(t, i + 4 - 4));
            assert(becomes(t, i) =~= seq!['b']);
            assert(becomes(t, i + 1) =~= seq!['r']);
            assert(becomes(t, i + 2) =~= seq!['e']);
            assert(becomes(t, i + 3) =~= seq!['a']);
            assert(becomes(t, i + 4) =~= seq!['k', '_']);
            assert(outcome(t, i + 4, b) =~= seq!['k', '_'] + rest);
            assert(outcome(t, i + 3, b) =~= seq!['a', 'k', '_'] + rest);
            assert(outcome(t, i + 2, b) =~= seq!['e', 'a', 'k', '_'] + rest);
            assert(outcome(t, i + 1, b) =~= seq!['r', 'e', 'a', 'k', '_'] + rest);
            assert(outcome(t, i, b) =~= "break_"@ + rest);
            let tail = counted(t, i + 5, b);
            assert(counted(t, i + 4, b) == tail);
            assert(counted(t, i + 3, b) == tail);
            assert(counted(t, i + 2, b) == tail);
            assert(counted(t, i + 1, b) == tail);
        } else {
            span_becomes(t, k, i + 1);
        }
    }
}

/// Outside the code everything stays.
proof fn quiet_stays(t: Seq<char>, i: int, j: int)
    requires
        0 <= i <= j <= t.len(),
        forall|x: int| i <= x < j ==> !#[trigger] in_code(t, x),
    ensures
        outcome(t, i, j) == t.subrange(i, j),
        counted(t, i, j) == (0nat, 0nat),
    decreases j - i,
{
    if i < j {
        quiet_stays(t, i + 1, j);
        assert(!in_code(t, i));
        if break_at(t, i) {
            break_lies(t, i);
            assert(in_code(t, i));
        }
        if break_at(t, i - 4) {
            break_lies(t, i - 4);
            assert(in_code(t, i));
        }
        assert(t.subrange(i, j) =~= seq![t[i]] + t.subrange(i + 1, j));
    } else {
        assert(t.subrange(i, j) =~= seq![]);
    }
}

proof fn outcome_joins(t: Seq<char>, i: int, j: int, k: int)
    requires
        i <= j <= k,
    ensures
        outcome(t, i, k) == outcome(t, i, j) + outcome(t, j, k),
        counted(t, i, k).0 == counted(t, i, j).0 + counted(t, j, k).0,
        counted(t, i, k).1 == counted(t, i, j).1 + counted(t, j, k).1,
    decreases j - i,
{
    if i < j {
        outcome_joins(t, i + 1, j, k);
        assert(outcome(t, i, k) =~= outcome(t, i, j) + outcome(t, j, k));
    } else {
        assert(outcome(t, i, k) =~= outcome(t, i, j) + outcome(t, j, k));
    }
}

proof fn between_spans(t: Seq<char>, k: int, x: int)
    requires
        0 <= k < script::spans(t).len(),
        (k == 0 && 0 <= x) || (k > 0 && script::spans(t)[k - 1].1 <= x),
        x < script::spans(t)[k].0,
    ensures
        !in_code(t, x),
{
    script::spans_ordered(t);
    let all = script::spans(t);
    if in_code(t, x) {
        let m = choose|m: int| in_span(t, m, x);
        if m < k - 1 {
            assert(all[m].1 <= all[k - 1].0);
        } else if m > k {
            assert(all[k].1 <= all[m].0);
        }
    }
}

proof fn rest_becomes(t: Seq<char>, k: int, last: int)
    requires
        0 <= k <= script::spans(t).len(),
        last == (if k == 0 {
            0
        } else {
            script::spans(t)[k - 1].1
        }),
    ensures
        script::modern_from(t, script::spans(t), k, last) == (script::Modern {
            text: outcome(t, last, t.len() as int),
            upvalues: counted(t, last, t.len() as int).0,
            breaks: counted(t, last, t.len() as int).1,
        }),
    decreases script::spans(t).len() - k,
{
    let all = script::spans(t);
    let n = t.len() as int;
    script::spans_ordered(t);
    code_is_what_is_not_quiet(t);
    if k == all.len() {
        assert(all.last() == all[k - 1]);
        assert(t.subrange(last, n) =~= seq![]);
    } else {
        let (a, b) = all[k];
        assert(last <= a <= b <= n) by {
            if k > 0 {
                assert(all[k - 1].1 <= all[k].0);
            }
        }
        assert(0 <= last) by {
            if k > 1 {
                assert(all[0].1 <= all[k - 1].0);
            }
        }
        assert forall|x: int| last <= x < a implies !#[trigger] in_code(t, x) by {
            between_spans(t, k, x);
        }
        quiet_stays(t, last, a);
        span_becomes(t, k, a);
        rest_becomes(t, k + 1, b);
        outcome_joins(t, last, a, b);
        outcome_joins(t, last, b, n);
    }
}

/// The places of the sigils from `i` to `j`.
pub open spec fn sigils(t: Seq<char>, i: int, j: int) -> Set<int> {
    Set::new(|x: int| i <= x < j && sigil(t, x))
}

/// The places of the variables named `break` from `i` to `j`.
pub open spec fn breaks(t: Seq<char>, i: int, j: int) -> Set<int> {
    Set::new(|x: int| i <= x < j && break_at(t, x))
}

proof fn counted_by_place(t: Seq<char>, i: int, j: int)
    requires
        i <= j,
    ensures
        sigils(t, i, j).finite(),
        breaks(t, i, j).finite(),
        counted(t, i, j).0 == sigils(t, i, j).len(),
        counted(t, i, j).1 == breaks(t, i, j).len(),
    decreases j - i,
{
    if i < j {
        counted_by_place(t, i + 1, j);
        if sigil(t, i) {
            assert(sigils(t, i, j) =~= sigils(t, i + 1, j).insert(i));
        } else {
            assert(sigils(t, i, j) =~= sigils(t, i + 1, j));
        }
        if break_at(t, i) {
            assert(breaks(t, i, j) =~= breaks(t, i + 1, j).insert(i));
        } else {
            assert(breaks(t, i, j) =~= breaks(t, i + 1, j));
        }
    } else {
        assert(sigils(t, i, j) =~= Set::empty());
        assert(breaks(t, i, j) =~= Set::empty());
    }
}

/// A script comes out as what becomes of each of its characters, one behind the
/// other: every percent sign in the code directly before a letter or an
/// underscore is gone, whatever stands before it; every variable named `break`
/// has an underscore behind it; and every other character is what it was and
/// where it was. What is counted is how many places there are of the two.
pub proof fn every_character_becomes_what_it_should(t: Seq<char>)
    ensures
        script::modern(t).text == outcome(t, 0, t.len() as int),
        sigils(t, 0, t.len() as int).finite(),
        script::modern(t).upvalues == sigils(t, 0, t.len() as int).len(),
        breaks(t, 0, t.len() as int).finite(),
        script::modern(t).breaks == breaks(t, 0, t.len() as int).len(),
{
    rest_becomes(t, 0, 0);
    counted_by_place(t, 0, t.len() as int);
}

/// For every place of a percent sign in the code that stands directly before a
/// letter or an underscore: what comes out is what becomes of the text before
/// it and what becomes of the text behind it, with nothing in between, and it
/// is counted.
pub proof fn a_sigil_leaves_nothing(t: Seq<char>, i: int)
    requires
        in_code(t, i),
        t[i] == '%',
        i + 1 < t.len(),
        'a' <= t[i + 1] <= 'z' || 'A' <= t[i + 1] <= 'Z' || t[i + 1] == '_',
    ensures
        script::modern(t).text == outcome(t, 0, i) + outcome(t, i + 1, t.len() as int),
        script::modern(t).upvalues > 0,
{
    every_character_becomes_what_it_should(t);
    code_is_what_is_not_quiet(t);
    let n = t.len() as int;
    outcome_joins(t, 0, i, n);
    assert(outcome(t, i, n) =~= outcome(t, i + 1, n));
    assert(sigils(t, 0, n).contains(i));
}

} // verus!
