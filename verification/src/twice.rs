//! Making a script ready a second time.
//!
//! A script is handed to the interpreter with its variables named `break`
//! renamed. Nothing is left to be renamed in what comes out: the law at the end
//! of this module says so, and the rest of it is the way there.
use crate::script;
use crate::text;
use vstd::prelude::*;

verus! {

// ---------------------------------------------------------------------------
// What stands before a place
// ---------------------------------------------------------------------------
/// The name that the code before `e` ends with, or nothing.
spec fn run(s: Seq<char>, e: int) -> Seq<char>
    decreases e,
{
    if 0 < e <= s.len() && script::name_char(s[e - 1]) {
        run(s, e - 1).push(s[e - 1])
    } else {
        seq![]
    }
}

/// The name that the code before `i` ends with, white space aside.
spec fn last_run(s: Seq<char>, i: int) -> Seq<char> {
    run(s, text::trimmed_end(s, i))
}

/// The character that the code before `i` ends with, white space aside.
spec fn last_char(s: Seq<char>, i: int) -> Option<char> {
    let e = text::trimmed_end(s, i);
    if 0 < e <= s.len() {
        Some(s[e - 1])
    } else {
        None
    }
}

proof fn trimmed_in(s: Seq<char>, i: int)
    requires
        0 <= i <= s.len(),
    ensures
        0 <= text::trimmed_end(s, i) <= i,
    decreases i,
{
    if 0 < i && text::white(s[i - 1]) {
        trimmed_in(s, i - 1);
    }
}

/// The code before `e` ends with a word exactly if that is the name it ends
/// with.
proof fn run_is(s: Seq<char>, e: int, w: Seq<char>)
    requires
        0 <= e <= s.len(),
        forall|k: int| 0 <= k < w.len() ==> script::name_char(#[trigger] w[k]),
    ensures
        run(s, e) == w <==> text::stands_at(s.take(e), e - w.len(), w) && (e - w.len() == 0
            || !script::name_char(s[e - w.len() - 1])),
    decreases w.len(),
{
    let a = e - w.len();
    if w.len() == 0 {
        assert(s.take(e).subrange(e, e) =~= w);
        assert(w =~= Seq::<char>::empty());
    } else if e == 0 || !script::name_char(s[e - 1]) {
        if text::stands_at(s.take(e), a, w) {
            assert(s.take(e).subrange(a, e)[w.len() - 1] == s[e - 1]);
        }
    } else {
        let rest = w.drop_last();
        run_is(s, e - 1, rest);
        assert(w =~= rest.push(w.last()));
        if run(s, e) == w {
            assert(run(s, e).drop_last() =~= run(s, e - 1));
            assert(run(s, e).last() == s[e - 1]);
            assert(s.take(e).subrange(a, e) =~= s.take(e - 1).subrange(a, e - 1).push(s[e - 1]));
            assert(s.take(e).subrange(a, e) =~= w);
        }
        if text::stands_at(s.take(e), a, w) {
            assert(s.take(e).subrange(a, e).last() == s[e - 1]);
            assert(s.take(e).subrange(a, e).drop_last() =~= s.take(e - 1).subrange(a, e - 1));
            assert(text::stands_at(s.take(e - 1), a, rest));
            assert(run(s, e) == run(s, e - 1).push(s[e - 1]));
        }
    }
}

proof fn after_one(s: Seq<char>, i: int, c: char, p: Seq<char>)
    requires
        0 <= i <= s.len(),
        p == seq![c],
    ensures
        script::after(s, i, p) <==> last_char(s, i) == Some(c),
{
    trimmed_in(s, i);
    let e = text::trimmed_end(s, i);
    if e > 0 {
        assert(s.take(e).subrange(e - 1, e) =~= seq![s[e - 1]]);
        assert(seq![s[e - 1]][0] == s[e - 1]);
        assert(p[0] == c);
    }
}

/// Whether a place is one that something is declared at shows in the name and in
/// the character before it.
proof fn declared_by(s: Seq<char>, i: int)
    requires
        0 <= i <= s.len(),
    ensures
        script::declared(s, i) <==> {
            ||| last_run(s, i) == "local"@
            ||| last_run(s, i) == "not"@
            ||| last_run(s, i) == "and"@
            ||| last_run(s, i) == "or"@
            ||| last_char(s, i) == Some('(')
            ||| last_char(s, i) == Some(',')
            ||| last_char(s, i) == Some('=')
        },
{
    reveal_strlit("local");
    reveal_strlit("not");
    reveal_strlit("and");
    reveal_strlit("or");
    reveal_strlit("(");
    reveal_strlit(",");
    reveal_strlit("=");
    trimmed_in(s, i);
    let e = text::trimmed_end(s, i);
    run_is(s, e, "local"@);
    run_is(s, e, "not"@);
    run_is(s, e, "and"@);
    run_is(s, e, "or"@);
    assert("("@ =~= seq!['(']);
    assert(","@ =~= seq![',']);
    assert("="@ =~= seq!['=']);
    after_one(s, i, '(', "("@);
    after_one(s, i, ',', ","@);
    after_one(s, i, '=', "="@);
}

spec fn same_run(a: Seq<char>, b: Seq<char>) -> bool {
    a == b || (a == "break"@ && b == "break_"@)
}

spec fn same_char(a: Option<char>, b: Option<char>) -> bool {
    a == b || (a == Some('k') && b == Some('_'))
}

/// Does what stands before `m` in `v` look like what stands before `i` in `s`,
/// but for a variable that was renamed?
spec fn alike(s: Seq<char>, i: int, v: Seq<char>, m: int) -> bool {
    &&& 0 <= i <= s.len()
    &&& 0 <= m <= v.len()
    &&& i == 0 <==> m == 0
    &&& i > 0 ==> script::name_char(s[i - 1]) == script::name_char(v[m - 1])
    &&& same_run(run(s, i), run(v, m))
    &&& run(s, i) != run(v, m) ==> i >= s.len() || !script::name_char(s[i])
    &&& same_run(last_run(s, i), last_run(v, m))
    &&& same_char(last_char(s, i), last_char(v, m))
}

proof fn alike_declared(s: Seq<char>, i: int, v: Seq<char>, m: int)
    requires
        alike(s, i, v, m),
    ensures
        script::declared(s, i) == script::declared(v, m),
{
    declared_by(s, i);
    declared_by(v, m);
    reveal_strlit("break");
    reveal_strlit("break_");
    reveal_strlit("local");
    reveal_strlit("not");
    reveal_strlit("and");
    reveal_strlit("or");
    assert("break"@[0] == 'b' && "local"@[0] == 'l');
}

proof fn alike_copy(s: Seq<char>, i: int, v: Seq<char>, m: int)
    requires
        alike(s, i, v, m),
        i < s.len(),
        m < v.len(),
        s[i] == v[m],
    ensures
        alike(s, i + 1, v, m + 1),
{
    let c = s[i];
    trimmed_in(s, i);
    trimmed_in(v, m);
    if script::name_char(c) {
        assert(!text::white(c));
        assert(run(s, i + 1) == run(s, i).push(c));
        assert(run(v, m + 1) == run(v, m).push(c));
    } else {
        assert(run(s, i + 1) == Seq::<char>::empty());
        assert(run(v, m + 1) == Seq::<char>::empty());
    }
}

proof fn alike_rename(s: Seq<char>, i: int, v: Seq<char>, m: int)
    requires
        alike(s, i, v, m),
        script::variable_at(s, i),
        m + 6 <= v.len(),
        v.subrange(m, m + 6) == "break_"@,
    ensures
        alike(s, i + 5, v, m + 6),
{
    reveal_strlit("break");
    reveal_strlit("break_");
    let (w, x) = ("break"@, "break_"@);
    assert(s.subrange(i, i + 5) == w);
    assert(s.subrange(i, i + 5)[4] == s[i + 4]);
    assert(v.subrange(m, m + 6)[5] == v[m + 5]);
    assert(s.take(i + 5).subrange(i, i + 5) =~= w);
    assert(v.take(m + 6).subrange(m, m + 6) =~= x);
    run_is(s, i + 5, w);
    run_is(v, m + 6, x);
    assert(run(s, i + 5) == w);
    assert(run(v, m + 6) == x);
    assert(!text::white('k') && !text::white('_'));
    assert(text::trimmed_end(s, i + 5) == i + 5);
    assert(text::trimmed_end(v, m + 6) == m + 6);
}

// ---------------------------------------------------------------------------
// What stands behind a place
// ---------------------------------------------------------------------------
/// Is what `v` holds from `m` on what becomes of `s` from `i` on?
spec fn rest(s: Seq<char>, i: int, v: Seq<char>, m: int) -> bool {
    &&& 0 <= i <= s.len()
    &&& 0 <= m <= v.len()
    &&& v.skip(m) == script::rewritten_from(s, i).text
    &&& !s.contains('%')
}

proof fn no_sigil(s: Seq<char>, i: int)
    requires
        !s.contains('%'),
        0 <= i < s.len(),
    ensures
        s[i] != '%',
        !script::upvalue_at(s, i),
{
    assert(s.contains(s[i]));
}

proof fn rest_copy(s: Seq<char>, i: int, v: Seq<char>, m: int)
    requires
        rest(s, i, v, m),
        i < s.len(),
        !script::variable_at(s, i),
    ensures
        m < v.len(),
        v[m] == s[i],
        rest(s, i + 1, v, m + 1),
{
    no_sigil(s, i);
    let more = script::rewritten_from(s, i + 1).text;
    assert(v.skip(m) == seq![s[i]] + more);
    assert(v.skip(m)[0] == s[i]);
    assert(v.skip(m + 1) =~= v.skip(m).skip(1));
    assert((seq![s[i]] + more).skip(1) =~= more);
}

proof fn rest_rename(s: Seq<char>, i: int, v: Seq<char>, m: int)
    requires
        rest(s, i, v, m),
        i < s.len(),
        script::variable_at(s, i),
    ensures
        i + 5 <= s.len(),
        s[i] == 'b',
        m + 6 <= v.len(),
        v.subrange(m, m + 6) == "break_"@,
        rest(s, i + 5, v, m + 6),
{
    no_sigil(s, i);
    reveal_strlit("break");
    reveal_strlit("break_");
    assert(s.subrange(i, i + 5)[0] == s[i]);
    let more = script::rewritten_from(s, i + 5).text;
    assert(v.skip(m) == "break_"@ + more);
    assert(v.subrange(m, m + 6) =~= v.skip(m).take(6));
    assert(("break_"@ + more).take(6) =~= "break_"@);
    assert(v.skip(m + 6) =~= v.skip(m).skip(6));
    assert(("break_"@ + more).skip(6) =~= more);
}

/// Nothing is taken away, so that what is left begins as it did.
proof fn rest_first(s: Seq<char>, i: int, v: Seq<char>, m: int)
    requires
        rest(s, i, v, m),
    ensures
        i < s.len() <==> m < v.len(),
        i < s.len() ==> v[m] == s[i],
{
    if i < s.len() {
        if script::variable_at(s, i) {
            rest_rename(s, i, v, m);
            reveal_strlit("break_");
            assert(v.subrange(m, m + 6)[0] == v[m]);
        } else {
            rest_copy(s, i, v, m);
        }
    } else {
        assert(v.skip(m).len() == 0);
    }
}

proof fn not_b(s: Seq<char>, i: int)
    requires
        0 <= i < s.len(),
        s[i] != 'b',
    ensures
        !script::variable_at(s, i),
{
    reveal_strlit("break");
    if script::variable_at(s, i) {
        assert(s.subrange(i, i + 5)[0] == s[i]);
    }
}

proof fn rest_white(s: Seq<char>, i: int, v: Seq<char>, m: int)
    requires
        rest(s, i, v, m),
    ensures
        rest(s, text::skip_white(s, i), v, text::skip_white(v, m)),
    decreases s.len() - i,
{
    rest_first(s, i, v, m);
    if i < s.len() && text::white(s[i]) {
        assert(!text::white('b'));
        not_b(s, i);
        rest_copy(s, i, v, m);
        rest_white(s, i + 1, v, m + 1);
    }
}

proof fn before_one(s: Seq<char>, a: int, c: char, p: Seq<char>)
    requires
        0 <= a <= s.len(),
        p == seq![c],
    ensures
        text::stands_at(s, a, p) <==> a < s.len() && s[a] == c,
{
    if a < s.len() {
        assert(s.subrange(a, a + 1) =~= seq![s[a]]);
        assert(seq![s[a]][0] == s[a]);
        assert(p[0] == c);
    }
}

proof fn before_two(s: Seq<char>, a: int)
    requires
        0 <= a <= s.len(),
    ensures
        text::stands_at(s, a, "=="@) <==> a + 1 < s.len() && s[a] == '=' && s[a + 1] == '=',
{
    reveal_strlit("==");
    if a + 1 < s.len() {
        assert(s.subrange(a, a + 2)[0] == s[a] && s.subrange(a, a + 2)[1] == s[a + 1]);
        if s[a] == '=' && s[a + 1] == '=' {
            assert(s.subrange(a, a + 2) =~= "=="@);
        }
    }
}

proof fn rest_used(s: Seq<char>, i: int, v: Seq<char>, m: int)
    requires
        rest(s, i, v, m),
    ensures
        script::used(s, i) == script::used(v, m),
{
    rest_white(s, i, v, m);
    let (a, b) = (text::skip_white(s, i), text::skip_white(v, m));
    rest_first(s, a, v, b);
    reveal_strlit("=");
    reveal_strlit(",");
    reveal_strlit(")");
    assert("="@ =~= seq!['=']);
    assert(","@ =~= seq![',']);
    assert(")"@ =~= seq![')']);
    before_one(s, a, '=', "="@);
    before_one(s, a, ',', ","@);
    before_one(s, a, ')', ")"@);
    before_one(v, b, '=', "="@);
    before_one(v, b, ',', ","@);
    before_one(v, b, ')', ")"@);
    before_two(s, a);
    before_two(v, b);
    if a < s.len() && s[a] == '=' {
        not_b(s, a);
        rest_copy(s, a, v, b);
        rest_first(s, a + 1, v, b + 1);
    }
}

// ---------------------------------------------------------------------------
// A span of code
// ---------------------------------------------------------------------------
/// What was no variable is none after the rewriting.
proof fn still_no_variable(s: Seq<char>, i: int, v: Seq<char>, m: int)
    requires
        rest(s, i, v, m),
        alike(s, i, v, m),
        i < s.len(),
        !script::variable_at(s, i),
    ensures
        !script::variable_at(v, m),
{
    if script::variable_at(v, m) {
        reveal_strlit("break");
        let w = v.subrange(m, m + 5);
        assert(w == "break"@);
        assert(w[0] == v[m] && w[1] == v[m + 1] && w[2] == v[m + 2] && w[3] == v[m + 3] && w[4]
            == v[m + 4]);
        rest_copy(s, i, v, m);
        rest_first(s, i + 1, v, m + 1);
        not_b(s, i + 1);
        rest_copy(s, i + 1, v, m + 1);
        rest_first(s, i + 2, v, m + 2);
        not_b(s, i + 2);
        rest_copy(s, i + 2, v, m + 2);
        rest_first(s, i + 3, v, m + 3);
        not_b(s, i + 3);
        rest_copy(s, i + 3, v, m + 3);
        rest_first(s, i + 4, v, m + 4);
        not_b(s, i + 4);
        rest_copy(s, i + 4, v, m + 4);
        rest_first(s, i + 5, v, m + 5);
        assert(s.subrange(i, i + 5) =~= "break"@);
        rest_used(s, i + 5, v, m + 5);
        alike_declared(s, i, v, m);
    }
}

proof fn plain_step(v: Seq<char>, m: int)
    requires
        0 <= m < v.len(),
        !script::upvalue_at(v, m),
        !script::variable_at(v, m),
        script::rewritten_from(v, m + 1) == script::Modern::plain(v.skip(m + 1)),
    ensures
        script::rewritten_from(v, m) == script::Modern::plain(v.skip(m)),
{
    assert(seq![v[m]] + v.skip(m + 1) =~= v.skip(m));
}

proof fn plain_again(s: Seq<char>, i: int, v: Seq<char>, m: int)
    requires
        rest(s, i, v, m),
        alike(s, i, v, m),
    ensures
        script::rewritten_from(v, m) == script::Modern::plain(v.skip(m)),
    decreases s.len() - i,
{
    if i >= s.len() {
        rest_first(s, i, v, m);
        assert(v.skip(m) =~= Seq::<char>::empty());
    } else if script::variable_at(s, i) {
        rest_rename(s, i, v, m);
        alike_rename(s, i, v, m);
        plain_again(s, i + 5, v, m + 6);
        reveal_strlit("break_");
        let w = v.subrange(m, m + 6);
        assert(w[0] == v[m] && w[1] == v[m + 1] && w[2] == v[m + 2] && w[3] == v[m + 3] && w[4]
            == v[m + 4] && w[5] == v[m + 5]);
        not_b(v, m + 5);
        plain_step(v, m + 5);
        not_b(v, m + 4);
        plain_step(v, m + 4);
        not_b(v, m + 3);
        plain_step(v, m + 3);
        not_b(v, m + 2);
        plain_step(v, m + 2);
        not_b(v, m + 1);
        plain_step(v, m + 1);
        assert(!script::variable_at(v, m));
        plain_step(v, m);
    } else {
        no_sigil(s, i);
        still_no_variable(s, i, v, m);
        rest_copy(s, i, v, m);
        alike_copy(s, i, v, m);
        plain_again(s, i + 1, v, m + 1);
        plain_step(v, m);
    }
}

/// A span of code that has been rewritten is not rewritten again.
proof fn span_again(s: Seq<char>)
    requires
        !s.contains('%'),
    ensures
        script::rewritten_from(script::rewritten_from(s, 0).text, 0) == script::Modern::plain(
            script::rewritten_from(s, 0).text,
        ),
{
    let v = script::rewritten_from(s, 0).text;
    assert(v.skip(0) =~= v);
    plain_again(s, 0, v, 0);
}

// ---------------------------------------------------------------------------
// The spans
// ---------------------------------------------------------------------------
/// Does a string, a comment or a long bracket open at `k`?
spec fn opens(t: Seq<char>, k: int) -> bool {
    ||| t[k] == '\'' || t[k] == '"'
    ||| script::doubled(t, k, '-')
    ||| script::doubled(t, k, '[')
}

/// Where the next one opens, or the end.
spec fn next_quiet(t: Seq<char>, i: int) -> int
    decreases t.len() - i,
{
    if i >= t.len() {
        t.len() as int
    } else if opens(t, i) {
        i
    } else {
        next_quiet(t, i + 1)
    }
}

proof fn next_quiet_is(t: Seq<char>, i: int)
    requires
        0 <= i <= t.len(),
    ensures
        i <= next_quiet(t, i) <= t.len(),
        forall|k: int| i <= k < next_quiet(t, i) ==> !#[trigger] opens(t, k),
        next_quiet(t, i) < t.len() ==> opens(t, next_quiet(t, i)),
    decreases t.len() - i,
{
    if i < t.len() && !opens(t, i) {
        next_quiet_is(t, i + 1);
    }
}

proof fn next_quiet_at(t: Seq<char>, i: int, n: int)
    requires
        0 <= i <= n <= t.len(),
        forall|k: int| i <= k < n ==> !#[trigger] opens(t, k),
        n < t.len() ==> opens(t, n),
    ensures
        next_quiet(t, i) == n,
    decreases n - i,
{
    if i < n {
        assert(!opens(t, i));
        next_quiet_at(t, i + 1, n);
    }
}

/// Where what opens at `q` ends.
spec fn closes(t: Seq<char>, q: int) -> int {
    script::quiet_end(t, q)->Some_0
}

/// What becomes of the text from `e` on, where a span of code begins.
spec fn pieces(t: Seq<char>, e: int) -> script::Modern
    decreases t.len() - e,
{
    let q = next_quiet(t, e);
    if e < 0 || e > t.len() || q >= t.len() {
        script::rewritten_from(t.subrange(e, t.len() as int), 0)
    } else {
        proof {
            next_quiet_is(t, e);
            script::quiet_end_range(t, q);
        }
        script::rewritten_from(t.subrange(e, q), 0).plus(
            script::Modern::plain(t.subrange(q, closes(t, q))),
        ).plus(pieces(t, closes(t, q)))
    }
}

proof fn spans_by_quiet(t: Seq<char>, i: int, start: int)
    requires
        0 <= start <= i <= t.len(),
    ensures
        ({
            let q = next_quiet(t, i);
            script::spans_from(t, i, start) == if q >= t.len() {
                seq![(start, t.len() as int)]
            } else {
                seq![(start, q)] + script::spans_from(t, closes(t, q), closes(t, q))
            }
        }),
    decreases t.len() - i,
{
    if i < t.len() && !opens(t, i) {
        assert(script::quiet_end(t, i) is None);
        spans_by_quiet(t, i + 1, start);
    }
}

proof fn spans_begin(t: Seq<char>, i: int, start: int)
    requires
        0 <= start <= i <= t.len(),
    ensures
        script::spans_from(t, i, start).len() > 0,
        script::spans_from(t, i, start)[0].0 == start,
{
    spans_by_quiet(t, i, start);
}

proof fn shifted(t: Seq<char>, a: (int, int), more: Seq<(int, int)>, k: int, last: int)
    requires
        0 <= k <= more.len(),
    ensures
        script::modern_from(t, seq![a] + more, k + 1, last) == script::modern_from(
            t,
            more,
            k,
            last,
        ),
    decreases more.len() - k,
{
    if k < more.len() {
        assert((seq![a] + more)[k + 1] == more[k]);
        shifted(t, a, more, k + 1, more[k].1);
    }
}

proof fn made_of_pieces(t: Seq<char>, e: int)
    requires
        0 <= e <= t.len(),
    ensures
        script::modern_from(t, script::spans_from(t, e, e), 0, e) == pieces(t, e),
    decreases t.len() - e,
{
    spans_by_quiet(t, e, e);
    next_quiet_is(t, e);
    let n = t.len() as int;
    let q = next_quiet(t, e);
    let all = script::spans_from(t, e, e);
    if q >= n {
        assert(all[0] == (e, n));
        assert(script::modern_from(t, all, 1, n).text =~= Seq::<char>::empty());
        assert(t.subrange(e, e) =~= Seq::<char>::empty());
        assert(script::modern_from(t, all, 0, e).text =~= pieces(t, e).text);
    } else {
        script::quiet_end_range(t, q);
        let x = closes(t, q);
        let more = script::spans_from(t, x, x);
        spans_begin(t, x, x);
        assert(all[0] == (e, q));
        made_of_pieces(t, x);
        shifted(t, (e, q), more, 0, q);
        let (from_q, from_x) = (
            script::modern_from(t, more, 0, q),
            script::modern_from(t, more, 0, x),
        );
        assert(t.subrange(x, x) =~= Seq::<char>::empty());
        assert(t.subrange(e, e) =~= Seq::<char>::empty());
        assert(from_q.text =~= t.subrange(q, x) + from_x.text);
        assert(script::modern_from(t, all, 0, e).text =~= pieces(t, e).text);
    }
}

/// Nothing opens inside a rewritten span that did not open in it before.
proof fn calm(s: Seq<char>, i: int, v: Seq<char>, m: int, tail: Seq<char>)
    requires
        rest(s, i, v, m),
        forall|k: int| i <= k < s.len() ==> !#[trigger] opens(s + tail, k),
    ensures
        forall|k: int| m <= k < v.len() ==> !#[trigger] opens(v + tail, k),
    decreases s.len() - i,
{
    rest_first(s, i, v, m);
    if i < s.len() {
        if script::variable_at(s, i) {
            rest_rename(s, i, v, m);
            calm(s, i + 5, v, m + 6, tail);
            reveal_strlit("break_");
            let w = v.subrange(m, m + 6);
            assert(w[0] == v[m] && w[1] == v[m + 1] && w[2] == v[m + 2] && w[3] == v[m + 3] && w[4]
                == v[m + 4] && w[5] == v[m + 5]);
            assert forall|k: int| m <= k < v.len() implies !#[trigger] opens(v + tail, k) by {
                if k < m + 6 {
                    assert((v + tail)[k] == v[k]);
                    assert(v[k] == w[k - m]);
                }
            }
        } else {
            rest_copy(s, i, v, m);
            calm(s, i + 1, v, m + 1, tail);
            rest_first(s, i + 1, v, m + 1);
            assert(!opens(s + tail, i));
            assert((s + tail)[i] == s[i] && (v + tail)[m] == v[m]);
            if i + 1 < s.len() {
                assert((s + tail)[i + 1] == s[i + 1] && (v + tail)[m + 1] == v[m + 1]);
            } else if tail.len() > 0 {
                assert((s + tail)[i + 1] == tail[0] && (v + tail)[m + 1] == tail[0]);
            }
            assert(!opens(v + tail, m));
        }
    }
}

proof fn string_moves(t: Seq<char>, j: int, u: Seq<char>, i: int, q: char)
    requires
        0 <= j,
        0 <= i,
        ({
            let x = script::string_end(t, j, q);
            &&& i + (x - j) <= u.len()
            &&& forall|k: int| j <= k < x ==> #[trigger] t[k] == u[i + (k - j)]
            &&& x == t.len() ==> u.len() == i + (x - j)
        }),
    ensures
        script::string_end(u, i, q) == i + (script::string_end(t, j, q) - j),
    decreases t.len() + 1 - j,
{
    script::string_end_range(t, j, q);
    if j < t.len() {
        if t[j] == q {
            assert(t[j] == u[i]);
        } else if t[j] == '\\' {
            script::string_end_range(t, j + 2, q);
            assert(t[j] == u[i]);
            string_moves(t, j + 2, u, i + 2, q);
        } else {
            script::string_end_range(t, j + 1, q);
            assert(t[j] == u[i]);
            string_moves(t, j + 1, u, i + 1, q);
        }
    }
}

proof fn line_moves(t: Seq<char>, j: int, u: Seq<char>, i: int)
    requires
        0 <= j <= t.len(),
        0 <= i,
        ({
            let x = text::first_char(t, '\n', j);
            &&& i + (x - j) <= u.len()
            &&& forall|k: int| j <= k < x ==> #[trigger] t[k] == u[i + (k - j)]
            &&& x < t.len() ==> i + (x - j) < u.len() && u[i + (x - j)] == '\n'
            &&& x == t.len() ==> u.len() == i + (x - j)
        }),
    ensures
        text::first_char(u, '\n', i) == i + (text::first_char(t, '\n', j) - j),
    decreases t.len() - j,
{
    text::first_char_range(t, '\n', j);
    if j < t.len() && t[j] != '\n' {
        text::first_char_range(t, '\n', j + 1);
        assert(t[j] == u[i]);
        line_moves(t, j + 1, u, i + 1);
    }
}

proof fn bracket_moves(t: Seq<char>, j: int, u: Seq<char>, i: int)
    requires
        0 <= j <= t.len(),
        0 <= i,
        ({
            let x = script::bracket_end(t, j);
            &&& i + (x - j) <= u.len()
            &&& forall|k: int| j <= k < x ==> #[trigger] t[k] == u[i + (k - j)]
            &&& x == t.len() ==> u.len() == i + (x - j)
        }),
    ensures
        script::bracket_end(u, i) == i + (script::bracket_end(t, j) - j),
    decreases t.len() - j,
{
    script::bracket_end_range(t, j);
    if j + 1 < t.len() {
        if t[j] == ']' && t[j + 1] == ']' {
            assert(t[j] == u[i] && t[j + 1] == u[i + 1]);
        } else {
            script::bracket_end_range(t, j + 1);
            if j + 2 < t.len() {
                script::bracket_end_range(t, j + 2);
            }
            assert(script::bracket_end(t, j + 1) >= j + 2);
            assert(t[j] == u[i] && t[j + 1] == u[i + 1]);
            bracket_moves(t, j + 1, u, i + 1);
        }
    }
}

/// What is quiet ends where it did, wherever it has been moved to.
proof fn quiet_moves(t: Seq<char>, q: int, u: Seq<char>, p: int)
    requires
        0 <= q < t.len(),
        opens(t, q),
        0 <= p,
        ({
            let x = closes(t, q);
            &&& p + (x - q) <= u.len()
            &&& forall|k: int| q <= k < x ==> #[trigger] t[k] == u[p + (k - q)]
            &&& x < t.len() ==> p + (x - q) < u.len() && u[p + (x - q)] == t[x]
            &&& x == t.len() ==> u.len() == p + (x - q)
        }),
    ensures
        opens(u, p),
        closes(u, p) == p + (closes(t, q) - q),
{
    script::quiet_end_range(t, q);
    let x = closes(t, q);
    assert(t[q] == u[p]);
    if t[q] == '\'' || t[q] == '"' {
        string_moves(t, q + 1, u, p + 1, t[q]);
    } else if script::doubled(t, q, '-') {
        text::first_char_range(t, '\n', q + 2);
        assert(text::first_char(t, '\n', q) == text::first_char(t, '\n', q + 1));
        assert(text::first_char(t, '\n', q + 1) == text::first_char(t, '\n', q + 2));
        assert(t[q + 1] == u[p + 1]);
        line_end(t, q);
        line_moves(t, q, u, p);
    } else {
        script::bracket_end_range(t, q + 1);
        script::bracket_end_range(t, q + 2);
        assert(script::bracket_end(t, q) == script::bracket_end(t, q + 1));
        assert(script::bracket_end(t, q + 1) >= q + 2);
        assert(t[q + 1] == u[p + 1]);
        bracket_moves(t, q, u, p);
    }
}

proof fn line_end(t: Seq<char>, i: int)
    requires
        0 <= i <= t.len(),
    ensures
        text::first_char(t, '\n', i) < t.len() ==> t[text::first_char(t, '\n', i)] == '\n',
    decreases t.len() - i,
{
    if i < t.len() && t[i] != '\n' {
        line_end(t, i + 1);
    }
}

proof fn no_sigil_within(t: Seq<char>, a: int, b: int)
    requires
        !t.contains('%'),
        0 <= a <= b <= t.len(),
    ensures
        !t.subrange(a, b).contains('%'),
{
    if t.subrange(a, b).contains('%') {
        let k = t.subrange(a, b).index_of('%');
        assert(t[a + k] == '%');
    }
}

/// What becomes of a text begins as the text does.
proof fn pieces_first(t: Seq<char>, e: int)
    requires
        0 <= e < t.len(),
        !t.contains('%'),
    ensures
        pieces(t, e).text.len() > 0,
        pieces(t, e).text[0] == t[e],
{
    next_quiet_is(t, e);
    let q = next_quiet(t, e);
    let s = t.subrange(e, q);
    no_sigil_within(t, e, q);
    let v = script::rewritten_from(s, 0).text;
    assert(v.skip(0) =~= v);
    rest_first(s, 0, v, 0);
    if q < t.len() {
        script::quiet_end_range(t, q);
    }
}

proof fn pieces_again(t: Seq<char>, e: int, u: Seq<char>, p: int)
    requires
        !t.contains('%'),
        0 <= e <= t.len(),
        0 <= p <= u.len(),
        u.skip(p) == pieces(t, e).text,
    ensures
        pieces(u, p) == script::Modern::plain(u.skip(p)),
    decreases t.len() - e,
{
    next_quiet_is(t, e);
    let q = next_quiet(t, e);
    let s = t.subrange(e, q);
    no_sigil_within(t, e, q);
    let v = script::rewritten_from(s, 0).text;
    assert(v.skip(0) =~= v);
    span_again(s);
    if q >= t.len() {
        let tail = Seq::<char>::empty();
        assert(s + tail =~= s);
        assert forall|k: int| 0 <= k < s.len() implies !#[trigger] opens(s + tail, k) by {
            assert(!opens(t, e + k));
        }
        calm(s, 0, v, 0, tail);
        assert forall|k: int| p <= k < u.len() implies !#[trigger] opens(u, k) by {
            assert(!opens(v + tail, k - p));
            assert(u.skip(p)[k - p] == u[k]);
            if k + 1 < u.len() {
                assert(u.skip(p)[k + 1 - p] == u[k + 1]);
            }
        }
        next_quiet_at(u, p, u.len() as int);
        assert(u.subrange(p, u.len() as int) =~= v);
    } else {
        script::quiet_end_range(t, q);
        let x = closes(t, q);
        let quiet = t.subrange(q, x);
        let w = pieces(t, x).text;
        assert(u.skip(p) == v + quiet + w);
        assert forall|k: int| 0 <= k < s.len() implies !#[trigger] opens(s + quiet, k) by {
            assert(!opens(t, e + k));
            assert((s + quiet)[k] == t[e + k]);
            assert((s + quiet)[k + 1] == t[e + k + 1]);
        }
        calm(s, 0, v, 0, quiet);
        let a = p + v.len();
        let b = a + quiet.len();
        assert forall|k: int| p <= k < b implies #[trigger] u[k] == (v + quiet)[k - p] by {
            assert(u.skip(p)[k - p] == u[k]);
        }
        assert forall|k: int| p <= k < a implies !#[trigger] opens(u, k) by {
            assert(!opens(v + quiet, k - p));
            assert(u[k] == (v + quiet)[k - p]);
            assert(u[k + 1] == (v + quiet)[k + 1 - p]);
        }
        assert forall|k: int| q <= k < x implies #[trigger] t[k] == u[a + (k - q)] by {
            assert(u[a + (k - q)] == (v + quiet)[a + (k - q) - p]);
            assert(quiet[k - q] == t[k]);
        }
        assert(u.skip(b) =~= u.skip(p).skip(b - p));
        assert(u.skip(b) =~= w);
        if x < t.len() {
            pieces_first(t, x);
            assert(u.skip(b)[0] == u[b]);
        } else {
            assert(next_quiet(t, x) == t.len());
            assert(t.subrange(x, x) =~= Seq::<char>::empty());
            assert(w.len() == 0);
        }
        quiet_moves(t, q, u, a);
        next_quiet_at(u, p, a);
        pieces_again(t, x, u, b);
        assert(u.subrange(p, a) =~= v);
        assert(u.subrange(a, b) =~= quiet);
        assert(v + quiet + u.skip(b) =~= u.skip(p));
        assert(pieces(u, p).text =~= u.skip(p));
    }
}

/// A script without an upvalue sigil that has been made ready is left alone by a
/// second pass: nothing in it is a variable named `break` any more.
pub proof fn a_second_pass_finds_nothing(t: Seq<char>)
    requires
        !t.contains('%'),
    ensures
        script::modern(script::modern(t).text) == script::Modern::plain(script::modern(t).text),
{
    made_of_pieces(t, 0);
    let u = script::modern(t).text;
    made_of_pieces(u, 0);
    assert(u.skip(0) =~= u);
    pieces_again(t, 0, u, 0);
}

} // verus!
