//! What the program is asked to do.
use crate::order;
use crate::text;
use vstd::prelude::*;

verus! {

/// Does an argument stand at `i`?
pub open spec fn is_arg(args: Seq<String>, flag: Seq<char>, i: int) -> bool {
    0 <= i < args.len() && args[i]@ == flag
}

/// Is `i` the first place of an argument?
pub open spec fn first_arg(args: Seq<String>, flag: Seq<char>, i: int) -> bool {
    is_arg(args, flag, i) && forall|j: int| 0 <= j < i ==> !is_arg(args, flag, j)
}

/// Where an argument stands first.
pub fn position(args: &Vec<String>, flag: &str) -> (r: Option<usize>)
    ensures
        match r {
            Some(i) => first_arg(args@, flag@, i as int),
            None => forall|i: int| !is_arg(args@, flag@, i),
        },
{
    let n: usize = args.len();
    let mut i: usize = 0;
    while i < n
        invariant
            n == args@.len(),
            i <= n,
            forall|j: int| 0 <= j < i ==> !is_arg(args@, flag@, j),
        decreases n - i,
    {
        if same(args[i].as_str(), flag) {
            return Some(i);
        }
        i += 1;
    }
    None
}

fn same(a: &str, b: &str) -> (r: bool)
    ensures
        r == (a@ == b@),
{
    let r: bool = order::text_before(a, b) && order::text_before(b, a);
    proof {
        if r {
            order::text_antisymmetric(a@, b@);
        }
        order::text_total(a@, a@);
    }
    r
}

/// Is an argument given at all?
pub fn flag(args: &Vec<String>, name: &str) -> (r: bool)
    ensures
        r == exists|i: int| is_arg(args@, name@, i),
{
    match position(args, name) {
        Some(i) => {
            assert(is_arg(args@, name@, i as int));
            true
        },
        None => false,
    }
}

/// The text behind an argument.
pub open spec fn value_of(args: Seq<String>, flag: Seq<char>) -> Option<Seq<char>> {
    if exists|i: int| first_arg(args, flag, i) {
        let i = choose|i: int| first_arg(args, flag, i);
        if i + 1 < args.len() {
            Some(args[i + 1]@)
        } else {
            None
        }
    } else {
        None
    }
}

/// The text behind an argument, where it is given and anything is behind it.
pub fn value<'a>(args: &'a Vec<String>, flag: &str) -> (r: Option<&'a str>)
    ensures
        match r {
            Some(v) => value_of(args@, flag@) == Some(v@),
            None => value_of(args@, flag@) is None,
        },
{
    match position(args, flag) {
        None => {
            assert forall|i: int| !first_arg(args@, flag@, i) by {
                assert(!is_arg(args@, flag@, i));
            }
            None
        },
        Some(i) => {
            proof {
                let c = choose|c: int| first_arg(args@, flag@, c);
                assert(first_arg(args@, flag@, i as int));
                if c < i {
                    assert(!is_arg(args@, flag@, c));
                } else if i < c {
                    assert(!is_arg(args@, flag@, i as int));
                }
            }
            if i < args.len() - 1 {
                Some(args[i + 1].as_str())
            } else {
                None
            }
        },
    }
}

/// The number that is expected of something: what stands behind an argument,
/// where that is a number that fits.
pub open spec fn expected_of(args: Seq<String>, flag: Seq<char>) -> Option<usize> {
    match value_of(args, flag) {
        Some(v) => match text::natural(v) {
            Some(n) => if n <= usize::MAX {
                Some(n as usize)
            } else {
                None
            },
            None => None,
        },
        None => None,
    }
}

/// The number behind an argument.
pub fn expect_flag(args: &Vec<String>, flag: &str) -> (r: Option<usize>)
    ensures
        r == expected_of(args@, flag@),
{
    match value(args, flag) {
        Some(v) => text::parse_usize(v),
        None => None,
    }
}

/// The number behind `--expect`.
pub fn args_expect(args: &Vec<String>) -> (r: Option<usize>)
    ensures
        r == expected_of(args@, "--expect"@),
{
    expect_flag(args, "--expect")
}

/// Does a text begin with two dashes?
pub open spec fn dashed(s: Seq<char>) -> bool {
    s.len() >= 2 && s[0] == '-' && s[1] == '-'
}

/// Is the argument at `i` the directory of the game: no flag, no number where
/// numbers are positional, and not the value of a flag that takes one?
pub open spec fn is_root(
    args: Seq<String>,
    numeric: Seq<bool>,
    takes: Seq<String>,
    i: int,
) -> bool {
    &&& 0 <= i < args.len()
    &&& !dashed(args[i]@)
    &&& !numeric[i]
    &&& i > 0 ==> forall|k: int| 0 <= k < takes.len() ==> (#[trigger] takes[k])@ != args[i - 1]@
}

/// Which argument is the directory of the game: the first that can be.
/// `numeric` says of each argument whether it is a number where numbers are
/// positional, and `takes` are the arguments that take a value.
pub fn root(args: &Vec<String>, numeric: &Vec<bool>, takes: &Vec<String>) -> (r: Option<usize>)
    requires
        numeric@.len() == args@.len(),
    ensures
        match r {
            Some(i) => {
                &&& is_root(args@, numeric@, takes@, i as int)
                &&& forall|j: int| 0 <= j < i ==> !is_root(args@, numeric@, takes@, j)
            },
            None => forall|j: int| !is_root(args@, numeric@, takes@, j),
        },
{
    let n: usize = args.len();
    let mut i: usize = 0;
    while i < n
        invariant
            n == args@.len(),
            numeric@.len() == n,
            i <= n,
            forall|j: int| 0 <= j < i ==> !is_root(args@, numeric@, takes@, j),
        decreases n - i,
    {
        let c = text::chars_of(args[i].as_str());
        let dash: bool = c.len() >= 2 && c[0] == '-' && c[1] == '-';
        if !dash && !numeric[i] {
            let mut taken: bool = false;
            if i > 0 {
                let m: usize = takes.len();
                let mut k: usize = 0;
                while k < m
                    invariant
                        m == takes@.len(),
                        k <= m,
                        0 < i < n,
                        n == args@.len(),
                        taken <==> exists|x: int|
                            0 <= x < k && (#[trigger] takes@[x])@ == args@[i - 1]@,
                    decreases m - k,
                {
                    if takes[k] == args[i - 1] {
                        taken = true;
                        assert(takes@[k as int]@ == args@[i - 1]@);
                    }
                    k += 1;
                }
            }
            if !taken {
                return Some(i);
            }
        }
        i += 1;
    }
    None
}

/// What is said where something was expected and something else was found.
pub open spec fn complaint(got: nat, what: Seq<char>, want: nat) -> Seq<char> {
    text::numeral(got) + " "@ + what + ", expected "@ + text::numeral(want)
}

/// Hold what was found against what was expected, where anything was: the
/// complaint.
pub fn check(got: usize, what: &str, want: Option<usize>) -> (r: Option<String>)
    ensures
        match r {
            Some(s) => want matches Some(w) && got != w && s@ == complaint(
                got as nat,
                what@,
                w as nat,
            ),
            None => want matches Some(w) ==> got == w,
        },
{
    match want {
        Some(w) => {
            if got == w {
                return None;
            }
            let mut s: String = text::decimal(got);
            s.append(" ");
            s.append(what);
            s.append(", expected ");
            let n = text::decimal(w);
            s.append(n.as_str());
            Some(s)
        },
        None => None,
    }
}

/// The checkpoints that a level is started at: the one that was asked for, or
/// all it has, in order and each once, or the first where it has none.
pub fn starts(asked: u32, found: Vec<u32>) -> (out: Vec<u32>)
    ensures
        asked > 0 ==> out@ == seq![asked],
        asked == 0 && found@.len() == 0 ==> out@ == seq![1u32],
        asked == 0 && found@.len() > 0 ==> {
            &&& forall|i: int, j: int| 0 <= i < j < out@.len() ==> out@[i] < out@[j]
            &&& forall|x: u32| #[trigger] out@.contains(x) <==> found@.contains(x)
        },
{
    if asked > 0 {
        let mut out: Vec<u32> = Vec::new();
        out.push(asked);
        assert(out@ =~= seq![asked]);
        return out;
    }
    if found.len() == 0 {
        let mut out: Vec<u32> = Vec::new();
        out.push(1);
        assert(out@ =~= seq![1u32]);
        return out;
    }
    order::sorted_once(found)
}

/// What the program does.
#[derive(Clone, Copy, Debug, PartialEq, Eq, Structural)]
pub enum Task {
    /// Draw a triangle and check it. This needs no game.
    Triangle,
    /// Start levels.
    Boot,
    /// Play a recording back.
    Demo,
    /// Start a level and run it.
    Run,
    /// Start a level and draw it from a checkpoint.
    Play,
    /// Draw a level.
    Level,
    /// Show a window.
    Window,
    Textures,
    Models,
    Trees,
    Scripts,
    Objects,
    Sounds,
    /// Say what the installation holds.
    Survey,
}

/// Is an argument given?
pub open spec fn given(args: Seq<String>, flag: Seq<char>) -> bool {
    exists|i: int| is_arg(args, flag, i)
}

pub open spec fn task_of(args: Seq<String>) -> Task {
    if given(args, "--triangle"@) {
        Task::Triangle
    } else if given(args, "--boot"@) {
        Task::Boot
    } else if given(args, "--demo"@) {
        Task::Demo
    } else if given(args, "--run"@) {
        Task::Run
    } else if given(args, "--play"@) {
        Task::Play
    } else if given(args, "--level"@) {
        Task::Level
    } else if given(args, "--window"@) {
        Task::Window
    } else if given(args, "--tex"@) {
        Task::Textures
    } else if given(args, "--mod"@) {
        Task::Models
    } else if given(args, "--bsp"@) {
        Task::Trees
    } else if given(args, "--lua"@) {
        Task::Scripts
    } else if given(args, "--scene"@) {
        Task::Objects
    } else if given(args, "--wav"@) {
        Task::Sounds
    } else {
        Task::Survey
    }
}

/// What the program is asked to do. Where it is asked for more than one thing
/// it does the first of these.
pub fn task(args: &Vec<String>) -> (t: Task)
    ensures
        t == task_of(args@),
{
    if flag(args, "--triangle") {
        Task::Triangle
    } else if flag(args, "--boot") {
        Task::Boot
    } else if flag(args, "--demo") {
        Task::Demo
    } else if flag(args, "--run") {
        Task::Run
    } else if flag(args, "--play") {
        Task::Play
    } else if flag(args, "--level") {
        Task::Level
    } else if flag(args, "--window") {
        Task::Window
    } else if flag(args, "--tex") {
        Task::Textures
    } else if flag(args, "--mod") {
        Task::Models
    } else if flag(args, "--bsp") {
        Task::Trees
    } else if flag(args, "--lua") {
        Task::Scripts
    } else if flag(args, "--scene") {
        Task::Objects
    } else if flag(args, "--wav") {
        Task::Sounds
    } else {
        Task::Survey
    }
}

/// The value of an argument is what stands behind the first place of it; an
/// argument at the very end has none, and neither has one that is not given.
pub proof fn a_value_stands_behind_its_argument(args: Seq<String>, flag: Seq<char>, i: int)
    ensures
        0 <= i < args.len() - 1 && args[i]@ == flag && (forall|j: int|
            0 <= j < i ==> (#[trigger] args[j])@ != flag) ==> value_of(args, flag) == Some(
            args[i + 1]@,
        ),
        i == args.len() - 1 && 0 <= i && args[i]@ == flag && (forall|j: int|
            0 <= j < i ==> (#[trigger] args[j])@ != flag) ==> value_of(args, flag) is None,
        (forall|j: int| 0 <= j < args.len() ==> (#[trigger] args[j])@ != flag) ==> value_of(
            args,
            flag,
        ) is None,
{
    if 0 <= i < args.len() && args[i]@ == flag && (forall|j: int|
        0 <= j < i ==> (#[trigger] args[j])@ != flag) {
        assert(first_arg(args, flag, i));
        let c = choose|c: int| first_arg(args, flag, c);
        if c < i {
            assert(args[c]@ != flag);
        } else if i < c {
            assert(!is_arg(args, flag, i));
        }
    }
    if forall|j: int| 0 <= j < args.len() ==> (#[trigger] args[j])@ != flag {
        assert forall|k: int| !first_arg(args, flag, k) by {
            if 0 <= k < args.len() {
                assert(args[k]@ != flag);
            }
        }
    }
}

/// What is expected is the number behind the argument, where it is one and
/// fits.
pub proof fn a_number_is_expected_where_one_stands(args: Seq<String>, flag: Seq<char>, n: nat)
    ensures
        value_of(args, flag) == Some(text::numeral(n)) && n <= usize::MAX ==> expected_of(args, flag)
            == Some(n as usize),
        value_of(args, flag) == Some(text::numeral(n)) && n > usize::MAX ==> expected_of(args, flag)
            is None,
        value_of(args, flag) is None ==> expected_of(args, flag) is None,
        value_of(args, flag) matches Some(v) ==> (text::natural(v) is None ==> expected_of(
            args,
            flag,
        ) is None),
{
    text::numerals_read_back(n);
}

/// An argument is the directory of the game if it does not begin with two
/// dashes, is no positional number, and does not stand behind an argument that
/// takes a value; and else it is not.
pub proof fn the_directory_is_no_flag(
    args: Seq<String>,
    numeric: Seq<bool>,
    takes: Seq<String>,
    i: int,
    k: int,
)
    requires
        0 <= i < args.len(),
    ensures
        args[i]@.len() >= 2 && args[i]@[0] == '-' && args[i]@[1] == '-' ==> !is_root(
            args,
            numeric,
            takes,
            i,
        ),
        numeric[i] ==> !is_root(args, numeric, takes, i),
        i > 0 && 0 <= k < takes.len() && takes[k]@ == args[i - 1]@ ==> !is_root(
            args,
            numeric,
            takes,
            i,
        ),
        !(args[i]@.len() >= 2 && args[i]@[0] == '-' && args[i]@[1] == '-') && !numeric[i] && (i == 0
            || forall|x: int|
            0 <= x < takes.len() ==> (#[trigger] takes[x])@ != args[i - 1]@) ==> is_root(
            args,
            numeric,
            takes,
            i,
        ),
{
}

/// The tasks with the arguments that ask for them, in the order in which they
/// are asked.
pub open spec fn tasks() -> Seq<(Seq<char>, Task)> {
    seq![
        ("--triangle"@, Task::Triangle),
        ("--boot"@, Task::Boot),
        ("--demo"@, Task::Demo),
        ("--run"@, Task::Run),
        ("--play"@, Task::Play),
        ("--level"@, Task::Level),
        ("--window"@, Task::Window),
        ("--tex"@, Task::Textures),
        ("--mod"@, Task::Models),
        ("--bsp"@, Task::Trees),
        ("--lua"@, Task::Scripts),
        ("--scene"@, Task::Objects),
        ("--wav"@, Task::Sounds),
    ]
}

/// The program does the first of the tasks that one of its arguments asks for,
/// wherever that stands, and says what the installation holds where none does.
pub proof fn the_first_task_asked_for_is_done(args: Seq<String>, k: int, i: int)
    ensures
        0 <= k < 13 && 0 <= i < args.len() && args[i]@ == tasks()[k].0 && (forall|j: int, m: int|
            0 <= j < k && 0 <= m < args.len() ==> (#[trigger] args[m])@ != (
            #[trigger] tasks()[j]).0) ==> task_of(args) == tasks()[k].1,
        (forall|j: int, m: int|
            0 <= j < 13 && 0 <= m < args.len() ==> (#[trigger] args[m])@ != (
            #[trigger] tasks()[j]).0) ==> task_of(args) == Task::Survey,
{
    let all = tasks();
    if 0 <= k < 13 && 0 <= i < args.len() && args[i]@ == all[k].0 && (forall|j: int, m: int|
        0 <= j < k && 0 <= m < args.len() ==> (#[trigger] args[m])@ != (#[trigger] all[j]).0) {
        assert(is_arg(args, all[k].0, i));
        assert(given(args, all[k].0));
        assert forall|j: int| 0 <= j < k implies !given(args, (#[trigger] all[j]).0) by {
            if given(args, all[j].0) {
                let m = choose|m: int| is_arg(args, all[j].0, m);
                assert(args[m]@ != all[j].0);
            }
        }
        asked_before(args, k);
    }
    if forall|j: int, m: int|
        0 <= j < 13 && 0 <= m < args.len() ==> (#[trigger] args[m])@ != (#[trigger] all[j]).0 {
        assert forall|j: int| 0 <= j < 13 implies !given(args, (#[trigger] all[j]).0) by {
            if given(args, all[j].0) {
                let m = choose|m: int| is_arg(args, all[j].0, m);
                assert(args[m]@ != all[j].0);
            }
        }
        asked_before(args, 13);
    }
}

proof fn asked_before(args: Seq<String>, k: int)
    requires
        0 <= k <= 13,
        forall|j: int| 0 <= j < k ==> !given(args, (#[trigger] tasks()[j]).0),
        k < 13 ==> given(args, tasks()[k].0),
    ensures
        k < 13 ==> task_of(args) == tasks()[k].1,
        k == 13 ==> task_of(args) == Task::Survey,
{
    let all = tasks();
    assert(all[0].0 == "--triangle"@ && all[1].0 == "--boot"@ && all[2].0 == "--demo"@);
    assert(all[3].0 == "--run"@ && all[4].0 == "--play"@ && all[5].0 == "--level"@);
    assert(all[6].0 == "--window"@ && all[7].0 == "--tex"@ && all[8].0 == "--mod"@);
    assert(all[9].0 == "--bsp"@ && all[10].0 == "--lua"@ && all[11].0 == "--scene"@);
    assert(all[12].0 == "--wav"@);
}

/// What is said of a count that was not expected: the count, of what, and what
/// was expected.
pub proof fn a_complaint_names_both_counts(got: nat, what: Seq<char>, want: nat)
    ensures
        complaint(got, what, want) == text::numeral(got) + seq![' '] + what + ", expected "@
            + text::numeral(want),
{
    reveal_strlit(" ");
    assert(" "@ =~= seq![' ']);
}

} // verus!
