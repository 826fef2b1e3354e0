//! Finding the game and reading it.
//!
//! An installation is a directory with a `data/` directory of containers and,
//! easy to miss, an `override/` directory: a shipped patch that is read before
//! the containers. The rules of the search are here, over the names that the
//! directories and the containers list; the reading itself is the caller's.
use crate::names;
use crate::names::Names;
use crate::order;
use crate::order::Ranked;
use crate::text;
use vstd::prelude::*;

verus! {

/// What a container lists.
pub struct Container {
    pub path: String,
    pub entries: Vec<String>,
}

pub struct Install {
    pub root: String,
    pub containers: Vec<Container>,
    /// The shipped patch, when the installation has one.
    pub override_dir: Option<String>,
}

/// How many entries the first `n` containers list between them.
pub open spec fn entries_in(containers: Seq<Container>, n: int) -> int
    decreases n,
{
    if n <= 0 {
        0
    } else {
        entries_in(containers, n - 1) + containers[n - 1].entries@.len()
    }
}

proof fn entries_in_grows(containers: Seq<Container>, m: int, n: int)
    requires
        0 <= m <= n <= containers.len(),
    ensures
        0 <= entries_in(containers, m) <= entries_in(containers, n),
    decreases n,
{
    if m < n {
        entries_in_grows(containers, m, n - 1);
    } else if n > 0 {
        entries_in_grows(containers, m - 1, n - 1);
    }
}

impl Install {
    /// How many entries all the containers list.
    pub open spec fn total(&self) -> int {
        entries_in(self.containers@, self.containers@.len() as int)
    }

    pub fn entry_count(&self) -> (r: usize)
        requires
            self.total() <= usize::MAX,
        ensures
            r == self.total(),
    {
        let mut sum: usize = 0;
        let mut i: usize = 0;
        while i < self.containers.len()
            invariant
                i <= self.containers@.len(),
                self.total() <= usize::MAX,
                sum == entries_in(self.containers@, i as int),
            decreases self.containers@.len() - i,
        {
            proof {
                entries_in_grows(self.containers@, i + 1, self.containers@.len() as int);
            }
            sum = sum + self.containers[i].entries.len();
            i = i + 1;
        }
        sum
    }
}

// ---------------------------------------------------------------------------
// Which files of `data/` are containers
// ---------------------------------------------------------------------------
/// The last position before `n` that holds `c`, or -1.
pub open spec fn last_char(s: Seq<char>, c: char, n: int) -> int
    decreases n,
{
    if n <= 0 {
        -1
    } else if s[n - 1] == c {
        n - 1
    } else {
        last_char(s, c, n - 1)
    }
}

/// A file is a container when the part of its name behind the last dot is
/// `zip`, in whatever case. A name that is nothing but that part has no such
/// part.
pub open spec fn names_container(name: Seq<char>) -> bool {
    let dot = last_char(name, '.', name.len() as int);
    dot > 0 && text::lowered(name.skip(dot + 1)) == "zip"@
}

/// Is the file of this name, without a directory in front, a container?
pub fn is_container(name: &str) -> (r: bool)
    ensures
        r == names_container(name@),
{
    let s = text::chars_of(name);
    let mut k: usize = s.len();
    while k > 0 && s[k - 1] != '.'
        invariant
            k <= s@.len(),
            last_char(s@, '.', k as int) == last_char(s@, '.', s@.len() as int),
        decreases k,
    {
        k = k - 1;
    }
    if k < 2 {
        return false;
    }
    let mut part: Vec<char> = Vec::new();
    text::append_range(&mut part, s.as_slice(), k, s.len());
    assert(part@ == name@.skip(k as int));
    let extension = text::string_of(part.as_slice());
    text::lowercase(extension.as_str()) == "zip".to_owned()
}

/// The names that are containers, among the first `n`.
pub open spec fn container_names(listing: Seq<String>, n: int) -> Seq<String>
    decreases n,
{
    if n <= 0 {
        seq![]
    } else {
        let rest = container_names(listing, n - 1);
        if names_container(listing[n - 1]@) {
            rest.push(listing[n - 1])
        } else {
            rest
        }
    }
}

/// The containers among the files of `data/`, in the order they are searched
/// in: that of their names. `None` where there is none, which is a directory
/// without a game.
pub fn containers_of(listing: &Vec<String>) -> (r: Option<Vec<String>>)
    ensures
        match r {
            Some(found) => {
                &&& order::in_order(found@)
                &&& found@.len() > 0
                &&& found@.to_multiset() == container_names(
                    listing@,
                    listing@.len() as int,
                ).to_multiset()
            },
            None => container_names(listing@, listing@.len() as int).len() == 0,
        },
{
    let mut found: Vec<String> = Vec::new();
    let mut i: usize = 0;
    while i < listing.len()
        invariant
            i <= listing@.len(),
            found@ == container_names(listing@, i as int),
        decreases listing@.len() - i,
    {
        if is_container(listing[i].as_str()) {
            found.push(listing[i].clone());
        }
        i = i + 1;
    }
    if found.len() == 0 {
        return None;
    }
    let ghost all = found@;
    let out = order::sorted(found);
    proof {
        broadcast use vstd::seq_lib::group_to_multiset_ensures;

        assert(out@.to_multiset().len() == all.to_multiset().len());
    }
    Some(out)
}

// ---------------------------------------------------------------------------
// The shipped patch
// ---------------------------------------------------------------------------
/// The parts of a path, split at each `/`.
pub open spec fn parts_from(s: Seq<char>, i: int) -> Seq<Seq<char>>
    decreases s.len() - i,
{
    if i < 0 || i > s.len() {
        seq![]
    } else {
        let k = text::first_char(s, '/', i);
        if k >= s.len() {
            seq![s.subrange(i, s.len() as int)]
        } else {
            proof {
                text::first_char_range(s, '/', i);
            }
            seq![s.subrange(i, k)] + parts_from(s, k + 1)
        }
    }
}

/// The last part of a path that names something: neither empty nor `.`.
pub open spec fn last_name(parts: Seq<Seq<char>>) -> Option<Seq<char>>
    decreases parts.len(),
{
    if parts.len() == 0 {
        None
    } else if parts.last().len() == 0 || parts.last() == "."@ {
        last_name(parts.drop_last())
    } else if parts.last() == ".."@ {
        None
    } else {
        Some(parts.last())
    }
}

/// The name of the file that a path leads to.
pub open spec fn file_name(path: Seq<char>) -> Option<Seq<char>> {
    last_name(parts_from(path, 0))
}

/// The name of the file that a path leads to, if it leads to one.
pub fn file_name_of(path: &str) -> (r: Option<String>)
    ensures
        match file_name(path@) {
            Some(n) => r matches Some(s) && s@ == n,
            None => r is None,
        },
{
    let s = text::chars_of(path);
    let n: usize = s.len();
    let ghost all = parts_from(s@, 0);
    let ghost mut seen: Seq<Seq<char>> = seq![];
    let mut last: Option<String> = None;
    let mut i: usize = 0;
    let mut more: bool = true;
    proof {
        reveal_strlit("..");
        reveal_strlit(".");
        assert(seen + all == all);
    }
    while more
        invariant
            n == s@.len(),
            i <= n,
            s@ == path@,
            all == parts_from(path@, 0),
            ".."@.len() == 2,
            "."@.len() == 1,
            more ==> seen + parts_from(s@, i as int) == all,
            !more ==> seen == all,
            match last_name(seen) {
                Some(m) => last matches Some(l) && l@ == m,
                None => last is None,
            },
        decreases
            (if more {
                n - i + 1
            } else {
                0
            }),
    {
        let k: usize = text::find_char(s.as_slice(), '/', i);
        let mut part: Vec<char> = Vec::new();
        text::append_range(&mut part, s.as_slice(), i, k);
        let word = text::string_of(part.as_slice());
        assert(word@ == s@.subrange(i as int, k as int));
        let ghost so_far = seen;
        proof {
            seen = seen.push(word@);
            assert(seen.drop_last() == so_far);
        }
        if word == "..".to_owned() {
            last = None;
        } else if part.len() > 0 && !(word == ".".to_owned()) {
            last = Some(word);
        }
        if k == n {
            assert(seen == so_far + seq![s@.subrange(i as int, n as int)]);
            more = false;
        } else {
            proof {
                assert(so_far + (seq![s@.subrange(i as int, k as int)] + parts_from(s@, k + 1))
                    == seen + parts_from(s@, k + 1));
            }
            i = k + 1;
        }
    }
    last
}

/// The first name at or behind `i` that is `want`, case aside.
pub open spec fn first_named(listing: Seq<String>, want: Seq<char>, i: int) -> Option<int>
    decreases listing.len() - i,
{
    if i >= listing.len() {
        None
    } else if text::lowered(listing[i]@) == text::lowered(want) {
        Some(i)
    } else {
        first_named(listing, want, i + 1)
    }
}

/// Which file of a directory stands for the resource `name`. The game spells
/// its own file names inconsistently, so nothing matches by exact case; and of
/// a name with directories in it only the last part counts.
pub fn find_case_insensitively(listing: &Vec<String>, name: &str) -> (r: Option<usize>)
    ensures
        match file_name(name@) {
            Some(want) => match first_named(listing@, want, 0) {
                Some(i) => r == Some(i as usize) && 0 <= i < listing@.len(),
                None => r is None,
            },
            None => r is None,
        },
{
    match file_name_of(name) {
        Some(last) => {
            let want = text::lowercase(last.as_str());
            let mut i: usize = 0;
            while i < listing.len()
                invariant
                    i <= listing@.len(),
                    want@ == text::lowered(last@),
                    file_name(name@) == Some(last@),
                    first_named(listing@, last@, i as int) == first_named(listing@, last@, 0),
                decreases listing@.len() - i,
            {
                if text::lowercase(listing[i].as_str()) == want {
                    return Some(i);
                }
                i = i + 1;
            }
            None
        },
        None => None,
    }
}

/// What came of asking one container for a resource.
#[derive(Clone, Copy, PartialEq, Eq, Structural, Debug)]
pub enum Outcome {
    Found,
    Missing,
    Broken,
}

/// What came of asking all of them.
#[derive(Clone, Copy, PartialEq, Eq, Structural, Debug)]
pub enum Verdict {
    /// This container has it.
    Found(usize),
    /// None has it, and this one could not be read.
    Broken(usize),
    /// None has it.
    Missing,
}

/// The first container that has the resource; failing that, the last that could
/// not be read. One that merely lacks it is passed over.
pub open spec fn verdict_from(outcomes: Seq<Outcome>, i: int, broken: Option<usize>) -> Verdict
    decreases outcomes.len() - i,
{
    if i >= outcomes.len() {
        match broken {
            Some(b) => Verdict::Broken(b),
            None => Verdict::Missing,
        }
    } else {
        match outcomes[i] {
            Outcome::Found => Verdict::Found(i as usize),
            Outcome::Missing => verdict_from(outcomes, i + 1, broken),
            Outcome::Broken => verdict_from(outcomes, i + 1, Some(i as usize)),
        }
    }
}

/// What a search of the containers, in their order, comes to.
pub fn verdict(outcomes: &Vec<Outcome>) -> (r: Verdict)
    ensures
        r == verdict_from(outcomes@, 0, None),
{
    let mut broken: Option<usize> = None;
    let mut i: usize = 0;
    while i < outcomes.len()
        invariant
            i <= outcomes@.len(),
            verdict_from(outcomes@, i as int, broken) == verdict_from(outcomes@, 0, None),
        decreases outcomes@.len() - i,
    {
        match outcomes[i] {
            Outcome::Found => {
                return Verdict::Found(i);
            },
            Outcome::Missing => {},
            Outcome::Broken => {
                broken = Some(i);
            },
        }
        i = i + 1;
    }
    match broken {
        Some(b) => Verdict::Broken(b),
        None => Verdict::Missing,
    }
}

/// Where a resource is read from.
#[derive(Clone, Copy, PartialEq, Eq, Structural, Debug)]
pub enum Source {
    /// The file at this place of the directory of patches.
    Patch(usize),
    /// The containers, as their search came out.
    Packed(Verdict),
}

/// The file of the directory of patches that stands for a resource, by its place
/// in a listing of it.
pub open spec fn patch_for(listing: Seq<String>, name: Seq<char>) -> Option<int> {
    match file_name(name) {
        Some(want) => first_named(listing, want, 0),
        None => None,
    }
}

/// Where a resource is read from: a patch wins over the containers, and where
/// there is none they decide.
pub open spec fn source_of(patches: Seq<String>, name: Seq<char>, outcomes: Seq<Outcome>) -> Source {
    match patch_for(patches, name) {
        Some(i) => Source::Patch(i as usize),
        None => Source::Packed(verdict_from(outcomes, 0, None)),
    }
}

/// Where a resource is read from. `patches` lists the directory of patches, and
/// is empty where there is none; `outcomes` are what the containers answer.
pub fn source(patches: &Vec<String>, name: &str, outcomes: &Vec<Outcome>) -> (r: Source)
    ensures
        r == source_of(patches@, name@, outcomes@),
        r matches Source::Patch(i) ==> i < patches@.len(),
{
    match find_case_insensitively(patches, name) {
        Some(i) => Source::Patch(i),
        None => Source::Packed(verdict(outcomes)),
    }
}

/// A patch wins over the containers, whatever they hold.
pub proof fn a_patch_wins(
    patches: Seq<String>,
    name: Seq<char>,
    outcomes: Seq<Outcome>,
    others: Seq<Outcome>,
)
    requires
        patch_for(patches, name) is Some,
    ensures
        source_of(patches, name, outcomes) is Patch,
        source_of(patches, name, outcomes) == source_of(patches, name, others),
{
}

/// A search settles on a container exactly when some container has the
/// resource, and then on the first that does: what the later ones answer makes
/// no difference.
pub proof fn the_first_container_wins(outcomes: Seq<Outcome>, more: Seq<Outcome>, i: int)
    requires
        0 <= i < outcomes.len() <= usize::MAX,
        outcomes[i] == Outcome::Found,
        forall|j: int| 0 <= j < i ==> outcomes[j] != Outcome::Found,
    ensures
        verdict_from(outcomes, 0, None) == Verdict::Found(i as usize),
        verdict_from(outcomes + more, 0, None) == Verdict::Found(i as usize),
{
    first_wins_from(outcomes, 0, None, i);
    first_wins_from(outcomes + more, 0, None, i);
}

proof fn first_wins_from(outcomes: Seq<Outcome>, k: int, broken: Option<usize>, i: int)
    requires
        0 <= k <= i < outcomes.len(),
        outcomes[i] == Outcome::Found,
        forall|j: int| 0 <= j < i ==> outcomes[j] != Outcome::Found,
    ensures
        verdict_from(outcomes, k, broken) == Verdict::Found(i as usize),
    decreases i - k,
{
    if k < i {
        first_wins_from(outcomes, k + 1, broken, i);
        first_wins_from(outcomes, k + 1, Some(k as usize), i);
    }
}

// ---------------------------------------------------------------------------
// Every entry of a kind
// ---------------------------------------------------------------------------
/// An entry of a container: its name in lower case, and where it is.
pub struct Entry {
    pub name: String,
    pub container: usize,
    pub index: usize,
}

impl Ranked for Entry {
    open spec fn precedes(self, other: Self) -> bool {
        if self.name@ == other.name@ {
            self.container < other.container || self.container == other.container && self.index
                <= other.index
        } else {
            order::text_precedes(self.name@, other.name@)
        }
    }

    proof fn total(a: Self, b: Self) {
        order::text_total(a.name@, b.name@);
    }

    proof fn transitive(a: Self, b: Self, c: Self) {
        if a.name@ != b.name@ && b.name@ != c.name@ {
            order::text_transitive(a.name@, b.name@, c.name@);
            if a.name@ == c.name@ {
                order::text_antisymmetric(a.name@, b.name@);
            }
        }
    }

    fn is_before(&self, other: &Self) -> (r: bool) {
        if self.name == other.name {
            self.container < other.container || (self.container == other.container && self.index
                <= other.index)
        } else {
            order::text_before(self.name.as_str(), other.name.as_str())
        }
    }
}

/// Does a name end with `extension`?
pub open spec fn ends_with(name: Seq<char>, extension: Seq<char>) -> bool {
    text::stands_at(name, name.len() - extension.len(), extension)
}

impl Entry {
    /// Is this what container `i` lists at `j`, in lower case?
    pub open spec fn is_at(self, containers: Seq<Container>, i: int, j: int) -> bool {
        &&& self.container == i
        &&& self.index == j
        &&& self.name@ == text::lowered(containers[i].entries@[j]@)
    }

    /// Is this an entry of one of the containers, with this extension?
    pub open spec fn belongs(self, containers: Seq<Container>, extension: Seq<char>) -> bool {
        &&& self.container < containers.len()
        &&& self.index < containers[self.container as int].entries@.len()
        &&& self.is_at(containers, self.container as int, self.index as int)
        &&& ends_with(self.name@, extension)
    }
}

/// Has every entry with this extension been found, of the containers before `i`
/// and of container `i` before `j`?
pub open spec fn gathered(
    found: Seq<Entry>,
    containers: Seq<Container>,
    extension: Seq<char>,
    i: int,
    j: int,
) -> bool {
    &&& forall|k: int|
        0 <= k < found.len() ==> {
            &&& (#[trigger] found[k]).belongs(containers, extension)
            &&& found[k].container < i || found[k].container == i && found[k].index < j
        }
    &&& forall|a: int, b: int|
        #![trigger containers[a].entries@[b]]
        (0 <= a < i && a < containers.len() || a == i && b < j) && 0 <= b
            < containers[a].entries@.len() && ends_with(
            text::lowered(containers[a].entries@[b]@),
            extension,
        ) ==> exists|k: int| 0 <= k < found.len() && (#[trigger] found[k]).is_at(containers, a, b)
    &&& found.no_duplicates()
}

/// Every entry with this extension, in lower case and in order, so that two
/// walks over different copies of the game agree.
pub fn entries_named(install: &Install, extension: &str) -> (out: Vec<Entry>)
    ensures
        order::in_order(out@),
        gathered(
            out@,
            install.containers@,
            extension@,
            install.containers@.len() as int,
            0,
        ),
{
    let ghost all = install.containers@;
    let mut found: Vec<Entry> = Vec::new();
    let mut i: usize = 0;
    while i < install.containers.len()
        invariant
            all == install.containers@,
            i <= all.len(),
            gathered(found@, all, extension@, i as int, 0),
        decreases all.len() - i,
    {
        let mut j: usize = 0;
        while j < install.containers[i].entries.len()
            invariant
                all == install.containers@,
                i < all.len(),
                j <= all[i as int].entries@.len(),
                gathered(found@, all, extension@, i as int, j as int),
            decreases all[i as int].entries@.len() - j,
        {
            let name = text::lowercase(install.containers[i].entries[j].as_str());
            let chars = text::chars_of(name.as_str());
            assert(chars@.take(chars@.len() as int) == chars@);
            let ghost before = found@;
            if text::is_before(chars.as_slice(), chars.len(), extension) {
                let entry = Entry { name, container: i, index: j };
                found.push(entry);
                proof {
                    assert(found@ == before.push(entry));
                    assert(found@[before.len() as int].is_at(all, i as int, j as int));
                    assert forall|a: int, b: int|
                        #![trigger all[a].entries@[b]]
                        (0 <= a < i || a == i && b < j + 1) && 0 <= b < all[a].entries@.len()
                            && ends_with(
                            text::lowered(all[a].entries@[b]@),
                            extension@,
                        ) implies exists|k: int|
                        0 <= k < found@.len() && (#[trigger] found@[k]).is_at(all, a, b) by {
                        if !(a == i && b == j) {
                            let k = choose|k: int|
                                0 <= k < before.len() && (#[trigger] before[k]).is_at(all, a, b);
                            assert(found@[k] == before[k]);
                        }
                    }
                }
            }
            j = j + 1;
        }
        i = i + 1;
    }
    let ghost before = found@;
    let out = order::sorted(found);
    proof {
        order::same_values(before, out@);
        assert forall|k: int| 0 <= k < out@.len() implies {
            &&& (#[trigger] out@[k]).belongs(all, extension@)
            &&& out@[k].container < all.len()
        } by {
            assert(out@.contains(out@[k]));
            let m = before.index_of(out@[k]);
            assert(before[m] == out@[k]);
        }
        assert forall|a: int, b: int|
            #![trigger all[a].entries@[b]]
            0 <= a < all.len() && 0 <= b < all[a].entries@.len() && ends_with(
                text::lowered(all[a].entries@[b]@),
                extension@,
            ) implies exists|k: int| 0 <= k < out@.len() && (#[trigger] out@[k]).is_at(all, a, b) by {
            let m = choose|m: int| 0 <= m < before.len() && (#[trigger] before[m]).is_at(all, a, b);
            assert(before.contains(before[m]));
            let k = out@.index_of(before[m]);
            assert(out@[k].is_at(all, a, b));
        }
    }
    out
}

/// Is the script `k` listed at `j` of container `i`?
pub open spec fn packed(containers: Seq<Container>, k: Seq<char>, i: int, j: int) -> bool {
    &&& 0 <= i < containers.len()
    &&& 0 <= j < containers[i].entries@.len()
    &&& text::lowered(containers[i].entries@[j]@) == k
    &&& ends_with(k, ".lua"@)
}

/// Is the script `k` listed at `j` of `override/`?
pub open spec fn patched(overrides: Seq<String>, k: Seq<char>, j: int) -> bool {
    0 <= j < overrides.len() && text::lowered(overrides[j]@) == k && ends_with(k, ".lua"@)
}

/// The names of all scripts, of the containers and of `override/`, in lower
/// case, in order and each once.
pub fn script_names(install: &Install, overrides: &Vec<String>) -> (out: Vec<String>)
    ensures
        forall|i: int, j: int|
            0 <= i < j < out@.len() ==> names::earlier((#[trigger] out@[i])@, (#[trigger] out@[j])@),
        forall|k: Seq<char>| #[trigger]
            names::lists(out@, k) <==> (exists|i: int, j: int|
                #[trigger] packed(install.containers@, k, i, j)) || (exists|j: int| #[trigger]
                patched(overrides@, k, j)),
{
    let ghost all = install.containers@;
    let found = entries_named(install, ".lua");
    let mut set: Names<()> = Names::new();
    let n: usize = found.len();
    let mut i: usize = 0;
    while i < n
        invariant
            n == found@.len(),
            i <= n,
            forall|k: Seq<char>| #[trigger]
                set@.contains_key(k) <==> exists|a: int|
                    0 <= a < i && (#[trigger] found@[a]).name@ == k,
        decreases n - i,
    {
        let ghost before = set@;
        set.insert(found[i].name.clone(), ());
        proof {
            assert forall|k: Seq<char>| #[trigger] set@.contains_key(k) <==> exists|a: int|
                0 <= a < i + 1 && (#[trigger] found@[a]).name@ == k by {
                assert(before.contains_key(k) <==> exists|a: int|
                    0 <= a < i && (#[trigger] found@[a]).name@ == k);
                if k == found@[i as int].name@ {
                    assert(found@[i as int].name@ == k);
                }
            }
        }
        i += 1;
    }
    let ghost inside = set@;
    proof {
        assert forall|k: Seq<char>| #[trigger] inside.contains_key(k) <==> exists|a: int, b: int|
            #[trigger] packed(all, k, a, b) by {
            if inside.contains_key(k) {
                let a = choose|a: int| 0 <= a < n && (#[trigger] found@[a]).name@ == k;
                assert(found@[a].belongs(all, ".lua"@));
                assert(packed(all, k, found@[a].container as int, found@[a].index as int));
            }
            if exists|a: int, b: int| #[trigger] packed(all, k, a, b) {
                let (a, b) = choose|a: int, b: int| #[trigger] packed(all, k, a, b);
                let e = all[a].entries@[b];
                let m = choose|m: int| 0 <= m < found@.len() && (#[trigger] found@[m]).is_at(all, a, b);
                assert(found@[m].name@ == k);
            }
        }
    }
    let o: usize = overrides.len();
    let mut j: usize = 0;
    while j < o
        invariant
            o == overrides@.len(),
            j <= o,
            forall|k: Seq<char>| #[trigger]
                set@.contains_key(k) <==> inside.contains_key(k) || exists|b: int|
                    b < j && #[trigger] patched(overrides@, k, b),
        decreases o - j,
    {
        let name = text::lowercase(overrides[j].as_str());
        let chars = text::chars_of(name.as_str());
        assert(chars@.take(chars@.len() as int) == chars@);
        let ghost before = set@;
        let ghost low = name@;
        if text::is_before(chars.as_slice(), chars.len(), ".lua") {
            set.insert(name, ());
        }
        proof {
            assert forall|k: Seq<char>| #[trigger] set@.contains_key(k) <==> inside.contains_key(k)
                || exists|b: int| b < j + 1 && #[trigger] patched(overrides@, k, b) by {
                assert(before.contains_key(k) <==> inside.contains_key(k) || exists|b: int|
                    b < j && #[trigger] patched(overrides@, k, b));
                if k == low && ends_with(low, ".lua"@) {
                    assert(patched(overrides@, k, j as int));
                }
            }
        }
        j += 1;
    }
    let out = set.all();
    proof {
        assert forall|k: Seq<char>| #[trigger] names::lists(out@, k) <==> (exists|i: int, j: int|
            #[trigger] packed(all, k, i, j)) || (exists|j: int| #[trigger]
            patched(overrides@, k, j)) by {
            assert(set@.contains_key(k) <==> names::lists(out@, k));
            assert(inside.contains_key(k) <==> exists|a: int, b: int|
                #[trigger] packed(all, k, a, b));
        }
    }
    out
}

// ---------------------------------------------------------------------------
// What is found where
// ---------------------------------------------------------------------------
proof fn last_is(s: Seq<char>, c: char, n: int, at: int)
    requires
        -1 <= at < n <= s.len(),
        0 <= at ==> s[at] == c,
        forall|k: int| at < k < n ==> #[trigger] s[k] != c,
    ensures
        last_char(s, c, n) == at,
    decreases n,
{
    if n - 1 > at {
        assert(s[n - 1] != c);
        last_is(s, c, n - 1, at);
    }
}

/// A file is a container by what stands behind the last point of its name, in
/// letters of any case, and with something before it; without a point it is
/// none.
pub proof fn containers_are_told_by_their_ending(stem: Seq<char>, ending: Seq<char>)
    requires
        !ending.contains('.'),
    ensures
        stem.len() > 0 ==> (names_container(stem + seq!['.'] + ending) <==> text::lowered(ending)
            == "zip"@),
        !names_container(seq!['.'] + ending),
        !names_container(ending),
{
    assert forall|k: int| 0 <= k < ending.len() implies ending[k] != '.' by {
        assert(ending.contains(ending[k]));
    }
    let a = stem + seq!['.'] + ending;
    let n = stem.len() as int;
    assert forall|k: int| n < k < a.len() implies #[trigger] a[k] != '.' by {
        assert(a[k] == ending[k - n - 1]);
    }
    assert(a[n] == '.');
    last_is(a, '.', a.len() as int, n);
    assert(a.skip(n + 1) =~= ending);
    let b = seq!['.'] + ending;
    assert forall|k: int| 0 < k < b.len() implies #[trigger] b[k] != '.' by {
        assert(b[k] == ending[k - 1]);
    }
    assert(b[0] == '.');
    last_is(b, '.', b.len() as int, 0);
    if ending.len() > 0 {
        last_is(ending, '.', ending.len() as int, -1);
    }
}

/// One more file is taken for a container exactly if its name says so; then it
/// comes behind the others.
pub proof fn every_file_is_asked(listing: Seq<String>, n: int)
    requires
        0 <= n < listing.len(),
    ensures
        container_names(listing, 0) == Seq::<String>::empty(),
        names_container(listing[n]@) ==> container_names(listing, n + 1) == container_names(
            listing,
            n,
        ).push(listing[n]),
        !names_container(listing[n]@) ==> container_names(listing, n + 1) == container_names(
            listing,
            n,
        ),
{
}

/// One more container holds as many entries more as it has.
pub proof fn entries_add_up(containers: Seq<Container>, n: int)
    requires
        0 <= n < containers.len(),
    ensures
        entries_in(containers, 0) == 0,
        entries_in(containers, n + 1) == entries_in(containers, n) + containers[n].entries@.len(),
{
}

/// A name without a slash is one part; and a slash parts what is before it from
/// what is behind it.
pub proof fn slashes_part_a_path(name: Seq<char>, rest: Seq<char>)
    requires
        !name.contains('/'),
    ensures
        parts_from(name, 0) == seq![name],
        parts_from(name + seq!['/'] + rest, 0) == seq![name] + parts_from(rest, 0),
{
    assert forall|k: int| 0 <= k < name.len() implies name[k] != '/' by {
        assert(name.contains(name[k]));
    }
    let n = name.len() as int;
    text::the_first_is_found(name, '/', 0, n);
    assert(name.subrange(0, n) =~= name);
    let a = name + seq!['/'] + rest;
    assert forall|k: int| 0 <= k < n implies #[trigger] a[k] != '/' by {
        assert(a[k] == name[k]);
    }
    assert(a[n] == '/');
    text::the_first_is_found(a, '/', 0, n);
    assert(a.subrange(0, n) =~= name);
    assert(a.skip(n + 1) =~= rest);
    parts_shift(a, n + 1, 0);
}

proof fn slash_behind(t: Seq<char>, i: int, j: int)
    requires
        0 <= i <= t.len(),
        0 <= j <= t.len() - i,
    ensures
        text::first_char(t, '/', i + j) == i + text::first_char(t.skip(i), '/', j),
    decreases t.len() - i - j,
{
    if j < t.len() - i {
        assert(t.skip(i)[j] == t[i + j]);
        if t[i + j] != '/' {
            slash_behind(t, i, j + 1);
        }
    }
}

proof fn parts_shift(t: Seq<char>, i: int, j: int)
    requires
        0 <= i <= t.len(),
        0 <= j,
    ensures
        parts_from(t, i + j) == parts_from(t.skip(i), j),
    decreases t.len() - i - j,
{
    if j <= t.len() - i {
        let u = t.skip(i);
        slash_behind(t, i, j);
        text::first_char_range(u, '/', j);
        let k = text::first_char(u, '/', j);
        if k < u.len() {
            assert(t.subrange(i + j, i + k) =~= u.subrange(j, k));
            parts_shift(t, i, k + 1);
        } else {
            assert(t.subrange(i + j, t.len() as int) =~= u.subrange(j, u.len() as int));
        }
    }
}

/// The name of a file is the last part of its path that is not empty and not a
/// single point; two points are no name.
pub proof fn the_last_part_is_the_name(parts: Seq<Seq<char>>, last: Seq<char>)
    ensures
        last.len() > 0 && last != "."@ && last != ".."@ ==> last_name(parts.push(last)) == Some(
            last,
        ),
        last.len() == 0 || last == "."@ ==> last_name(parts.push(last)) == last_name(parts),
        last_name(parts.push(".."@)) is None,
        last_name(Seq::<Seq<char>>::empty()) is None,
{
    reveal_strlit(".");
    reveal_strlit("..");
    assert(parts.push(last).drop_last() =~= parts);
}

/// A patch is the first file of its directory whose name is asked for, in
/// letters of any case.
pub proof fn the_first_patch_of_a_name_is_meant(
    listing: Seq<String>,
    want: Seq<char>,
    from: int,
    i: int,
)
    requires
        0 <= from <= i <= listing.len(),
        forall|j: int|
            from <= j < i ==> text::lowered((#[trigger] listing[j])@) != text::lowered(want),
        i < listing.len() ==> text::lowered(listing[i]@) == text::lowered(want),
    ensures
        i < listing.len() ==> first_named(listing, want, from) == Some(i),
        i == listing.len() ==> first_named(listing, want, from) is None,
    decreases i - from,
{
    if from < i {
        assert(text::lowered(listing[from]@) != text::lowered(want));
        the_first_patch_of_a_name_is_meant(listing, want, from + 1, i);
    }
}

/// Where no container has it, it is missing; but where one could not be read,
/// the last such is at fault. Where there is a patch, that is taken, and else
/// what the containers have.
pub proof fn the_containers_are_searched_to_the_end(
    outcomes: Seq<Outcome>,
    from: int,
    broken: Option<usize>,
    b: int,
)
    requires
        0 <= from <= outcomes.len() <= usize::MAX,
        forall|j: int| from <= j < outcomes.len() ==> #[trigger] outcomes[j] != Outcome::Found,
    ensures
        (forall|j: int| from <= j < outcomes.len() ==> #[trigger] outcomes[j] == Outcome::Missing)
            ==> verdict_from(outcomes, from, broken) == (match broken {
            Some(x) => Verdict::Broken(x),
            None => Verdict::Missing,
        }),
        from <= b < outcomes.len() && outcomes[b] == Outcome::Broken && (forall|j: int|
            b < j < outcomes.len() ==> #[trigger] outcomes[j] == Outcome::Missing) ==> verdict_from(
            outcomes,
            from,
            broken,
        ) == Verdict::Broken(b as usize),
    decreases outcomes.len() - from,
{
    if from < outcomes.len() {
        let next = match outcomes[from] {
            Outcome::Broken => Some(from as usize),
            _ => broken,
        };
        assert(outcomes[from] != Outcome::Found);
        the_containers_are_searched_to_the_end(outcomes, from + 1, next, b);
    }
}

/// A file comes from the patch of its name where there is one, and else from
/// the containers.
pub proof fn a_patch_is_looked_for_first(
    patches: Seq<String>,
    name: Seq<char>,
    want: Seq<char>,
    outcomes: Seq<Outcome>,
    i: int,
)
    requires
        patches.len() <= usize::MAX,
        file_name(name) == Some(want),
    ensures
        0 <= i < patches.len() && text::lowered(patches[i]@) == text::lowered(want) && (forall|
            j: int,
        |
            0 <= j < i ==> text::lowered((#[trigger] patches[j])@) != text::lowered(want))
            ==> source_of(patches, name, outcomes) == Source::Patch(i as usize),
        (forall|j: int|
            0 <= j < patches.len() ==> text::lowered((#[trigger] patches[j])@) != text::lowered(
                want,
            )) ==> source_of(patches, name, outcomes) == Source::Packed(
            verdict_from(outcomes, 0, None),
        ),
{
    if 0 <= i < patches.len() && text::lowered(patches[i]@) == text::lowered(want) && (forall|
        j: int,
    |
        0 <= j < i ==> text::lowered((#[trigger] patches[j])@) != text::lowered(want)) {
        the_first_patch_of_a_name_is_meant(patches, want, 0, i);
    }
    if forall|j: int|
        0 <= j < patches.len() ==> text::lowered((#[trigger] patches[j])@) != text::lowered(want) {
        the_first_patch_of_a_name_is_meant(patches, want, 0, patches.len() as int);
    }
}

/// A name ends with an extension exactly if that is what stands behind the
/// rest of it.
pub proof fn an_extension_stands_at_the_end(a: Seq<char>, extension: Seq<char>, name: Seq<char>)
    ensures
        ends_with(a + extension, extension),
        ends_with(name, extension) ==> name == name.take(name.len() - extension.len()) + extension,
{
    let s = a + extension;
    assert(s.subrange(s.len() - extension.len(), s.len() as int) =~= extension);
    if ends_with(name, extension) {
        let i = name.len() - extension.len();
        assert(name.subrange(i, name.len() as int) == extension);
        assert(name =~= name.take(i) + name.subrange(i, name.len() as int));
    }
}

/// Entries come in the order of their names, those of one name in the order of
/// their containers, and those of one container as they stand in it.
pub proof fn entries_come_by_name(a: Entry, b: Entry)
    ensures
        a.name@ != b.name@ ==> (a.precedes(b) <==> order::text_precedes(a.name@, b.name@)),
        a.name@ == b.name@ && a.container < b.container ==> a.precedes(b) && !b.precedes(a),
        a.name@ == b.name@ && a.container == b.container ==> (a.precedes(b) <==> a.index <= b.index),
{
}

/// Every entry of a container whose name, in small letters, ends with the
/// extension is gathered once, with where it stands; and nothing else is.
pub proof fn every_entry_of_a_kind_is_gathered(
    found: Seq<Entry>,
    containers: Seq<Container>,
    extension: Seq<char>,
    stem: Seq<char>,
    a: int,
    b: int,
    k: int,
)
    requires
        gathered(found, containers, extension, containers.len() as int, 0),
    ensures
        0 <= a < containers.len() && 0 <= b < containers[a].entries@.len() && text::lowered(
            containers[a].entries@[b]@,
        ) == stem + extension ==> exists|m: int|
            0 <= m < found.len() && (#[trigger] found[m]).container == a && found[m].index == b
                && found[m].name@ == stem + extension,
        0 <= k < found.len() ==> {
            let e = found[k];
            &&& e.container < containers.len()
            &&& e.index < containers[e.container as int].entries@.len()
            &&& e.name@ == text::lowered(containers[e.container as int].entries@[e.index as int]@)
            &&& exists|s: Seq<char>| e.name@ == #[trigger] (s + extension)
        },
        found.no_duplicates(),
{
    if 0 <= a < containers.len() && 0 <= b < containers[a].entries@.len() && text::lowered(
        containers[a].entries@[b]@,
    ) == stem + extension {
        an_extension_stands_at_the_end(stem, extension, stem);
        let entry = containers[a].entries@[b];
        let m = choose|m: int| 0 <= m < found.len() && (#[trigger] found[m]).is_at(containers, a, b);
        assert(found[m].name@ == stem + extension);
    }
    if 0 <= k < found.len() {
        assert(found[k].belongs(containers, extension));
        an_extension_stands_at_the_end(stem, extension, found[k].name@);
        let s = found[k].name@.take(found[k].name@.len() - extension.len());
        assert(found[k].name@ == s + extension);
    }
}

/// A script is packed, or patched, exactly if a container or the directory of
/// patches has a file of its name, in letters of any case; and scripts end in
/// `.lua`.
pub proof fn scripts_are_found_by_name(
    containers: Seq<Container>,
    overrides: Seq<String>,
    stem: Seq<char>,
    k: Seq<char>,
    i: int,
    j: int,
)
    ensures
        0 <= i < containers.len() && 0 <= j < containers[i].entries@.len() && text::lowered(
            containers[i].entries@[j]@,
        ) == stem + ".lua"@ ==> packed(containers, stem + ".lua"@, i, j),
        0 <= j < overrides.len() && text::lowered(overrides[j]@) == stem + ".lua"@ ==> patched(
            overrides,
            stem + ".lua"@,
            j,
        ),
        packed(containers, k, i, j) ==> text::lowered(containers[i].entries@[j]@) == k && exists|
            s: Seq<char>,
        |
            k == #[trigger] (s + ".lua"@),
        patched(overrides, k, j) ==> text::lowered(overrides[j]@) == k && exists|s: Seq<char>|
            k == #[trigger] (s + ".lua"@),
{
    an_extension_stands_at_the_end(stem, ".lua"@, k);
    if ends_with(k, ".lua"@) {
        let s = k.take(k.len() - ".lua"@.len());
        assert(k == s + ".lua"@);
    }
}

proof fn a_part_more(a: Seq<char>, b: Seq<char>)
    requires
        !b.contains('/'),
    ensures
        parts_from(a + seq!['/'] + b, 0) == parts_from(a, 0).push(b),
    decreases a.len(),
{
    text::first_char_range(a, '/', 0);
    let k = text::first_char(a, '/', 0);
    slashes_part_a_path(b, b);
    if k >= a.len() {
        assert(!a.contains('/'));
        slashes_part_a_path(a, b);
        assert(seq![a] + seq![b] =~= seq![a].push(b));
    } else {
        let p = a.take(k);
        let r = a.skip(k + 1);
        assert(!p.contains('/'));
        assert(a =~= p + seq!['/'] + r);
        assert(a + seq!['/'] + b =~= p + seq!['/'] + (r + seq!['/'] + b));
        slashes_part_a_path(p, r);
        slashes_part_a_path(p, r + seq!['/'] + b);
        a_part_more(r, b);
        assert(seq![p] + parts_from(r, 0).push(b) =~= (seq![p] + parts_from(r, 0)).push(b));
    }
}

/// The name of a file is what stands behind the last slash of its path, or all
/// of it where it has none; slashes at the end, and single points behind them,
/// do not count, and two points are no name.
pub proof fn a_file_is_named_behind_the_last_slash(dir: Seq<char>, name: Seq<char>)
    requires
        !name.contains('/'),
        name.len() > 0 && name != "."@ && name != ".."@,
    ensures
        file_name(name) == Some(name),
        file_name(dir + seq!['/'] + name) == Some(name),
        file_name(dir + seq!['/']) == file_name(dir),
        file_name(dir + seq!['/', '.']) == file_name(dir),
        file_name(dir + seq!['/', '.', '.']) is None,
{
    reveal_strlit(".");
    reveal_strlit("..");
    let none = Seq::<Seq<char>>::empty();
    let blank = Seq::<char>::empty();
    slashes_part_a_path(name, name);
    assert(seq![name] =~= none.push(name));
    the_last_part_is_the_name(none, name);
    a_part_more(dir, name);
    the_last_part_is_the_name(parts_from(dir, 0), name);
    a_part_more(dir, blank);
    assert(dir + seq!['/'] + blank =~= dir + seq!['/']);
    the_last_part_is_the_name(parts_from(dir, 0), blank);
    assert("."@ =~= seq!['.']);
    assert(".."@ =~= seq!['.', '.']);
    assert(!"."@.contains('/'));
    assert(!".."@.contains('/'));
    a_part_more(dir, "."@);
    assert(dir + seq!['/'] + "."@ =~= dir + seq!['/', '.']);
    the_last_part_is_the_name(parts_from(dir, 0), "."@);
    a_part_more(dir, ".."@);
    assert(dir + seq!['/'] + ".."@ =~= dir + seq!['/', '.', '.']);
    the_last_part_is_the_name(parts_from(dir, 0), ".."@);
}

/// An installation holds the entries of all its containers.
pub proof fn an_installation_holds_every_entry(i: &Install)
    ensures
        i.total() == entries_in(i.containers@, i.containers@.len() as int),
        i.containers@.len() == 0 ==> i.total() == 0,
        i.containers@.len() == 1 ==> i.total() == i.containers@[0].entries@.len(),
{
    if i.containers@.len() == 1 {
        entries_add_up(i.containers@, 0);
    }
}

} // verus!
