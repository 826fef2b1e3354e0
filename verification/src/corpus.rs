//! What the models, trees, textures and sounds of an installation come to.
//!
//! Reading a file is the business of whoever knows its format. What has been
//! read of each file is added up here.
use crate::order;
use crate::text;
use vstd::prelude::*;

verus! {

/// The sum of the first `n` numbers.
pub open spec fn sum(s: Seq<int>, n: int) -> int
    decreases n,
{
    if n <= 0 {
        0
    } else {
        sum(s, n - 1) + s[n - 1]
    }
}

/// A sum of what is not below nought grows with every number.
proof fn sum_grows(s: Seq<int>, i: int, n: int)
    requires
        0 <= i <= n <= s.len(),
        forall|k: int| 0 <= k < s.len() ==> #[trigger] s[k] >= 0,
    ensures
        0 <= sum(s, i) <= sum(s, n),
    decreases n,
{
    if i < n {
        sum_grows(s, i, n - 1);
    } else if n > 0 {
        sum_grows(s, n - 1, n - 1);
    }
}

/// One for what is so, and nought for what is not.
pub open spec fn one(b: bool) -> int {
    if b {
        1
    } else {
        0
    }
}

/// What is in a model.
#[derive(Clone, Copy, Debug, PartialEq, Eq, Structural)]
pub struct Shape {
    pub nodes: usize,
    pub triangles: usize,
    /// How many animations it has, and whether one of them moves anything.
    pub animations: usize,
    pub animated: bool,
}

/// What the models come to.
#[derive(Clone, Copy, Debug, PartialEq, Eq, Structural)]
pub struct Shapes {
    pub found: usize,
    pub animated: usize,
    pub nodes: usize,
    pub triangles: usize,
    /// Those that have an animation to be posed by.
    pub posed: usize,
}

pub open spec fn all_nodes(list: Seq<Shape>) -> Seq<int> {
    list.map_values(|s: Shape| s.nodes as int)
}

pub open spec fn all_triangles(list: Seq<Shape>) -> Seq<int> {
    list.map_values(|s: Shape| s.triangles as int)
}

pub open spec fn all_animated(list: Seq<Shape>) -> Seq<int> {
    list.map_values(|s: Shape| one(s.animated))
}

pub open spec fn all_posed(list: Seq<Shape>) -> Seq<int> {
    list.map_values(|s: Shape| one(s.animations > 0))
}

/// Add the models up.
pub fn shapes(list: &Vec<Shape>) -> (r: Shapes)
    requires
        sum(all_nodes(list@), list@.len() as int) <= usize::MAX,
        sum(all_triangles(list@), list@.len() as int) <= usize::MAX,
    ensures
        r.found == list@.len(),
        r.animated == sum(all_animated(list@), list@.len() as int),
        r.nodes == sum(all_nodes(list@), list@.len() as int),
        r.triangles == sum(all_triangles(list@), list@.len() as int),
        r.posed == sum(all_posed(list@), list@.len() as int),
{
    let n: usize = list.len();
    let mut r = Shapes { found: n, animated: 0, nodes: 0, triangles: 0, posed: 0 };
    let mut i: usize = 0;
    while i < n
        invariant
            n == list@.len(),
            i <= n,
            sum(all_nodes(list@), n as int) <= usize::MAX,
            sum(all_triangles(list@), n as int) <= usize::MAX,
            r.found == n,
            r.animated == sum(all_animated(list@), i as int),
            r.animated <= i,
            r.nodes == sum(all_nodes(list@), i as int),
            r.triangles == sum(all_triangles(list@), i as int),
            r.posed == sum(all_posed(list@), i as int),
            r.posed <= i,
        decreases n - i,
    {
        proof {
            sum_grows(all_nodes(list@), i + 1, n as int);
            sum_grows(all_triangles(list@), i + 1, n as int);
        }
        let s = list[i];
        r.nodes = r.nodes + s.nodes;
        r.triangles = r.triangles + s.triangles;
        if s.animated {
            r.animated = r.animated + 1;
        }
        if s.animations > 0 {
            r.posed = r.posed + 1;
        }
        i += 1;
    }
    r
}

impl Shapes {
    /// What is said of the models.
    pub open spec fn said(&self) -> Seq<char> {
        text::numeral(self.found as nat) + " models, "@ + text::numeral(self.animated as nat)
            + " animated, "@ + text::numeral(self.nodes as nat) + " nodes, "@ + text::numeral(
            self.triangles as nat,
        ) + " triangles, "@ + text::numeral(self.posed as nat)
            + " checked against the shader's own posing"@
    }

    pub fn report(&self) -> (s: String)
        ensures
            s@ == self.said(),
    {
        let mut s: String = text::decimal(self.found);
        s.append(" models, ");
        s.append(text::decimal(self.animated).as_str());
        s.append(" animated, ");
        s.append(text::decimal(self.nodes).as_str());
        s.append(" nodes, ");
        s.append(text::decimal(self.triangles).as_str());
        s.append(" triangles, ");
        s.append(text::decimal(self.posed).as_str());
        s.append(" checked against the shader's own posing");
        s
    }
}

/// How far two ways of posing a model may be apart: a millionth.
pub const POSED_ALIKE: i64 = 0x3eb0_c6f7_a0b5_ed8d;

/// Do two ways of posing a model agree, at every vertex and along each axis?
/// What is handed in is how far they are apart, as measures.
pub fn poses_agree(apart: &Vec<[i64; 3]>) -> (r: bool)
    ensures
        r == forall|k: int, c: int|
            0 <= k < apart@.len() && 0 <= c < 3 ==> (#[trigger] apart@[k]@[c]) <= POSED_ALIKE,
{
    let n: usize = apart.len();
    let mut k: usize = 0;
    while k < n
        invariant
            n == apart@.len(),
            k <= n,
            forall|j: int, c: int|
                0 <= j < k && 0 <= c < 3 ==> (#[trigger] apart@[j]@[c]) <= POSED_ALIKE,
        decreases n - k,
    {
        let a: [i64; 3] = apart[k];
        let mut c: usize = 0;
        while c < 3
            invariant
                n == apart@.len(),
                k < n,
                a == apart@[k as int],
                c <= 3,
                forall|d: int| 0 <= d < c ==> (#[trigger] a@[d]) <= POSED_ALIKE,
            decreases 3 - c,
        {
            if a[c] > POSED_ALIKE {
                assert(apart@[k as int]@[c as int] > POSED_ALIKE);
                return false;
            }
            c += 1;
        }
        k += 1;
    }
    true
}

/// What is in a tree of solid space.
#[derive(Clone, Copy, Debug, PartialEq, Eq, Structural)]
pub struct Tree {
    pub nodes: usize,
    pub depth: usize,
}

/// What the trees come to.
#[derive(Clone, Copy, Debug, PartialEq, Eq, Structural)]
pub struct Trees {
    pub found: usize,
    pub nodes: usize,
    pub deepest: usize,
}

pub open spec fn all_tree_nodes(list: Seq<Tree>) -> Seq<int> {
    list.map_values(|t: Tree| t.nodes as int)
}

/// Is this the depth of the deepest of the first `n` trees, or nought where
/// there is none?
pub open spec fn is_deepest(list: Seq<Tree>, n: int, deepest: usize) -> bool {
    &&& forall|i: int| 0 <= i < n ==> (#[trigger] list[i]).depth <= deepest
    &&& deepest == 0 || exists|i: int| 0 <= i < n && (#[trigger] list[i]).depth == deepest
}

/// Add the trees up.
pub fn trees(list: &Vec<Tree>) -> (r: Trees)
    requires
        sum(all_tree_nodes(list@), list@.len() as int) <= usize::MAX,
    ensures
        r.found == list@.len(),
        r.nodes == sum(all_tree_nodes(list@), list@.len() as int),
        is_deepest(list@, list@.len() as int, r.deepest),
{
    let n: usize = list.len();
    let mut r = Trees { found: n, nodes: 0, deepest: 0 };
    let mut i: usize = 0;
    while i < n
        invariant
            n == list@.len(),
            i <= n,
            sum(all_tree_nodes(list@), n as int) <= usize::MAX,
            r.found == n,
            r.nodes == sum(all_tree_nodes(list@), i as int),
            is_deepest(list@, i as int, r.deepest),
        decreases n - i,
    {
        proof {
            sum_grows(all_tree_nodes(list@), i + 1, n as int);
        }
        let ghost before = r.deepest;
        let t = list[i];
        r.nodes = r.nodes + t.nodes;
        if t.depth > r.deepest {
            r.deepest = t.depth;
        }
        proof {
            if before == r.deepest && before > 0 {
                let j = choose|j: int| 0 <= j < i && (#[trigger] list@[j]).depth == before;
                assert(list@[j].depth == r.deepest);
            }
            assert(list@[i as int] == t);
        }
        i += 1;
    }
    r
}

impl Trees {
    /// What is said of the trees.
    pub open spec fn said(&self) -> Seq<char> {
        text::numeral(self.found as nat) + " trees, "@ + text::numeral(self.nodes as nat)
            + " nodes, deepest "@ + text::numeral(self.deepest as nat)
    }

    pub fn report(&self) -> (s: String)
        ensures
            s@ == self.said(),
    {
        let mut s: String = text::decimal(self.found);
        s.append(" trees, ");
        s.append(text::decimal(self.nodes).as_str());
        s.append(" nodes, deepest ");
        s.append(text::decimal(self.deepest).as_str());
        s
    }
}

pub open spec fn all_answers(answers: Seq<bool>) -> Seq<int> {
    answers.map_values(|a: bool| one(a))
}

/// How many of the points that a tree was asked about are solid.
pub fn solid(answers: &Vec<bool>) -> (r: usize)
    ensures
        r == sum(all_answers(answers@), answers@.len() as int),
{
    let n: usize = answers.len();
    let mut r: usize = 0;
    let mut i: usize = 0;
    while i < n
        invariant
            n == answers@.len(),
            i <= n,
            r <= i,
            r == sum(all_answers(answers@), i as int),
        decreases n - i,
    {
        if answers[i] {
            r += 1;
        }
        i += 1;
    }
    r
}

/// One level of a texture: how large it is, and how many bytes its pixels take.
#[derive(Clone, Copy, Debug, PartialEq, Eq, Structural)]
pub struct Level {
    pub width: u32,
    pub height: u32,
    pub bytes: usize,
}

impl Level {
    /// Does it have its four bytes for each pixel?
    pub open spec fn whole(&self) -> bool {
        self.bytes == self.width * self.height * 4
    }

    /// Does it have its four bytes for each pixel?
    pub fn is_whole(&self) -> (r: bool)
        ensures
            r == self.whole(),
    {
        let pixels: u64 = self.pixels();
        (self.bytes as u128) == (pixels as u128) * 4
    }

    fn pixels(&self) -> (r: u64)
        ensures
            r == self.width * self.height,
    {
        assert(self.width * self.height <= 0xffff_ffff * 0xffff_ffff) by (nonlinear_arith)
            requires
                0 <= self.width <= 0xffff_ffff,
                0 <= self.height <= 0xffff_ffff,
        ;
        assert(self.width * self.height >= 0) by (nonlinear_arith)
            requires
                0 <= self.width,
                0 <= self.height,
        ;
        (self.width as u64) * (self.height as u64)
    }
}

/// What the textures come to.
#[derive(Clone, Copy, Debug, PartialEq, Eq, Structural)]
pub struct Textures {
    pub found: usize,
    pub levels: usize,
    pub pixels: usize,
}

pub open spec fn level_pixels(levels: Seq<Level>) -> Seq<int> {
    levels.map_values(|l: Level| l.width * l.height)
}

pub open spec fn all_levels(list: Seq<Vec<Level>>) -> Seq<int> {
    list.map_values(|t: Vec<Level>| t@.len() as int)
}

pub open spec fn all_pixels(list: Seq<Vec<Level>>) -> Seq<int> {
    list.map_values(|t: Vec<Level>| sum(level_pixels(t@), t@.len() as int))
}

proof fn pixels_are_counted(list: Seq<Vec<Level>>)
    ensures
        forall|k: int| 0 <= k < list.len() ==> #[trigger] all_pixels(list)[k] >= 0,
{
    assert forall|k: int| 0 <= k < list.len() implies #[trigger] all_pixels(list)[k] >= 0 by {
        levels_are_counted(list[k]@);
        sum_grows(level_pixels(list[k]@), 0, list[k]@.len() as int);
    }
}

proof fn levels_are_counted(levels: Seq<Level>)
    ensures
        forall|k: int| 0 <= k < levels.len() ==> #[trigger] level_pixels(levels)[k] >= 0,
{
    assert forall|k: int| 0 <= k < levels.len() implies #[trigger] level_pixels(levels)[k]
        >= 0 by {
        let l = levels[k];
        assert(l.width * l.height >= 0) by (nonlinear_arith)
            requires
                0 <= l.width,
                0 <= l.height,
        ;
    }
}

/// Add the textures up. Every level has all its bytes.
pub fn textures(list: &Vec<Vec<Level>>) -> (r: Textures)
    requires
        forall|i: int, j: int|
            0 <= i < list@.len() && 0 <= j < list@[i]@.len() ==> (#[trigger] list@[i]@[j]).whole(),
        sum(all_levels(list@), list@.len() as int) <= usize::MAX,
        sum(all_pixels(list@), list@.len() as int) <= usize::MAX,
    ensures
        r.found == list@.len(),
        r.levels == sum(all_levels(list@), list@.len() as int),
        r.pixels == sum(all_pixels(list@), list@.len() as int),
{
    let n: usize = list.len();
    let mut r = Textures { found: n, levels: 0, pixels: 0 };
    let mut i: usize = 0;
    while i < n
        invariant
            n == list@.len(),
            i <= n,
            sum(all_levels(list@), n as int) <= usize::MAX,
            sum(all_pixels(list@), n as int) <= usize::MAX,
            r.found == n,
            r.levels == sum(all_levels(list@), i as int),
            r.pixels == sum(all_pixels(list@), i as int),
        decreases n - i,
    {
        let levels = &list[i];
        let m: usize = levels.len();
        let ghost before = r.pixels;
        proof {
            pixels_are_counted(list@);
            levels_are_counted(levels@);
            sum_grows(all_levels(list@), i + 1, n as int);
            sum_grows(all_pixels(list@), i + 1, n as int);
            assert(all_pixels(list@)[i as int] == sum(level_pixels(levels@), m as int));
        }
        let mut j: usize = 0;
        while j < m
            invariant
                m == levels@.len(),
                j <= m,
                forall|k: int| 0 <= k < m ==> #[trigger] level_pixels(levels@)[k] >= 0,
                before + sum(level_pixels(levels@), m as int) <= usize::MAX,
                r.found == n,
                r.levels == sum(all_levels(list@), i as int),
                r.pixels == before + sum(level_pixels(levels@), j as int),
            decreases m - j,
        {
            proof {
                sum_grows(level_pixels(levels@), j + 1, m as int);
                sum_grows(level_pixels(levels@), 0, j as int);
            }
            let here: u64 = levels[j].pixels();
            assert(here == level_pixels(levels@)[j as int]);
            r.pixels = r.pixels + here as usize;
            j += 1;
        }
        r.levels = r.levels + m;
        i += 1;
    }
    r
}

impl Textures {
    /// What is said of the textures.
    pub open spec fn said(&self) -> Seq<char> {
        text::numeral(self.found as nat) + " textures, "@ + text::numeral(self.levels as nat)
            + " levels, "@ + text::numeral(self.pixels as nat) + " pixels"@
    }

    pub fn report(&self) -> (s: String)
        ensures
            s@ == self.said(),
    {
        let mut s: String = text::decimal(self.found);
        s.append(" textures, ");
        s.append(text::decimal(self.levels).as_str());
        s.append(" levels, ");
        s.append(text::decimal(self.pixels).as_str());
        s.append(" pixels");
        s
    }
}

/// How the file of a sound begins that is not packed.
pub const RIFF: [u8; 4] = [0x52, 0x49, 0x46, 0x46];

/// Is this the file of a sound that is not packed?
pub fn is_riff(data: &[u8]) -> (r: bool)
    ensures
        r == (data@.len() >= 4 && data@.take(4) == RIFF@),
{
    if data.len() < 4 {
        return false;
    }
    let r: bool = data[0] == 0x52 && data[1] == 0x49 && data[2] == 0x46 && data[3] == 0x46;
    proof {
        if r {
            assert(data@.take(4) =~= RIFF@);
        } else {
            assert(data@.take(4)[0] == data@[0] && data@.take(4)[1] == data@[1]);
            assert(data@.take(4)[2] == data@[2] && data@.take(4)[3] == data@[3]);
            assert(RIFF@[0] == 0x52 && RIFF@[1] == 0x49 && RIFF@[2] == 0x46 && RIFF@[3] == 0x46);
        }
    }
    r
}

/// What the head of a packed sound says.
#[derive(Clone, Copy, Debug, PartialEq, Eq, Structural)]
pub struct Wave {
    /// How many bytes it unpacks to.
    pub decompressed: u32,
    pub channels: u16,
    pub rate: u16,
    /// The two parameters of its codec.
    pub levels: u8,
    pub rows: u8,
}

impl Wave {
    /// What is said of one sound.
    pub open spec fn listed(&self, name: Seq<char>) -> Seq<char> {
        name + " "@ + text::numeral(self.decompressed as nat) + " "@ + text::numeral(
            self.channels as nat,
        ) + " "@ + text::numeral(self.rate as nat) + " "@ + text::numeral(self.levels as nat)
            + " "@ + text::numeral(self.rows as nat)
    }

    pub fn line(&self, name: &str) -> (s: String)
        ensures
            s@ == self.listed(name@),
    {
        let mut s: String = name.to_owned();
        s.append(" ");
        s.append(text::decimal(self.decompressed as usize).as_str());
        s.append(" ");
        s.append(text::decimal(self.channels as usize).as_str());
        s.append(" ");
        s.append(text::decimal(self.rate as usize).as_str());
        s.append(" ");
        s.append(text::decimal(self.levels as usize).as_str());
        s.append(" ");
        s.append(text::decimal(self.rows as usize).as_str());
        s
    }
}

/// What the sounds come to.
pub struct Waves {
    pub found: usize,
    /// Those that are packed, and those that are not.
    pub wrapped: usize,
    pub riff: usize,
    /// How many bytes the packed ones unpack to.
    pub pcm_bytes: u64,
    /// The parameters of the codec that are used, in order.
    pub parameters: Vec<(u8, u8)>,
    /// The rates that are used, in order, and how often each is.
    pub rates: Vec<(u16, usize)>,
}

pub open spec fn all_wrapped(list: Seq<Option<Wave>>) -> Seq<int> {
    list.map_values(|w: Option<Wave>| one(w is Some))
}

pub open spec fn all_bytes(list: Seq<Option<Wave>>) -> Seq<int> {
    list.map_values(
        |w: Option<Wave>|
            match w {
                Some(w) => w.decompressed as int,
                None => 0,
            },
    )
}

pub open spec fn all_at(list: Seq<Option<Wave>>, rate: u16) -> Seq<int> {
    list.map_values(|w: Option<Wave>| one(w matches Some(w) && w.rate == rate))
}

/// Is the sound at `i` packed with these parameters?
pub open spec fn packed_with(list: Seq<Option<Wave>>, p: (u8, u8), i: int) -> bool {
    0 <= i < list.len() && (list[i] matches Some(w) && w.levels == p.0 && w.rows == p.1)
}

/// Is the sound at `i` packed and of this rate?
pub open spec fn runs_at(list: Seq<Option<Wave>>, rate: u16, i: int) -> bool {
    0 <= i < list.len() && (list[i] matches Some(w) && w.rate == rate)
}

/// Is a rate listed?
pub open spec fn lists_rate(rates: Seq<(u16, usize)>, rate: u16) -> bool {
    exists|k: int| 0 <= k < rates.len() && (#[trigger] rates[k]).0 == rate
}

/// How many packed sounds are of a rate.
fn count_at(list: &Vec<Option<Wave>>, rate: u16) -> (r: usize)
    ensures
        r == sum(all_at(list@, rate), list@.len() as int),
{
    let n: usize = list.len();
    let mut r: usize = 0;
    let mut i: usize = 0;
    while i < n
        invariant
            n == list@.len(),
            i <= n,
            r <= i,
            r == sum(all_at(list@, rate), i as int),
        decreases n - i,
    {
        if let Some(w) = list[i] {
            if w.rate == rate {
                r += 1;
            }
        }
        i += 1;
    }
    r
}

/// The parameters of a codec as one number, so that they are in order as the
/// numbers are.
spec fn code(levels: u8, rows: u8) -> u32 {
    (levels * 256 + rows) as u32
}

/// Add the sounds up. Those that are not packed are handed in without a head.
pub fn waves(list: &Vec<Option<Wave>>) -> (r: Waves)
    requires
        sum(all_bytes(list@), list@.len() as int) <= u64::MAX,
    ensures
        r.found == list@.len(),
        r.wrapped == sum(all_wrapped(list@), list@.len() as int),
        r.wrapped + r.riff == list@.len(),
        r.pcm_bytes == sum(all_bytes(list@), list@.len() as int),
        forall|i: int, j: int|
            0 <= i < j < r.parameters@.len() ==> {
                let (p, q) = (#[trigger] r.parameters@[i], #[trigger] r.parameters@[j]);
                p.0 < q.0 || (p.0 == q.0 && p.1 < q.1)
            },
        forall|p: (u8, u8)| #[trigger]
            r.parameters@.contains(p) <==> exists|i: int| #[trigger] packed_with(list@, p, i),
        forall|i: int, j: int|
            0 <= i < j < r.rates@.len() ==> (#[trigger] r.rates@[i]).0 < (
            #[trigger] r.rates@[j]).0,
        forall|k: int|
            0 <= k < r.rates@.len() ==> (#[trigger] r.rates@[k]).1 == sum(
                all_at(list@, r.rates@[k].0),
                list@.len() as int,
            ),
        forall|rate: u16| #[trigger]
            lists_rate(r.rates@, rate) <==> exists|i: int| #[trigger] runs_at(list@, rate, i),
{
    let n: usize = list.len();
    let mut wrapped: usize = 0;
    let mut riff: usize = 0;
    let mut pcm_bytes: u64 = 0;
    let mut codes: Vec<u32> = Vec::new();
    let mut speeds: Vec<u32> = Vec::new();
    let mut i: usize = 0;
    while i < n
        invariant
            n == list@.len(),
            i <= n,
            sum(all_bytes(list@), n as int) <= u64::MAX,
            wrapped == sum(all_wrapped(list@), i as int),
            wrapped + riff == i,
            pcm_bytes == sum(all_bytes(list@), i as int),
            codes@.len() == speeds@.len(),
            forall|k: int|
                0 <= k < codes@.len() ==> #[trigger] seen(list@, i as int, codes@[k], speeds@[k]),
            forall|j: int|
                0 <= j < i ==> (#[trigger] list@[j] matches Some(w) ==> codes@.contains(
                    code(w.levels, w.rows),
                ) && speeds@.contains(w.rate as u32)),
        decreases n - i,
    {
        proof {
            sum_grows(all_bytes(list@), i + 1, n as int);
        }
        let ghost (was_codes, was_speeds) = (codes@, speeds@);
        match list[i] {
            Some(w) => {
                wrapped += 1;
                assert(all_bytes(list@)[i as int] == w.decompressed);
                pcm_bytes = pcm_bytes + w.decompressed as u64;
                codes.push(w.levels as u32 * 256 + w.rows as u32);
                speeds.push(w.rate as u32);
                proof {
                    let last = codes@.len() - 1;
                    assert(codes@[last] == code(w.levels, w.rows));
                    assert(speeds@[last] == w.rate as u32);
                    assert(wave_of(list@, i + 1, i as int, codes@[last], speeds@[last]));
                    still_there(was_codes, codes@, was_codes.len() as int);
                    still_there(was_speeds, speeds@, was_speeds.len() as int);
                }
            },
            None => {
                riff += 1;
            },
        }
        proof {
            assert forall|k: int| 0 <= k < codes@.len() implies #[trigger] seen(
                list@,
                i + 1,
                codes@[k],
                speeds@[k],
            ) by {
                if k < was_codes.len() {
                    assert(seen(list@, i as int, was_codes[k], was_speeds[k]));
                    let j = choose|j: int| #[trigger]
                        wave_of(list@, i as int, j, was_codes[k], was_speeds[k]);
                    assert(wave_of(list@, i + 1, j, codes@[k], speeds@[k]));
                }
            }
        }
        i += 1;
    }
    let codes = codes;
    let speeds = speeds;
    let ghost all_codes = codes@;
    let ghost all_speeds = speeds@;
    let codes = order::sorted_once(codes);
    let speeds = order::sorted_once(speeds);
    proof {
        assert forall|c: u32| #[trigger] codes@.contains(c) <==> exists|j: int| #[trigger]
            coded(list@, j, c) by {
            if codes@.contains(c) {
                let k = all_codes.index_of(c);
                assert(seen(list@, n as int, all_codes[k], all_speeds[k]));
                let j = choose|j: int| #[trigger]
                    wave_of(list@, n as int, j, all_codes[k], all_speeds[k]);
                assert(coded(list@, j, c));
            }
            if exists|j: int| #[trigger] coded(list@, j, c) {
                let j = choose|j: int| #[trigger] coded(list@, j, c);
                assert(list@[j] is Some);
            }
        }
        assert forall|c: u32| #[trigger] speeds@.contains(c) <==> exists|j: int| #[trigger]
            sped(list@, j, c) by {
            if speeds@.contains(c) {
                let k = all_speeds.index_of(c);
                assert(seen(list@, n as int, all_codes[k], all_speeds[k]));
                let j = choose|j: int| #[trigger]
                    wave_of(list@, n as int, j, all_codes[k], all_speeds[k]);
                assert(sped(list@, j, c));
            }
            if exists|j: int| #[trigger] sped(list@, j, c) {
                let j = choose|j: int| #[trigger] sped(list@, j, c);
                assert(list@[j] is Some);
            }
        }
    }
    let parameters = decoded(list, &codes);
    let rates = counted(list, &speeds);
    Waves { found: n, wrapped, riff, pcm_bytes, parameters, rates }
}

/// Is the sound at `j`, among the first `n`, packed with parameters of this code
/// and of this rate?
spec fn wave_of(list: Seq<Option<Wave>>, n: int, j: int, c: u32, rate: u32) -> bool {
    0 <= j < n && (list[j] matches Some(w) && code(w.levels, w.rows) == c && w.rate == rate)
}

spec fn seen(list: Seq<Option<Wave>>, n: int, c: u32, rate: u32) -> bool {
    exists|j: int| #[trigger] wave_of(list, n, j, c, rate)
}

spec fn coded(list: Seq<Option<Wave>>, j: int, c: u32) -> bool {
    0 <= j < list.len() && (list[j] matches Some(w) && code(w.levels, w.rows) == c)
}

spec fn sped(list: Seq<Option<Wave>>, j: int, c: u32) -> bool {
    0 <= j < list.len() && (list[j] matches Some(w) && w.rate == c)
}

proof fn still_there(a: Seq<u32>, b: Seq<u32>, n: int)
    requires
        n == a.len() < b.len(),
        forall|k: int| 0 <= k < n ==> a[k] == b[k],
    ensures
        forall|c: u32| #[trigger] a.contains(c) ==> b.contains(c),
        b.contains(b[n]),
{
    assert forall|c: u32| #[trigger] a.contains(c) implies b.contains(c) by {
        let k = a.index_of(c);
        assert(b[k] == c);
    }
}

/// The parameters that codes stand for.
fn decoded(list: &Vec<Option<Wave>>, codes: &Vec<u32>) -> (out: Vec<(u8, u8)>)
    requires
        forall|i: int, j: int| 0 <= i < j < codes@.len() ==> codes@[i] < codes@[j],
        forall|c: u32| #[trigger]
            codes@.contains(c) <==> exists|j: int| #[trigger] coded(list@, j, c),
    ensures
        forall|i: int, j: int|
            0 <= i < j < out@.len() ==> {
                let (p, q) = (#[trigger] out@[i], #[trigger] out@[j]);
                p.0 < q.0 || (p.0 == q.0 && p.1 < q.1)
            },
        forall|p: (u8, u8)| #[trigger]
            out@.contains(p) <==> exists|i: int| #[trigger] packed_with(list@, p, i),
{
    let mut out: Vec<(u8, u8)> = Vec::new();
    let n: usize = codes.len();
    let mut i: usize = 0;
    while i < n
        invariant
            n == codes@.len(),
            i <= n,
            out@.len() == i,
            forall|c: u32| #[trigger]
                codes@.contains(c) <==> exists|j: int| #[trigger] coded(list@, j, c),
            forall|k: int|
                0 <= k < i ==> code((#[trigger] out@[k]).0, out@[k].1) == codes@[k],
        decreases n - i,
    {
        let c: u32 = codes[i];
        proof {
            assert(codes@.contains(c));
            let j = choose|j: int| #[trigger] coded(list@, j, c);
            assert(list@[j] is Some);
        }
        out.push(((c / 256) as u8, (c % 256) as u8));
        i += 1;
    }
    proof {
        assert forall|i: int, j: int| 0 <= i < j < out@.len() implies ({
            let (p, q) = (#[trigger] out@[i], #[trigger] out@[j]);
            p.0 < q.0 || (p.0 == q.0 && p.1 < q.1)
        }) by {
            assert(codes@[i] < codes@[j]);
        }
        assert forall|p: (u8, u8)| #[trigger]
            out@.contains(p) <==> exists|i: int| #[trigger] packed_with(list@, p, i) by {
            let c = code(p.0, p.1);
            if out@.contains(p) {
                let k = out@.index_of(p);
                assert(codes@[k] == c);
                assert(codes@.contains(c));
                let j = choose|j: int| #[trigger] coded(list@, j, c);
                assert(packed_with(list@, p, j));
            }
            if exists|i: int| #[trigger] packed_with(list@, p, i) {
                let j = choose|i: int| #[trigger] packed_with(list@, p, i);
                assert(coded(list@, j, c));
                assert(codes@.contains(c));
                let k = codes@.index_of(c);
                assert(out@[k] == p);
            }
        }
    }
    out
}

/// The rates, and how often each is used.
fn counted(list: &Vec<Option<Wave>>, speeds: &Vec<u32>) -> (out: Vec<(u16, usize)>)
    requires
        forall|i: int, j: int| 0 <= i < j < speeds@.len() ==> speeds@[i] < speeds@[j],
        forall|c: u32| #[trigger]
            speeds@.contains(c) <==> exists|j: int| #[trigger] sped(list@, j, c),
    ensures
        forall|i: int, j: int|
            0 <= i < j < out@.len() ==> (#[trigger] out@[i]).0 < (#[trigger] out@[j]).0,
        forall|k: int|
            0 <= k < out@.len() ==> (#[trigger] out@[k]).1 == sum(
                all_at(list@, out@[k].0),
                list@.len() as int,
            ),
        forall|rate: u16| #[trigger]
            lists_rate(out@, rate) <==> exists|i: int| #[trigger] runs_at(list@, rate, i),
{
    let mut out: Vec<(u16, usize)> = Vec::new();
    let n: usize = speeds.len();
    let mut i: usize = 0;
    while i < n
        invariant
            n == speeds@.len(),
            i <= n,
            out@.len() == i,
            forall|c: u32| #[trigger]
                speeds@.contains(c) <==> exists|j: int| #[trigger] sped(list@, j, c),
            forall|k: int| 0 <= k < i ==> (#[trigger] out@[k]).0 == speeds@[k],
            forall|k: int|
                0 <= k < i ==> (#[trigger] out@[k]).1 == sum(
                    all_at(list@, out@[k].0),
                    list@.len() as int,
                ),
        decreases n - i,
    {
        let c: u32 = speeds[i];
        proof {
            assert(speeds@.contains(c));
            let j = choose|j: int| #[trigger] sped(list@, j, c);
            assert(list@[j] is Some);
        }
        let rate: u16 = c as u16;
        out.push((rate, count_at(list, rate)));
        i += 1;
    }
    proof {
        assert forall|rate: u16| #[trigger]
            lists_rate(out@, rate) <==> exists|i: int| #[trigger] runs_at(list@, rate, i) by {
            let c = rate as u32;
            if lists_rate(out@, rate) {
                let k = choose|k: int| 0 <= k < out@.len() && (#[trigger] out@[k]).0 == rate;
                assert(speeds@[k] == c);
                assert(speeds@.contains(c));
                let j = choose|j: int| #[trigger] sped(list@, j, c);
                assert(runs_at(list@, rate, j));
            }
            if exists|i: int| #[trigger] runs_at(list@, rate, i) {
                let j = choose|i: int| #[trigger] runs_at(list@, rate, i);
                assert(sped(list@, j, c));
                assert(speeds@.contains(c));
                let k = speeds@.index_of(c);
                assert(out@[k].0 == rate);
            }
        }
    }
    out
}

// ---------------------------------------------------------------------------
// What the counts are of
// ---------------------------------------------------------------------------
/// A sum is that of all before and one more; what holds counts for one, and
/// what does not for nought.
pub proof fn sums_go_over_everything(s: Seq<int>, n: int)
    requires
        0 <= n < s.len(),
    ensures
        sum(s, 0) == 0,
        sum(s, n + 1) == sum(s, n) + s[n],
        one(true) == 1,
        one(false) == 0,
{
}

/// Of each model its nodes and its triangles are summed, and it is counted as
/// animated where it is, and as posed where it has an animation.
pub proof fn every_model_is_summed(list: Seq<Shape>, i: int)
    requires
        0 <= i < list.len(),
    ensures
        all_nodes(list).len() == list.len() && all_nodes(list)[i] == list[i].nodes,
        all_triangles(list).len() == list.len() && all_triangles(list)[i] == list[i].triangles,
        all_animated(list).len() == list.len(),
        list[i].animated ==> all_animated(list)[i] == 1,
        !list[i].animated ==> all_animated(list)[i] == 0,
        all_posed(list).len() == list.len(),
        list[i].animations > 0 ==> all_posed(list)[i] == 1,
        list[i].animations == 0 ==> all_posed(list)[i] == 0,
{
}

/// Of each tree its nodes are summed; the deepest is as deep as the deepest of
/// them, and nought where there is none.
pub proof fn every_tree_is_summed(list: Seq<Tree>, i: int, a: usize, b: usize)
    ensures
        0 <= i < list.len() ==> all_tree_nodes(list)[i] == list[i].nodes,
        all_tree_nodes(list).len() == list.len(),
        0 <= i < list.len() && is_deepest(list, list.len() as int, a) ==> list[i].depth <= a,
        is_deepest(list, list.len() as int, a) && is_deepest(list, list.len() as int, b) ==> a == b,
        list.len() == 0 && is_deepest(list, 0, a) ==> a == 0,
{
}

/// Of each texture its levels are counted, and of each level its width times
/// its height; and a level is whole where it has four bytes for each pixel.
pub proof fn every_texture_is_summed(
    list: Seq<Vec<Level>>,
    i: int,
    levels: Seq<Level>,
    k: int,
    answers: Seq<bool>,
)
    ensures
        0 <= i < list.len() ==> all_levels(list)[i] == list[i]@.len(),
        all_levels(list).len() == list.len(),
        0 <= i < list.len() ==> all_pixels(list)[i] == sum(
            level_pixels(list[i]@),
            list[i]@.len() as int,
        ),
        all_pixels(list).len() == list.len(),
        0 <= k < levels.len() ==> level_pixels(levels)[k] == levels[k].width * levels[k].height,
        0 <= k < levels.len() ==> (levels[k].whole() <==> levels[k].bytes == 4 * (levels[k].width
            * levels[k].height)),
        0 <= k < answers.len() ==> all_answers(answers)[k] == (if answers[k] {
            1int
        } else {
            0
        }),
{
    if 0 <= k < levels.len() {
        let w = levels[k].width as int;
        let h = levels[k].height as int;
        assert(w * h * 4 == 4 * (w * h)) by (nonlinear_arith);
    }
}

/// Of each sound that is packed one is counted, the bytes that it unpacks to are
/// summed, and it is counted for its rate; one that is not packed counts for
/// none of them.
pub proof fn every_packed_sound_is_summed(list: Seq<Option<Wave>>, i: int, rate: u16, p: (u8, u8))
    requires
        0 <= i < list.len(),
    ensures
        all_wrapped(list).len() == list.len() && all_bytes(list).len() == list.len() && all_at(
            list,
            rate,
        ).len() == list.len(),
        list[i] is None ==> all_wrapped(list)[i] == 0 && all_bytes(list)[i] == 0 && all_at(
            list,
            rate,
        )[i] == 0 && !packed_with(list, p, i) && !runs_at(list, rate, i),
        list[i] matches Some(w) ==> {
            &&& all_wrapped(list)[i] == 1
            &&& all_bytes(list)[i] == w.decompressed
            &&& all_at(list, w.rate)[i] == 1
            &&& w.rate != rate ==> all_at(list, rate)[i] == 0
            &&& packed_with(list, (w.levels, w.rows), i)
            &&& p != (w.levels, w.rows) ==> !packed_with(list, p, i)
            &&& runs_at(list, w.rate, i)
            &&& w.rate != rate ==> !runs_at(list, rate, i)
        },
{
}

/// Each tally is told with all its counts, in their order.
pub proof fn tallies_are_told_in_order(
    s: &Shapes,
    t: &Trees,
    x: &Textures,
    w: &Wave,
    name: Seq<char>,
)
    ensures
        s.said() == text::numeral(s.found as nat) + " models, "@ + text::numeral(s.animated as nat)
            + " animated, "@ + text::numeral(s.nodes as nat) + " nodes, "@ + text::numeral(
            s.triangles as nat,
        ) + " triangles, "@ + text::numeral(s.posed as nat)
            + " checked against the shader's own posing"@,
        t.said() == text::numeral(t.found as nat) + " trees, "@ + text::numeral(t.nodes as nat)
            + " nodes, deepest "@ + text::numeral(t.deepest as nat),
        x.said() == text::numeral(x.found as nat) + " textures, "@ + text::numeral(x.levels as nat)
            + " levels, "@ + text::numeral(x.pixels as nat) + " pixels"@,
        w.listed(name) == name + " "@ + text::numeral(w.decompressed as nat) + " "@ + text::numeral(
            w.channels as nat,
        ) + " "@ + text::numeral(w.rate as nat) + " "@ + text::numeral(w.levels as nat) + " "@
            + text::numeral(w.rows as nat),
{
}

/// Poses are alike within the double nearest to a millionth.
pub proof fn poses_are_alike_within_a_millionth()
    ensures
        POSED_ALIKE / 0x10_0000_0000_0000 == 1023 - 20,
        -500000 <= 1000000 * (0x10_0000_0000_0000 + POSED_ALIKE % 0x10_0000_0000_0000)
            - 0x100_0000_0000_0000_0000 <= 500000,
        RIFF@ =~= seq![0x52u8, 0x49, 0x46, 0x46],
{
}

/// A rate is listed exactly if it stands in the list with a count.
pub proof fn a_rate_is_listed_with_its_count(rates: Seq<(u16, usize)>, rate: u16, k: int)
    ensures
        0 <= k < rates.len() ==> lists_rate(rates, rates[k].0),
        (forall|j: int| 0 <= j < rates.len() ==> (#[trigger] rates[j]).0 != rate) ==> !lists_rate(
            rates,
            rate,
        ),
{
    if 0 <= k < rates.len() {
        assert(rates[k].0 == rates[k].0);
    }
}

} // verus!
