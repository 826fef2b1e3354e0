//! The game's random numbers: MT19937 in its 1998 edition.
//!
//! Every level start seeds the generator with the same number, so the same
//! checkpoint gives the same spawns and the same taunts every time. The
//! sequence itself is part of the game, which is why the contracts below pin
//! each draw to the seed and to how many draws came before it.
//!
//! Seeding forces the seed odd and multiplies by 69069 from word to word; the
//! 2002 edition of the generator does neither.
use vstd::prelude::*;

verus! {

/// The multiplier that carries one word of the seeded state to the next.
pub const SEED_MULTIPLIER: u32 = 69069;

/// The seed in force when nothing has seeded the generator.
pub const DEFAULT_SEED: u32 = 4357;

/// How many words the state holds.
pub const N: usize = 624;

/// How far ahead the recurrence reaches.
pub const M: usize = 397;

pub const MATRIX_A: u32 = 0x9908_b0df;

pub const UPPER: u32 = 0x8000_0000;

pub const LOWER: u32 = 0x7fff_ffff;

/// One step of the recurrence, from the word to be replaced, its neighbour
/// and the word `M` ahead of it.
pub open spec fn mixed(this: u32, neighbour: u32, ahead: u32) -> u32 {
    let y = (this & UPPER) | (neighbour & LOWER);
    ahead ^ (y >> 1) ^ (if y & 1 != 0 {
        MATRIX_A
    } else {
        0
    })
}

/// The untempered sequence that a seed stands for: `N` seeded words, and after
/// them the recurrence for ever.
pub open spec fn term(seed: u32, k: nat) -> u32
    decreases k,
{
    if k == 0 {
        seed | 1
    } else if k < N {
        term(seed, (k - 1) as nat).wrapping_mul(SEED_MULTIPLIER)
    } else {
        mixed(
            term(seed, (k - N) as nat),
            term(seed, (k - N + 1) as nat),
            term(seed, (k - N + M) as nat),
        )
    }
}

/// The window that seeding fills.
pub open spec fn seeded_words(seed: u32) -> Seq<u32> {
    Seq::new(N as nat, |i: int| term(seed, i as nat))
}

/// A window with its first `n` words replaced, one after the other and in place:
/// a word late in the window reads what has been put at its beginning.
pub open spec fn twisted_to(mt: Seq<u32>, n: int) -> Seq<u32>
    decreases n,
{
    if n <= 0 {
        mt
    } else {
        let so_far = twisted_to(mt, n - 1);
        so_far.update(
            n - 1,
            mixed(so_far[n - 1], so_far[n % N as int], so_far[(n - 1 + M) % N as int]),
        )
    }
}

/// A window with all its words replaced.
pub open spec fn twisted(mt: Seq<u32>) -> Seq<u32> {
    twisted_to(mt, N as int)
}

/// The tempering that every word goes through on its way out.
pub open spec fn tempered(y: u32) -> u32 {
    let a = y ^ (y >> 11);
    let b = a ^ ((a << 7) & 0x9d2c_5680);
    let c = b ^ ((b << 15) & 0xefc6_0000);
    c ^ (c >> 18)
}

/// What the draw numbered `k` (from zero) gives after seeding with `seed`.
pub open spec fn output(seed: u32, k: nat) -> u32 {
    tempered(term(seed, k + N as nat))
}

/// A generator as its users see it: what it was seeded with, and how many
/// numbers have been drawn since.
pub ghost struct Drawn {
    pub seed: u32,
    pub count: nat,
}

impl Drawn {
    /// The number that the next draw gives.
    pub open spec fn head(self) -> u32 {
        output(self.seed, self.count)
    }

    /// The generator after `n` more draws.
    pub open spec fn after(self, n: nat) -> Drawn {
        Drawn { seed: self.seed, count: self.count + n }
    }
}

pub struct Random {
    mt: [u32; 624],
    at: usize,
    drawn: Ghost<Drawn>,
}

impl View for Random {
    type V = Drawn;

    closed spec fn view(&self) -> Drawn {
        self.drawn@
    }
}

/// The state holds a window of the seed's sequence, and `at` is the place in
/// the window that the next draw reads.
spec fn tracks(mt: Seq<u32>, at: nat, drawn: Drawn) -> bool {
    &&& mt.len() == N
    &&& at <= N
    &&& at <= drawn.count + N
    &&& forall|i: int|
        0 <= i < N ==> #[trigger] mt[i] == term(drawn.seed, (drawn.count - at + N + i) as nat)
}

fn seeded(seed: u32) -> (mt: [u32; 624])
    ensures
        tracks(mt@, N as nat, Drawn { seed, count: 0 }),
        mt@ == seeded_words(seed),
{
    let mut mt: [u32; 624] = [0u32; 624];
    mt[0] = seed | 1;
    let mut i: usize = 1;
    while i < N
        invariant
            1 <= i <= N,
            mt@.len() == N,
            forall|j: int| 0 <= j < i ==> #[trigger] mt@[j] == term(seed, j as nat),
        decreases N - i,
    {
        let before: u32 = mt[i - 1];
        mt[i] = before.wrapping_mul(SEED_MULTIPLIER);
        i = i + 1;
    }
    assert(mt@ =~= seeded_words(seed));
    mt
}

impl Random {
    #[verifier::type_invariant]
    spec fn holds(self) -> bool {
        tracks(self.mt@, self.at as nat, self.drawn@)
    }

    /// The words that the generator holds.
    pub closed spec fn window(&self) -> Seq<u32> {
        self.mt@
    }

    /// The place in the window that the next draw reads. At the end of the
    /// window there is none, and the next draw twists it first.
    pub closed spec fn place(&self) -> nat {
        self.at as nat
    }

    /// Start the sequence of `seed` from its beginning.
    pub fn seed(&mut self, seed: u32)
        ensures
            final(self)@ == (Drawn { seed, count: 0 }),
            final(self).window() == seeded_words(seed),
            final(self).place() == N,
    {
        let mt = seeded(seed);
        *self = Random { mt, at: N, drawn: Ghost(Drawn { seed, count: 0 }) };
    }

    /// Replace the whole window by the one that follows it. Nothing is drawn.
    fn twist(&mut self)
        requires
            old(self).is_spent(),
        ensures
            final(self)@ == old(self)@,
            final(self).at == 0,
            final(self).window() == twisted(old(self).window()),
    {
        proof {
            use_type_invariant(&*self);
        }
        let ghost drawn = self.drawn@;
        let mut mt: [u32; 624] = self.mt;
        let ghost whole = mt@;
        let ghost from: int = drawn.count as int;
        let mut i: usize = 0;
        while i < N
            invariant
                i <= N,
                mt@.len() == N,
                mt@ == twisted_to(whole, i as int),
                from >= 0,
                forall|j: int|
                    0 <= j < i ==> #[trigger] mt@[j] == term(drawn.seed, (from + N + j) as nat),
                forall|j: int|
                    i <= j < N ==> #[trigger] mt@[j] == term(drawn.seed, (from + j) as nat),
            decreases N - i,
        {
            let this: u32 = mt[i];
            let neighbour: u32 = mt[(i + 1) % N];
            let ahead: u32 = mt[(i + M) % N];
            proof {
                let k: nat = (from + N + i) as nat;
                assert(this == term(drawn.seed, (k - N) as nat));
                if i + 1 < N {
                    assert((i + 1) % N as int == i + 1);
                    assert(neighbour == term(drawn.seed, (k - N + 1) as nat));
                } else {
                    assert((i + 1) % N as int == 0);
                    assert(neighbour == term(drawn.seed, (from + N + 0) as nat));
                }
                if i + M < N {
                    assert((i + M) % N as int == i + M);
                } else {
                    assert((i + M) % N as int == i + M - N);
                }
                assert(ahead == term(drawn.seed, (k - N + M) as nat));
            }
            let y: u32 = (this & UPPER) | (neighbour & LOWER);
            let odd: u32 = if y & 1 != 0 {
                MATRIX_A
            } else {
                0
            };
            let ghost before = mt@;
            mt[i] = ahead ^ (y >> 1) ^ odd;
            assert(mt@ =~= before.update(i as int, mixed(this, neighbour, ahead)));
            i = i + 1;
        }
        *self = Random { mt, at: 0, drawn: Ghost(drawn) };
    }

    /// Has the window nothing left to draw?
    spec fn is_spent(self) -> bool {
        self.at == N
    }

    /// Draw the next number of the sequence.
    pub fn next_u32(&mut self) -> (r: u32)
        ensures
            r == old(self)@.head(),
            final(self)@ == old(self)@.after(1),
            if old(self).place() < N {
                &&& final(self).window() == old(self).window()
                &&& final(self).place() == old(self).place() + 1
                &&& r == tempered(final(self).window()[old(self).place() as int])
            } else {
                &&& final(self).window() == twisted(old(self).window())
                &&& final(self).place() == 1
                &&& r == tempered(final(self).window()[0])
            },
            1 <= final(self).place() <= N,
            final(self).window().len() == N,
    {
        proof {
            use_type_invariant(&*self);
        }
        if self.at >= N {
            self.twist();
        }
        proof {
            use_type_invariant(&*self);
        }
        let mut y: u32 = self.mt[self.at];
        let ghost drawn = self.drawn@;
        assert(y == term(drawn.seed, drawn.count + N as nat));
        let mt: [u32; 624] = self.mt;
        let at: usize = self.at + 1;
        *self = Random { mt, at, drawn: Ghost(drawn.after(1)) };
        y = y ^ (y >> 11);
        y = y ^ ((y << 7) & 0x9d2c_5680);
        y = y ^ ((y << 15) & 0xefc6_0000);
        y ^ (y >> 18)
    }
}

impl Default for Random {
    fn default() -> (r: Random)
        ensures
            r@ == (Drawn { seed: DEFAULT_SEED, count: 0 }),
            r.window() == seeded_words(DEFAULT_SEED),
            r.place() == N,
    {
        let mt = seeded(DEFAULT_SEED);
        Random { mt, at: N, drawn: Ghost(Drawn { seed: DEFAULT_SEED, count: 0 }) }
    }
}

/// What a draw is divided by to make a fraction. It is the greatest draw there
/// is, so that the fraction can be one: the range is closed at both ends.
pub const WHOLE: u32 = 0xffff_ffff;

/// A chance: which draws come out under it, and which no higher than it. A draw
/// stands for the fraction of [`WHOLE`] that it is, so a chance that is a
/// fraction is a number of draws.
#[derive(Clone, Copy, Debug, PartialEq, Eq, Structural)]
pub struct Odds {
    /// How many draws come out under the chance.
    pub below: u64,
    /// How many come out no higher than it.
    pub at_most: u64,
}

impl Odds {
    /// Does this draw come out under the chance?
    pub open spec fn beats(self, draw: u32) -> bool {
        draw < self.below
    }

    /// Does this draw come out no higher than the chance?
    pub open spec fn meets(self, draw: u32) -> bool {
        draw < self.at_most
    }

    /// The chance of `num` in `den`.
    pub fn of(num: u32, den: u32) -> (o: Odds)
        requires
            den > 0,
        ensures
            forall|draw: u32|
                #![trigger o.beats(draw)]
                o.beats(draw) <==> draw * den < num * WHOLE,
            forall|draw: u32|
                #![trigger o.meets(draw)]
                o.meets(draw) <==> draw * den <= num * WHOLE,
    {
        assert(0 <= num * WHOLE <= 0xffff_fffe_0000_0001) by (nonlinear_arith)
            requires
                0 <= num <= 0xffff_ffff,
                WHOLE == 0xffff_ffff,
        ;
        let share: u64 = num as u64 * WHOLE as u64;
        let whole: u64 = share / den as u64;
        let left: u64 = share % den as u64;
        let below: u64 = if left == 0 {
            whole
        } else {
            whole + 1
        };
        let o = Odds { below, at_most: whole + 1 };
        proof {
            let d: int = den as int;
            vstd::arithmetic::div_mod::lemma_fundamental_div_mod(share as int, d);
            assert forall|draw: u32| #![trigger o.beats(draw)] o.beats(draw) <==> draw * den < num
                * WHOLE by {
                odds_line(draw as int, d, share as int, whole as int, left as int);
            }
            assert forall|draw: u32| #![trigger o.meets(draw)] o.meets(draw) <==> draw * den <= num
                * WHOLE by {
                odds_line(draw as int, d, share as int, whole as int, left as int);
            }
        }
        o
    }
}

proof fn odds_line(draw: int, den: int, share: int, whole: int, left: int)
    by (nonlinear_arith)
    requires
        draw >= 0,
        den > 0,
        share == den * whole + left,
        0 <= left < den,
    ensures
        draw <= whole ==> draw * den <= share,
        draw >= whole + 1 ==> draw * den > share,
        left == 0 && draw >= whole ==> draw * den >= share,
        left == 0 && draw < whole ==> draw * den < share,
        left > 0 && draw <= whole ==> draw * den < share,
{
}

/// Draw, and say whether that came out under the chance.
pub fn roll_beats(random: &mut Random, odds: &Odds) -> (r: bool)
    ensures
        r == odds.beats(old(random)@.head()),
        final(random)@ == old(random)@.after(1),
{
    let draw: u32 = random.next_u32();
    (draw as u64) < odds.below
}

/// Draw, and say whether that came out no higher than the chance.
pub fn roll_meets(random: &mut Random, odds: &Odds) -> (r: bool)
    ensures
        r == odds.meets(old(random)@.head()),
        final(random)@ == old(random)@.after(1),
{
    let draw: u32 = random.next_u32();
    (draw as u64) < odds.at_most
}

/// A chance of nothing is never beaten, and a certain one is met by every draw
/// but beaten by all but the greatest: that draw stands for one, exactly.
pub proof fn the_range_is_closed(never: Odds, always: Odds, draw: u32)
    requires
        forall|d: u32| #[trigger] never.beats(d) <==> d * 1 < 0 * WHOLE,
        forall|d: u32| #[trigger] always.meets(d) <==> d * 1 <= 1 * WHOLE,
        forall|d: u32| #[trigger] always.beats(d) <==> d * 1 < 1 * WHOLE,
    ensures
        !never.beats(draw),
        always.meets(draw),
        always.beats(draw) <==> draw != WHOLE,
{
}

} // verus!
