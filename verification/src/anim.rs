//! Which animation an object plays, when it comes round, and what it strikes.
use crate::measure;
use crate::names::Names;
use crate::tables;
use vstd::prelude::*;

verus! {

/// What the objects play. The times themselves are kept by whoever keeps the
/// clock: a play starts from the beginning.
pub struct Anims {
    /// The animation that an object has been told to play.
    pub playing: Names<i64>,
    /// What came round on the last tick, and which animation of it.
    pub looped: Names<i64>,
    /// What has run to its end and stopped there.
    pub done: Names<()>,
}

/// Is this a pose that the legs may take back: nothing, or one of the gaits?
pub open spec fn is_gait(anim: Option<i64>) -> bool {
    match anim {
        Some(a) => tables::GAIT_ANIM@.contains(a) || tables::GAIT_ANIM_HURT@.contains(a),
        None => true,
    }
}

fn gait_up(anim: Option<i64>) -> (r: bool)
    ensures
        r == is_gait(anim),
{
    match anim {
        None => true,
        Some(a) => {
            let mut i: usize = 0;
            while i < 4
                invariant
                    i <= 4,
                    anim == Some(a),
                    forall|j: int|
                        0 <= j < i ==> tables::GAIT_ANIM@[j] != a && tables::GAIT_ANIM_HURT@[j]
                            != a,
                decreases 4 - i,
            {
                if tables::GAIT_ANIM[i] == a {
                    assert(tables::GAIT_ANIM@[i as int] == a);
                    return true;
                }
                if tables::GAIT_ANIM_HURT[i] == a {
                    assert(tables::GAIT_ANIM_HURT@[i as int] == a);
                    return true;
                }
                i += 1;
            }
            false
        },
    }
}

impl Anims {
    /// What an object plays.
    pub open spec fn up(&self, who: Seq<char>) -> Option<i64> {
        if self.playing@.contains_key(who) {
            Some(self.playing@[who])
        } else {
            None
        }
    }

    /// May the legs of a walker take the pose back? They may when nothing is
    /// up, when a gait is, and when what is up has come round.
    pub open spec fn free(&self, who: Seq<char>) -> bool {
        self.looped@.contains_key(who) || is_gait(self.up(who))
    }

    /// Nothing plays.
    pub fn new() -> (a: Anims)
        ensures
            a.playing@ == Map::<Seq<char>, i64>::empty(),
            a.looped@ == Map::<Seq<char>, i64>::empty(),
            a.done@ == Map::<Seq<char>, ()>::empty(),
    {
        Anims { playing: Names::new(), looped: Names::new(), done: Names::new() }
    }

    /// Play an animation, and be done with none.
    pub fn play(&mut self, who: &str, anim: i64)
        ensures
            final(self).playing@ == old(self).playing@.insert(who@, anim),
            final(self).done@ == old(self).done@.remove(who@),
            final(self).looped@ == old(self).looped@,
    {
        self.playing.insert(who.to_owned(), anim);
        self.done.remove(who);
    }

    /// Put a pose up. It leaves what is done as it is.
    pub fn pose(&mut self, who: &str, anim: i64)
        ensures
            final(self).playing@ == old(self).playing@.insert(who@, anim),
            final(self).done@ == old(self).done@,
            final(self).looped@ == old(self).looped@,
    {
        self.playing.insert(who.to_owned(), anim);
    }

    /// Play nothing.
    pub fn stop(&mut self, who: &str)
        ensures
            final(self).playing@ == old(self).playing@.remove(who@),
            final(self).done@ == old(self).done@,
            final(self).looped@ == old(self).looped@,
    {
        self.playing.remove(who);
    }

    /// What an object plays.
    pub fn playing(&self, who: &str) -> (r: Option<i64>)
        ensures
            r == self.up(who@),
    {
        match self.playing.get(who) {
            Some(a) => Some(*a),
            None => None,
        }
    }

    /// Is an object playing this animation, or any where none is named? One
    /// that has run to its end is not playing.
    pub fn is_playing(&self, who: &str, want: Option<i64>) -> (r: bool)
        ensures
            r == (self.up(who@) is Some && !self.done@.contains_key(who@) && (want is Some ==> want
                == self.up(who@))),
    {
        match self.playing(who) {
            None => false,
            Some(a) => {
                if self.done.has(who) {
                    return false;
                }
                match want {
                    Some(b) => a == b,
                    None => true,
                }
            },
        }
    }

    /// Did this animation of an object, or any where none is named, come round
    /// on the last tick?
    pub fn just_looped(&self, who: &str, want: Option<i64>) -> (r: bool)
        ensures
            r == (self.looped@.contains_key(who@) && (want matches Some(b) ==> b
                == self.looped@[who@])),
    {
        match self.looped.get(who) {
            None => false,
            Some(a) => match want {
                Some(b) => *a == b,
                None => true,
            },
        }
    }

    /// Ask a walker to play an animation. It does so where its model has it and
    /// its legs may take the pose: whether it does.
    pub fn walker_play(&mut self, who: &str, anim: i64, carries: bool) -> (r: bool)
        ensures
            r == (carries && old(self).free(who@)),
            final(self).playing@ == (if r {
                old(self).playing@.insert(who@, anim)
            } else {
                old(self).playing@
            }),
            final(self).done@ == old(self).done@,
            final(self).looped@ == old(self).looped@,
    {
        if !carries {
            return false;
        }
        if !self.looped.has(who) && !gait_up(self.playing(who)) {
            return false;
        }
        self.playing.insert(who.to_owned(), anim);
        true
    }

    /// The pose that the legs of a walker put up: the animation of its gait,
    /// where that is not up already and the walker moves or its legs may take
    /// the pose back.
    pub fn legs(&self, who: &str, kind: i64, gait: i64, hitpoints: i16) -> (r: Option<i64>)
        ensures
            r == (match tables::gait_animation_of(kind, gait, hitpoints) {
                Some(want) => if self.up(who@) != Some(want) && (gait != 0 || self.free(who@)) {
                    Some(want)
                } else {
                    None
                },
                None => None,
            }),
    {
        match tables::gait_animation(kind, gait, hitpoints) {
            None => None,
            Some(want) => {
                let up = self.playing(who);
                let same: bool = match up {
                    Some(a) => a == want,
                    None => false,
                };
                if same {
                    return None;
                }
                if gait != 0 || self.looped.has(who) || gait_up(up) {
                    Some(want)
                } else {
                    None
                }
            },
        }
    }

    /// A tick begins: nothing has come round yet.
    pub fn begin(&mut self)
        ensures
            final(self).looped@ == Map::<Seq<char>, i64>::empty(),
            final(self).playing@ == old(self).playing@,
            final(self).done@ == old(self).done@,
    {
        self.looped = Names::new();
    }

    /// An animation has come round. A one-shot stops at its end, any other goes
    /// on.
    pub fn came_round(&mut self, who: &str, anim: i64, oneshot: bool)
        ensures
            final(self).looped@ == old(self).looped@.insert(who@, anim),
            final(self).done@ == (if oneshot {
                old(self).done@.insert(who@, ())
            } else {
                old(self).done@.remove(who@)
            }),
            final(self).playing@ == old(self).playing@,
    {
        self.looped.insert(who.to_owned(), anim);
        if oneshot {
            self.done.insert(who.to_owned(), ());
        } else {
            self.done.remove(who);
        }
    }
}

/// A walker that shoots is not pulled out of it by its own legs: while it
/// stands, the pose stays until it has come round.
pub proof fn a_pose_is_held_for_one_round(a: &Anims, who: Seq<char>, pose: i64)
    requires
        a.playing@.contains_key(who),
        a.playing@[who] == pose,
        !is_gait(Some(pose)),
    ensures
        a.free(who) <==> a.looped@.contains_key(who),
{
}

// ---------------------------------------------------------------------------
// The keys on an animation
// ---------------------------------------------------------------------------
/// A stretch of an animation's clock: where it was, where it is, and how long
/// the animation lasts. `before` and `behind` are where it is less a whole
/// round, and with one more.
#[derive(Clone, Copy, Debug, PartialEq, Eq, Structural)]
pub struct Stretch {
    pub was: i64,
    pub now: i64,
    pub span: i64,
    pub before: i64,
    pub behind: i64,
    /// It runs backwards.
    pub backwards: bool,
}

impl Stretch {
    /// Has the clock come round? An animation without a length never does.
    pub open spec fn wrapped(self) -> bool {
        self.span > 0 && !(0 <= self.now < self.span)
    }

    /// Is a key at this time passed? Over the wrap the stretch is in two
    /// pieces.
    pub open spec fn passes(self, at: i64) -> bool {
        if self.wrapped() {
            if self.backwards {
                at < self.was || at >= self.behind
            } else {
                at > self.was || at <= self.before
            }
        } else if self.backwards {
            self.now <= at < self.was
        } else {
            self.was < at <= self.now
        }
    }

    /// Has the clock come round?
    pub fn wraps(&self) -> (r: bool)
        ensures
            r == self.wrapped(),
    {
        self.span > 0 && !(0 <= self.now && self.now < self.span)
    }

    fn strikes(&self, at: i64) -> (r: bool)
        ensures
            r == self.passes(at),
    {
        if self.wraps() {
            if self.backwards {
                at < self.was || at >= self.behind
            } else {
                at > self.was || at <= self.before
            }
        } else if self.backwards {
            self.now <= at && at < self.was
        } else {
            self.was < at && at <= self.now
        }
    }
}

/// A key of a model: on which animation it is, at what time, and its code.
pub type Key = (i64, i64, i64);

/// The codes of those of the first `n` keys that are struck.
pub open spec fn struck_of(keys: Seq<Key>, anim: i64, s: Stretch, n: int) -> Seq<i64>
    decreases n,
{
    if n <= 0 {
        seq![]
    } else {
        let rest = struck_of(keys, anim, s, n - 1);
        if keys[n - 1].0 == anim && s.passes(keys[n - 1].1) {
            rest.push(keys[n - 1].2)
        } else {
            rest
        }
    }
}

/// The codes of the keys that an animation strikes on this stretch.
pub fn struck(keys: &Vec<Key>, anim: i64, s: &Stretch) -> (out: Vec<i64>)
    ensures
        out@ == struck_of(keys@, anim, *s, keys@.len() as int),
{
    let n: usize = keys.len();
    let mut out: Vec<i64> = Vec::new();
    let mut i: usize = 0;
    while i < n
        invariant
            n == keys@.len(),
            i <= n,
            out@ == struck_of(keys@, anim, *s, i as int),
        decreases n - i,
    {
        if keys[i].0 == anim && s.strikes(keys[i].1) {
            out.push(keys[i].2);
        }
        i += 1;
    }
    out
}

/// Running on, every key is struck exactly once a round: over a stretch and the
/// one behind it that comes round to where the first began.
pub proof fn a_key_is_struck_once_a_round(first: Stretch, over: Stretch, at: i64)
    requires
        !first.backwards && !over.backwards,
        !first.wrapped(),
        over.wrapped(),
        first.span == over.span,
        first.now == over.was,
        first.was <= first.now,
        over.before == first.was,
    ensures
        first.passes(at) || over.passes(at),
        !(first.passes(at) && over.passes(at)),
{
}

/// What a key does.
#[derive(Clone, Copy, Debug, PartialEq, Eq, Structural)]
pub enum Stroke {
    /// Make an object of this type.
    Object(i64),
    /// Call the handler for keys of its own with this code.
    Custom(i64),
    /// Shake the ground, so hard.
    Earthquake(i64),
    /// Flash the screen, so brightly.
    ScreenFlash(i64),
    /// Nothing.
    Nothing,
}

pub open spec fn stroke_of(code: i64) -> Stroke {
    if code >= 100 {
        Stroke::Object(code)
    } else if 1 <= code < 20 {
        Stroke::Custom(code)
    } else if 20 <= code < 30 {
        Stroke::Earthquake((code - 19) as i64)
    } else if 30 <= code < 100 {
        Stroke::ScreenFlash((code - 29) as i64)
    } else {
        Stroke::Nothing
    }
}

/// What the key of this code does.
pub fn stroke(code: i64) -> (r: Stroke)
    ensures
        r == stroke_of(code),
{
    if code >= 100 {
        Stroke::Object(code)
    } else if 1 <= code && code < 20 {
        Stroke::Custom(code)
    } else if 20 <= code && code < 30 {
        Stroke::Earthquake(code - 19)
    } else if 30 <= code && code < 100 {
        Stroke::ScreenFlash(code - 29)
    } else {
        Stroke::Nothing
    }
}

// ---------------------------------------------------------------------------
// Locomotion
// ---------------------------------------------------------------------------
/// The name of the animation for a way of going: `f` forwards, `b` backwards,
/// `l` to the left, `r` to the right.
pub open spec fn run_name(f: bool, b: bool, l: bool, r: bool) -> &'static str {
    if f {
        if l {
            "ANIM_RUNFL"
        } else if r {
            "ANIM_RUNFR"
        } else {
            "ANIM_RUNF"
        }
    } else if b {
        if l {
            "ANIM_RUNBL"
        } else if r {
            "ANIM_RUNBR"
        } else {
            "ANIM_RUNB"
        }
    } else if l {
        "ANIM_RUNL"
    } else if r {
        "ANIM_RUNR"
    } else {
        "ANIM_DEFAULT"
    }
}

/// Which animation a walker should be playing, from where it is going in its
/// own frame. Up to a tenth of a unit it does not count as going.
pub fn walk_animation(forward: i64, right: i64) -> (r: &'static str)
    ensures
        r@ == run_name(
            forward > measure::TENTH,
            forward < -measure::TENTH,
            right < -measure::TENTH,
            right > measure::TENTH,
        )@,
{
    let f: bool = forward > measure::TENTH;
    let b: bool = forward < -measure::TENTH;
    let l: bool = right < -measure::TENTH;
    let r: bool = right > measure::TENTH;
    if f {
        if l {
            "ANIM_RUNFL"
        } else if r {
            "ANIM_RUNFR"
        } else {
            "ANIM_RUNF"
        }
    } else if b {
        if l {
            "ANIM_RUNBL"
        } else if r {
            "ANIM_RUNBR"
        } else {
            "ANIM_RUNB"
        }
    } else if l {
        "ANIM_RUNL"
    } else if r {
        "ANIM_RUNR"
    } else {
        "ANIM_DEFAULT"
    }
}

// ---------------------------------------------------------------------------
// What holds of them
// ---------------------------------------------------------------------------
/// The poses that the legs may take back are the gaits, sound or limping, and
/// none; and whatever is up that has come round on this tick.
pub proof fn the_legs_take_back_a_gait(a: &Anims, who: Seq<char>, pose: i64)
    ensures
        is_gait(Some(pose)) <==> pose == 107 || pose == 6 || pose == 7 || pose == 8 || pose == 82
            || pose == 77,
        is_gait(None),
        a.looped@.contains_key(who) ==> a.free(who),
        !a.playing@.contains_key(who) ==> a.free(who),
        a.playing@.contains_key(who) && !a.looped@.contains_key(who) ==> (a.free(who) <==> is_gait(
            Some(a.playing@[who]),
        )),
        a.up(who) == (if a.playing@.contains_key(who) {
            Some(a.playing@[who])
        } else {
            None
        }),
{
    assert(tables::GAIT_ANIM@[0] == 107 && tables::GAIT_ANIM@[1] == 6 && tables::GAIT_ANIM@[2] == 7
        && tables::GAIT_ANIM@[3] == 8);
    assert(tables::GAIT_ANIM_HURT@[0] == 82 && tables::GAIT_ANIM_HURT@[1] == 77
        && tables::GAIT_ANIM_HURT@[2] == 7 && tables::GAIT_ANIM_HURT@[3] == 8);
}

/// A clock inside its animation has passed what lies behind where it was, up to
/// where it is; running backwards, what lies before where it was, down to where
/// it is. A clock that has come round has passed what was left of the round,
/// and what it has gone of the next.
pub proof fn a_key_is_passed_by_the_clock(s: Stretch, at: i64)
    ensures
        s.wrapped() <==> s.span > 0 && (s.now < 0 || s.now >= s.span),
        (s.span <= 0 || 0 <= s.now < s.span) && !s.backwards ==> (s.passes(at) <==> s.was < at
            && at <= s.now),
        (s.span <= 0 || 0 <= s.now < s.span) && s.backwards ==> (s.passes(at) <==> s.now <= at
            && at < s.was),
        s.span > 0 && (s.now < 0 || s.now >= s.span) && !s.backwards ==> (s.passes(at) <==> s.was
            < at || at <= s.before),
        s.span > 0 && (s.now < 0 || s.now >= s.span) && s.backwards ==> (s.passes(at) <==> at
            < s.was || s.behind <= at),
{
}

/// One more key is struck exactly if it is on the animation that plays, and the
/// clock has passed it; then its code comes behind the others.
pub proof fn every_key_is_asked(keys: Seq<Key>, anim: i64, s: Stretch, n: int)
    requires
        0 <= n < keys.len(),
    ensures
        struck_of(keys, anim, s, 0) == Seq::<i64>::empty(),
        keys[n].0 == anim && s.passes(keys[n].1) ==> struck_of(keys, anim, s, n + 1) == struck_of(
            keys,
            anim,
            s,
            n,
        ).push(keys[n].2),
        keys[n].0 != anim || !s.passes(keys[n].1) ==> struck_of(keys, anim, s, n + 1) == struck_of(
            keys,
            anim,
            s,
            n,
        ),
{
}

/// A key with the code of a type makes one of it; the first nineteen codes are
/// the object's own, the next ten shake the ground, from one up to ten, and the
/// seventy behind them flash the screen, from one up to seventy. No other code
/// does anything.
pub proof fn a_code_says_what_is_struck(code: i64)
    ensures
        code >= 100 ==> stroke_of(code) == Stroke::Object(code),
        1 <= code <= 19 ==> stroke_of(code) == Stroke::Custom(code),
        20 <= code <= 29 ==> stroke_of(code) == Stroke::Earthquake((code - 19) as i64),
        30 <= code <= 99 ==> stroke_of(code) == Stroke::ScreenFlash((code - 29) as i64),
        code <= 0 ==> stroke_of(code) == Stroke::Nothing,
{
}

/// The animation for going somewhere is named for running: with an `F` for
/// forwards or a `B` for backwards, and an `L` or an `R` behind it for the side.
/// Whoever goes nowhere plays the default.
pub proof fn the_run_is_named_for_its_way(f: bool, b: bool, l: bool, r: bool)
    ensures
        f || b || l || r ==> run_name(f, b, l, r)@ == "ANIM_RUN"@ + (if f {
            seq!['F']
        } else if b {
            seq!['B']
        } else {
            seq![]
        }) + (if l {
            seq!['L']
        } else if r {
            seq!['R']
        } else {
            seq![]
        }),
        !f && !b && !l && !r ==> run_name(f, b, l, r)@ == "ANIM_DEFAULT"@,
{
    reveal_strlit("ANIM_RUN");
    reveal_strlit("ANIM_RUNFL");
    reveal_strlit("ANIM_RUNFR");
    reveal_strlit("ANIM_RUNF");
    reveal_strlit("ANIM_RUNBL");
    reveal_strlit("ANIM_RUNBR");
    reveal_strlit("ANIM_RUNB");
    reveal_strlit("ANIM_RUNL");
    reveal_strlit("ANIM_RUNR");
    let ahead: Seq<char> = if f {
        seq!['F']
    } else if b {
        seq!['B']
    } else {
        seq![]
    };
    let aside: Seq<char> = if l {
        seq!['L']
    } else if r {
        seq!['R']
    } else {
        seq![]
    };
    if f || b || l || r {
        assert(run_name(f, b, l, r)@ =~= "ANIM_RUN"@ + ahead + aside);
    }
}

} // verus!
