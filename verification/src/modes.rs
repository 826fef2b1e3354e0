//! Who is being played, and as what.
use vstd::prelude::*;

verus! {

/// The play modes: which object plays each, the mode that was last asked for,
/// and who the player is.
pub struct PlayModes {
    /// The modes and who plays each, the latest word last.
    pub gobs: Vec<(i64, String)>,
    pub mode: i64,
    pub player: Option<String>,
}

/// Who plays a mode by the first `n` of these: the latest word counts.
pub open spec fn player_of(gobs: Seq<(i64, String)>, mode: i64, n: int) -> Option<String>
    decreases n,
{
    if n <= 0 {
        None
    } else if gobs[n - 1].0 == mode {
        Some(gobs[n - 1].1)
    } else {
        player_of(gobs, mode, n - 1)
    }
}

impl PlayModes {
    /// Who plays a mode.
    pub open spec fn plays(&self, mode: i64) -> Option<String> {
        player_of(self.gobs@, mode, self.gobs@.len() as int)
    }

    /// Nobody, and as nothing.
    pub fn new() -> (m: PlayModes)
        ensures
            m.mode == 0,
            m.player is None,
            forall|mode: i64| #[trigger] m.plays(mode) is None,
    {
        PlayModes { gobs: Vec::new(), mode: 0, player: None }
    }

    /// This object plays this mode, and is the player from now on.
    pub fn set_gob(&mut self, mode: i64, name: String)
        ensures
            final(self).plays(mode) matches Some(n) && n@ == name@,
            forall|m: i64| m != mode ==> #[trigger] final(self).plays(m) == old(self).plays(m),
            final(self).mode == old(self).mode,
            final(self).player matches Some(p) && p@ == name@,
    {
        let ghost was = self.gobs@;
        self.gobs.push((mode, name.clone()));
        self.player = Some(name);
        proof {
            assert forall|m: i64| m != mode implies #[trigger] self.plays(m) == old(self).plays(
                m,
            ) by {
                same_player(self.gobs@, was, m, was.len() as int);
            }
        }
    }

    /// Who plays a mode.
    pub fn player_in(&self, mode: i64) -> (r: Option<&String>)
        ensures
            match r {
                Some(n) => self.plays(mode) == Some(*n),
                None => self.plays(mode) is None,
            },
    {
        let mut n: usize = self.gobs.len();
        while n > 0
            invariant
                n <= self.gobs@.len(),
                self.plays(mode) == player_of(self.gobs@, mode, n as int),
            decreases n,
        {
            if self.gobs[n - 1].0 == mode {
                return Some(&self.gobs[n - 1].1);
            }
            n -= 1;
        }
        None
    }

    /// Ask for a mode. Whether that is another than it was: then the room that
    /// the player is in is told, before [`PlayModes::commit`] makes the player
    /// whoever plays the mode.
    pub fn ask(&mut self, mode: i64) -> (changed: bool)
        ensures
            changed == (old(self).mode != mode),
            final(self).mode == mode,
            final(self).gobs == old(self).gobs,
            final(self).player == old(self).player,
    {
        let changed: bool = self.mode != mode;
        self.mode = mode;
        changed
    }

    /// The player is whoever plays this mode; where nobody does, it stays who
    /// it was.
    pub fn commit(&mut self, mode: i64) -> (r: bool)
        ensures
            r == (old(self).plays(mode) is Some),
            match old(self).plays(mode) {
                Some(n) => final(self).player matches Some(p) && p@ == n@,
                None => final(self).player == old(self).player,
            },
            final(self).gobs == old(self).gobs,
            final(self).mode == old(self).mode,
    {
        let who = match self.player_in(mode) {
            Some(n) => n.clone(),
            None => {
                return false;
            },
        };
        self.player = Some(who);
        true
    }
}

proof fn same_player(a: Seq<(i64, String)>, b: Seq<(i64, String)>, mode: i64, n: int)
    requires
        0 <= n <= a.len(),
        n <= b.len(),
        forall|i: int| 0 <= i < n ==> a[i] == b[i],
    ensures
        player_of(a, mode, n) == player_of(b, mode, n),
    decreases n,
{
    if n > 0 {
        same_player(a, b, mode, n - 1);
    }
}

/// Whoever was named last for a mode plays it; a mode that nobody was named for
/// is played by nobody.
pub proof fn the_latest_word_counts(gobs: Seq<(i64, String)>, mode: i64, n: int, k: int)
    requires
        0 <= n <= gobs.len(),
    ensures
        0 <= k < n && gobs[k].0 == mode && (forall|j: int|
            k < j < n ==> (#[trigger] gobs[j]).0 != mode) ==> player_of(gobs, mode, n) == Some(
            gobs[k].1,
        ),
        (forall|j: int| 0 <= j < n ==> (#[trigger] gobs[j]).0 != mode) ==> player_of(gobs, mode, n)
            is None,
    decreases n,
{
    if n > 0 {
        the_latest_word_counts(gobs, mode, n - 1, k);
        if 0 <= k < n && gobs[k].0 == mode && (forall|j: int|
            k < j < n ==> (#[trigger] gobs[j]).0 != mode) {
            if k < n - 1 {
                assert(gobs[n - 1].0 != mode);
            }
        }
        if forall|j: int| 0 <= j < n ==> (#[trigger] gobs[j]).0 != mode {
            assert(gobs[n - 1].0 != mode);
        }
    }
}

/// A mode is played by whoever the last word on it names.
pub proof fn a_mode_is_played_by_the_last_named(m: &PlayModes, mode: i64, k: int)
    ensures
        0 <= k < m.gobs@.len() && m.gobs@[k].0 == mode && (forall|j: int|
            k < j < m.gobs@.len() ==> (#[trigger] m.gobs@[j]).0 != mode) ==> m.plays(mode) == Some(
            m.gobs@[k].1,
        ),
        (forall|j: int| 0 <= j < m.gobs@.len() ==> (#[trigger] m.gobs@[j]).0 != mode) ==> m.plays(
            mode,
        ) is None,
{
    the_latest_word_counts(m.gobs@, mode, m.gobs@.len() as int, k);
}

} // verus!
