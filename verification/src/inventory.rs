//! What a character carries.
//!
//! A character has two hands, and a bank of slots for each. An item belongs to
//! one of the banks, and a bank has a slot for every type in it, with a count;
//! a count below nought stands for as many as are wanted.
use vstd::prelude::*;

verus! {

/// How many slots a bank has.
pub const SLOTS: usize = 7;

/// The type that stands for nothing at all.
pub const NOTHING: i64 = 399;

/// The count that stands for as many as are wanted.
pub const UNLIMITED: i64 = -1;

/// One bank of slots: each a type and a count.
pub struct Bank {
    slots: Vec<(i64, i64)>,
}

/// What giving comes to in a slot that is there already: a limited count grows
/// by a limited count, and anything else is unlimited.
pub open spec fn pooled(had: i64, count: i64) -> int {
    if had >= 0 && count >= 0 {
        had + count
    } else {
        UNLIMITED as int
    }
}

/// How many are given: as many as are wanted where the type is not counted.
pub open spec fn given(count: i64, gives: Option<i64>) -> i64 {
    if gives matches Some(g) && g < 0 {
        UNLIMITED
    } else {
        count
    }
}

impl Bank {
    /// The slots in their order.
    pub closed spec fn slots(&self) -> Seq<(i64, i64)> {
        self.slots@
    }

    /// Does the slot `i` hold this type?
    pub open spec fn holds(&self, kind: i64, i: int) -> bool {
        0 <= i < self.slots().len() && self.slots()[i].0 == kind
    }

    /// Is this type in the bank?
    pub open spec fn knows(&self, kind: i64) -> bool {
        exists|i: int| self.holds(kind, i)
    }

    /// The slot that holds a type.
    pub open spec fn slot_of(&self, kind: i64) -> int {
        choose|i: int| self.holds(kind, i)
    }

    /// How many of a type there are.
    pub open spec fn count(&self, kind: i64) -> i64 {
        if self.knows(kind) {
            self.slots()[self.slot_of(kind)].1
        } else {
            0
        }
    }

    /// No more slots than there are, and no type in two of them.
    #[verifier::type_invariant]
    spec fn wf(self) -> bool {
        &&& self.slots@.len() <= SLOTS
        &&& forall|i: int, j: int|
            0 <= i < j < self.slots@.len() ==> (#[trigger] self.slots@[i]).0 != (
            #[trigger] self.slots@[j]).0
    }

    /// An empty bank.
    pub fn new() -> (b: Bank)
        ensures
            b.slots() == Seq::<(i64, i64)>::empty(),
    {
        Bank { slots: Vec::new() }
    }

    /// One slot: its type and its count.
    pub fn slot(&self, i: usize) -> (r: Option<(i64, i64)>)
        ensures
            r == (if i < self.slots().len() {
                Some(self.slots()[i as int])
            } else {
                None
            }),
    {
        if i < self.slots.len() {
            Some(self.slots[i])
        } else {
            None
        }
    }

    fn find(&self, kind: i64) -> (r: Option<usize>)
        ensures
            match r {
                Some(i) => self.holds(kind, i as int) && self.slot_of(kind) == i,
                None => !self.knows(kind),
            },
    {
        proof {
            use_type_invariant(self);
        }
        let n: usize = self.slots.len();
        let mut i: usize = 0;
        while i < n
            invariant
                n == self.slots@.len(),
                i <= n,
                forall|j: int| 0 <= j < i ==> !self.holds(kind, j),
                forall|a: int, b: int|
                    0 <= a < b < self.slots@.len() ==> (#[trigger] self.slots@[a]).0 != (
                    #[trigger] self.slots@[b]).0,
            decreases n - i,
        {
            if self.slots[i].0 == kind {
                proof {
                    assert(self.holds(kind, i as int));
                    let c = self.slot_of(kind);
                    assert(self.holds(kind, c));
                    if i < c {
                        assert(self.slots@[i as int].0 != self.slots@[c].0);
                    }
                }
                return Some(i);
            }
            i += 1;
        }
        assert forall|j: int| !self.holds(kind, j) by {
            if self.holds(kind, j) {
                assert(j < i);
            }
        }
        None
    }

    /// Give so many of a type. A type that is there gets more; one that is not
    /// takes a free slot, and is refused where there is none. Nothing, and no
    /// type, are never given. `gives` is what the table says is given of the
    /// type: below nought it is not counted.
    pub fn give(&mut self, kind: i64, count: i64, gives: Option<i64>)
        requires
            pooled(old(self).count(kind), given(count, gives)) <= i64::MAX,
        ensures
            ({
                let n = given(count, gives);
                if kind == 0 || kind == NOTHING {
                    final(self).slots() == old(self).slots()
                } else if old(self).knows(kind) {
                    final(self).slots() == old(self).slots().update(
                        old(self).slot_of(kind),
                        (kind, pooled(old(self).count(kind), n) as i64),
                    )
                } else if old(self).slots().len() < SLOTS {
                    final(self).slots() == old(self).slots().push((kind, n))
                } else {
                    final(self).slots() == old(self).slots()
                }
            }),
    {
        if kind == 0 || kind == NOTHING {
            return;
        }
        proof {
            use_type_invariant(&*self);
        }
        let endless: bool = match gives {
            Some(g) => g < 0,
            None => false,
        };
        let n: i64 = if endless {
            UNLIMITED
        } else {
            count
        };
        let ghost was = self.slots@;
        match self.find(kind) {
            Some(i) => {
                let had: i64 = self.slots[i].1;
                let now: i64 = if had >= 0 && n >= 0 {
                    had + n
                } else {
                    UNLIMITED
                };
                let mut slots: Vec<(i64, i64)> = Vec::new();
                std::mem::swap(&mut slots, &mut self.slots);
                slots.set(i, (kind, now));
                *self = Bank { slots };
            },
            None => {
                if self.slots.len() < SLOTS {
                    let mut slots: Vec<(i64, i64)> = Vec::new();
                    std::mem::swap(&mut slots, &mut self.slots);
                    slots.push((kind, n));
                    proof {
                        assert forall|a: int, b: int| 0 <= a < b < slots@.len() implies (
                        #[trigger] slots@[a]).0 != (#[trigger] slots@[b]).0 by {
                            if b == was.len() {
                                assert(!old(self).holds(kind, a));
                            }
                        }
                    }
                    *self = Bank { slots };
                }
            },
        }
    }

    /// Is there any of a type?
    pub fn contains(&self, kind: i64) -> (r: bool)
        ensures
            r == (self.knows(kind) && self.count(kind) != 0),
    {
        match self.find(kind) {
            Some(i) => self.slots[i].1 != 0,
            None => false,
        }
    }

    /// Take so many of a type away. A slot that runs out is dropped and the
    /// rest move down; what is unlimited is not taken from.
    pub fn remove(&mut self, kind: i64, count: i64)
        requires
            i64::MIN <= old(self).count(kind) - count <= i64::MAX,
        ensures
            if !old(self).knows(kind) || old(self).count(kind) < 0 {
                final(self).slots() == old(self).slots()
            } else if old(self).count(kind) - count < 1 {
                final(self).slots() == old(self).slots().remove(old(self).slot_of(kind))
            } else {
                final(self).slots() == old(self).slots().update(
                    old(self).slot_of(kind),
                    (kind, (old(self).count(kind) - count) as i64),
                )
            },
    {
        proof {
            use_type_invariant(&*self);
        }
        if let Some(i) = self.find(kind) {
            let had: i64 = self.slots[i].1;
            if had >= 0 {
                let left: i64 = had - count;
                let mut slots: Vec<(i64, i64)> = Vec::new();
                let ghost was = self.slots@;
                std::mem::swap(&mut slots, &mut self.slots);
                if left < 1 {
                    let _ = slots.remove(i);
                    proof {
                        assert forall|a: int, b: int| 0 <= a < b < slots@.len() implies (
                        #[trigger] slots@[a]).0 != (#[trigger] slots@[b]).0 by {
                            let x = if a < i {
                                a
                            } else {
                                a + 1
                            };
                            let y = if b < i {
                                b
                            } else {
                                b + 1
                            };
                            assert(slots@[a] == was[x]);
                            assert(slots@[b] == was[y]);
                        }
                    }
                } else {
                    slots.set(i, (kind, left));
                }
                *self = Bank { slots };
            }
        }
    }

    /// What is in the hand: the first slot, or no type where there is none.
    pub fn held(&self) -> (kind: i64)
        ensures
            kind == (if self.slots().len() > 0 {
                self.slots()[0].0
            } else {
                0
            }),
    {
        if self.slots.len() > 0 {
            self.slots[0].0
        } else {
            0
        }
    }
}

/// What is given is there: in a bank where a type has a place, giving some of
/// it leaves some of it, and giving to what is unlimited leaves it unlimited.
pub proof fn what_is_given_is_there(had: i64, count: i64, gives: Option<i64>)
    requires
        count > 0,
    ensures
        pooled(had, given(count, gives)) != 0,
        had < 0 ==> pooled(had, given(count, gives)) == UNLIMITED,
        gives matches Some(g) && g < 0 ==> pooled(had, given(count, gives)) == UNLIMITED,
        had >= 0 && !(gives matches Some(g) && g < 0) ==> pooled(had, given(count, gives)) == had
            + count,
{
}

/// What is counted adds up; where either side is not counted the outcome is not
/// either. As many as are asked for are given of a type that is counted, and
/// without end of one that is not.
pub proof fn counts_add_up(had: i64, count: i64, gives: i64)
    ensures
        had >= 0 && count >= 0 ==> pooled(had, count) == had + count,
        had < 0 || count < 0 ==> pooled(had, count) == -1,
        given(count, None) == count,
        gives >= 0 ==> given(count, Some(gives)) == count,
        gives < 0 ==> given(count, Some(gives)) == -1,
{
}

/// The count of a type is that of its slot, and none where it has no slot.
pub proof fn a_slot_counts_its_type(b: &Bank, kind: i64, i: int)
    requires
        forall|x: int, y: int|
            0 <= x < y < b.slots().len() ==> (#[trigger] b.slots()[x]).0 != (
            #[trigger] b.slots()[y]).0,
    ensures
        0 <= i < b.slots().len() && b.slots()[i].0 == kind ==> b.knows(kind) && b.slot_of(kind) == i
            && b.count(kind) == b.slots()[i].1,
        (forall|j: int| 0 <= j < b.slots().len() ==> (#[trigger] b.slots()[j]).0 != kind)
            ==> !b.knows(kind) && b.count(kind) == 0,
{
    if 0 <= i < b.slots().len() && b.slots()[i].0 == kind {
        assert(b.holds(kind, i));
        let c = b.slot_of(kind);
        assert(b.holds(kind, c));
        if i < c {
            assert(b.slots()[i].0 != b.slots()[c].0);
        } else if c < i {
            assert(b.slots()[c].0 != b.slots()[i].0);
        }
    }
}

/// A bank has seven slots; the type that stands for nothing is never in one,
/// and a count of one below nought has no end.
pub proof fn a_bank_has_seven_slots()
    ensures
        SLOTS == 7,
        NOTHING == 399,
        UNLIMITED == -1,
{
}

} // verus!
