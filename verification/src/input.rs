//! The commands that the scripts declare, and the input that they answer to.
use crate::order;
use vstd::prelude::*;

verus! {

/// A command, its default key, and when it is triggered.
pub struct Command {
    pub id: i64,
    pub key: String,
    pub mode: i64,
}

/// The last scancode that a keyboard has.
pub const DIK_MAX: u32 = 0xed;

/// The buttons and the half-axes of a mouse: from this number up to, but not
/// including, the next.
pub const MOUSE: u32 = 1000;

pub const MOUSE_END: u32 = 1008;

/// Commands and what they are bound to.
pub struct Input {
    pub commands: Vec<Command>,
    /// A command, and the number it is bound to.
    pub bindings: Vec<(i64, u32)>,
    pub axes: usize,
}

/// Is this number neither a scancode nor one of the mouse's?
pub open spec fn fault(id: u32) -> bool {
    id > DIK_MAX && !(MOUSE <= id < MOUSE_END)
}

/// Is this the number of a binding, and a fault?
pub open spec fn bound_fault(bindings: Seq<(i64, u32)>, id: u32, i: int) -> bool {
    0 <= i < bindings.len() && bindings[i].1 == id && fault(id)
}

impl Input {
    /// No commands and no bindings.
    pub fn new() -> (r: Input)
        ensures
            r.commands@.len() == 0,
            r.bindings@.len() == 0,
            r.axes == 0,
    {
        Input { commands: Vec::new(), bindings: Vec::new(), axes: 0 }
    }

    /// Declare a command.
    pub fn make_command(&mut self, id: i64, key: String, mode: i64)
        ensures
            final(self).commands@ == old(self).commands@.push(Command { id, key, mode }),
            final(self).bindings == old(self).bindings,
            final(self).axes == old(self).axes,
    {
        self.commands.push(Command { id, key, mode });
    }

    /// Bind a command. A number below nought binds nothing.
    pub fn bind(&mut self, command: i64, id: i64)
        requires
            id <= u32::MAX,
        ensures
            final(self).bindings@ == (if id >= 0 {
                old(self).bindings@.push((command, id as u32))
            } else {
                old(self).bindings@
            }),
            final(self).commands == old(self).commands,
            final(self).axes == old(self).axes,
    {
        if id >= 0 {
            self.bindings.push((command, id as u32));
        }
    }

    /// The numbers bound that are neither a scancode nor one of the mouse's, in
    /// order and each once. There should be none.
    pub fn faults(&self) -> (out: Vec<u32>)
        ensures
            forall|i: int, j: int| 0 <= i < j < out@.len() ==> out@[i] < out@[j],
            forall|id: u32| #[trigger]
                out@.contains(id) <==> exists|i: int| #[trigger]
                    bound_fault(self.bindings@, id, i),
    {
        let n: usize = self.bindings.len();
        let mut found: Vec<u32> = Vec::new();
        let mut i: usize = 0;
        while i < n
            invariant
                n == self.bindings@.len(),
                i <= n,
                forall|id: u32| #[trigger]
                    found@.contains(id) <==> exists|k: int|
                        k < i && #[trigger] bound_fault(self.bindings@, id, k),
            decreases n - i,
        {
            let id: u32 = self.bindings[i].1;
            let ghost before = found@;
            if id > DIK_MAX && !(MOUSE <= id && id < MOUSE_END) {
                found.push(id);
            }
            proof {
                assert forall|x: u32| #[trigger]
                    found@.contains(x) <==> exists|k: int|
                        k < i + 1 && #[trigger] bound_fault(self.bindings@, x, k) by {
                    if found@.contains(x) {
                        let k = choose|k: int| 0 <= k < found@.len() && found@[k] == x;
                        if k < before.len() {
                            assert(before[k] == x);
                            assert(before.contains(x));
                            let m = choose|m: int|
                                m < i && #[trigger] bound_fault(self.bindings@, x, m);
                            assert(bound_fault(self.bindings@, x, m));
                        } else {
                            assert(bound_fault(self.bindings@, x, i as int));
                        }
                    }
                    if exists|k: int| k < i + 1 && #[trigger] bound_fault(self.bindings@, x, k) {
                        let k = choose|k: int|
                            k < i + 1 && #[trigger] bound_fault(self.bindings@, x, k);
                        if k < i {
                            assert(before.contains(x));
                            let m = choose|m: int| 0 <= m < before.len() && before[m] == x;
                            assert(found@[m] == x);
                        } else {
                            assert(found@[before.len() as int] == x);
                        }
                    }
                }
            }
            i += 1;
        }
        let ghost all = found@;
        let out = order::sorted_once(found);
        proof {
            assert forall|id: u32| #[trigger] out@.contains(id) <==> exists|i: int| #[trigger]
                bound_fault(self.bindings@, id, i) by {
                assert(out@.contains(id) <==> all.contains(id));
                if exists|i: int| #[trigger] bound_fault(self.bindings@, id, i) {
                    let i = choose|i: int| #[trigger] bound_fault(self.bindings@, id, i);
                    assert(i < n);
                }
            }
        }
        out
    }
}

/// A number is bound at fault exactly if it is above the last scancode and not
/// one of the eight of the mouse.
pub proof fn scancodes_and_the_mouse_are_no_faults(
    bindings: Seq<(i64, u32)>,
    command: i64,
    id: u32,
    i: int,
)
    ensures
        fault(id) <==> id >= 0xee && (id < 1000 || id >= 1008),
        0 <= i < bindings.len() && bindings[i] == (command, id) && id >= 0xee && (id < 1000 || id
            >= 1008) ==> bound_fault(bindings, id, i),
        id < 0xee || 1000 <= id < 1008 ==> !bound_fault(bindings, id, i),
{
}

} // verus!
