//! The menus that the scripts build.
//!
//! The logic of a menu is mostly in the scripts. What is owed to them is a
//! record per menu, the cursor that walks over it, and what the keys do to the
//! widgets. Measures and values are of a type `F` that nothing here computes
//! with: whoever draws the menu has the font, and the arithmetic.
use vstd::prelude::*;

verus! {

/// What an item carries to the right of its own words.
pub enum Widget<F> {
    Nothing,
    CheckBox,
    Slider { step: F },
    /// Filled one string at a time.
    Combo(Vec<Vec<u8>>),
    TextBox(Vec<u8>),
}

pub struct Item<F> {
    /// Bytes of the code page, the way the font is indexed.
    pub text: Vec<u8>,
    /// Where the text starts, both already justified.
    pub x: F,
    pub y: F,
    /// How wide the text is on screen.
    pub width: F,
    pub enabled: bool,
    /// Whatever the caller uses to find the script's own object again.
    pub handle: usize,
    pub widget: Widget<F>,
    /// How much room the widget wants beside the words.
    pub extra: F,
    /// A checkbox's 0 or 1, a slider's fraction, a combo's index.
    pub value: F,
}

pub struct Menu<F> {
    pub x: F,
    pub y: F,
    /// One cell of the font.
    pub w: F,
    pub h: F,
    pub gap: F,
    pub justify: i64,
    pub title: Option<Vec<u8>>,
    pub title_at: [F; 2],
    pub title_width: F,
    pub items: Vec<Item<F>>,
    /// The item under the cursor.
    pub selected: usize,
}

/// Where an item's words stand about the menu's own x.
#[derive(Clone, Copy, PartialEq, Eq, Structural, Debug)]
pub enum Justify {
    /// They begin there.
    Left,
    /// They end there.
    Right,
    /// Their middle is there.
    Centre,
}

/// The justification that a script's number stands for.
pub fn justification(justify: i64) -> (r: Justify)
    ensures
        r == (if justify == 1 {
            Justify::Right
        } else if justify == 2 {
            Justify::Centre
        } else {
            Justify::Left
        }),
{
    if justify == 1 {
        Justify::Right
    } else if justify == 2 {
        Justify::Centre
    } else {
        Justify::Left
    }
}

/// The colours of an item, in hundredths.
pub const SELECTED: [u8; 3] = [100, 70, 30];

pub const PLAIN: [u8; 3] = [25, 45, 65];

/// What a disabled item is multiplied by, colour and alpha both, in
/// hundredths.
pub const DISABLED: u8 = 70;

/// What a nudge to the left or right asks of the item under the cursor.
#[derive(PartialEq, Eq, Debug)]
pub enum Nudge<F> {
    /// Nothing.
    Leave,
    /// Turn the checkbox over.
    Toggle,
    /// Add so many steps, and stop at 0 and at 1.
    Slide(F),
    /// Walk the strings, and stop at 0 and at this index.
    Walk(usize),
}

/// Which items can be chosen.
pub open spec fn enabled<F>(items: Seq<Item<F>>) -> Seq<bool> {
    items.map_values(|i: Item<F>| i.enabled)
}

/// Where the cursor comes to rest that moves by `by` from `at`, round the ends,
/// until it is on an item that can be chosen, but no more than `tries` times.
pub open spec fn landing(enabled: Seq<bool>, at: int, by: int, tries: nat) -> int
    decreases tries,
{
    let next = (at + by) % enabled.len() as int;
    if tries <= 1 || enabled[next] {
        next
    } else {
        landing(enabled, next, by, (tries - 1) as nat)
    }
}

/// The remainder that is not negative.
fn rounded(v: i64, n: i64) -> (r: i64)
    requires
        n > 0,
    ensures
        r == v as int % n as int,
        0 <= r < n,
{
    if v >= 0 {
        v % n
    } else {
        let w: i64 = -(v + 1);
        let left: i64 = w % n;
        proof {
            let q: int = w as int / n as int;
            vstd::arithmetic::div_mod::lemma_fundamental_div_mod(w as int, n as int);
            assert(v == (-q - 1) * n + (n - 1 - left)) by (nonlinear_arith)
                requires
                    w == n * q + left,
                    v == -w - 1,
            ;
            vstd::arithmetic::div_mod::lemma_fundamental_div_mod_converse(
                v as int,
                n as int,
                -q - 1,
                n - 1 - left,
            );
        }
        n - 1 - left
    }
}

impl<F> Menu<F> {
    /// A menu of no items yet.
    pub fn new(
        place: [F; 5],
        justify: i64,
        title: Option<Vec<u8>>,
        title_at: [F; 2],
        title_width: F,
    ) -> (m: Menu<F>) where F: Copy
        ensures
            m.x == place[0] && m.y == place[1] && m.w == place[2] && m.h == place[3] && m.gap
                == place[4],
            m.justify == justify,
            m.title == title,
            m.title_at == title_at,
            m.title_width == title_width,
            m.items@.len() == 0,
            m.selected == 0,
    {
        Menu {
            x: place[0],
            y: place[1],
            w: place[2],
            h: place[3],
            gap: place[4],
            justify,
            title,
            title_at,
            title_width,
            items: Vec::new(),
            selected: 0,
        }
    }

    /// The title again, which has to be placed again because the placing is of
    /// the title's own width. The items stay.
    pub fn retitle(&mut self, title: Option<Vec<u8>>, title_at: [F; 2], title_width: F)
        ensures
            *final(self) == (Menu { title, title_at, title_width, ..*old(self) }),
    {
        self.title = title;
        self.title_at = title_at;
        self.title_width = title_width;
    }

    /// One more item, at the end: it can be chosen, and has no widget.
    pub fn add(&mut self, text: Vec<u8>, handle: usize, x: F, y: F, width: F, zero: F) where F: Copy
        ensures
            final(self).items@ == old(self).items@.push(
                Item {
                    text,
                    x,
                    y,
                    width,
                    enabled: true,
                    handle,
                    widget: Widget::Nothing,
                    extra: zero,
                    value: zero,
                },
            ),
            *final(self) == (Menu { items: final(self).items, ..*old(self) }),
    {
        self.items.push(
            Item {
                text,
                x,
                y,
                width,
                enabled: true,
                handle,
                widget: Widget::Nothing,
                extra: zero,
                value: zero,
            },
        );
    }

    /// Move the cursor, skipping what is disabled and wrapping at the ends. In
    /// a menu where nothing can be chosen it stops after one round.
    pub fn step(&mut self, by: i64)
        requires
            old(self).selected <= i64::MAX,
            old(self).items@.len() <= i64::MAX,
            old(self).selected + by <= i64::MAX,
            old(self).items@.len() - 1 + by <= i64::MAX,
        ensures
            *final(self) == (Menu { selected: final(self).selected, ..*old(self) }),
            final(self).selected == if old(self).items@.len() == 0 {
                old(self).selected as int
            } else {
                landing(
                    enabled(old(self).items@),
                    old(self).selected as int,
                    by as int,
                    old(self).items@.len(),
                )
            },
            old(self).items@.len() > 0 ==> final(self).selected < old(self).items@.len(),
    {
        let n: usize = self.items.len();
        if n == 0 {
            return;
        }
        let ghost can = enabled(self.items@);
        let ghost goal = landing(can, self.selected as int, by as int, n as nat);
        let mut tries: usize = n;
        while tries > 0
            invariant
                n == self.items@.len(),
                0 < n <= i64::MAX,
                tries <= n,
                can == enabled(self.items@),
                self.selected <= i64::MAX,
                self.selected + by <= i64::MAX,
                n - 1 + by <= i64::MAX,
                *self == (Menu { selected: self.selected, ..*old(self) }),
                goal == landing(
                    enabled(old(self).items@),
                    old(self).selected as int,
                    by as int,
                    n as nat,
                ),
                tries > 0 ==> landing(can, self.selected as int, by as int, tries as nat) == goal,
                tries == 0 ==> self.selected == goal && self.selected < n,
            decreases tries,
        {
            let moved: i64 = rounded(self.selected as i64 + by, n as i64);
            self.selected = moved as usize;
            assert(can[moved as int] == self.items@[moved as int].enabled);
            if self.items[self.selected].enabled {
                return;
            }
            tries = tries - 1;
        }
    }

    /// What a nudge does to the item under the cursor. A disabled item is left
    /// alone, and so is one with nothing to nudge.
    pub fn nudge(&self) -> (r: Nudge<F>) where F: Copy
        ensures
            r == (if self.selected < self.items@.len() && self.items@[self.selected as int].enabled {
                match self.items@[self.selected as int].widget {
                    Widget::Nothing => Nudge::Leave,
                    Widget::TextBox(_) => Nudge::Leave,
                    Widget::CheckBox => Nudge::Toggle,
                    Widget::Slider { step } => Nudge::Slide(step),
                    Widget::Combo(strings) => Nudge::Walk(
                        if strings@.len() == 0 {
                            0
                        } else {
                            (strings@.len() - 1) as usize
                        },
                    ),
                }
            } else {
                Nudge::Leave
            }),
    {
        if self.selected >= self.items.len() {
            return Nudge::Leave;
        }
        let item = &self.items[self.selected];
        if !item.enabled {
            return Nudge::Leave;
        }
        match &item.widget {
            Widget::Nothing => Nudge::Leave,
            Widget::TextBox(_) => Nudge::Leave,
            Widget::CheckBox => Nudge::Toggle,
            Widget::Slider { step } => Nudge::Slide(*step),
            Widget::Combo(strings) => {
                let n: usize = strings.len();
                if n == 0 {
                    Nudge::Walk(0)
                } else {
                    Nudge::Walk(n - 1)
                }
            },
        }
    }

    /// The colour an item is drawn in and its alpha, in ten-thousandths.
    pub fn colour(&self, index: usize) -> (r: [u32; 4])
        ensures
            ({
                let base = if index == self.selected {
                    SELECTED@
                } else {
                    PLAIN@
                };
                let strength: int = if index < self.items@.len() && !self.items@[index as int].enabled {
                    DISABLED as int
                } else {
                    100
                };
                &&& forall|k: int| 0 <= k < 3 ==> #[trigger] r@[k] == base[k] * strength
                &&& r@[3] == 100 * strength
            }),
    {
        let strength: u32 = if index < self.items.len() && !self.items[index].enabled {
            DISABLED as u32
        } else {
            100
        };
        let base: [u8; 3] = if index == self.selected {
            SELECTED
        } else {
            PLAIN
        };
        assert(forall|k: int| 0 <= k < 3 ==> 0 <= #[trigger] base@[k] * strength <= 25500)
            by (nonlinear_arith)
            requires
                strength <= 100,
                forall|k: int| 0 <= k < 3 ==> 0 <= #[trigger] base@[k] <= 255,
        ;
        [
            base[0] as u32 * strength,
            base[1] as u32 * strength,
            base[2] as u32 * strength,
            100 * strength,
        ]
    }
}

proof fn landing_inside(enabled: Seq<bool>, at: int, by: int, tries: nat)
    requires
        enabled.len() > 0,
    ensures
        0 <= landing(enabled, at, by, tries) < enabled.len(),
    decreases tries,
{
    let next = (at + by) % enabled.len() as int;
    if tries > 1 && !enabled[next] {
        landing_inside(enabled, next, by, (tries - 1) as nat);
    }
}

proof fn landing_reaches(enabled: Seq<bool>, at: int, by: int, tries: nat, d: nat)
    requires
        enabled.len() > 0,
        1 <= d <= tries,
        enabled[(at + d * by) % enabled.len() as int],
    ensures
        enabled[landing(enabled, at, by, tries)],
    decreases tries,
{
    let n = enabled.len() as int;
    let next = (at + by) % n;
    assert(1nat * by == by);
    if tries > 1 && !enabled[next] {
        assert(d > 1);
        let left = (d - 1) as nat;
        assert(at + d * by == (at + by) + left * by) by (nonlinear_arith)
            requires
                left == d - 1,
        ;
        vstd::arithmetic::div_mod::lemma_add_mod_noop_right(left * by, at + by, n);
        assert((next + left * by) % n == (at + d * by) % n);
        landing_reaches(enabled, next, by, (tries - 1) as nat, left);
    }
}

/// A cursor that moves one place, either way, comes to rest on an item that can
/// be chosen, if the menu has any; and it always rests inside the menu.
pub proof fn the_cursor_skips_what_is_disabled(enabled: Seq<bool>, at: int, by: int, j: int)
    requires
        by == 1 || by == -1,
        0 <= j < enabled.len(),
        enabled[j],
    ensures
        0 <= landing(enabled, at, by, enabled.len()) < enabled.len(),
        enabled[landing(enabled, at, by, enabled.len())],
{
    let n = enabled.len() as int;
    landing_inside(enabled, at, by, enabled.len());
    let ahead = ((j - at) * by - 1) % n;
    let d: nat = (ahead + 1) as nat;
    let q = ((j - at) * by - 1) / n;
    vstd::arithmetic::div_mod::lemma_fundamental_div_mod((j - at) * by - 1, n);
    assert(at + d * by == j - (q * by) * n) by (nonlinear_arith)
        requires
            by == 1 || by == -1,
            (j - at) * by - 1 == n * q + ahead,
            d == ahead + 1,
    ;
    vstd::arithmetic::div_mod::lemma_mod_multiples_vanish(-(q * by), j, n);
    assert((at + d * by) % n == j) by {
        assert(at + d * by == n * (-(q * by)) + j) by (nonlinear_arith)
            requires
                at + d * by == j - (q * by) * n,
        ;
        vstd::arithmetic::div_mod::lemma_small_mod(j as nat, n as nat);
    }
    landing_reaches(enabled, at, by, enabled.len(), d);
}

/// Whether the item at a place can be chosen is what the item says.
pub proof fn an_item_says_whether_it_can_be_chosen<F>(items: Seq<Item<F>>, k: int)
    requires
        0 <= k < items.len(),
    ensures
        enabled(items).len() == items.len(),
        enabled(items)[k] == items[k].enabled,
{
}

/// The cursor comes to rest on the first item that can be chosen of those that
/// it comes to by moving once, twice and so on, round the ends; and where there
/// is none within so many moves, where the last of them takes it.
pub proof fn the_cursor_rests_on_the_first(
    enabled: Seq<bool>,
    at: int,
    by: int,
    tries: nat,
    d: nat,
)
    requires
        enabled.len() > 0,
        1 <= d <= tries,
        forall|e: nat| 1 <= e < d ==> !enabled[(at + #[trigger] (e * by)) % enabled.len() as int],
        d < tries ==> enabled[(at + d * by) % enabled.len() as int],
    ensures
        landing(enabled, at, by, tries) == (at + d * by) % enabled.len() as int,
    decreases tries,
{
    let n = enabled.len() as int;
    let next = (at + by) % n;
    assert(1nat * by == by);
    if d > 1 {
        assert(!enabled[(at + 1nat * by) % n]);
        let left = (d - 1) as nat;
        assert forall|e: nat| 1 <= e < left implies !enabled[(next + #[trigger] (e * by)) % n] by {
            let f: nat = e + 1;
            assert(at + f * by == (at + by) + e * by) by (nonlinear_arith)
                requires
                    f == e + 1,
            ;
            vstd::arithmetic::div_mod::lemma_add_mod_noop_right(e * by, at + by, n);
            assert(!enabled[(at + f * by) % n]);
        }
        assert(at + d * by == (at + by) + left * by) by (nonlinear_arith)
            requires
                left == d - 1,
        ;
        vstd::arithmetic::div_mod::lemma_add_mod_noop_right(left * by, at + by, n);
        the_cursor_rests_on_the_first(enabled, next, by, (tries - 1) as nat, left);
    }
}

} // verus!
