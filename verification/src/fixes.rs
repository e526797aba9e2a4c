//! Loading portraits on the character select screen when they are needed.
//!
//! The game loads the portraits of all colors at once. Instead, only the portrait of the color that is
//! selected is loaded, and those of its neighbours, so that they are there when the color changes.

use vstd::prelude::*;

verus! {

/// The color behind this one. The last one is followed by the first.
pub open spec fn next_of(color: int, count: int) -> int {
    if color + 1 >= count {
        0
    } else {
        color + 1
    }
}

/// The color before this one. The first one follows the last.
pub open spec fn previous_of(color: int, count: int) -> int {
    if color == 0 {
        count - 1
    } else {
        color - 1
    }
}

/// The color behind one is the next higher one, and the first behind the last. The color before one is the
/// next lower one, and the last before the first. Going back undoes going on.
pub proof fn law_colors(color: int, count: int)
    requires
        0 <= color < count,
    ensures
        next_of(color, count) == (color + 1) % count,
        color > 0 ==> previous_of(color, count) == color - 1,
        color == 0 ==> previous_of(color, count) == count - 1,
        0 <= next_of(color, count) < count,
        0 <= previous_of(color, count) < count,
        previous_of(next_of(color, count), count) == color,
        next_of(previous_of(color, count), count) == color,
{
    if color + 1 < count {
        vstd::arithmetic::div_mod::lemma_small_mod((color + 1) as nat, count as nat);
    } else {
        vstd::arithmetic::div_mod::lemma_mod_self_0(count);
    }
}

/// The color behind this one.
pub fn next_color(color: u32, max_color: u32) -> (r: u32)
    requires
        color < u32::MAX,
    ensures
        r == next_of(color as int, max_color as int),
{
    let r: u32 = color + 1;
    if r >= max_color {
        0
    } else {
        r
    }
}

/// The color before this one.
pub fn prev_color(color: u32, max_color: u32) -> (r: u32)
    requires
        color == 0 ==> max_color > 0,
    ensures
        r == previous_of(color as int, max_color as int),
{
    if color == 0 {
        max_color - 1
    } else {
        color - 1
    }
}

/// The colors whose portraits are loaded when `color` is selected, in this order.
pub fn colors_to_load(color: u32, max_color: u32) -> (r: Vec<u32>)
    requires
        color < u32::MAX,
        color == 0 ==> max_color > 0,
    ensures
        r@ == seq![
            color,
            next_of(color as int, max_color as int) as u32,
            previous_of(color as int, max_color as int) as u32,
        ],
{
    let next: u32 = next_color(color, max_color);
    let prev: u32 = prev_color(color, max_color);
    let r: Vec<u32> = vec![color, next, prev];
    proof {
        assert(r@ =~= seq![color, next, prev]);
    }
    r
}

/// What loading a portrait takes. It is known while the character select screen is open.
#[derive(Copy, Clone, Debug, PartialEq, Eq, Structural)]
pub struct PortraitLoader {
    pub param_1: u64,
    pub param_4: u64,
}

impl PortraitLoader {
    pub open spec fn spec_is_ready(self) -> bool {
        self.param_1 != 0 && self.param_4 != 0
    }

    /// The loader before the screen was opened.
    pub fn new() -> (r: PortraitLoader)
        ensures
            !r.spec_is_ready(),
            r == (PortraitLoader { param_1: 0, param_4: 0 }),
    {
        PortraitLoader { param_1: 0, param_4: 0 }
    }

    /// The screen is opened: what the game was about to load portraits with is kept.
    pub fn open(&mut self, param_1: u64, param_4: u64)
        ensures
            *final(self) == (PortraitLoader { param_1, param_4 }),
    {
        self.param_1 = param_1;
        self.param_4 = param_4;
    }

    /// The screen is closed. Nothing is loaded outside of it.
    pub fn close(&mut self)
        ensures
            !final(self).spec_is_ready(),
            *final(self) == (PortraitLoader { param_1: 0, param_4: 0 }),
    {
        self.param_1 = 0;
        self.param_4 = 0;
    }

    /// Can portraits be loaded?
    pub fn is_ready(&self) -> (r: bool)
        ensures
            r == self.spec_is_ready(),
    {
        self.param_1 != 0 && self.param_4 != 0
    }
}

/// The color that an Inkling is shown in. `None` if the color map has no such entry.
pub fn inkling_color(map: &Vec<u8>, color: u64) -> (r: Option<u64>)
    ensures
        r is Some <==> color < map@.len(),
        r matches Some(c) ==> c == map@[color as int],
{
    if color < map.len() as u64 {
        Some(map[color as usize] as u64)
    } else {
        None
    }
}

} // verus!
