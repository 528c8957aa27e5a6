//! Gamma correction tables: one 256-entry lookup table per channel, built
//! from a per-channel exponent given in Q8 units (256 stands for an
//! exponent of 1.0, 563 is close to the usual 2.2). Entry `i` is the Q32
//! evaluation of `round(255 * (i/255)^gamma)`; at the exponent one the
//! table is provably the identity.

use vstd::prelude::*;
use crate::color::Color;
use crate::color::spec_flag;
use crate::fixed::pow_q32;
use crate::fixed::spec_pow_q32;
use crate::fixed::lemma_pow_q32_props;
use crate::fixed::lemma_pow_q32_one;
use vstd::arithmetic::div_mod::lemma_basic_div;
use vstd::arithmetic::div_mod::lemma_div_is_ordered;
use vstd::arithmetic::div_mod::lemma_fundamental_div_mod;
use vstd::arithmetic::div_mod::lemma_hoist_over_denominator;
use vstd::arithmetic::div_mod::lemma_mod_division_less_than_divisor;

verus! {

/// The Q32 input level for table index `i`: `i / 255` as a fraction.
pub open spec fn spec_gamma_input(i: int) -> int {
    (i * 0x1_0000_0000) / 255
}

/// The table entry for index `i` under exponent `g` (Q8 units): the power
/// curve scaled back to a byte, rounded to nearest.
pub open spec fn spec_gamma_entry(g: nat, i: int) -> int {
    (spec_pow_q32(spec_gamma_input(i), g) * 255 + 0x8000_0000) / 0x1_0000_0000
}

pub proof fn lemma_gamma_input_props(i: int, j: int)
    requires
        0 <= i <= j <= 255,
    ensures
        0 <= spec_gamma_input(i) <= spec_gamma_input(j) <= 0x1_0000_0000,
{
    lemma_div_is_ordered(0, i * 0x1_0000_0000, 255);
    lemma_div_is_ordered(i * 0x1_0000_0000, j * 0x1_0000_0000, 255);
    lemma_div_is_ordered(j * 0x1_0000_0000, 0xFF_0000_0000, 255);
}

pub proof fn lemma_gamma_entry_props(g: nat, i: int, j: int)
    requires
        0 <= i <= j <= 255,
    ensures
        0 <= spec_gamma_entry(g, i) <= spec_gamma_entry(g, j) <= 255,
{
    lemma_gamma_input_props(i, j);
    lemma_pow_q32_props(spec_gamma_input(i), spec_gamma_input(j), g);
    let pi = spec_pow_q32(spec_gamma_input(i), g);
    let pj = spec_pow_q32(spec_gamma_input(j), g);
    lemma_div_is_ordered(0, pi * 255 + 0x8000_0000, 0x1_0000_0000);
    lemma_div_is_ordered(pi * 255 + 0x8000_0000, pj * 255 + 0x8000_0000, 0x1_0000_0000);
    lemma_div_is_ordered(pj * 255 + 0x8000_0000, 0xFF_8000_0000, 0x1_0000_0000);
}

/// Law: an exponent of one (256 in Q8 units) is the identity correction:
/// every entry of a table built with it equals its index. The power
/// chain's floors lose at most 765 units of 2^-32, and the rounding back
/// to a byte absorbs anything below 2^23.
pub proof fn lemma_gamma_identity(i: int)
    requires
        0 <= i < 256,
    ensures
        spec_gamma_entry(256, i) == i,
{
    let x = spec_gamma_input(i);
    lemma_gamma_input_props(i, i);
    lemma_pow_q32_one(x);
    let p = spec_pow_q32(x, 256);
    lemma_fundamental_div_mod(i * 0x1_0000_0000, 255);
    lemma_mod_division_less_than_divisor(i * 0x1_0000_0000, 255);
    let r = (i * 0x1_0000_0000) % 255;
    assert(i * 0x1_0000_0000 == 255 * x + r);
    let c = p * 255 + 0x8000_0000 - i * 0x1_0000_0000;
    assert(0 <= c < 0x1_0000_0000);
    lemma_hoist_over_denominator(c, i, 0x1_0000_0000);
    lemma_basic_div(c, 0x1_0000_0000);
    assert(p * 255 + 0x8000_0000 == c + i * 0x1_0000_0000);
}

fn gamma_entry(g: u32, i: usize) -> (e: u8)
    requires
        i < 256,
    ensures
        e == spec_gamma_entry(g as nat, i as int),
{
    proof {
        lemma_gamma_entry_props(g as nat, i as int, i as int);
        lemma_gamma_input_props(i as int, i as int);
    }
    let x: u64 = ((i as u64) * 0x1_0000_0000) / 255;
    let p = pow_q32(x, g);
    ((p * 255 + 0x8000_0000) / 0x1_0000_0000) as u8
}

fn build_table(g: u32) -> (t: Vec<u8>)
    ensures
        t@.len() == 256,
        forall|i: int| 0 <= i < 256 ==> t@[i] == spec_gamma_entry(g as nat, i),
{
    let mut t: Vec<u8> = Vec::new();
    let mut i: usize = 0;
    while i < 256
        invariant
            i <= 256,
            t@.len() == i,
            forall|j: int| 0 <= j < i ==> t@[j] == spec_gamma_entry(g as nat, j),
        decreases 256 - i,
    {
        t.push(gamma_entry(g, i));
        i += 1;
    }
    t
}

/// The three per-channel lookup tables, immutable after construction.
pub struct GammaTable {
    pub red_table: Vec<u8>,
    pub green_table: Vec<u8>,
    pub blue_table: Vec<u8>,
}

impl GammaTable {
    pub open spec fn wf(&self) -> bool {
        &&& self.red_table@.len() == 256
        &&& self.green_table@.len() == 256
        &&& self.blue_table@.len() == 256
    }

    /// Build the tables from the three channel exponents in Q8 units. The
    /// green table is built from the `blue` exponent and the blue table
    /// from `green`: the swap matches the wiring of the target strip and is
    /// kept deliberately.
    pub fn new(red: u32, green: u32, blue: u32) -> (t: GammaTable)
        ensures
            t.wf(),
            forall|i: int| 0 <= i < 256 ==> t.red_table@[i] == spec_gamma_entry(red as nat, i),
            forall|i: int| 0 <= i < 256 ==> t.green_table@[i] == spec_gamma_entry(blue as nat, i),
            forall|i: int| 0 <= i < 256 ==> t.blue_table@[i] == spec_gamma_entry(green as nat, i),
    {
        GammaTable {
            red_table: build_table(red),
            green_table: build_table(blue),
            blue_table: build_table(green),
        }
    }

    /// Look each raw channel up through its table and pack the pixel.
    pub fn correct_color(&self, red: u8, green: u8, blue: u8) -> (c: Color)
        requires
            self.wf(),
        ensures
            c.red == self.red_table@[red as int],
            c.green == self.green_table@[green as int],
            c.blue == self.blue_table@[blue as int],
            c.flag == spec_flag(
                self.red_table@[red as int],
                self.green_table@[green as int],
                self.blue_table@[blue as int],
            ),
    {
        Color::new(
            self.red_table[red as usize],
            self.green_table[green as usize],
            self.blue_table[blue as usize],
        )
    }
}

/// Law: for any exponent of at least one (256 in Q8 units), the gamma curve
/// is monotone, so every table built by `GammaTable::new` is non-decreasing
/// from each entry to the next.
pub proof fn lemma_gamma_monotone(g: u32, i: int, j: int)
    requires
        256 <= g,
        0 <= i <= j <= 255,
    ensures
        spec_gamma_entry(g as nat, i) <= spec_gamma_entry(g as nat, j),
{
    lemma_gamma_entry_props(g as nat, i, j);
}

} // verus!
