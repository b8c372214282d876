//! Numbering of widgets and components.

use vstd::prelude::*;

verus! {

/// The counters from which components and widgets take their numbers; each
/// number taken moves its counter on by one, past the largest back to zero.
pub struct IdCounters {
    pub component: u32,
    pub widget: u32,
}

/// The counter value `k` steps after `c`.
pub open spec fn wrap(c: u32, k: nat) -> u32 {
    ((c as int + k) % 0x1_0000_0000) as u32
}

/// Takes the counter's number and moves the counter on.
pub fn take_number(counter: &mut u32) -> (r: u32)
    ensures
        r == *old(counter),
        *final(counter) == wrap(*old(counter), 1),
{
    let r = *counter;
    *counter = if r == u32::MAX { 0 } else { r + 1 };
    r
}

pub proof fn lemma_wrap_zero(c: u32)
    ensures
        wrap(c, 0) == c,
{
}

pub proof fn lemma_wrap_add(c: u32, x: nat, y: nat)
    ensures
        wrap(wrap(c, x), y) == wrap(c, x + y),
{
    let m: int = 0x1_0000_0000;
    let a: int = c as int + x;
    vstd::arithmetic::div_mod::lemma_add_mod_noop_right(y as int, a, m);
    assert(((a % m) + y) % m == (a + y) % m);
}

/// Fewer than 2^32 steps apart, a counter never shows the same value twice.
pub proof fn lemma_wrap_distinct(c: u32, i: nat, j: nat)
    requires
        i < j < i + 0x1_0000_0000,
    ensures
        wrap(c, i) != wrap(c, j),
{
    let m: int = 0x1_0000_0000;
    let a = c as int + i;
    let b = c as int + j;
    vstd::arithmetic::div_mod::lemma_mod_equivalence(b, a, m);
    vstd::arithmetic::div_mod::lemma_small_mod((b - a) as nat, m as nat);
    assert(a % m != b % m);
}

/// A counter that takes fewer than 2^32 steps from `c` does not wrap: after
/// `k` steps it shows `c + k`.
pub proof fn lemma_wrap_small(c: u32, k: nat)
    requires
        c + k < 0x1_0000_0000,
    ensures
        wrap(c, k) == c + k,
{
    vstd::arithmetic::div_mod::lemma_small_mod((c + k) as nat, 0x1_0000_0000nat);
}

} // verus!
