//! A machine word: four limbs, one per byte, most significant first.

use vstd::prelude::*;

verus! {

/// The number of limbs in a word.
pub const MEMORY_CELL_BYTES: usize = 4;

/// Four limbs that stand for the bytes of a 32-bit value; limb 0 is the most
/// significant byte.
#[derive(Clone, Copy, Debug, Default, PartialEq, Eq)]
pub struct Word<T>(pub [T; 4]);

impl<T> View for Word<T> {
    type V = Seq<T>;

    open spec fn view(&self) -> Seq<T> {
        self.0@
    }
}

impl<T: Copy> Word<T> {
    /// The limb at `i`.
    pub fn limb(&self, i: usize) -> (x: T)
        requires
            i < 4,
        ensures
            x == self@[i as int],
    {
        self.0[i]
    }
}

/// The weights of the limb positions, least significant first: the powers
/// of 256.
pub open spec fn radix() -> Seq<int> {
    seq![1, 256, 65536, 16777216]
}

/// The sum of the `n` low limbs of a word, each under its weight: limb 3
/// under `base[0]`, limb 2 under `base[1]`, and so on.
pub open spec fn weighted_sum(base: Seq<int>, limbs: Seq<int>, n: int) -> int
    decreases n,
{
    if n <= 0 {
        0
    } else {
        weighted_sum(base, limbs, n - 1) + base[n - 1] * limbs[3 - (n - 1)]
    }
}

/// The value that the `n` low limbs of a word spell in base 256.
pub open spec fn low_limbs_value(limbs: Seq<int>, n: int) -> int {
    weighted_sum(radix(), limbs, n)
}

/// The limbs of a 32-bit value, most significant byte first.
pub open spec fn limbs_of(x: u32) -> Seq<int> {
    seq![
        (x as int / 16777216) % 256,
        (x as int / 65536) % 256,
        (x as int / 256) % 256,
        x as int % 256,
    ]
}

/// The word of a 32-bit value.
pub fn word_of(x: u32) -> (w: Word<u64>)
    ensures
        w@.map_values(|l: u64| l as int) == limbs_of(x),
        forall|i: int| 0 <= i < 4 ==> #[trigger] w@[i] < 256,
{
    let w = Word(
        [
            ((x / 16777216) % 256) as u64,
            ((x / 65536) % 256) as u64,
            ((x / 256) % 256) as u64,
            (x % 256) as u64,
        ],
    );
    assert(w@.map_values(|l: u64| l as int) =~= limbs_of(x));
    w
}

/// The limbs of a value spell that value.
pub proof fn lemma_limbs_value(x: u32)
    ensures
        low_limbs_value(limbs_of(x), 4) == x,
        low_limbs_value(limbs_of(x), 2) == x as int % 65536,
        forall|i: int| 0 <= i < 4 ==> 0 <= #[trigger] limbs_of(x)[i] < 256,
{
    let v = x as int;
    let l = limbs_of(x);
    let b = radix();
    lemma_split(v);
    assert(b[0] == 1 && b[1] == 256 && b[2] == 65536 && b[3] == 16777216);
    assert(l[3] == v % 256 && l[2] == (v / 256) % 256 && l[1] == (v / 65536) % 256 && l[0] == (v
        / 16777216) % 256);
    lemma_weighted_sum_unfolded(b, l);
}

/// The weighted sum of two and of four limbs, written out.
pub proof fn lemma_weighted_sum_unfolded(base: Seq<int>, limbs: Seq<int>)
    ensures
        weighted_sum(base, limbs, 2) == base[0] * limbs[3] + base[1] * limbs[2],
        weighted_sum(base, limbs, 4) == base[0] * limbs[3] + base[1] * limbs[2] + base[2]
            * limbs[1] + base[3] * limbs[0],
{
    reveal_with_fuel(weighted_sum, 5);
}

/// A value below 2^32 is the sum of its four bytes under their weights, and
/// its low half the sum of the two low bytes.
proof fn lemma_split(v: int)
    requires
        0 <= v < 0x1_0000_0000,
    ensures
        v == (v / 16777216) % 256 * 16777216 + (v / 65536) % 256 * 65536 + (v / 256) % 256 * 256 + v
            % 256,
        v % 65536 == (v / 256) % 256 * 256 + v % 256,
{
    let x = v as u32;
    assert(x == (x / 16777216) % 256 * 16777216 + (x / 65536) % 256 * 65536 + (x / 256) % 256 * 256
        + x % 256) by (bit_vector);
    assert(x % 65536 == (x / 256) % 256 * 256 + x % 256) by (bit_vector);
}

} // verus!
