//! Counting values in bins of equal width.
use vstd::prelude::*;
use crate::binary64::Float;
use crate::binary64::HALF_BITS;
use crate::binary64::laws::zero;
use crate::binary64::laws::half;

verus! {

/// The width of each of `bins` bins between `left` and `right`.
pub open spec fn bin_width(left: Float, right: Float, bins: nat) -> Float {
    right.sub_spec(left).div_spec(Float::from_whole_spec(bins))
}

/// The bin that `val` falls into, if it lies between `left` (included) and
/// `right` (excluded): the whole part of its distance from `left` in
/// widths. A value that rounding puts at the right edge goes into the last
/// bin.
pub open spec fn bin_of(left: Float, right: Float, bins: nat, val: Float) -> Option<int> {
    let offset = val.sub_spec(left);
    if bins > 0 && zero().le_spec(offset) && offset.lt_spec(right.sub_spec(left)) {
        let i = offset.div_spec(bin_width(left, right, bins)).whole_part();
        if i >= bins {
            Some(bins - 1)
        } else {
            Some(i as int)
        }
    } else {
        None
    }
}

/// The number of the values `data` that fall into the bin `k`.
pub open spec fn tally(data: Seq<Float>, left: Float, right: Float, bins: nat, k: int) -> nat
    decreases data.len(),
{
    if data.len() == 0 {
        0
    } else {
        let rest = tally(data.drop_last(), left, right, bins, k);
        if bin_of(left, right, bins, data.last()) == Some(k) {
            rest + 1
        } else {
            rest
        }
    }
}

/// No bin holds more values than there are.
proof fn lemma_tally_bound(data: Seq<Float>, left: Float, right: Float, bins: nat, k: int)
    ensures
        tally(data, left, right, bins, k) <= data.len(),
    decreases data.len(),
{
    if data.len() > 0 {
        lemma_tally_bound(data.drop_last(), left, right, bins, k);
    }
}

/// Counts of values in bins of equal width between two edges.
#[derive(Debug)]
pub struct Histogram {
    pub left: Float,
    pub right: Float,
    pub bins: usize,
    pub counts: Vec<usize>,
}

impl Histogram {
    /// There is a count for each bin.
    pub open spec fn wf(&self) -> bool {
        self.counts@.len() == self.bins
    }

    /// Sorts the values into `bins` bins of equal width between `left` and
    /// `right`. A value outside of these, or a NaN, is not counted.
    pub fn bin(left: Float, right: Float, bins: usize, data: &Vec<Float>) -> (h: Histogram)
        ensures
            h.wf(),
            h.left == left,
            h.right == right,
            h.bins == bins,
            forall|k: int|
                0 <= k < bins ==> h.counts@[k] == tally(data@, left, right, bins as nat, k),
    {
        let span = right - left;
        let width = span / Float::from_usize(bins);
        let mut counts: Vec<usize> = Vec::new();
        let mut b: usize = 0;
        while b < bins
            invariant
                b <= bins,
                counts@.len() == b,
                forall|k: int| 0 <= k < b ==> counts@[k] == 0,
            decreases bins - b,
        {
            counts.push(0);
            b = b + 1;
        }
        let n = data.len();
        let mut idx: usize = 0;
        while idx < n
            invariant
                idx <= n,
                n == data.len(),
                counts@.len() == bins,
                span == right.sub_spec(left),
                width == bin_width(left, right, bins as nat),
                forall|k: int|
                    0 <= k < bins ==> counts@[k] == tally(
                        data@.take(idx as int),
                        left,
                        right,
                        bins as nat,
                        k,
                    ),
            decreases n - idx,
        {
            let val = data[idx];
            let offset = val - left;
            proof {
                assert(data@.take(idx + 1).drop_last() =~= data@.take(idx as int));
            }
            if bins > 0 && Float::zero().le(offset) && offset.lt(span) {
                let i = (offset / width).to_usize();
                let i = if i >= bins { bins - 1 } else { i };
                proof {
                    lemma_tally_bound(data@.take(idx as int), left, right, bins as nat, i as int);
                }
                let c = counts[i];
                counts.set(i, c + 1);
            }
            idx = idx + 1;
        }
        proof {
            assert(data@.take(n as int) =~= data@);
        }
        Histogram { left, right, bins, counts }
    }

    /// The width of a bin.
    pub fn width(&self) -> (w: Float)
        ensures
            w == bin_width(self.left, self.right, self.bins as nat),
    {
        (self.right - self.left) / Float::from_usize(self.bins)
    }

    /// The edge number `i`: `left + i * width`.
    pub open spec fn edge(&self, i: int) -> Float {
        self.left.add_spec(
            Float::from_whole_spec(i as nat).mul_spec(
                bin_width(self.left, self.right, self.bins as nat),
            ),
        )
    }

    /// The centre of the bin `i`: `left + (i + 1/2) * width`.
    pub open spec fn centre(&self, i: int) -> Float {
        self.left.add_spec(
            Float::from_whole_spec(i as nat).add_spec(half()).mul_spec(
                bin_width(self.left, self.right, self.bins as nat),
            ),
        )
    }

    /// The edges of the bins, one more than there are bins.
    pub fn edges(&self) -> (v: Vec<Float>)
        ensures
            v@.len() == self.bins + 1,
            forall|i: int| 0 <= i <= self.bins ==> v@[i] == self.edge(i),
    {
        let width = self.width();
        let mut v: Vec<Float> = Vec::new();
        let mut i: usize = 0;
        while i < self.bins
            invariant
                i <= self.bins,
                v@.len() == i,
                width == bin_width(self.left, self.right, self.bins as nat),
                forall|k: int| 0 <= k < i ==> v@[k] == self.edge(k),
            decreases self.bins - i,
        {
            v.push(self.left + Float::from_usize(i) * width);
            i = i + 1;
        }
        v.push(self.left + Float::from_usize(self.bins) * width);
        v
    }

    /// The centres of the bins.
    pub fn centres(&self) -> (v: Vec<Float>)
        ensures
            v@.len() == self.bins,
            forall|i: int| 0 <= i < self.bins ==> v@[i] == self.centre(i),
    {
        let width = self.width();
        let mut v: Vec<Float> = Vec::new();
        let mut i: usize = 0;
        while i < self.bins
            invariant
                i <= self.bins,
                v@.len() == i,
                width == bin_width(self.left, self.right, self.bins as nat),
                forall|k: int| 0 <= k < i ==> v@[k] == self.centre(k),
            decreases self.bins - i,
        {
            let middle = Float::from_usize(i) + Float::from_bits(HALF_BITS);
            v.push(self.left + middle * width);
            i = i + 1;
        }
        v
    }

    /// The counts, bin by bin.
    pub fn counts(&self) -> (v: Vec<usize>)
        ensures
            v@ == self.counts@,
    {
        self.counts.clone()
    }
}

} // verus!
