use vstd::prelude::*;

use crate::group_trait::{AddSupport, AdditiveIdentity, MulSupport};
use crate::ring_trait::Ring;

verus! {

/// The degree-`t` product term contributed by position `i`: the product of
/// the coefficients `a[i]` and `b[t - i]` in family `f`, or zero when either
/// index is out of range.
pub open spec fn pprod<R: Ring>(f: int, a: Seq<int>, b: Seq<int>, t: int, i: int) -> int {
    if 0 <= i < a.len() && 0 <= t - i < b.len() {
        R::mmul(f, a[i], b[t - i])
    } else {
        0
    }
}

/// The sum, in family `f`, of the degree-`t` product terms for positions
/// `lo <= i < hi`.
pub open spec fn csum<R: Ring>(f: int, a: Seq<int>, b: Seq<int>, t: int, lo: int, hi: int) -> int
    decreases hi - lo,
{
    if lo >= hi {
        0
    } else {
        R::madd(f, csum::<R>(f, a, b, t, lo, hi - 1), pprod::<R>(f, a, b, t, hi - 1))
    }
}

/// The degree-`t` coefficient of the schoolbook product of `a` and `b` in
/// family `f`; zero for `t` outside the product's degree range.
pub open spec fn conv_at<R: Ring>(f: int, a: Seq<int>, b: Seq<int>, t: int) -> int {
    csum::<R>(f, a, b, t, 0, a.len() as int)
}

/// The schoolbook (direct convolution) product of the coefficient value
/// sequences `a` and `b` in family `f`.
pub open spec fn conv<R: Ring>(f: int, a: Seq<int>, b: Seq<int>) -> Seq<int> {
    if a.len() == 0 || b.len() == 0 {
        Seq::empty()
    } else {
        Seq::new((a.len() + b.len() - 1) as nat, |t: int| conv_at::<R>(f, a, b, t))
    }
}

/// All values of the sequence lie in family `f`'s range.
pub open spec fn vals_in_range<R: Ring>(f: int, s: Seq<int>) -> bool {
    forall|i: int| 0 <= i < s.len() ==> #[trigger] R::in_range(f, s[i])
}

/// Every product term lies in family `f`'s range.
proof fn lemma_pprod_in_range<R: Ring>(f: int, a: Seq<int>, b: Seq<int>, t: int, i: int)
    requires
        vals_in_range::<R>(f, a),
        vals_in_range::<R>(f, b),
    ensures
        R::in_range(f, pprod::<R>(f, a, b, t, i)),
{
    if 0 <= i < a.len() && 0 <= t - i < b.len() {
        R::lemma_mmul_in_range(f, a[i], b[t - i]);
    } else {
        R::lemma_in_range_zero(f);
    }
}

/// Partial sums of product terms lie in family `f`'s range.
proof fn lemma_csum_in_range<R: Ring>(f: int, a: Seq<int>, b: Seq<int>, t: int, lo: int, hi: int)
    requires
        vals_in_range::<R>(f, a),
        vals_in_range::<R>(f, b),
    ensures
        R::in_range(f, csum::<R>(f, a, b, t, lo, hi)),
    decreases hi - lo,
{
    if lo >= hi {
        R::lemma_in_range_zero(f);
    } else {
        lemma_csum_in_range::<R>(f, a, b, t, lo, hi - 1);
        lemma_pprod_in_range::<R>(f, a, b, t, hi - 1);
        R::lemma_madd_in_range(
            f,
            csum::<R>(f, a, b, t, lo, hi - 1),
            pprod::<R>(f, a, b, t, hi - 1),
        );
    }
}

/// A sum of product terms splits at any midpoint.
proof fn lemma_csum_split<R: Ring>(
    f: int,
    a: Seq<int>,
    b: Seq<int>,
    t: int,
    lo: int,
    mid: int,
    hi: int,
)
    requires
        lo <= mid <= hi,
        vals_in_range::<R>(f, a),
        vals_in_range::<R>(f, b),
    ensures
        csum::<R>(f, a, b, t, lo, hi) == R::madd(
            f,
            csum::<R>(f, a, b, t, lo, mid),
            csum::<R>(f, a, b, t, mid, hi),
        ),
    decreases hi - mid,
{
    if hi == mid {
        lemma_csum_in_range::<R>(f, a, b, t, lo, hi);
        R::lemma_madd_zero(f, csum::<R>(f, a, b, t, lo, hi));
    } else {
        lemma_csum_split::<R>(f, a, b, t, lo, mid, hi - 1);
        R::lemma_madd_assoc(
            f,
            csum::<R>(f, a, b, t, lo, mid),
            csum::<R>(f, a, b, t, mid, hi - 1),
            pprod::<R>(f, a, b, t, hi - 1),
        );
    }
}

/// Sums of pointwise-equal (translated) product terms are equal.
proof fn lemma_csum_congruent<R: Ring>(
    f: int,
    a: Seq<int>,
    b: Seq<int>,
    t: int,
    lo: int,
    hi: int,
    a2: Seq<int>,
    b2: Seq<int>,
    t2: int,
    off: int,
)
    requires
        forall|i: int|
            lo <= i < hi ==> pprod::<R>(f, a, b, t, i) == pprod::<R>(f, a2, b2, t2, i + off),
    ensures
        csum::<R>(f, a, b, t, lo, hi) == csum::<R>(f, a2, b2, t2, lo + off, hi + off),
    decreases hi - lo,
{
    if lo < hi {
        lemma_csum_congruent::<R>(f, a, b, t, lo, hi - 1, a2, b2, t2, off);
    }
}

/// A sum of all-zero product terms is zero.
proof fn lemma_csum_zero<R: Ring>(f: int, a: Seq<int>, b: Seq<int>, t: int, lo: int, hi: int)
    requires
        forall|i: int| lo <= i < hi ==> pprod::<R>(f, a, b, t, i) == 0,
    ensures
        csum::<R>(f, a, b, t, lo, hi) == 0,
    decreases hi - lo,
{
    if lo < hi {
        lemma_csum_zero::<R>(f, a, b, t, lo, hi - 1);
        R::lemma_in_range_zero(f);
        R::lemma_madd_zero(f, 0);
    }
}

/// Every convolution coefficient lies in family `f`'s range.
pub proof fn lemma_conv_at_in_range<R: Ring>(f: int, a: Seq<int>, b: Seq<int>, t: int)
    requires
        vals_in_range::<R>(f, a),
        vals_in_range::<R>(f, b),
    ensures
        R::in_range(f, conv_at::<R>(f, a, b, t)),
{
    lemma_csum_in_range::<R>(f, a, b, t, 0, a.len() as int);
}

/// A coefficient outside the product's degree range is zero.
pub proof fn lemma_conv_at_out_of_range<R: Ring>(f: int, a: Seq<int>, b: Seq<int>, t: int)
    requires
        t < 0 || t > a.len() + b.len() - 2,
    ensures
        conv_at::<R>(f, a, b, t) == 0,
{
    assert forall|i: int| 0 <= i < a.len() implies #[trigger] pprod::<R>(f, a, b, t, i) == 0 by {
        assert(!(0 <= t - i < b.len()));
    }
    lemma_csum_zero::<R>(f, a, b, t, 0, a.len() as int);
}

/// Splitting the left factor at `k` splits each product coefficient into the
/// low half's contribution and the high half's, shifted by `k`.
proof fn lemma_conv_split_left<R: Ring>(f: int, a: Seq<int>, b: Seq<int>, k: int, t: int)
    requires
        0 <= k <= a.len(),
        vals_in_range::<R>(f, a),
        vals_in_range::<R>(f, b),
    ensures
        conv_at::<R>(f, a, b, t) == R::madd(
            f,
            conv_at::<R>(f, a.take(k), b, t),
            conv_at::<R>(f, a.skip(k), b, t - k),
        ),
{
    let a0 = a.take(k);
    let a1 = a.skip(k);
    lemma_csum_split::<R>(f, a, b, t, 0, k, a.len() as int);
    assert forall|i: int| 0 <= i < k implies pprod::<R>(f, a, b, t, i) == pprod::<R>(
        f,
        a0,
        b,
        t,
        i,
    ) by {
        assert(a0[i] == a[i]);
    }
    lemma_csum_congruent::<R>(f, a, b, t, 0, k, a0, b, t, 0);
    assert forall|i: int| k <= i < a.len() implies pprod::<R>(f, a, b, t, i) == pprod::<R>(
        f,
        a1,
        b,
        t - k,
        i - k,
    ) by {
        if 0 <= i - k < a1.len() {
            assert(a1[i - k] == a[i]);
        }
    }
    lemma_csum_congruent::<R>(f, a, b, t, k, a.len() as int, a1, b, t - k, -k);
}

/// Splitting the right factor at `k` splits each product coefficient into the
/// contributions of the right factor's low and high halves.
proof fn lemma_conv_split_right<R: Ring>(f: int, a: Seq<int>, b: Seq<int>, k: int, t: int)
    requires
        0 <= k <= b.len(),
        vals_in_range::<R>(f, a),
        vals_in_range::<R>(f, b),
    ensures
        conv_at::<R>(f, a, b, t) == R::madd(
            f,
            conv_at::<R>(f, a, b.take(k), t),
            conv_at::<R>(f, a, b.skip(k), t - k),
        ),
{
    let b0 = b.take(k);
    let b1 = b.skip(k);
    let la = a.len() as int;
    let s = if t - k + 1 < 0 {
        0
    } else if t - k + 1 > la {
        la
    } else {
        t - k + 1
    };
    lemma_csum_split::<R>(f, a, b, t, 0, s, la);
    // positions below `s` hit the high half of `b`
    assert forall|i: int| 0 <= i < s implies pprod::<R>(f, a, b, t, i) == pprod::<R>(
        f,
        a,
        b1,
        t - k,
        i,
    ) by {
        assert(t - i >= k);
        if 0 <= (t - k) - i < b1.len() {
            assert(b1[t - k - i] == b[t - i]);
        }
    }
    lemma_csum_congruent::<R>(f, a, b, t, 0, s, a, b1, t - k, 0);
    // positions from `s` on hit the low half of `b`
    assert forall|i: int| s <= i < la implies pprod::<R>(f, a, b, t, i) == pprod::<R>(
        f,
        a,
        b0,
        t,
        i,
    ) by {
        assert(t - i < k);
        if 0 <= t - i < b0.len() {
            assert(b0[t - i] == b[t - i]);
        }
    }
    lemma_csum_congruent::<R>(f, a, b, t, s, la, a, b0, t, 0);
    // the two partial sums are the two half-products in full
    lemma_csum_split::<R>(f, a, b1, t - k, 0, s, la);
    assert forall|i: int| s <= i < la implies #[trigger] pprod::<R>(f, a, b1, t - k, i) == 0 by {
        assert((t - k) - i < 0);
    }
    lemma_csum_zero::<R>(f, a, b1, t - k, s, la);
    lemma_csum_in_range::<R>(f, a, b1, t - k, 0, s);
    R::lemma_madd_zero(f, csum::<R>(f, a, b1, t - k, 0, s));
    lemma_csum_split::<R>(f, a, b0, t, 0, s, la);
    assert forall|i: int| 0 <= i < s implies #[trigger] pprod::<R>(f, a, b0, t, i) == 0 by {
        assert(t - i >= k);
        assert(!(0 <= t - i < b0.len()));
    }
    lemma_csum_zero::<R>(f, a, b0, t, 0, s);
    lemma_csum_in_range::<R>(f, a, b0, t, s, la);
    R::lemma_madd_zero(f, csum::<R>(f, a, b0, t, s, la));
    R::lemma_madd_comm(f, conv_at::<R>(f, a, b1, t - k), conv_at::<R>(f, a, b0, t));
}

/// A sum of product terms can be peeled from the front as well.
proof fn lemma_csum_peel_first<R: Ring>(f: int, a: Seq<int>, b: Seq<int>, t: int, lo: int, hi: int)
    requires
        lo < hi,
        vals_in_range::<R>(f, a),
        vals_in_range::<R>(f, b),
    ensures
        csum::<R>(f, a, b, t, lo, hi) == R::madd(
            f,
            pprod::<R>(f, a, b, t, lo),
            csum::<R>(f, a, b, t, lo + 1, hi),
        ),
    decreases hi - lo,
{
    if hi == lo + 1 {
        assert(csum::<R>(f, a, b, t, lo, lo) == 0);
        assert(csum::<R>(f, a, b, t, lo + 1, hi) == 0);
        lemma_pprod_in_range::<R>(f, a, b, t, lo);
        R::lemma_in_range_zero(f);
        R::lemma_madd_zero(f, pprod::<R>(f, a, b, t, lo));
        R::lemma_madd_comm(f, 0, pprod::<R>(f, a, b, t, lo));
    } else {
        lemma_csum_peel_first::<R>(f, a, b, t, lo, hi - 1);
        R::lemma_madd_assoc(
            f,
            pprod::<R>(f, a, b, t, lo),
            csum::<R>(f, a, b, t, lo + 1, hi - 1),
            pprod::<R>(f, a, b, t, hi - 1),
        );
    }
}

/// Reversing the roles of the factors mirrors the summation range around
/// degree `t`.
proof fn lemma_csum_reflect<R: Ring>(f: int, a: Seq<int>, b: Seq<int>, t: int, lo: int, hi: int)
    requires
        lo <= hi,
        vals_in_range::<R>(f, a),
        vals_in_range::<R>(f, b),
    ensures
        csum::<R>(f, a, b, t, lo, hi) == csum::<R>(f, b, a, t, t - hi + 1, t - lo + 1),
    decreases hi - lo,
{
    if lo < hi {
        lemma_csum_reflect::<R>(f, a, b, t, lo, hi - 1);
        assert(pprod::<R>(f, a, b, t, hi - 1) == pprod::<R>(f, b, a, t, t - hi + 1)) by {
            if 0 <= hi - 1 < a.len() && 0 <= t - (hi - 1) < b.len() {
                R::lemma_mmul_comm(f, a[hi - 1], b[t - hi + 1]);
            }
        }
        lemma_csum_peel_first::<R>(f, b, a, t, t - hi + 1, t - lo + 1);
        lemma_csum_in_range::<R>(f, b, a, t, t - hi + 2, t - lo + 1);
        R::lemma_madd_comm(
            f,
            pprod::<R>(f, b, a, t, t - hi + 1),
            csum::<R>(f, b, a, t, t - hi + 2, t - lo + 1),
        );
    }
}

/// Extending the summation range by positions whose terms are zero does not
/// change the sum.
proof fn lemma_csum_extend<R: Ring>(
    f: int,
    a: Seq<int>,
    b: Seq<int>,
    t: int,
    lo: int,
    hi: int,
    lo2: int,
    hi2: int,
)
    requires
        lo2 <= lo <= hi <= hi2,
        vals_in_range::<R>(f, a),
        vals_in_range::<R>(f, b),
        forall|i: int|
            lo2 <= i < lo || hi <= i < hi2 ==> #[trigger] pprod::<R>(f, a, b, t, i) == 0,
    ensures
        csum::<R>(f, a, b, t, lo2, hi2) == csum::<R>(f, a, b, t, lo, hi),
{
    lemma_csum_split::<R>(f, a, b, t, lo2, lo, hi2);
    lemma_csum_split::<R>(f, a, b, t, lo, hi, hi2);
    lemma_csum_zero::<R>(f, a, b, t, lo2, lo);
    lemma_csum_zero::<R>(f, a, b, t, hi, hi2);
    lemma_csum_in_range::<R>(f, a, b, t, lo, hi);
    R::lemma_in_range_zero(f);
    R::lemma_madd_zero(f, csum::<R>(f, a, b, t, lo, hi));
    R::lemma_madd_in_range(f, csum::<R>(f, a, b, t, lo, hi), 0);
    R::lemma_madd_zero(f, R::madd(f, csum::<R>(f, a, b, t, lo, hi), 0));
}

/// Convolution is commutative, coefficient by coefficient.
pub proof fn lemma_conv_at_comm<R: Ring>(f: int, a: Seq<int>, b: Seq<int>, t: int)
    requires
        vals_in_range::<R>(f, a),
        vals_in_range::<R>(f, b),
    ensures
        conv_at::<R>(f, a, b, t) == conv_at::<R>(f, b, a, t),
{
    let la = a.len() as int;
    let lb = b.len() as int;
    lemma_csum_reflect::<R>(f, a, b, t, 0, la);
    // both ranges extend to a common hull in which all the extra terms are zero
    let lo = if t - la + 1 < 0 {
        t - la + 1
    } else {
        0
    };
    let hi = if t + 1 > lb {
        t + 1
    } else {
        lb
    };
    assert forall|i: int| lo <= i < t - la + 1 || t + 1 <= i < hi implies #[trigger] pprod::<R>(
        f,
        b,
        a,
        t,
        i,
    ) == 0 by {
        assert(!(0 <= t - i < a.len()));
    }
    lemma_csum_extend::<R>(f, b, a, t, t - la + 1, t + 1, lo, hi);
    assert forall|i: int| lo <= i < 0 || lb <= i < hi implies #[trigger] pprod::<R>(
        f,
        b,
        a,
        t,
        i,
    ) == 0 by {
        assert(!(0 <= i < b.len()));
    }
    lemma_csum_extend::<R>(f, b, a, t, 0, lb, lo, hi);
}

/// Convolution is commutative.
pub proof fn lemma_conv_comm<R: Ring>(f: int, a: Seq<int>, b: Seq<int>)
    requires
        vals_in_range::<R>(f, a),
        vals_in_range::<R>(f, b),
    ensures
        conv::<R>(f, a, b) =~= conv::<R>(f, b, a),
{
    assert forall|t: int| 0 <= t < a.len() + b.len() - 1 implies conv_at::<R>(f, a, b, t)
        == conv_at::<R>(f, b, a, t) by {
        lemma_conv_at_comm::<R>(f, a, b, t);
    }
}

/// The convolution of a single coefficient with `b` scales `b`.
pub proof fn lemma_conv_at_singleton_left<R: Ring>(f: int, a: Seq<int>, b: Seq<int>, t: int)
    requires
        a.len() == 1,
        0 <= t < b.len(),
        vals_in_range::<R>(f, a),
        vals_in_range::<R>(f, b),
    ensures
        conv_at::<R>(f, a, b, t) == R::mmul(f, a[0], b[t]),
{
    assert(csum::<R>(f, a, b, t, 0, 0) == 0);
    assert(pprod::<R>(f, a, b, t, 0) == R::mmul(f, a[0], b[t]));
    R::lemma_mmul_in_range(f, a[0], b[t]);
    R::lemma_madd_zero(f, R::mmul(f, a[0], b[t]));
}

/// The convolution of `a` with a single coefficient scales `a`.
pub proof fn lemma_conv_at_singleton_right<R: Ring>(f: int, a: Seq<int>, b: Seq<int>, t: int)
    requires
        b.len() == 1,
        0 <= t < a.len(),
        vals_in_range::<R>(f, a),
        vals_in_range::<R>(f, b),
    ensures
        conv_at::<R>(f, a, b, t) == R::mmul(f, a[t], b[0]),
{
    let la = a.len() as int;
    lemma_csum_split::<R>(f, a, b, t, 0, t, la);
    lemma_csum_split::<R>(f, a, b, t, t, t + 1, la);
    assert forall|i: int| 0 <= i < t implies #[trigger] pprod::<R>(f, a, b, t, i) == 0 by {
        assert(t - i >= 1);
    }
    lemma_csum_zero::<R>(f, a, b, t, 0, t);
    assert forall|i: int| t + 1 <= i < la implies #[trigger] pprod::<R>(f, a, b, t, i) == 0 by {
        assert(t - i < 0);
    }
    lemma_csum_zero::<R>(f, a, b, t, t + 1, la);
    let m = R::mmul(f, a[t], b[0]);
    assert(csum::<R>(f, a, b, t, t, t) == 0);
    assert(pprod::<R>(f, a, b, t, t) == m);
    assert(csum::<R>(f, a, b, t, t, t + 1) == R::madd(f, 0, m));
    R::lemma_in_range_zero(f);
    R::lemma_mmul_in_range(f, a[t], b[0]);
    R::lemma_madd_zero(f, m);
    R::lemma_madd_in_range(f, 0, m);
    R::lemma_madd_zero(f, R::madd(f, 0, m));
}

/// Padding either factor with trailing zeros leaves every product
/// coefficient unchanged.
pub proof fn lemma_conv_at_pad<R: Ring>(
    f: int,
    a: Seq<int>,
    b: Seq<int>,
    ap: Seq<int>,
    bp: Seq<int>,
    t: int,
)
    requires
        a.len() <= ap.len(),
        b.len() <= bp.len(),
        forall|i: int|
            0 <= i < ap.len() ==> #[trigger] ap[i] == (if i < a.len() {
                a[i]
            } else {
                0
            }),
        forall|i: int|
            0 <= i < bp.len() ==> #[trigger] bp[i] == (if i < b.len() {
                b[i]
            } else {
                0
            }),
        vals_in_range::<R>(f, a),
        vals_in_range::<R>(f, b),
    ensures
        conv_at::<R>(f, ap, bp, t) == conv_at::<R>(f, a, b, t),
{
    let la = a.len() as int;
    let lap = ap.len() as int;
    assert(vals_in_range::<R>(f, ap)) by {
        assert forall|i: int| 0 <= i < ap.len() implies #[trigger] R::in_range(f, ap[i]) by {
            R::lemma_in_range_zero(f);
        }
    }
    assert(vals_in_range::<R>(f, bp)) by {
        assert forall|i: int| 0 <= i < bp.len() implies #[trigger] R::in_range(f, bp[i]) by {
            R::lemma_in_range_zero(f);
        }
    }
    lemma_csum_split::<R>(f, ap, bp, t, 0, la, lap);
    assert forall|i: int| 0 <= i < la implies #[trigger] pprod::<R>(f, ap, bp, t, i) == pprod::<
        R,
    >(f, a, b, t, i) by {
        if 0 <= t - i < bp.len() {
            if t - i >= b.len() {
                R::lemma_mmul_zero(f, ap[i]);
            }
        }
    }
    lemma_csum_congruent::<R>(f, ap, bp, t, 0, la, a, b, t, 0);
    assert forall|i: int| la <= i < lap implies #[trigger] pprod::<R>(f, ap, bp, t, i) == 0 by {
        if 0 <= t - i < bp.len() {
            R::lemma_mmul_zero(f, bp[t - i]);
        }
    }
    lemma_csum_zero::<R>(f, ap, bp, t, la, lap);
    lemma_csum_in_range::<R>(f, a, b, t, 0, la);
    R::lemma_madd_zero(f, csum::<R>(f, a, b, t, 0, la));
}

/// The Karatsuba recombination: with both factors of length `d` split at
/// `k`, each product coefficient is the low-low product's coefficient, plus
/// the two cross products' coefficients shifted by `k`, plus the high-high
/// product's coefficient shifted by `2k`, associated exactly as the engine
/// adds them.
pub proof fn lemma_karatsuba_split<R: Ring>(f: int, a: Seq<int>, b: Seq<int>, k: int, t: int)
    requires
        a.len() == b.len(),
        0 <= k <= a.len(),
        vals_in_range::<R>(f, a),
        vals_in_range::<R>(f, b),
    ensures
        conv_at::<R>(f, a, b, t) == R::madd(
            f,
            R::madd(
                f,
                conv_at::<R>(f, a.take(k), b.take(k), t),
                R::madd(
                    f,
                    conv_at::<R>(f, a.skip(k), b.take(k), t - k),
                    conv_at::<R>(f, a.take(k), b.skip(k), t - k),
                ),
            ),
            conv_at::<R>(f, a.skip(k), b.skip(k), t - 2 * k),
        ),
{
    let a0 = a.take(k);
    let a1 = a.skip(k);
    let b0 = b.take(k);
    let b1 = b.skip(k);
    assert(vals_in_range::<R>(f, a0) && vals_in_range::<R>(f, a1)) by {
        assert(forall|i: int| 0 <= i < a0.len() ==> a0[i] == a[i]);
        assert(forall|i: int| 0 <= i < a1.len() ==> a1[i] == a[i + k]);
    }
    assert(vals_in_range::<R>(f, b0) && vals_in_range::<R>(f, b1)) by {
        assert(forall|i: int| 0 <= i < b0.len() ==> b0[i] == b[i]);
        assert(forall|i: int| 0 <= i < b1.len() ==> b1[i] == b[i + k]);
    }
    lemma_conv_split_left::<R>(f, a, b, k, t);
    lemma_conv_split_right::<R>(f, a0, b, k, t);
    lemma_conv_split_right::<R>(f, a1, b, k, t - k);
    let e00 = conv_at::<R>(f, a0, b0, t);
    let e01 = conv_at::<R>(f, a0, b1, t - k);
    let e10 = conv_at::<R>(f, a1, b0, t - k);
    let e11 = conv_at::<R>(f, a1, b1, t - 2 * k);
    assert(conv_at::<R>(f, a, b, t) == R::madd(f, R::madd(f, e00, e01), R::madd(f, e10, e11)));
    // rearrange to the engine's association
    R::lemma_madd_assoc(f, e00, e01, R::madd(f, e10, e11));
    R::lemma_madd_assoc(f, e01, e10, e11);
    R::lemma_madd_comm(f, e01, e10);
    R::lemma_madd_assoc(f, e10, e01, e11);
    R::lemma_madd_assoc(f, e00, R::madd(f, e10, e01), e11);
}

} // verus!
