//! Condat's algorithm in exact arithmetic
//!
//! The algorithm looks for the threshold `rho` for which the entries of `x`
//! above it exceed it by `alpha` in total. This module follows the algorithm
//! through its phases and proves that, in exact arithmetic, the threshold
//! that it ends with is that one.
use super::simplex::{
    condat_cleanup, condat_pass, condat_scan, condat_scan_step, condat_start, condat_sweep,
    condat_sweep_step, condat_threshold, lemma_condat_pass_keeps_all, lemma_condat_pass_len,
    simplex_projection, CondatState, Simplex,
};
use super::Constraint;
use crate::engine::opt_float::{gt_spec, OptFloat};
use crate::exact::{
    diff, dot, exact, lemma_dot_lower_bound, lemma_nearest, lemma_nonexpansive,
    lemma_norm1_value,
    lemma_sum_of_diff, lemma_sum_of_nonnegative, max_real, sq_dist_values, sum, sum_abs, values,
};
use crate::matrix_operations::norm1_spec;
use vstd::prelude::*;

verus! {

/// The sum of `value(s[i]) - rho` over the first `n` entries of `s`.
pub open spec fn excess<T>(value: spec_fn(T) -> real, s: Seq<T>, rho: real, n: nat) -> real
    decreases n,
{
    if n == 0 {
        0real
    } else {
        excess(value, s, rho, (n - 1) as nat) + (value(s[n - 1]) - rho)
    }
}

/// The sum of the positive parts of `value(s[i]) - t` over the first `n`
/// entries of `s`.
pub open spec fn positive_part<T>(value: spec_fn(T) -> real, s: Seq<T>, t: real, n: nat) -> real
    decreases n,
{
    if n == 0 {
        0real
    } else {
        positive_part(value, s, t, (n - 1) as nat) + max_real(0real, value(s[n - 1]) - t)
    }
}

/// Moving the threshold by `d` takes `d` off every term of the excess.
pub proof fn lemma_excess_shift<T>(
    value: spec_fn(T) -> real,
    s: Seq<T>,
    rho: real,
    moved: real,
    n: nat,
)
    ensures
        excess(value, s, moved, n) == excess(value, s, rho, n) - (n as real) * (moved - rho),
    decreases n,
{
    if n > 0 {
        lemma_excess_shift(value, s, rho, moved, (n - 1) as nat);
        let d = moved - rho;
        assert((n as real) * d == ((n - 1) as nat as real) * d + d) by (nonlinear_arith)
            requires
                n as real == (n - 1) as nat as real + 1real,
        ;
    } else {
        assert((0nat as real) * (moved - rho) == 0real) by (nonlinear_arith);
    }
}

/// The excess over the first `n` entries depends on those entries only.
pub proof fn lemma_excess_of_prefix<T>(
    value: spec_fn(T) -> real,
    a: Seq<T>,
    b: Seq<T>,
    rho: real,
    n: nat,
)
    requires
        forall|i: int| 0 <= i < n ==> #[trigger] a[i] == b[i],
    ensures
        excess(value, a, rho, n) == excess(value, b, rho, n),
    decreases n,
{
    if n > 0 {
        lemma_excess_of_prefix(value, a, b, rho, (n - 1) as nat);
        assert(a[n - 1] == b[n - 1]);
    }
}

/// The positive part over the first `n` entries depends on those entries
/// only.
pub proof fn lemma_positive_part_of_prefix<T>(
    value: spec_fn(T) -> real,
    a: Seq<T>,
    b: Seq<T>,
    t: real,
    n: nat,
)
    requires
        forall|i: int| 0 <= i < n ==> #[trigger] a[i] == b[i],
    ensures
        positive_part(value, a, t, n) == positive_part(value, b, t, n),
    decreases n,
{
    if n > 0 {
        lemma_positive_part_of_prefix(value, a, b, t, (n - 1) as nat);
        assert(a[n - 1] == b[n - 1]);
    }
}

/// The positive part of a vector with one more entry.
pub proof fn lemma_positive_part_push<T>(value: spec_fn(T) -> real, s: Seq<T>, v: T, t: real)
    ensures
        positive_part(value, s.push(v), t, s.len() + 1) == positive_part(value, s, t, s.len())
            + max_real(0real, value(v) - t),
{
    lemma_positive_part_of_prefix(value, s.push(v), s, t, s.len());
}

/// The excess of a vector with one more entry.
pub proof fn lemma_excess_push<T>(value: spec_fn(T) -> real, s: Seq<T>, v: T, rho: real)
    ensures
        excess(value, s.push(v), rho, s.len() + 1) == excess(value, s, rho, s.len()) + (value(v)
            - rho),
{
    lemma_excess_of_prefix(value, s.push(v), s, rho, s.len());
}

/// The positive part of two vectors, one after the other, is the sum of
/// their positive parts.
pub proof fn lemma_positive_part_concat<T>(
    value: spec_fn(T) -> real,
    a: Seq<T>,
    b: Seq<T>,
    t: real,
    n: nat,
)
    requires
        n <= b.len(),
    ensures
        positive_part(value, a + b, t, a.len() + n) == positive_part(value, a, t, a.len())
            + positive_part(value, b, t, n),
    decreases n,
{
    if n > 0 {
        lemma_positive_part_concat(value, a, b, t, (n - 1) as nat);
        assert((a + b)[a.len() + n - 1] == b[n - 1]);
    } else {
        lemma_positive_part_of_prefix(value, a + b, a, t, a.len());
    }
}

/// Where every one of the first `n` entries lies above `t`, their positive
/// part is their excess.
pub proof fn lemma_positive_part_above<T>(value: spec_fn(T) -> real, s: Seq<T>, t: real, n: nat)
    requires
        forall|i: int| 0 <= i < n ==> value(#[trigger] s[i]) > t,
    ensures
        positive_part(value, s, t, n) == excess(value, s, t, n),
    decreases n,
{
    if n > 0 {
        lemma_positive_part_above(value, s, t, (n - 1) as nat);
        assert(value(s[n - 1]) > t);
    }
}

/// In exact arithmetic the threshold `rho + (v - rho) / count`, for a `v`
/// above `rho`, lies above `rho`, by the `count`-th part of `v - rho`.
pub proof fn lemma_moved_threshold<T: OptFloat>(
    value: spec_fn(T) -> real,
    rho: T,
    v: T,
    count: nat,
)
    requires
        exact(value),
        1 <= count <= u64::MAX,
        value(v) > value(rho),
    ensures
        ({
            let moved = rho.add_spec(v.sub_spec(rho).div_spec(T::from_u64_spec(count as u64)));
            &&& (value(moved) - value(rho)) * (count as real) == value(v) - value(rho)
            &&& value(moved) > value(rho)
        }),
{
    let divisor = T::from_u64_spec(count as u64);
    let step = v.sub_spec(rho).div_spec(divisor);
    let moved = rho.add_spec(step);
    assert(value(divisor) == (count as u64) as real);
    assert(value(divisor) == count as real);
    assert(value(v.sub_spec(rho)) == value(v) - value(rho));
    assert(value(step) * value(divisor) == value(v.sub_spec(rho)));
    assert(value(moved) == value(rho) + value(step));
    assert(value(step) > 0real) by (nonlinear_arith)
        requires
            value(step) * (count as real) == value(v) - value(rho),
            value(v) - value(rho) > 0real,
            count as real >= 1real,
    ;
}

/// Where the threshold moves from `rho` to `moved` as a new entry `v` comes
/// to `count - 1` entries, by the `count`-th part of `v - rho`, the excess
/// stays what it was.
pub proof fn lemma_excess_kept_by_push<T>(
    value: spec_fn(T) -> real,
    s: Seq<T>,
    v: T,
    rho: real,
    moved: real,
)
    requires
        (moved - rho) * ((s.len() + 1) as real) == value(v) - rho,
    ensures
        excess(value, s.push(v), moved, s.len() + 1) == excess(value, s, rho, s.len()),
{
    lemma_excess_push(value, s, v, moved);
    lemma_excess_shift(value, s, rho, moved, s.len());
    let d = moved - rho;
    let n = s.len() as real;
    assert(d * ((s.len() + 1) as real) == n * d + d) by (nonlinear_arith)
        requires
            (s.len() + 1) as real == n + 1real,
    ;
}

/// What holds of the state of the scan after `n` entries of `x`: there is an
/// active candidate; the active candidates exceed the threshold by `alpha` in
/// total; and for every threshold from the current one on, the positive part
/// of the entries scanned is that of the candidates, active and set aside.
pub open spec fn scan_invariant<T: OptFloat>(
    value: spec_fn(T) -> real,
    x: Seq<T>,
    alpha: T,
    s: CondatState<T>,
    n: nat,
) -> bool {
    &&& s.active.len() >= 1
    &&& s.active.len() + s.spilled.len() <= n
    &&& excess(value, s.active, value(s.rho), s.active.len()) == value(alpha)
    &&& forall|t: real|
        t >= value(s.rho) ==> #[trigger] positive_part(value, x, t, n) == positive_part(
            value,
            s.active,
            t,
            s.active.len(),
        ) + positive_part(value, s.spilled, t, s.spilled.len())
}

/// In exact arithmetic a step of the scan keeps its invariant.
pub proof fn lemma_scan_step<T: OptFloat>(
    value: spec_fn(T) -> real,
    x: Seq<T>,
    alpha: T,
    s: CondatState<T>,
    n: nat,
)
    requires
        exact(value),
        1 <= n < x.len() <= usize::MAX,
        scan_invariant(value, x, alpha, s, n),
    ensures
        scan_invariant(value, x, alpha, condat_scan_step(s, x[n as int], alpha), n + 1),
{
    let xn = x[n as int];
    let next = condat_scan_step(s, xn, alpha);
    let rho = value(s.rho);
    if gt_spec(xn, s.rho) {
        assert(value(xn) > rho);
        let count = s.active.len() + 1;
        lemma_moved_threshold(value, s.rho, xn, count);
        let moved = s.rho.add_spec(
            xn.sub_spec(s.rho).div_spec(T::from_u64_spec((s.active.len() + 1) as u64)),
        );
        assert(value(xn.sub_spec(alpha)) == value(xn) - value(alpha));
        if gt_spec(moved, xn.sub_spec(alpha)) {
            lemma_excess_kept_by_push(value, s.active, xn, rho, value(moved));
            assert forall|t: real| t >= value(next.rho) implies #[trigger] positive_part(
                value,
                x,
                t,
                n + 1,
            ) == positive_part(value, next.active, t, next.active.len()) + positive_part(
                value,
                next.spilled,
                t,
                next.spilled.len(),
            ) by {
                lemma_positive_part_push(value, s.active, xn, t);
                assert(positive_part(value, x, t, n) == positive_part(
                    value,
                    s.active,
                    t,
                    s.active.len(),
                ) + positive_part(value, s.spilled, t, s.spilled.len()));
            }
        } else {
            assert(next.active =~= seq![xn]);
            assert(value(next.rho) >= value(moved));
            assert(excess(value, next.active, value(next.rho), 1) == excess(
                value,
                next.active,
                value(next.rho),
                0,
            ) + (value(xn) - value(next.rho)));
            assert forall|t: real| t >= value(next.rho) implies #[trigger] positive_part(
                value,
                x,
                t,
                n + 1,
            ) == positive_part(value, next.active, t, next.active.len()) + positive_part(
                value,
                next.spilled,
                t,
                next.spilled.len(),
            ) by {
                lemma_positive_part_concat(value, s.spilled, s.active, t, s.active.len());
                assert(positive_part(value, next.active, t, 1) == positive_part(
                    value,
                    next.active,
                    t,
                    0,
                ) + max_real(0real, value(xn) - t));
                assert(positive_part(value, x, t, n) == positive_part(
                    value,
                    s.active,
                    t,
                    s.active.len(),
                ) + positive_part(value, s.spilled, t, s.spilled.len()));
            }
        }
    } else {
        assert(value(xn) <= rho);
        assert forall|t: real| t >= value(next.rho) implies #[trigger] positive_part(
            value,
            x,
            t,
            n + 1,
        ) == positive_part(value, next.active, t, next.active.len()) + positive_part(
            value,
            next.spilled,
            t,
            next.spilled.len(),
        ) by {
            assert(positive_part(value, x, t, n) == positive_part(
                value,
                s.active,
                t,
                s.active.len(),
            ) + positive_part(value, s.spilled, t, s.spilled.len()));
        }
    }
}

/// In exact arithmetic the invariant of the scan holds after every number of
/// entries.
pub proof fn lemma_scan<T: OptFloat>(value: spec_fn(T) -> real, x: Seq<T>, alpha: T, n: nat)
    requires
        exact(value),
        1 <= n <= x.len() <= usize::MAX,
    ensures
        scan_invariant(value, x, alpha, condat_scan(x, alpha, n), n),
    decreases n,
{
    if n <= 1 {
        let s = condat_start(x[0], alpha);
        assert(value(s.rho) == value(x[0]) - value(alpha));
        assert(excess(value, s.active, value(s.rho), 1) == excess(
            value,
            s.active,
            value(s.rho),
            0,
        ) + (value(x[0]) - value(s.rho)));
        assert forall|t: real| t >= value(s.rho) implies #[trigger] positive_part(value, x, t, n)
            == positive_part(value, s.active, t, s.active.len()) + positive_part(
            value,
            s.spilled,
            t,
            s.spilled.len(),
        ) by {
            assert(positive_part(value, x, t, 1) == positive_part(value, x, t, 0) + max_real(
                0real,
                value(x[0]) - t,
            ));
            assert(positive_part(value, s.active, t, 1) == positive_part(value, s.active, t, 0)
                + max_real(0real, value(x[0]) - t));
        }
    } else {
        lemma_scan(value, x, alpha, (n - 1) as nat);
        lemma_scan_step(value, x, alpha, condat_scan(x, alpha, (n - 1) as nat), (n - 1) as nat);
    }
}

/// What holds of the sweep after `m` of the candidates that were set aside:
/// there is an active candidate; the active candidates exceed the threshold
/// by `alpha` in total; and for every threshold from the current one on, the
/// positive part of `x` is that of the active candidates and of the
/// candidates that the sweep has not come to.
pub open spec fn sweep_invariant<T: OptFloat>(
    value: spec_fn(T) -> real,
    x: Seq<T>,
    alpha: T,
    spilled: Seq<T>,
    active: Seq<T>,
    rho: T,
    m: nat,
) -> bool {
    &&& active.len() >= 1
    &&& active.len() + spilled.len() <= x.len() + m
    &&& excess(value, active, value(rho), active.len()) == value(alpha)
    &&& forall|t: real|
        t >= value(rho) ==> #[trigger] positive_part(value, x, t, x.len()) + positive_part(
            value,
            spilled,
            t,
            m,
        ) == positive_part(value, active, t, active.len()) + positive_part(
            value,
            spilled,
            t,
            spilled.len(),
        )
}

/// In exact arithmetic the invariant of the sweep holds after every number
/// of candidates.
pub proof fn lemma_sweep<T: OptFloat>(
    value: spec_fn(T) -> real,
    x: Seq<T>,
    alpha: T,
    scanned: CondatState<T>,
    m: nat,
)
    requires
        exact(value),
        x.len() <= usize::MAX,
        scan_invariant(value, x, alpha, scanned, x.len()),
        m <= scanned.spilled.len(),
    ensures
        sweep_invariant(
            value,
            x,
            alpha,
            scanned.spilled,
            condat_sweep(scanned.active, scanned.rho, scanned.spilled, m).0,
            condat_sweep(scanned.active, scanned.rho, scanned.spilled, m).1,
            m,
        ),
    decreases m,
{
    let spilled = scanned.spilled;
    if m == 0 {
        assert forall|t: real| t >= value(scanned.rho) implies #[trigger] positive_part(
            value,
            x,
            t,
            x.len(),
        ) + positive_part(value, spilled, t, 0) == positive_part(
            value,
            scanned.active,
            t,
            scanned.active.len(),
        ) + positive_part(value, spilled, t, spilled.len()) by {}
    } else {
        lemma_sweep(value, x, alpha, scanned, (m - 1) as nat);
        let before = condat_sweep(scanned.active, scanned.rho, spilled, (m - 1) as nat);
        let after = condat_sweep(scanned.active, scanned.rho, spilled, m);
        let vt = spilled[m - 1];
        assert(after == condat_sweep_step(before.0, before.1, vt));
        let rho = value(before.1);
        if gt_spec(vt, before.1) {
            assert(value(vt) > rho);
            lemma_moved_threshold(value, before.1, vt, before.0.len() + 1);
            lemma_excess_kept_by_push(value, before.0, vt, rho, value(after.1));
            assert forall|t: real| t >= value(after.1) implies #[trigger] positive_part(
                value,
                x,
                t,
                x.len(),
            ) + positive_part(value, spilled, t, m) == positive_part(
                value,
                after.0,
                t,
                after.0.len(),
            ) + positive_part(value, spilled, t, spilled.len()) by {
                lemma_positive_part_push(value, before.0, vt, t);
                assert(positive_part(value, x, t, x.len()) + positive_part(
                    value,
                    spilled,
                    t,
                    (m - 1) as nat,
                ) == positive_part(value, before.0, t, before.0.len()) + positive_part(
                    value,
                    spilled,
                    t,
                    spilled.len(),
                ));
            }
        } else {
            assert(value(vt) <= rho);
            assert forall|t: real| t >= value(after.1) implies #[trigger] positive_part(
                value,
                x,
                t,
                x.len(),
            ) + positive_part(value, spilled, t, m) == positive_part(
                value,
                after.0,
                t,
                after.0.len(),
            ) + positive_part(value, spilled, t, spilled.len()) by {
                assert(positive_part(value, x, t, x.len()) + positive_part(
                    value,
                    spilled,
                    t,
                    (m - 1) as nat,
                ) == positive_part(value, before.0, t, before.0.len()) + positive_part(
                    value,
                    spilled,
                    t,
                    spilled.len(),
                ));
            }
        }
    }
}

/// What holds of a pass of the clean-up over the candidates `v`, started at
/// the threshold `rho0`, after `k` candidates: the threshold has not fallen;
/// the candidates that were kept and those that the pass has not come to
/// exceed the threshold by `alpha` in total; and for every threshold from the
/// current one on, the positive part of the candidates kept is that of the
/// candidates passed.
pub open spec fn pass_invariant<T: OptFloat>(
    value: spec_fn(T) -> real,
    v: Seq<T>,
    alpha: T,
    rho0: T,
    kept: Seq<T>,
    rho: T,
    k: nat,
) -> bool {
    &&& kept.len() <= k
    &&& value(rho) >= value(rho0)
    &&& excess(value, kept, value(rho), kept.len()) + excess(value, v, value(rho), v.len())
        - excess(value, v, value(rho), k) == value(alpha)
    &&& forall|t: real|
        t >= value(rho) ==> #[trigger] positive_part(value, kept, t, kept.len())
            == positive_part(value, v, t, k)
}

/// In exact arithmetic the invariant of a pass holds after every number of
/// candidates, for a positive `alpha` by which the candidates exceed the
/// threshold at the start.
pub proof fn lemma_pass<T: OptFloat>(
    value: spec_fn(T) -> real,
    v: Seq<T>,
    alpha: T,
    rho0: T,
    k: nat,
)
    requires
        exact(value),
        value(alpha) > 0real,
        k <= v.len() <= usize::MAX,
        excess(value, v, value(rho0), v.len()) == value(alpha),
    ensures
        pass_invariant(
            value,
            v,
            alpha,
            rho0,
            condat_pass(v, rho0, k).0,
            condat_pass(v, rho0, k).1,
            k,
        ),
    decreases k,
{
    if k == 0 {
        let kept = condat_pass(v, rho0, 0).0;
        assert forall|t: real| t >= value(rho0) implies #[trigger] positive_part(
            value,
            kept,
            t,
            kept.len(),
        ) == positive_part(value, v, t, 0) by {}
    } else {
        lemma_pass(value, v, alpha, rho0, (k - 1) as nat);
        let before = condat_pass(v, rho0, (k - 1) as nat);
        let after = condat_pass(v, rho0, k);
        let kept = before.0;
        let rho = value(before.1);
        let vk = v[k - 1];
        assert(excess(value, v, rho, k) == excess(value, v, rho, (k - 1) as nat) + (value(vk)
            - rho));
        if vk.le_spec(before.1) {
            assert(value(vk) <= rho);
            let left = v.len() - k + kept.len();
            assert(left >= 1) by {
                if left == 0 {
                    assert(kept.len() == 0);
                    assert(k == v.len());
                    assert(excess(value, kept, rho, 0) == 0real);
                }
            }
            let divisor = T::from_u64_spec(left as u64);
            let step = before.1.sub_spec(vk).div_spec(divisor);
            let moved = value(after.1);
            assert(value(divisor) == (left as u64) as real);
            assert(value(divisor) == left as real);
            assert(value(before.1.sub_spec(vk)) == rho - value(vk));
            assert(value(step) * value(divisor) == rho - value(vk));
            assert(moved == rho + value(step));
            let d = moved - rho;
            assert(d >= 0real) by (nonlinear_arith)
                requires
                    d * (left as real) == rho - value(vk),
                    rho - value(vk) >= 0real,
                    left as real >= 1real,
            ;
            lemma_excess_shift(value, kept, rho, moved, kept.len());
            lemma_excess_shift(value, v, rho, moved, v.len());
            lemma_excess_shift(value, v, rho, moved, k);
            assert((kept.len() as real) * d + (v.len() as real) * d - (k as real) * d == (
            left as real) * d) by (nonlinear_arith)
                requires
                    left as real == kept.len() as real + v.len() as real - k as real,
            ;
            assert((left as real) * d == d * (left as real)) by (nonlinear_arith);
            assert forall|t: real| t >= moved implies #[trigger] positive_part(
                value,
                after.0,
                t,
                after.0.len(),
            ) == positive_part(value, v, t, k) by {
                assert(positive_part(value, kept, t, kept.len()) == positive_part(
                    value,
                    v,
                    t,
                    (k - 1) as nat,
                ));
            }
        } else {
            assert(value(vk) > rho);
            lemma_excess_push(value, kept, vk, rho);
            assert forall|t: real| t >= value(after.1) implies #[trigger] positive_part(
                value,
                after.0,
                t,
                after.0.len(),
            ) == positive_part(value, v, t, k) by {
                lemma_positive_part_push(value, kept, vk, t);
                assert(positive_part(value, kept, t, kept.len()) == positive_part(
                    value,
                    v,
                    t,
                    (k - 1) as nat,
                ));
            }
        }
    }
}

/// In exact arithmetic a pass that keeps all of the first `k` candidates has
/// found each of them above the threshold.
pub proof fn lemma_pass_kept_are_above<T: OptFloat>(
    value: spec_fn(T) -> real,
    v: Seq<T>,
    rho: T,
    k: nat,
)
    requires
        exact(value),
        k <= v.len(),
        condat_pass(v, rho, k).0.len() == k,
    ensures
        forall|i: int| 0 <= i < k ==> value(#[trigger] v[i]) > value(rho),
    decreases k,
{
    if k > 0 {
        lemma_condat_pass_len(v, rho, (k - 1) as nat);
        lemma_condat_pass_keeps_all(v, rho, (k - 1) as nat);
        lemma_pass_kept_are_above(value, v, rho, (k - 1) as nat);
        assert(!v[k - 1].le_spec(rho));
    }
}

/// In exact arithmetic the clean-up ends with the threshold above which the
/// entries of `x` exceed it by `alpha` in total, where it starts with
/// candidates that exceed the threshold by `alpha` and have the positive
/// part of `x` for every threshold from the first one on.
pub proof fn lemma_cleanup<T: OptFloat>(
    value: spec_fn(T) -> real,
    x: Seq<T>,
    alpha: T,
    v: Seq<T>,
    rho: T,
)
    requires
        exact(value),
        value(alpha) > 0real,
        v.len() <= usize::MAX,
        excess(value, v, value(rho), v.len()) == value(alpha),
        forall|t: real|
            t >= value(rho) ==> #[trigger] positive_part(value, x, t, x.len()) == positive_part(
                value,
                v,
                t,
                v.len(),
            ),
    ensures
        positive_part(value, x, value(condat_cleanup(v, rho)), x.len()) == value(alpha),
    decreases v.len(),
{
    let p = condat_pass(v, rho, v.len());
    lemma_pass(value, v, alpha, rho, v.len());
    lemma_condat_pass_len(v, rho, v.len());
    if p.0.len() < v.len() {
        assert forall|t: real| t >= value(p.1) implies #[trigger] positive_part(
            value,
            x,
            t,
            x.len(),
        ) == positive_part(value, p.0, t, p.0.len()) by {
            assert(positive_part(value, p.0, t, p.0.len()) == positive_part(
                value,
                v,
                t,
                v.len(),
            ));
        }
        lemma_cleanup(value, x, alpha, p.0, p.1);
    } else {
        lemma_condat_pass_keeps_all(v, rho, v.len());
        lemma_pass_kept_are_above(value, v, rho, v.len());
        lemma_positive_part_above(value, v, value(rho), v.len());
    }
}

/// In exact arithmetic the entries of `x` above the threshold of Condat's
/// algorithm exceed it by `alpha` in total.
pub proof fn lemma_threshold<T: OptFloat>(value: spec_fn(T) -> real, x: Seq<T>, alpha: T)
    requires
        exact(value),
        gt_spec(alpha, T::zero_spec()),
        1 <= x.len() <= usize::MAX,
    ensures
        positive_part(value, x, value(condat_threshold(x, alpha)), x.len()) == value(alpha),
{
    let scanned = condat_scan(x, alpha, x.len());
    lemma_scan(value, x, alpha, x.len());
    lemma_sweep(value, x, alpha, scanned, scanned.spilled.len());
    let swept = condat_sweep(scanned.active, scanned.rho, scanned.spilled, scanned.spilled.len());
    assert(value(alpha) > 0real);
    assert forall|t: real| t >= value(swept.1) implies #[trigger] positive_part(
        value,
        x,
        t,
        x.len(),
    ) == positive_part(value, swept.0, t, swept.0.len()) by {
        assert(positive_part(value, x, t, x.len()) + positive_part(
            value,
            scanned.spilled,
            t,
            scanned.spilled.len(),
        ) == positive_part(value, swept.0, t, swept.0.len()) + positive_part(
            value,
            scanned.spilled,
            t,
            scanned.spilled.len(),
        ));
    }
    lemma_cleanup(value, x, alpha, swept.0, swept.1);
}

/// In exact arithmetic the sum of the absolute values of the entries of `x`,
/// lowered by `rho` and cut off at zero, is the positive part of `x` at
/// `rho`.
pub proof fn lemma_cut_off_sum<T: OptFloat>(
    value: spec_fn(T) -> real,
    x: Seq<T>,
    rho: T,
    y: Seq<T>,
    n: nat,
)
    requires
        exact(value),
        n <= x.len(),
        y.len() == x.len(),
        forall|i: int|
            0 <= i < x.len() ==> #[trigger] y[i] == T::zero_spec().max_spec(x[i].sub_spec(rho)),
    ensures
        sum_abs(values(value, y), n) == positive_part(value, x, value(rho), n),
        forall|i: int| 0 <= i < n ==> value(#[trigger] y[i]) >= 0real,
    decreases n,
{
    if n > 0 {
        lemma_cut_off_sum(value, x, rho, y, (n - 1) as nat);
        let i = n - 1;
        assert(y[i] == T::zero_spec().max_spec(x[i].sub_spec(rho)));
        assert(value(x[i].sub_spec(rho)) == value(x[i]) - value(rho));
        assert(value(y[i]) == max_real(value(T::zero_spec()), value(x[i].sub_spec(rho))));
    }
}

/// The projection on a simplex lies on the simplex: in exact arithmetic no
/// entry of it is negative, and its entries add up to the level, so that its
/// 1-norm is the level.
pub proof fn law_simplex_projection_on_simplex<T: OptFloat>(
    value: spec_fn(T) -> real,
    simplex: Simplex<T>,
    x: Seq<T>,
)
    requires
        exact(value),
        simplex.wf(),
        1 <= x.len() <= usize::MAX,
    ensures
        simplex.contains(simplex.projection(x)),
{
    let alpha = simplex.alpha_spec();
    let rho = condat_threshold(x, alpha);
    let y = simplex_projection(x, alpha);
    lemma_threshold(value, x, alpha);
    lemma_cut_off_sum(value, x, rho, y, x.len());
    lemma_norm1_value(value, y, y.len());
    assert(value(norm1_spec(y)) == value(alpha));
    assert forall|i: int| 0 <= i < x.len() implies T::zero_spec().le_spec(
        #[trigger] simplex.projection(x)[i],
    ) by {
        assert(value(y[i]) >= 0real);
    }
}

/// For entries that are not negative, the positive part at a threshold `t`
/// compares with their sum as `t` compares with zero: it is less for a
/// positive `t`, if the sum is positive, and more for a negative `t`, if
/// there is an entry.
pub proof fn lemma_positive_part_against_sum<T>(
    value: spec_fn(T) -> real,
    y: Seq<T>,
    t: real,
    n: nat,
)
    requires
        forall|i: int| 0 <= i < n ==> value(#[trigger] y[i]) >= 0real,
    ensures
        excess(value, y, 0real, n) >= 0real,
        t >= 0real ==> positive_part(value, y, t, n) <= excess(value, y, 0real, n),
        t > 0real && excess(value, y, 0real, n) > 0real ==> positive_part(value, y, t, n)
            < excess(value, y, 0real, n),
        t < 0real ==> positive_part(value, y, t, n) >= excess(value, y, 0real, n),
        t < 0real && n >= 1 ==> positive_part(value, y, t, n) > excess(value, y, 0real, n),
    decreases n,
{
    if n > 0 {
        lemma_positive_part_against_sum(value, y, t, (n - 1) as nat);
        assert(value(y[n - 1]) >= 0real);
    }
}

/// For entries that are not negative, the sum of the absolute values is the
/// sum.
pub proof fn lemma_sum_abs_of_nonnegative<T>(value: spec_fn(T) -> real, y: Seq<T>, n: nat)
    requires
        n <= y.len(),
        forall|i: int| 0 <= i < n ==> value(#[trigger] y[i]) >= 0real,
    ensures
        sum_abs(values(value, y), n) == excess(value, y, 0real, n),
    decreases n,
{
    if n > 0 {
        lemma_sum_abs_of_nonnegative(value, y, (n - 1) as nat);
        assert(value(y[n - 1]) >= 0real);
    }
}

/// In exact arithmetic the threshold of Condat's algorithm for a vector on
/// the simplex is zero.
pub proof fn lemma_threshold_on_simplex<T: OptFloat>(
    value: spec_fn(T) -> real,
    y: Seq<T>,
    alpha: T,
)
    requires
        exact(value),
        gt_spec(alpha, T::zero_spec()),
        1 <= y.len() <= usize::MAX,
        forall|i: int| 0 <= i < y.len() ==> T::zero_spec().le_spec(#[trigger] y[i]),
        norm1_spec(y) == alpha,
    ensures
        value(condat_threshold(y, alpha)) == 0real,
{
    let rho = value(condat_threshold(y, alpha));
    lemma_threshold(value, y, alpha);
    assert forall|i: int| 0 <= i < y.len() implies value(#[trigger] y[i]) >= 0real by {
        assert(T::zero_spec().le_spec(y[i]));
    }
    lemma_norm1_value(value, y, y.len());
    lemma_sum_abs_of_nonnegative(value, y, y.len());
    lemma_positive_part_against_sum(value, y, rho, y.len());
    assert(value(alpha) > 0real);
}

/// The projection on a simplex is idempotent: in exact arithmetic the
/// projection of a projection is that projection.
pub proof fn law_simplex_idempotent<T: OptFloat>(
    value: spec_fn(T) -> real,
    simplex: Simplex<T>,
    x: Seq<T>,
)
    requires
        exact(value),
        simplex.wf(),
        1 <= x.len() <= usize::MAX,
    ensures
        simplex.projection(simplex.projection(x)) == simplex.projection(x),
{
    let alpha = simplex.alpha_spec();
    let y = simplex_projection(x, alpha);
    let z = simplex_projection(y, alpha);
    let rho = condat_threshold(y, alpha);
    law_simplex_projection_on_simplex(value, simplex, x);
    lemma_threshold_on_simplex(value, y, alpha);
    assert forall|i: int| 0 <= i < y.len() implies z[i] == y[i] by {
        assert(T::zero_spec().le_spec(y[i]));
        assert(value(y[i].sub_spec(rho)) == value(y[i]) - value(rho));
        assert(value(z[i]) == max_real(value(T::zero_spec()), value(y[i].sub_spec(rho))));
        assert(value(z[i]) == value(y[i]));
    }
    assert(z =~= y);
}

/// In exact arithmetic the projection `y` of `x` on a simplex and a point
/// `z` of the simplex meet the inequality `<x - y, y - z> >= 0`.
pub proof fn lemma_simplex_obtuse<T: OptFloat>(
    value: spec_fn(T) -> real,
    simplex: Simplex<T>,
    x: Seq<T>,
    z: Seq<real>,
)
    requires
        exact(value),
        simplex.wf(),
        1 <= x.len() <= usize::MAX,
        z.len() == x.len(),
        forall|i: int| 0 <= i < z.len() ==> #[trigger] z[i] >= 0real,
        sum(z, z.len()) == value(simplex.alpha_spec()),
    ensures
        dot(
            diff(values(value, x), values(value, simplex.projection(x))),
            diff(values(value, simplex.projection(x)), z),
            x.len(),
        ) >= 0real,
{
    let n = x.len();
    let alpha = simplex.alpha_spec();
    let threshold = condat_threshold(x, alpha);
    let rho = value(threshold);
    let y = simplex_projection(x, alpha);
    let vx = values(value, x);
    let vy = values(value, y);
    let e = diff(vx, vy);
    let h = diff(vy, z);
    law_simplex_projection_on_simplex(value, simplex, x);
    lemma_norm1_value(value, y, n);
    assert forall|i: int| 0 <= i < n implies #[trigger] vy[i] >= 0real by {
        assert(T::zero_spec().le_spec(y[i]));
    }
    lemma_sum_of_nonnegative(vy, n);
    lemma_sum_of_diff(vy, z, n);
    assert(sum(h, n) == 0real);
    assert forall|i: int| 0 <= i < n implies #[trigger] e[i] * h[i] >= rho * h[i] by {
        assert(value(x[i].sub_spec(threshold)) == vx[i] - rho);
        assert(vy[i] == max_real(value(T::zero_spec()), value(x[i].sub_spec(threshold))));
        assert(z[i] >= 0real);
        if vx[i] - rho >= 0real {
            assert(e[i] == rho);
        } else {
            assert(vy[i] == 0real);
            assert(e[i] == vx[i]);
            assert(h[i] == -z[i]);
            assert(vx[i] * (-z[i]) >= rho * (-z[i])) by (nonlinear_arith)
                requires
                    vx[i] < rho,
                    z[i] >= 0real,
            ;
        }
    }
    lemma_dot_lower_bound(e, h, rho, n);
    assert(rho * 0real == 0real) by (nonlinear_arith);
}

/// The projection on a simplex is nonexpansive: in exact arithmetic the
/// projections of two vectors are no further apart than the vectors.
pub proof fn law_simplex_nonexpansive<T: OptFloat>(
    value: spec_fn(T) -> real,
    simplex: Simplex<T>,
    x: Seq<T>,
    y: Seq<T>,
)
    requires
        exact(value),
        simplex.wf(),
        1 <= x.len() <= usize::MAX,
        x.len() == y.len(),
    ensures
        sq_dist_values(value, simplex.projection(x), simplex.projection(y)) <= sq_dist_values(
            value,
            x,
            y,
        ),
{
    let n = x.len();
    let px = simplex.projection(x);
    let py = simplex.projection(y);
    let vpx = values(value, px);
    let vpy = values(value, py);
    law_simplex_projection_on_simplex(value, simplex, x);
    law_simplex_projection_on_simplex(value, simplex, y);
    lemma_norm1_value(value, px, n);
    lemma_norm1_value(value, py, n);
    assert forall|i: int| 0 <= i < n implies #[trigger] vpx[i] >= 0real by {
        assert(T::zero_spec().le_spec(px[i]));
    }
    assert forall|i: int| 0 <= i < n implies #[trigger] vpy[i] >= 0real by {
        assert(T::zero_spec().le_spec(py[i]));
    }
    lemma_sum_of_nonnegative(vpx, n);
    lemma_sum_of_nonnegative(vpy, n);
    lemma_simplex_obtuse(value, simplex, x, vpy);
    lemma_simplex_obtuse(value, simplex, y, vpx);
    lemma_nonexpansive(values(value, x), values(value, y), vpx, vpy, n);
}

/// The projection on a simplex is a nearest point of the simplex: in exact
/// arithmetic it is no further from `x` than any point of the simplex.
pub proof fn law_simplex_nearest_point<T: OptFloat>(
    value: spec_fn(T) -> real,
    simplex: Simplex<T>,
    x: Seq<T>,
    z: Seq<T>,
)
    requires
        exact(value),
        simplex.wf(),
        1 <= x.len() <= usize::MAX,
        z.len() == x.len(),
        simplex.contains(z),
    ensures
        sq_dist_values(value, x, simplex.projection(x)) <= sq_dist_values(value, x, z),
{
    let n = x.len();
    let vz = values(value, z);
    lemma_norm1_value(value, z, n);
    assert forall|i: int| 0 <= i < n implies #[trigger] vz[i] >= 0real by {
        assert(T::zero_spec().le_spec(z[i]));
    }
    lemma_sum_of_nonnegative(vz, n);
    lemma_simplex_obtuse(value, simplex, x, vz);
    lemma_nearest(values(value, x), values(value, simplex.projection(x)), vz, n);
}

} // verus!
