//! The simplex and Condat's projection onto it
use super::Constraint;
use crate::engine::opt_float::{gt_spec, OptFloat};
use crate::matrix_operations::norm1_spec;
use vstd::prelude::*;

verus! {

/// The state of Condat's algorithm while it scans the vector: the candidates
/// for the support of the projection, the candidates that were set aside, and
/// the running threshold.
pub struct CondatState<T> {
    /// The active candidates, in the order in which they were taken up.
    pub active: Seq<T>,
    /// The candidates that were set aside, to be looked at once more.
    pub spilled: Seq<T>,
    /// The threshold: the mean of the active candidates, less `alpha` over
    /// their number.
    pub rho: T,
}

/// The state with which the scan starts: the first entry is the only
/// candidate.
pub open spec fn condat_start<T: OptFloat>(x0: T, alpha: T) -> CondatState<T> {
    CondatState { active: seq![x0], spilled: Seq::empty(), rho: x0.sub_spec(alpha) }
}

/// One step of the scan. An entry above the threshold joins the active
/// candidates and moves the threshold; if the moved threshold does not exceed
/// `xn - alpha`, the active candidates are set aside and `xn` starts anew.
pub open spec fn condat_scan_step<T: OptFloat>(s: CondatState<T>, xn: T, alpha: T) -> CondatState<
    T,
> {
    if gt_spec(xn, s.rho) {
        let rho = s.rho.add_spec(
            xn.sub_spec(s.rho).div_spec(T::from_u64_spec((s.active.len() + 1) as u64)),
        );
        if gt_spec(rho, xn.sub_spec(alpha)) {
            CondatState { active: s.active.push(xn), spilled: s.spilled, rho }
        } else {
            CondatState {
                active: seq![xn],
                spilled: s.spilled + s.active,
                rho: xn.sub_spec(alpha),
            }
        }
    } else {
        s
    }
}

/// The state after the scan of the first `n` entries of `x`.
pub open spec fn condat_scan<T: OptFloat>(x: Seq<T>, alpha: T, n: nat) -> CondatState<T>
    decreases n,
{
    if n <= 1 {
        condat_start(x[0], alpha)
    } else {
        condat_scan_step(condat_scan(x, alpha, (n - 1) as nat), x[n - 1], alpha)
    }
}

/// One step of the sweep over the candidates that were set aside: one above
/// the threshold becomes active again and moves the threshold.
pub open spec fn condat_sweep_step<T: OptFloat>(active: Seq<T>, rho: T, vt: T) -> (Seq<T>, T) {
    if gt_spec(vt, rho) {
        (
            active.push(vt),
            rho.add_spec(vt.sub_spec(rho).div_spec(T::from_u64_spec((active.len() + 1) as u64))),
        )
    } else {
        (active, rho)
    }
}

/// The active candidates and the threshold after the sweep over the first `m`
/// of the candidates that were set aside.
pub open spec fn condat_sweep<T: OptFloat>(active: Seq<T>, rho: T, spilled: Seq<T>, m: nat) -> (
    Seq<T>,
    T,
)
    decreases m,
{
    if m == 0 {
        (active, rho)
    } else {
        let p = condat_sweep(active, rho, spilled, (m - 1) as nat);
        condat_sweep_step(p.0, p.1, spilled[m - 1])
    }
}

/// One pass of the clean-up over the first `k` active candidates: those that
/// stay, in their order, and the threshold. A candidate that does not exceed
/// the threshold leaves, and the threshold moves by the candidate's distance
/// below it, divided by the number of candidates that are left.
pub open spec fn condat_pass<T: OptFloat>(v: Seq<T>, rho: T, k: nat) -> (Seq<T>, T)
    decreases k,
{
    if k == 0 {
        (Seq::empty(), rho)
    } else {
        let p = condat_pass(v, rho, (k - 1) as nat);
        let vk = v[k - 1];
        if vk.le_spec(p.1) {
            let left = v.len() - k + p.0.len();
            (p.0, p.1.add_spec(p.1.sub_spec(vk).div_spec(T::from_u64_spec(left as u64))))
        } else {
            (p.0.push(vk), p.1)
        }
    }
}

/// The threshold after the clean-up: passes are made until one removes no
/// candidate.
pub open spec fn condat_cleanup<T: OptFloat>(v: Seq<T>, rho: T) -> T
    decreases v.len(),
{
    let p = condat_pass(v, rho, v.len());
    if p.0.len() < v.len() {
        condat_cleanup(p.0, p.1)
    } else {
        p.1
    }
}

/// The threshold that Condat's algorithm finds for `x` and the level `alpha`.
pub open spec fn condat_threshold<T: OptFloat>(x: Seq<T>, alpha: T) -> T {
    let s = condat_scan(x, alpha, x.len());
    let w = condat_sweep(s.active, s.rho, s.spilled, s.spilled.len());
    condat_cleanup(w.0, w.1)
}

/// The vector `x` lies on the simplex of level `alpha`: no entry is
/// negative, and the entries add up to `alpha`, so that the 1-norm is `alpha`.
pub open spec fn on_simplex<T: OptFloat>(x: Seq<T>, alpha: T) -> bool {
    &&& forall|i: int| 0 <= i < x.len() ==> T::zero_spec().le_spec(#[trigger] x[i])
    &&& norm1_spec(x) == alpha
}

/// The projection on the simplex of level `alpha`: every entry is lowered by
/// the threshold and cut off at zero.
pub open spec fn simplex_projection<T: OptFloat>(x: Seq<T>, alpha: T) -> Seq<T> {
    let rho = condat_threshold(x, alpha);
    Seq::new(x.len(), |i: int| T::zero_spec().max_spec(x[i].sub_spec(rho)))
}

/// A pass keeps at most the candidates that it has looked at.
pub proof fn lemma_condat_pass_len<T: OptFloat>(v: Seq<T>, rho: T, k: nat)
    ensures
        condat_pass(v, rho, k).0.len() <= k,
    decreases k,
{
    if k > 0 {
        lemma_condat_pass_len(v, rho, (k - 1) as nat);
    }
}

/// A pass that removes nothing changes nothing.
pub proof fn lemma_condat_pass_keeps_all<T: OptFloat>(v: Seq<T>, rho: T, k: nat)
    requires
        k <= v.len(),
        condat_pass(v, rho, k).0.len() == k,
    ensures
        condat_pass(v, rho, k).0 == v.subrange(0, k as int),
        condat_pass(v, rho, k).1 == rho,
    decreases k,
{
    if k > 0 {
        lemma_condat_pass_len(v, rho, (k - 1) as nat);
        lemma_condat_pass_keeps_all(v, rho, (k - 1) as nat);
        assert(v.subrange(0, k as int) =~= v.subrange(0, k - 1).push(v[k - 1]));
    } else {
        assert(v.subrange(0, 0) =~= Seq::<T>::empty());
    }
}

#[derive(Copy, Clone)]
/// A simplex with level `alpha` is a set of the form
/// `{x : x >= 0, sum_i x_i = alpha}`, where `alpha` is a positive constant.
pub struct Simplex<T: OptFloat> {
    /// Simplex level
    alpha: T,
}

impl<T: OptFloat> Simplex<T> {
    /// The level of the simplex.
    pub closed spec fn alpha_spec(&self) -> T {
        self.alpha
    }

    /// The level is positive.
    pub open spec fn wf(&self) -> bool {
        gt_spec(self.alpha_spec(), T::zero_spec())
    }

    /// The simplex of level `alpha`.
    pub closed spec fn with_level(alpha: T) -> Self {
        Simplex { alpha }
    }

    /// The level of the simplex of level `alpha` is `alpha`.
    pub proof fn lemma_with_level(alpha: T)
        ensures
            Self::with_level(alpha).alpha_spec() == alpha,
    {
    }

    /// Construct a new simplex with given (positive) `alpha`. The user does not
    /// need to specify the dimension of the simplex.
    pub fn new(alpha: T) -> (s: Self)
        requires
            gt_spec(alpha, T::zero_spec()),
        ensures
            s.alpha_spec() == alpha,
            s.wf(),
    {
        Simplex { alpha }
    }
}

impl<T: OptFloat> Constraint<T> for Simplex<T> {
    /// A vector with at least one entry.
    open spec fn admits_dimension(&self, n: nat) -> bool {
        n >= 1
    }

    open spec fn contains(&self, x: Seq<T>) -> bool {
        on_simplex(x, self.alpha_spec())
    }

    open spec fn projection(&self, x: Seq<T>) -> Seq<T> {
        simplex_projection(x, self.alpha_spec())
    }

    open spec fn convex(&self) -> bool {
        true
    }

    /// Project onto the simplex using Condat's fast projection algorithm.
    ///
    /// See: Laurent Condat. Fast Projection onto the Simplex and the l1 Ball.
    /// Mathematical Programming, Series A, Springer, 2016, 158 (1),
    /// pp. 575-585.
    fn project(&self, x: &mut [T]) {
        let a = self.alpha;
        let n = x.len();

        // the first entry is the first candidate
        let mut v: Vec<T> = Vec::with_capacity(n);
        v.push(x[0]);
        let mut v_tilde: Vec<T> = Vec::new();
        let mut rho: T = x[0].sub(a);

        // scan of the other entries
        let mut i: usize = 1;
        while i < n
            invariant
                1 <= i <= n,
                n == x@.len(),
                x@ == old(x)@,
                a == self.alpha_spec(),
                v@.len() + v_tilde@.len() <= i,
                v@ == condat_scan(x@, a, i as nat).active,
                v_tilde@ == condat_scan(x@, a, i as nat).spilled,
                rho == condat_scan(x@, a, i as nat).rho,
            decreases n - i,
        {
            let x_n = x[i];
            if x_n.gt(rho) {
                let len_plus_one = T::from_u64((v.len() + 1) as u64);
                let moved = rho.add(x_n.sub(rho).div(len_plus_one));
                if moved.gt(x_n.sub(a)) {
                    v.push(x_n);
                    rho = moved;
                } else {
                    v_tilde.append(&mut v);
                    v.push(x_n);
                    rho = x_n.sub(a);
                    assert(v@ =~= seq![x_n]);
                }
            }
            i += 1;
        }

        // sweep over the candidates that were set aside
        let ghost scanned = condat_scan(x@, a, n as nat);
        let m = v_tilde.len();
        let mut j: usize = 0;
        while j < m
            invariant
                j <= m,
                m == v_tilde@.len(),
                v_tilde@ == scanned.spilled,
                v@.len() + m <= n + j,
                v@ == condat_sweep(scanned.active, scanned.rho, scanned.spilled, j as nat).0,
                rho == condat_sweep(scanned.active, scanned.rho, scanned.spilled, j as nat).1,
            decreases m - j,
        {
            let v_t_n = v_tilde[j];
            if v_t_n.gt(rho) {
                v.push(v_t_n);
                let len_t = T::from_u64(v.len() as u64);
                rho = rho.add(v_t_n.sub(rho).div(len_t));
            }
            j += 1;
        }

        // clean-up: passes until one removes no candidate
        let ghost swept = condat_sweep(
            scanned.active,
            scanned.rho,
            scanned.spilled,
            scanned.spilled.len(),
        );
        let mut keep_running = true;
        while keep_running
            invariant
                keep_running ==> condat_cleanup(v@, rho) == condat_cleanup(swept.0, swept.1),
                !keep_running ==> rho == condat_cleanup(swept.0, swept.1),
            decreases v@.len() + (if keep_running { 1nat } else { 0nat }),
        {
            let len_v = v.len();
            let ghost before = v@;
            let ghost rho_before = rho;
            let mut kept: Vec<T> = Vec::with_capacity(len_v);
            let mut k: usize = 0;
            while k < len_v
                invariant
                    k <= len_v,
                    len_v == v@.len(),
                    v@ == before,
                    kept@.len() <= k,
                    kept@ == condat_pass(before, rho_before, k as nat).0,
                    rho == condat_pass(before, rho_before, k as nat).1,
                decreases len_v - k,
            {
                let v_n = v[k];
                if v_n.le(rho) {
                    let current_len_t = T::from_u64((len_v - k - 1 + kept.len()) as u64);
                    rho = rho.add(rho.sub(v_n).div(current_len_t));
                } else {
                    kept.push(v_n);
                }
                k += 1;
            }
            keep_running = kept.len() != len_v;
            proof {
                if !keep_running {
                    lemma_condat_pass_keeps_all(before, rho_before, len_v as nat);
                }
            }
            v = kept;
        }

        // every entry is lowered by the threshold and cut off at zero
        let zero: T = T::zero();
        let mut l: usize = 0;
        while l < n
            invariant
                l <= n,
                n == x@.len(),
                n == old(x)@.len(),
                zero == T::zero_spec(),
                rho == condat_threshold(old(x)@, self.alpha_spec()),
                forall|t: int| 0 <= t < l ==> x@[t] == zero.max_spec(old(x)@[t].sub_spec(rho)),
                forall|t: int| l <= t < n ==> x@[t] == old(x)@[t],
            decreases n - l,
        {
            x[l] = zero.max(x[l].sub(rho));
            l += 1;
        }
        assert(x@ =~= simplex_projection(old(x)@, self.alpha_spec()));
    }

    fn is_convex(&self) -> bool {
        true
    }
}

} // verus!
