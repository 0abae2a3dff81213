//! Explicit and semi-implicit Euler steps for bodies that do not rotate, on integer
//! coordinates.
use vstd::prelude::*;

verus! {

/// Whether `v + f * dt` can be computed coordinate by coordinate on `i64`: the vectors have
/// the same dimension and neither the products nor the sums leave the range of `i64`.
pub open spec fn integrable(dt: i64, v: Seq<i64>, f: Seq<i64>) -> bool {
    &&& v.len() == f.len()
    &&& forall|i: int|
        0 <= i < v.len() ==> i64::MIN <= #[trigger] f[i] * dt <= i64::MAX && i64::MIN <= v[i]
            + f[i] * dt <= i64::MAX
}

/// `v + f * dt`, coordinate by coordinate.
pub open spec fn integrated(dt: i64, v: Seq<i64>, f: Seq<i64>) -> Seq<i64> {
    Seq::new(v.len(), |i: int| (v[i] + f[i] * dt) as i64)
}

/// One Euler step of `v` under the rate of change `f` over the time `dt`.
fn integrate(dt: i64, v: &Vec<i64>, f: &Vec<i64>) -> (res: Vec<i64>)
    requires
        integrable(dt, v@, f@),
    ensures
        res@ == integrated(dt, v@, f@),
{
    let n = v.len();
    let mut res: Vec<i64> = Vec::with_capacity(n);
    for i in 0..n
        invariant
            n == v@.len(),
            integrable(dt, v@, f@),
            res@.len() == i,
            forall|j: int| 0 <= j < i ==> #[trigger] res@[j] == integrated(dt, v@, f@)[j],
    {
        let fi = f[i];
        assert(i64::MIN <= fi * dt <= i64::MAX);
        let df: i64 = fi * dt;
        let x: i64 = v[i] + df;
        res.push(x);
    }
    assert(res@ =~= integrated(dt, v@, f@));
    res
}

/// Explicit Euler step without rotation: the new position `p + lv * dt` and the new velocity
/// `lv + lf * dt`, both from the velocity at the start of the step.
pub fn explicit_integrate_wo_rotation(dt: i64, p: &Vec<i64>, lv: &Vec<i64>, lf: &Vec<i64>) -> (res:
    (Vec<i64>, Vec<i64>))
    requires
        integrable(dt, p@, lv@),
        integrable(dt, lv@, lf@),
    ensures
        res.0@ == integrated(dt, p@, lv@),
        res.1@ == integrated(dt, lv@, lf@),
{
    (integrate(dt, p, lv), integrate(dt, lv, lf))
}

/// Semi-implicit Euler step without rotation: the new velocity `lv + lf * dt` first, then the
/// new position from that new velocity.
pub fn semi_implicit_integrate_wo_rotation(dt: i64, p: &Vec<i64>, lv: &Vec<i64>, lf: &Vec<i64>) -> (res:
    (Vec<i64>, Vec<i64>))
    requires
        integrable(dt, lv@, lf@),
        integrable(dt, p@, integrated(dt, lv@, lf@)),
    ensures
        res.1@ == integrated(dt, lv@, lf@),
        res.0@ == integrated(dt, p@, res.1@),
{
    let nlv = integrate(dt, lv, lf);
    (integrate(dt, p, &nlv), nlv)
}

/// The two schemes agree on the new velocity; the semi-implicit position moves further by
/// `lf * dt * dt` on each coordinate.
pub proof fn lemma_semi_implicit_vs_explicit(dt: i64, p: Seq<i64>, lv: Seq<i64>, lf: Seq<i64>)
    requires
        integrable(dt, p, lv),
        integrable(dt, lv, lf),
        integrable(dt, p, integrated(dt, lv, lf)),
    ensures
        forall|i: int|
            0 <= i < p.len() ==> #[trigger] integrated(dt, p, integrated(dt, lv, lf))[i]
                == integrated(dt, p, lv)[i] + lf[i] * dt * dt,
{
    assert forall|i: int| 0 <= i < p.len() implies #[trigger] integrated(
        dt,
        p,
        integrated(dt, lv, lf),
    )[i] == integrated(dt, p, lv)[i] + lf[i] * dt * dt by {
        let a = p[i] as int;
        let b = lv[i] as int;
        let c = lf[i] as int;
        let d = dt as int;
        assert((b + c * d) * d == b * d + c * d * d) by (nonlinear_arith);
    }
}

} // verus!
