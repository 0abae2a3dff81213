use nphysics::euler::{explicit_integrate_wo_rotation, semi_implicit_integrate_wo_rotation};

#[test]
fn explicit_step_uses_the_old_velocity() {
    let p = vec![0, 10, -5];
    let lv = vec![1, 2, 3];
    let lf = vec![10, 0, -1];
    let (np, nlv) = explicit_integrate_wo_rotation(2, &p, &lv, &lf);
    assert_eq!(np, vec![2, 14, 1]);
    assert_eq!(nlv, vec![21, 2, 1]);
}

#[test]
fn semi_implicit_step_uses_the_new_velocity() {
    let p = vec![0, 10, -5];
    let lv = vec![1, 2, 3];
    let lf = vec![10, 0, -1];
    let (np, nlv) = semi_implicit_integrate_wo_rotation(2, &p, &lv, &lf);
    assert_eq!(nlv, vec![21, 2, 1]);
    assert_eq!(np, vec![42, 14, -3]);
}

#[test]
fn schemes_differ_by_force_times_dt_squared() {
    let p = vec![3, -4];
    let lv = vec![5, 7];
    let lf = vec![-2, 9];
    let dt = 3;
    let (ep, ev) = explicit_integrate_wo_rotation(dt, &p, &lv, &lf);
    let (sp, sv) = semi_implicit_integrate_wo_rotation(dt, &p, &lv, &lf);
    assert_eq!(ev, sv);
    for i in 0..2 {
        assert_eq!(sp[i], ep[i] + lf[i] * dt * dt);
    }
}

#[test]
fn zero_time_step_changes_nothing() {
    let p = vec![i64::MAX, i64::MIN];
    let lv = vec![i64::MAX, 1];
    let lf = vec![i64::MIN, 1];
    let (np, nlv) = semi_implicit_integrate_wo_rotation(0, &p, &lv, &lf);
    assert_eq!(np, p);
    assert_eq!(nlv, lv);
}

#[test]
fn empty_vectors() {
    let e: Vec<i64> = Vec::new();
    let (np, nlv) = explicit_integrate_wo_rotation(5, &e, &e, &e);
    assert!(np.is_empty());
    assert!(nlv.is_empty());
}
