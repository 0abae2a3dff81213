use nphysics::body::{BodyKind, BodyRef, BodyRegistry};
use nphysics::body_force_generator::{AccWrite, BodyForceGenerator};
use nphysics::body_smp_euler_integrator::BodySmpEulerIntegrator;
use nphysics::signal::SignalEmiter;

fn rigid(key: usize) -> BodyRef {
    BodyRef { key, kind: BodyKind::Rigid }
}

fn soft(key: usize) -> BodyRef {
    BodyRef { key, kind: BodyKind::Soft }
}

fn is_rigid_write(w: &AccWrite<i32, u8>, key: usize, lin: i32, ang: u8) -> bool {
    matches!(w, AccWrite::Rigid { body, lin_acc, ang_acc } if *body == key && *lin_acc == lin && *ang_acc == ang)
}

fn is_soft_write(w: &AccWrite<i32, u8>, key: usize, lin: i32) -> bool {
    matches!(w, AccWrite::Soft { body, acc } if *body == key && *acc == lin)
}

#[test]
fn registry_keeps_one_entry_per_key_in_order() {
    let mut r = BodyRegistry::new();
    assert!(r.insert(rigid(4)));
    assert!(r.insert(soft(2)));
    assert!(!r.insert(soft(4)));
    assert_eq!(r.len(), 2);
    assert!(r.get(0) == soft(4));
    assert!(r.get(1) == soft(2));
    assert!(r.kind_of(4) == Some(BodyKind::Soft));
    assert!(r.remove(4));
    assert!(!r.remove(4));
    assert_eq!(r.len(), 1);
    assert!(r.kind_of(4).is_none());
    assert!(r.get(0) == soft(2));
}

#[test]
fn generator_writes_into_added_bodies() {
    let mut g: BodyForceGenerator<i32, u8> = BodyForceGenerator::new(&mut SignalEmiter::new(), 0, -10, 3);
    assert_eq!(g.lin_acc(), -10);
    assert_eq!(g.ang_acc(), 3);
    let w = g.add(rigid(1));
    assert!(is_rigid_write(&w, 1, -10, 3));
    let w = g.add(soft(2));
    assert!(is_soft_write(&w, 2, -10));
    assert_eq!(g.bodies().len(), 2);
}

#[test]
fn set_lin_acc_writes_into_every_body() {
    let mut g: BodyForceGenerator<i32, u8> = BodyForceGenerator::new(&mut SignalEmiter::new(), 0, 0, 0);
    g.add(rigid(1));
    g.add(soft(2));
    g.add(rigid(3));
    g.remove(3);
    let ws = g.set_lin_acc(7);
    assert_eq!(ws.len(), 2);
    assert!(is_rigid_write(&ws[0], 1, 7, 0));
    assert!(is_soft_write(&ws[1], 2, 7));
    assert_eq!(g.lin_acc(), 7);
    let ws = g.set_ang_acc(9);
    assert!(is_rigid_write(&ws[0], 1, 7, 9));
    assert!(is_soft_write(&ws[1], 2, 7));
    assert_eq!(g.ang_acc(), 9);
}

#[test]
fn generator_signals_add_and_remove() {
    let mut g: BodyForceGenerator<i32, u8> = BodyForceGenerator::new(&mut SignalEmiter::new(), 0, 1, 2);
    let mut contacts: Vec<u32> = vec![5];
    let w = g.handle_body_activated_signal(rigid(8), &mut contacts);
    assert!(is_rigid_write(&w, 8, 1, 2));
    assert_eq!(contacts, vec![5]);
    assert_eq!(g.bodies().len(), 1);
    g.update(0.5f64);
    assert_eq!(g.bodies().len(), 1);
    g.handle_body_deactivated_signal(8);
    assert_eq!(g.bodies().len(), 0);
    assert!(g.set_lin_acc(3).is_empty());
}

#[test]
fn integrator_lists_rigid_bodies_in_order() {
    let mut it = BodySmpEulerIntegrator::new(&mut SignalEmiter::new(), 0);
    it.add(rigid(5));
    it.add(rigid(1));
    it.add(rigid(5));
    assert_eq!(it.rigid_bodies(), vec![5, 1]);
    it.remove(5);
    assert_eq!(it.rigid_bodies(), vec![1]);
    let mut contacts: Vec<u8> = Vec::new();
    it.handle_body_activated_signal(rigid(9), &mut contacts);
    assert_eq!(it.rigid_bodies(), vec![1, 9]);
    it.handle_body_deactivated_signal(1);
    assert_eq!(it.rigid_bodies(), vec![9]);
    it.add(soft(2));
    assert!(it.bodies().kind_of(2) == Some(BodyKind::Soft));
}

#[test]
fn activating_then_deactivating_a_new_body_restores_the_order() {
    let mut it = BodySmpEulerIntegrator::new(&mut SignalEmiter::new(), 0);
    it.add(rigid(1));
    it.add(rigid(2));
    it.add(rigid(3));
    it.remove(3);
    assert_eq!(it.rigid_bodies(), vec![1, 2]);
    let mut g: BodyForceGenerator<i32, u8> = BodyForceGenerator::new(&mut SignalEmiter::new(), 0, 4, 4);
    g.add(soft(7));
    g.add(rigid(8));
    g.remove(8);
    let ws = g.set_lin_acc(1);
    assert_eq!(ws.len(), 1);
    assert!(is_soft_write(&ws[0], 7, 1));
}

#[test]
fn removed_body_gets_no_more_writes_and_double_add_is_one_body() {
    let mut g: BodyForceGenerator<i32, u8> = BodyForceGenerator::new(&mut SignalEmiter::new(), 0, 0, 0);
    g.add(rigid(1));
    g.add(rigid(1));
    g.add(soft(2));
    let ws = g.set_lin_acc(5);
    assert_eq!(ws.len(), 2);
    g.remove(1);
    let ws = g.set_lin_acc(6);
    assert_eq!(ws.len(), 1);
    assert!(is_soft_write(&ws[0], 2, 6));
    let mut it = BodySmpEulerIntegrator::new(&mut SignalEmiter::new(), 0);
    it.add(rigid(4));
    it.add(rigid(4));
    assert_eq!(it.rigid_bodies(), vec![4]);
    it.remove(4);
    assert!(it.rigid_bodies().is_empty());
}

#[test]
fn constructors_register_their_activation_handler_once() {
    let mut events = SignalEmiter::new();
    assert_eq!(events.num_activation_handlers(), 0);
    let _g: BodyForceGenerator<i32, u8> = BodyForceGenerator::new(&mut events, 10, 0, 0);
    let _it = BodySmpEulerIntegrator::new(&mut events, 20);
    assert_eq!(events.num_activation_handlers(), 2);
    assert_eq!(events.activation_handler(0), 10);
    assert_eq!(events.activation_handler(1), 20);
    events.add_body_activation_handler(10);
    assert_eq!(events.num_activation_handlers(), 2);
}
