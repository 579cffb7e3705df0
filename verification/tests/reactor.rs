use react::CellId;
use react::Func;
use react::Reactor;
use react::RemoveCallbackError;

fn arg(i: usize) -> Func {
    Func::Arg(i)
}

fn konst(c: i64) -> Func {
    Func::Const(c)
}

fn add(a: Func, b: Func) -> Func {
    Func::Add(Box::new(a), Box::new(b))
}

fn sub(a: Func, b: Func) -> Func {
    Func::Sub(Box::new(a), Box::new(b))
}

fn mul(a: Func, b: Func) -> Func {
    Func::Mul(Box::new(a), Box::new(b))
}

#[test]
fn input_cells_hold_what_was_set() {
    let mut r = Reactor::new();
    let x = r.create_input(11);
    let y = r.create_input(-4);
    assert_eq!(r.value(CellId::Input(x)), Some(11));
    assert_eq!(r.value(CellId::Input(y)), Some(-4));
    assert!(r.set_value(x, 42));
    assert_eq!(r.value(CellId::Input(x)), Some(42));
    assert_eq!(r.value(CellId::Input(y)), Some(-4));
}

#[test]
fn compute_cell_evaluated_once_at_creation() {
    let mut r = Reactor::new();
    let x = r.create_input(1);
    let a = r
        .create_compute(&vec![CellId::Input(x)], add(arg(0), konst(1)))
        .unwrap();
    assert_eq!(r.value(CellId::Compute(a)), Some(2));
}

#[test]
fn compute_cell_without_dependencies_is_constant() {
    let mut r = Reactor::new();
    let c = r.create_compute(&vec![], konst(5)).unwrap();
    assert_eq!(r.value(CellId::Compute(c)), Some(5));
}

#[test]
fn compute_cells_take_other_compute_cells_as_dependencies() {
    let mut r = Reactor::new();
    let x = r.create_input(1);
    let a = r
        .create_compute(&vec![CellId::Input(x)], add(arg(0), konst(1)))
        .unwrap();
    let b = r
        .create_compute(&vec![CellId::Compute(a)], mul(arg(0), konst(2)))
        .unwrap();
    assert_eq!(r.value(CellId::Compute(b)), Some(4));
    assert!(r.set_value(x, 10));
    assert_eq!(r.value(CellId::Compute(a)), Some(11));
    assert_eq!(r.value(CellId::Compute(b)), Some(22));
}

#[test]
fn diamond_settles_with_consistent_final_values() {
    let mut r = Reactor::new();
    let x = r.create_input(1);
    let a = r
        .create_compute(&vec![CellId::Input(x)], add(arg(0), konst(1)))
        .unwrap();
    let b = r
        .create_compute(&vec![CellId::Input(x)], mul(arg(0), konst(2)))
        .unwrap();
    let c = r
        .create_compute(
            &vec![CellId::Compute(a), CellId::Compute(b)],
            add(arg(0), arg(1)),
        )
        .unwrap();
    let cb = r.add_callback(c).unwrap();
    assert!(r.set_value(x, 3));
    assert_eq!(r.value(CellId::Compute(a)), Some(4));
    assert_eq!(r.value(CellId::Compute(b)), Some(6));
    assert_eq!(r.value(CellId::Compute(c)), Some(10));
    // the reconvergence cell reported exactly once, with the final value,
    // never an intermediate mix of one updated branch and one stale one
    assert_eq!(r.callback_values(c, cb), Some(vec![10]));
}

#[test]
fn every_cell_of_the_diamond_reports_once() {
    let mut r = Reactor::new();
    let x = r.create_input(1);
    let a = r
        .create_compute(&vec![CellId::Input(x)], add(arg(0), konst(1)))
        .unwrap();
    let b = r
        .create_compute(&vec![CellId::Input(x)], mul(arg(0), konst(2)))
        .unwrap();
    let c = r
        .create_compute(
            &vec![CellId::Compute(a), CellId::Compute(b)],
            add(arg(0), arg(1)),
        )
        .unwrap();
    let cba = r.add_callback(a).unwrap();
    let cbb = r.add_callback(b).unwrap();
    let cbc = r.add_callback(c).unwrap();
    assert!(r.set_value(x, 3));
    assert_eq!(r.callback_values(a, cba), Some(vec![4]));
    assert_eq!(r.callback_values(b, cbb), Some(vec![6]));
    assert_eq!(r.callback_values(c, cbc), Some(vec![10]));
}

#[test]
fn fan_out_updates_every_dependent() {
    let mut r = Reactor::new();
    let x = r.create_input(2);
    let mut cells = Vec::new();
    for i in 0..8 {
        let c = r
            .create_compute(&vec![CellId::Input(x)], mul(arg(0), konst(i)))
            .unwrap();
        cells.push(c);
    }
    assert!(r.set_value(x, 5));
    for (i, c) in cells.iter().enumerate() {
        assert_eq!(r.value(CellId::Compute(*c)), Some(5 * i as i64));
    }
}

#[test]
fn unrelated_inputs_do_not_disturb_each_other() {
    let mut r = Reactor::new();
    let x = r.create_input(1);
    let y = r.create_input(100);
    let ax = r
        .create_compute(&vec![CellId::Input(x)], add(arg(0), konst(1)))
        .unwrap();
    let ay = r
        .create_compute(&vec![CellId::Input(y)], add(arg(0), konst(1)))
        .unwrap();
    let cbx = r.add_callback(ax).unwrap();
    let cby = r.add_callback(ay).unwrap();
    assert!(r.set_value(y, 200));
    assert_eq!(r.value(CellId::Compute(ax)), Some(2));
    assert_eq!(r.value(CellId::Compute(ay)), Some(201));
    assert_eq!(r.callback_values(ax, cbx), Some(vec![]));
    assert_eq!(r.callback_values(ay, cby), Some(vec![201]));
}

#[test]
fn callbacks_fire_at_most_once_per_round() {
    let mut r = Reactor::new();
    let x = r.create_input(0);
    let a = r
        .create_compute(&vec![CellId::Input(x), CellId::Input(x)], add(arg(0), arg(1)))
        .unwrap();
    let cb = r.add_callback(a).unwrap();
    assert!(r.set_value(x, 2));
    assert!(r.set_value(x, 5));
    assert_eq!(r.callback_values(a, cb), Some(vec![4, 10]));
}

#[test]
fn setting_the_current_value_again_notifies_nobody() {
    let mut r = Reactor::new();
    let x = r.create_input(7);
    let a = r
        .create_compute(&vec![CellId::Input(x)], add(arg(0), konst(1)))
        .unwrap();
    let cb = r.add_callback(a).unwrap();
    assert!(r.set_value(x, 7));
    assert_eq!(r.callback_values(a, cb), Some(vec![]));
    assert_eq!(r.value(CellId::Compute(a)), Some(8));
}

#[test]
fn setting_the_same_new_value_twice_notifies_once() {
    let mut r = Reactor::new();
    let x = r.create_input(0);
    let a = r
        .create_compute(&vec![CellId::Input(x)], mul(arg(0), konst(3)))
        .unwrap();
    let cb = r.add_callback(a).unwrap();
    assert!(r.set_value(x, 4));
    assert!(r.set_value(x, 4));
    assert_eq!(r.callback_values(a, cb), Some(vec![12]));
}

#[test]
fn unchanged_compute_value_does_not_fire_even_when_a_dependency_changed() {
    let mut r = Reactor::new();
    let x = r.create_input(2);
    // a is sensitive to x only through x - x, so it never changes
    let a = r
        .create_compute(&vec![CellId::Input(x), CellId::Input(x)], sub(arg(0), arg(1)))
        .unwrap();
    let cb = r.add_callback(a).unwrap();
    assert!(r.set_value(x, 9));
    assert_eq!(r.value(CellId::Compute(a)), Some(0));
    assert_eq!(r.callback_values(a, cb), Some(vec![]));
}

#[test]
fn dependency_order_decides_argument_order() {
    let mut r = Reactor::new();
    let x = r.create_input(10);
    let y = r.create_input(3);
    let d1 = r
        .create_compute(&vec![CellId::Input(x), CellId::Input(y)], sub(arg(0), arg(1)))
        .unwrap();
    let d2 = r
        .create_compute(&vec![CellId::Input(y), CellId::Input(x)], sub(arg(0), arg(1)))
        .unwrap();
    assert_eq!(r.value(CellId::Compute(d1)), Some(7));
    assert_eq!(r.value(CellId::Compute(d2)), Some(-7));
    assert!(r.set_value(x, 20));
    assert_eq!(r.value(CellId::Compute(d1)), Some(17));
    assert_eq!(r.value(CellId::Compute(d2)), Some(-17));
}

#[test]
fn removed_callback_is_never_notified_again() {
    let mut r = Reactor::new();
    let x = r.create_input(0);
    let a = r
        .create_compute(&vec![CellId::Input(x)], add(arg(0), konst(1)))
        .unwrap();
    let cb = r.add_callback(a).unwrap();
    assert!(r.set_value(x, 1));
    assert_eq!(r.callback_values(a, cb), Some(vec![2]));
    assert_eq!(r.remove_callback(a, cb), Ok(()));
    assert!(r.set_value(x, 5));
    assert_eq!(r.value(CellId::Compute(a)), Some(6));
    // the record stays readable and stays what it was at removal
    assert_eq!(r.callback_values(a, cb), Some(vec![2]));
}

#[test]
fn removing_a_callback_twice_fails_the_second_time() {
    let mut r = Reactor::new();
    let x = r.create_input(0);
    let a = r
        .create_compute(&vec![CellId::Input(x)], add(arg(0), konst(1)))
        .unwrap();
    let cb = r.add_callback(a).unwrap();
    assert_eq!(r.remove_callback(a, cb), Ok(()));
    assert_eq!(
        r.remove_callback(a, cb),
        Err(RemoveCallbackError::NonexistentCallback)
    );
}

#[test]
fn removing_a_callback_never_issued_fails() {
    let mut r = Reactor::new();
    let x = r.create_input(0);
    let a = r
        .create_compute(&vec![CellId::Input(x)], add(arg(0), konst(1)))
        .unwrap();
    // another reactor's compute cell has handed out two callback ids;
    // the second was never issued by `a`, which has only one slot
    let mut other = Reactor::new();
    let oa = other.create_compute(&vec![], konst(0)).unwrap();
    let _ = other.add_callback(oa).unwrap();
    let foreign = other.add_callback(oa).unwrap();
    let _ = r.add_callback(a).unwrap();
    assert_eq!(
        r.remove_callback(a, foreign),
        Err(RemoveCallbackError::NonexistentCallback)
    );
}

#[test]
fn removing_from_an_unknown_cell_fails() {
    let mut r = Reactor::new();
    let mut other = Reactor::new();
    let oa = other.create_compute(&vec![], konst(0)).unwrap();
    let cb = other.add_callback(oa).unwrap();
    assert_eq!(
        r.remove_callback(oa, cb),
        Err(RemoveCallbackError::NonexistentCell)
    );
}

#[test]
fn other_callbacks_keep_firing_after_one_is_removed() {
    let mut r = Reactor::new();
    let x = r.create_input(0);
    let a = r
        .create_compute(&vec![CellId::Input(x)], add(arg(0), konst(1)))
        .unwrap();
    let cb1 = r.add_callback(a).unwrap();
    let cb2 = r.add_callback(a).unwrap();
    assert!(r.set_value(x, 1));
    assert_eq!(r.remove_callback(a, cb1), Ok(()));
    assert!(r.set_value(x, 2));
    assert_eq!(r.callback_values(a, cb1), Some(vec![2]));
    assert_eq!(r.callback_values(a, cb2), Some(vec![2, 3]));
}

#[test]
fn unknown_ids_are_reported_not_crashed_on() {
    let mut r = Reactor::new();
    let x = r.create_input(1);
    assert!(r.set_value(x, 2));

    // ids from a bigger reactor probe indices this one has not allocated
    let mut big = Reactor::new();
    let _ = big.create_input(0);
    let stranger = big.create_input(0);
    assert_eq!(r.value(CellId::Input(stranger)), None);
    assert!(!r.set_value(stranger, 9));
    assert_eq!(r.value(CellId::Input(x)), Some(2));
}

#[test]
fn create_compute_rejects_the_first_unknown_dependency_and_adds_nothing() {
    let mut r = Reactor::new();
    let x = r.create_input(1);

    let mut big = Reactor::new();
    let _ = big.create_input(0);
    let stranger = big.create_input(0);

    let bad = r.create_compute(
        &vec![
            CellId::Input(x),
            CellId::Input(stranger),
            CellId::Input(stranger),
        ],
        add(arg(0), arg(1)),
    );
    assert_eq!(bad, Err(CellId::Input(stranger)));

    // no node was created: the index the failed call would have used is
    // still unallocated, so an id wrapping it resolves to nothing
    assert_eq!(r.value(CellId::Input(stranger)), None);
    // and the next creation in r takes that very index, proving the count
    // was unchanged by the failed call
    let next = r.create_input(77);
    assert_eq!(r.value(CellId::Input(stranger)), Some(77));
    assert_eq!(r.value(CellId::Input(next)), Some(77));
}

#[test]
fn kind_mismatched_ids_are_reported_not_crashed_on() {
    // r: index 0 is an input, index 1 is a compute cell
    let mut r = Reactor::new();
    let x = r.create_input(3);
    let a = r
        .create_compute(&vec![CellId::Input(x)], add(arg(0), konst(1)))
        .unwrap();

    // other: index 0 is a compute cell, index 1 is an input
    let mut other = Reactor::new();
    let oc = other.create_compute(&vec![], konst(0)).unwrap();
    let oi = other.create_input(0);

    // a ComputeCellId whose index holds an input cell of r: no callback
    assert_eq!(r.add_callback(oc), None);
    assert_eq!(
        r.remove_callback(oc, other.add_callback(oc).unwrap()),
        Err(RemoveCallbackError::NonexistentCell)
    );
    // an InputCellId whose index holds a compute cell of r: no write
    assert!(!r.set_value(oi, 9));
    assert_eq!(r.value(CellId::Compute(a)), Some(4));
}

#[test]
fn deep_chain_propagates_in_one_call() {
    let mut r = Reactor::new();
    let x = r.create_input(0);
    let mut last = CellId::Input(x);
    for _ in 0..20 {
        let c = r.create_compute(&vec![last], add(arg(0), konst(1))).unwrap();
        last = CellId::Compute(c);
    }
    assert_eq!(r.value(last), Some(20));
    assert!(r.set_value(x, 100));
    assert_eq!(r.value(last), Some(120));
}

#[test]
fn arithmetic_saturates_at_the_i64_bounds() {
    let mut r = Reactor::new();
    let x = r.create_input(i64::MAX);
    let up = r
        .create_compute(&vec![CellId::Input(x)], add(arg(0), konst(1)))
        .unwrap();
    let down = r
        .create_compute(&vec![CellId::Input(x)], sub(konst(i64::MIN), arg(0)))
        .unwrap();
    let wide = r
        .create_compute(&vec![CellId::Input(x)], mul(arg(0), konst(2)))
        .unwrap();
    assert_eq!(r.value(CellId::Compute(up)), Some(i64::MAX));
    assert_eq!(r.value(CellId::Compute(down)), Some(i64::MIN));
    assert_eq!(r.value(CellId::Compute(wide)), Some(i64::MAX));
    assert!(r.set_value(x, 3));
    assert_eq!(r.value(CellId::Compute(up)), Some(4));
    assert_eq!(r.value(CellId::Compute(down)), Some(i64::MIN));
    assert_eq!(r.value(CellId::Compute(wide)), Some(6));
}

#[test]
fn argument_positions_beyond_the_list_read_as_zero() {
    let mut r = Reactor::new();
    let x = r.create_input(5);
    let a = r
        .create_compute(&vec![CellId::Input(x)], add(arg(0), arg(7)))
        .unwrap();
    assert_eq!(r.value(CellId::Compute(a)), Some(5));
}

#[test]
fn callback_records_of_unknown_slots_are_none() {
    let mut r = Reactor::new();
    let x = r.create_input(0);
    let a = r
        .create_compute(&vec![CellId::Input(x)], add(arg(0), konst(1)))
        .unwrap();
    let mut other = Reactor::new();
    let oa = other.create_compute(&vec![], konst(0)).unwrap();
    let foreign = other.add_callback(oa).unwrap();
    assert_eq!(r.callback_values(a, foreign), None);
    assert_eq!(r.callback_values(oa, foreign), None);
}
