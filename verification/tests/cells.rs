use react::CellId;
use react::ComputeCellType;
use react::Func;
use react::InputCellType;
use react::Node;
use react::Reactor;
use react::RemoveCallbackError;

#[test]
fn func_eval_follows_the_argument_list() {
    let f = Func::Sub(Box::new(Func::Arg(0)), Box::new(Func::Arg(1)));
    assert_eq!(f.eval(&vec![10, 3]), 7);
    assert_eq!(f.eval(&vec![3, 10]), -7);
    let g = Func::Mul(
        Box::new(Func::Add(Box::new(Func::Arg(0)), Box::new(Func::Const(1)))),
        Box::new(Func::Const(3)),
    );
    assert_eq!(g.eval(&vec![4]), 15);
    assert_eq!(Func::Const(9).eval(&vec![]), 9);
    assert_eq!(Func::Arg(2).eval(&vec![1, 2]), 0);
}

#[test]
fn func_eval_saturates() {
    let plus = Func::Add(Box::new(Func::Arg(0)), Box::new(Func::Arg(1)));
    assert_eq!(plus.eval(&vec![i64::MAX, 1]), i64::MAX);
    assert_eq!(plus.eval(&vec![i64::MIN, -1]), i64::MIN);
    let minus = Func::Sub(Box::new(Func::Arg(0)), Box::new(Func::Arg(1)));
    assert_eq!(minus.eval(&vec![i64::MIN, 1]), i64::MIN);
    let times = Func::Mul(Box::new(Func::Arg(0)), Box::new(Func::Arg(1)));
    assert_eq!(times.eval(&vec![i64::MAX, 2]), i64::MAX);
    assert_eq!(times.eval(&vec![i64::MAX, -2]), i64::MIN);
    assert_eq!(times.eval(&vec![1000, -1000]), -1000000);
}

#[test]
fn input_node_holds_and_updates_its_value() {
    let mut n = Node::create_input(41);
    assert_eq!(n.get_value(), 41);
    n.set_value(8);
    assert_eq!(n.get_value(), 8);
}

#[test]
fn input_node_takes_no_callbacks() {
    let mut n = Node::create_input(0);
    assert_eq!(n.add_callback(), None);
}

#[test]
fn input_node_reports_callback_removal_as_nonexistent_cell() {
    let mut owner = Node::create_compute(
        vec![],
        Func::Const(0),
        &vec![],
    );
    let cb = owner.add_callback().unwrap();
    let mut n = Node::create_input(0);
    assert_eq!(
        n.remove_callback(cb),
        Err(RemoveCallbackError::NonexistentCell)
    );
}

#[test]
fn compute_node_seeds_its_cache_from_the_handed_values() {
    let f = Func::Sub(Box::new(Func::Arg(0)), Box::new(Func::Arg(1)));
    let n = Node::create_compute(vec![0, 1], f, &vec![9, 4]);
    assert_eq!(n.get_value(), 5);
}

#[test]
fn compute_node_callbacks_record_notifications_in_order() {
    let mut n = Node::create_compute(vec![], Func::Const(0), &vec![]);
    let cb = n.add_callback().unwrap();
    n.invoke_callbacks(3);
    n.invoke_callbacks(-2);
    assert_eq!(n.callback_count(), 1);
    assert!(n.callback_slot(0).is_active());
    assert_eq!(n.callback_slot(0).values(), &vec![3, -2]);
    assert_eq!(n.remove_callback(cb), Ok(()));
    n.invoke_callbacks(7);
    assert!(!n.callback_slot(0).is_active());
    assert_eq!(n.callback_slot(0).values(), &vec![3, -2]);
    assert_eq!(
        n.remove_callback(cb),
        Err(RemoveCallbackError::NonexistentCallback)
    );
}

#[test]
fn compute_cell_bookkeeping_tracks_edges_and_function() {
    let f = Func::Add(Box::new(Func::Arg(0)), Box::new(Func::Arg(1)));
    let mut c = ComputeCellType::new(vec![2, 5], f);
    assert_eq!(c.children_iter(), &vec![2, 5]);
    assert_eq!(c.parent_iter(), &vec![]);
    c.add_parent(7);
    c.add_parent(9);
    assert_eq!(c.parent_iter(), &vec![7, 9]);
    assert_eq!(c.rerun_compute_function(&vec![20, 2]), 22);
}

#[test]
fn compute_cell_callback_slots_are_never_reused() {
    let mut c = ComputeCellType::new(vec![], Func::Const(0));
    let first = c.add_callback().unwrap();
    assert_eq!(c.remove_callback(first), Ok(()));
    let second = c.add_callback().unwrap();
    assert_ne!(first, second);
    c.invoke_callback(4);
    assert_eq!(c.callback_count(), 2);
    assert_eq!(c.callback_slot(0).values(), &vec![]);
    assert_eq!(c.callback_slot(1).values(), &vec![4]);
}

#[test]
fn input_cell_bookkeeping_tracks_parents() {
    let mut ic = InputCellType::new(vec![]);
    assert_eq!(ic.parent_iter(), &vec![]);
    ic.add_parent(4);
    ic.add_parent(4);
    assert_eq!(ic.parent_iter(), &vec![4, 4]);
}

#[test]
fn node_add_parent_keeps_the_value() {
    let mut n = Node::create_input(6);
    n.add_parent(1);
    assert_eq!(n.get_value(), 6);
    assert_eq!(n.parent_list(), &vec![1]);
}

#[test]
fn reactor_wires_parent_edges_at_creation() {
    let mut r = Reactor::new();
    let x = r.create_input(1);
    let a = r
        .create_compute(
            &vec![CellId::Input(x)],
            Func::Add(Box::new(Func::Arg(0)), Box::new(Func::Const(0))),
        )
        .unwrap();
    assert!(r.set_value(x, 2));
    assert_eq!(r.value(CellId::Compute(a)), Some(2));
}
