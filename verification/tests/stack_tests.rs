use sprs_core::scalar::Scalar;
use sprs_core::stack::DStack;
use sprs_core::stack::StackVal;
use sprs_core::stack::extract_stack_val;

#[test]
fn double_stack_capacity_bounds() {
    let mut stack: DStack<usize> = DStack::with_capacity(5);
    assert_eq!(stack.capacity(), 5);
    stack.push_data(1);
    stack.push_data(2);
    stack.push_data(3);
    stack.push_rec(StackVal::Enter(9));
    assert_eq!(stack.len_data(), 3);
    assert_eq!(stack.pop_data(), Some(3));
    assert_eq!(stack.len_data(), 2);
}

#[test]
fn rec_stack_push_pop() {
    let mut stack: DStack<i64> = DStack::with_capacity(4);
    assert!(stack.is_rec_empty());
    stack.push_rec(StackVal::Enter(1));
    stack.push_rec(StackVal::Exit(2));
    assert!(!stack.is_rec_empty());
    assert_eq!(stack.pop_rec(), Some(StackVal::Exit(2)));
    assert_eq!(stack.pop_rec(), Some(StackVal::Enter(1)));
    assert_eq!(stack.pop_rec(), None);
    assert!(stack.is_rec_empty());
}

#[test]
fn data_stack_iterate_and_clear() {
    let mut stack: DStack<usize> = DStack::with_capacity(6);
    assert!(stack.is_data_empty());
    assert_eq!(stack.pop_data(), None);
    stack.push_data(4);
    stack.push_data(5);
    stack.push_data(6);
    assert!(!stack.is_data_empty());
    assert_eq!(stack.iter_data(), vec![6, 5, 4]);
    assert_eq!(stack.len_data(), 3);
    stack.clear_data();
    assert!(stack.is_data_empty());
    assert_eq!(stack.len_data(), 0);
    assert_eq!(stack.pop_data(), None);
    assert_eq!(stack.iter_data(), Vec::<usize>::new());
}

#[test]
fn regions_coexist() {
    let mut stack: DStack<u32> = DStack::with_capacity(4);
    stack.push_rec(StackVal::Enter(7));
    stack.push_data(1);
    stack.push_data(2);
    assert_eq!(stack.len_data(), 2);
    assert_eq!(stack.pop_rec(), Some(StackVal::Enter(7)));
    assert_eq!(stack.pop_data(), Some(2));
    assert_eq!(stack.pop_data(), Some(1));
    assert_eq!(stack.pop_data(), None);
}

#[test]
fn extract_stack_val_strips_tag() {
    assert_eq!(*extract_stack_val(&StackVal::Enter(7i64)), 7);
    assert_eq!(*extract_stack_val(&StackVal::Exit(3i64)), 3);
}

#[test]
fn saturating_scalar_ops() {
    assert_eq!(5i64.plus(3), 8);
    assert_eq!(5i64.minus(9), -4);
    assert_eq!(5i64.times(-3), -15);
    assert_eq!(<i64 as Scalar>::zero(), 0);
    assert_eq!(i64::MAX.plus(1), i64::MAX);
    assert_eq!(i64::MIN.minus(1), i64::MIN);
    assert_eq!(i64::MAX.times(2), i64::MAX);
    assert_eq!(i64::MAX.times(-2), i64::MIN);
}
