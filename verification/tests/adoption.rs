use malloc_buf::AdoptError;
use malloc_buf::Malloc;
use malloc_buf::ReleaseAction;

use std::rc::Rc;

#[test]
fn test_null_buf() {
    let buf = Malloc::<u32>::from_array(0, 0, vec![]).unwrap();
    assert!(buf.as_slice() == &[] as &[u32]);
    assert!(Some(buf.as_slice()) == Some(&[] as &[u32]));
}

#[test]
fn test_buf() {
    let buf = Malloc::from_array(0x1000, 3, vec![1i32, 2, 3]).unwrap();
    assert!(buf.as_slice() == [1, 2, 3]);
}

#[test]
fn test_string() {
    let s = Malloc::from_c_str(0x2000, vec![b'h', b'e', b'y', 0]).unwrap();
    assert!(s.as_slice() == &b"hey"[..]);
}

#[test]
fn test_single() {
    let m = Malloc::new(0x3000, 4);
    assert!(*m.get(0) == 4);

    let m = Malloc::new(0x3008, "hello".to_string());
    assert!(*m.get(0) == "hello");
}

#[test]
fn test_drop() {
    let num: Rc<i32> = Rc::new(4);
    assert_eq!(Rc::strong_count(&num), 1);

    let buf = Malloc::from_array(0x4000, 2, vec![num.clone(), num.clone()]).unwrap();
    assert_eq!(Rc::strong_count(&num), 3);

    drop(buf);
    assert_eq!(Rc::strong_count(&num), 1);
}

#[test]
fn null_with_nonzero_count_fails() {
    let r = Malloc::<u32>::from_array(0, 5, vec![]);
    assert!(matches!(r, Err(AdoptError::NullAddress)));
}

#[test]
fn empty_views_compare_equal() {
    let a = Malloc::<u8>::from_array(0, 0, vec![]).unwrap();
    let b = Malloc::<u8>::from_array(0x5000, 0, vec![]).unwrap();
    assert_eq!(a.as_slice(), b.as_slice());
    assert_eq!(a.len(), 0);
    assert_eq!(b.len(), 0);
}

#[test]
fn release_plan_of_array() {
    let buf = Malloc::from_array(0x6000, 3, vec![10u8, 20, 30]).unwrap();
    let plan = buf.release();
    assert_eq!(
        plan,
        vec![
            ReleaseAction::DestroyElement { index: 0 },
            ReleaseAction::DestroyElement { index: 1 },
            ReleaseAction::DestroyElement { index: 2 },
            ReleaseAction::Free { addr: 0x6000 },
        ]
    );
}

#[test]
fn release_plan_of_sentinel_is_empty() {
    let buf = Malloc::<u64>::from_array(0, 0, vec![]).unwrap();
    let plan = buf.release();
    assert_eq!(plan, vec![]);
}

#[test]
fn release_plan_of_real_empty_array_frees_once() {
    let buf = Malloc::<u64>::from_array(0x7000, 0, vec![]).unwrap();
    let plan = buf.release();
    assert_eq!(plan, vec![ReleaseAction::Free { addr: 0x7000 }]);
}

#[test]
fn release_plan_of_cell() {
    let m = Malloc::new(0x8000, 'x');
    let plan = m.release();
    assert_eq!(
        plan,
        vec![
            ReleaseAction::DestroyElement { index: 0 },
            ReleaseAction::Free { addr: 0x8000 },
        ]
    );
}

#[test]
fn release_destroys_adopted_values_exactly_once() {
    let probe: Rc<()> = Rc::new(());
    let m = Malloc::new(0x9000, probe.clone());
    assert_eq!(Rc::strong_count(&probe), 2);
    let _plan = m.release();
    assert_eq!(Rc::strong_count(&probe), 1);

    let buf = Malloc::from_array(0xA000, 3, vec![probe.clone(), probe.clone(), probe.clone()])
        .unwrap();
    assert_eq!(Rc::strong_count(&probe), 4);
    let plan = buf.release();
    assert_eq!(plan.len(), 4);
    assert_eq!(Rc::strong_count(&probe), 1);
}
