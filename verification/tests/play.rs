use fourad::{if_some, if_some_with};

#[test]
fn test_if_some() {
    assert_eq!(Some(3), if_some(true, 3));
    assert_eq!(None, if_some(false, 3));
}

#[test]
fn test_if_some_with() {
    assert_eq!(Some(8), if_some_with(true, || 8));
    assert_eq!(None, if_some_with(false, || 8));
}

#[test]
fn if_some_with_calls_only_when_asked() {
    let mut calls = 0;
    assert_eq!(None, if_some_with(false, || { calls += 1; 1 }));
    assert_eq!(calls, 0);
    assert_eq!(Some(1), if_some_with(true, || { calls += 1; 1 }));
    assert_eq!(calls, 1);
}
