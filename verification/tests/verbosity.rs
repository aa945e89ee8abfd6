use feembox::options::Verbosity;


#[test]
fn parse() {
    assert_eq!(Verbosity::from(0), Verbosity::Quiet);
    assert_eq!(Verbosity::from(1), Verbosity::Human);
    assert_eq!(Verbosity::from(2), Verbosity::Debug);
    assert_eq!(Verbosity::from(3), Verbosity::Debug);
    assert_eq!(Verbosity::from(4), Verbosity::Debug);
    assert_eq!(Verbosity::from(5), Verbosity::Debug);
}

#[test]
fn verbosity_never_decreases() {
    let mut previous = Verbosity::from(0);
    for n in 1..10u64 {
        let v = Verbosity::from(n);
        assert!(v >= previous);
        previous = v;
    }
    assert_eq!(Verbosity::from(u64::MAX), Verbosity::Debug);
}
