use feembox::text::{lex_less, push_decimal, split_on_char};


#[test]
fn decimal_notation() {
    for (n, s) in [(0u64, "0"), (7, "7"), (10, "10"), (1591610344, "1591610344"), (u64::MAX, "18446744073709551615")] {
        let mut out = "x".to_string();
        push_decimal(&mut out, n);
        assert_eq!(out, format!("x{}", s));
    }
}

#[test]
fn splitting() {
    assert_eq!(split_on_char("a:b::c", ':'), vec!["a", "b", "", "c"]);
    assert_eq!(split_on_char("", ':'), vec![""]);
    assert_eq!(split_on_char(":", ':'), vec!["", ""]);
    assert_eq!(split_on_char("żółw:ß", ':'), vec!["żółw", "ß"]);
    assert_eq!(split_on_char("a:b::c", ':').join(":"), "a:b::c");
}

#[test]
fn lexicographic_order() {
    assert!(lex_less("a", "b"));
    assert!(lex_less("a", "ab"));
    assert!(!lex_less("ab", "a"));
    assert!(!lex_less("a", "a"));
    assert!(lex_less("", "a"));
    assert!(lex_less("Z", "a"));
    assert!(lex_less("z", "ż"));
    for (a, b) in [("x@y", "x@z"), ("kernel.org,stable", "kernel.org,longterm"), ("é", "e")] {
        assert_eq!(lex_less(a, b), a < b);
    }
}
