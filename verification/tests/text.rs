use rust_lessons::text::{greeting, split};

#[test]
fn hello_works() {}

#[test]
fn split_at_first_separator() {
    assert_eq!(split("hello world1", ' '), Some(("hello", "world1")));
    assert_eq!(split("a b c", ' '), Some(("a", "b c")));
    assert_eq!(split("abc", ' '), None);
    assert_eq!(split(" x", ' '), Some(("", "x")));
    assert_eq!(split("αβγ", 'β'), Some(("α", "γ")));
}

#[test]
fn greeting_wraps_name() {
    assert_eq!(greeting("Tyr"), "hello Tyr!");
    assert_eq!(greeting(""), "hello !");
}
