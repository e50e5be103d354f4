use unzip::myerror::{bar, foo, hoge, MyError, MyError2, MyError3};

#[test]
fn foo_fails_with_its_text() {
    match foo("piyo") {
        Err(MyError::Foo(s)) => assert_eq!(s, "piyo"),
        _ => panic!("foo must fail with its text cause"),
    }
}

#[test]
fn bar_fails_with_its_number() {
    match bar(32) {
        Err(MyError::Bar(v)) => assert_eq!(v, 32),
        _ => panic!("bar must fail with its numeric cause"),
    }
}

#[test]
fn hoge_propagates_the_first_failure() {
    match hoge() {
        Err(MyError::Foo(s)) => assert_eq!(s, "piyo"),
        _ => panic!("hoge must propagate foo's first failure"),
    }
}

#[test]
fn conversions_wrap_the_basic_error() {
    match MyError2::from(MyError::Bar(7)) {
        MyError2::MyError(MyError::Bar(v)) => assert_eq!(v, 7),
        _ => panic!("conversion must wrap the basic error"),
    }
    match MyError3::from(MyError::Foo("x".to_string())) {
        MyError3::MyError(MyError::Foo(s)) => assert_eq!(s, "x"),
        _ => panic!("conversion must wrap the basic error"),
    }
}
