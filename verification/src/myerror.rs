//! Error-handling patterns: a small error taxonomy, conversions between
//! its layers, and functions that produce each failure.

use vstd::prelude::*;

verus! {

/// Basic error: a text cause or a numeric cause.
#[derive(Debug)]
pub enum MyError {
    Foo(String),
    Bar(u32),
}

/// Always fails with the text cause `x`.
pub fn foo(x: &str) -> (r: Result<(), MyError>)
    ensures
        r matches Err(MyError::Foo(s)) && s@ == x@,
{
    Err(MyError::Foo(x.to_owned()))
}

/// Always fails with the numeric cause `v`.
pub fn bar(v: u32) -> (r: Result<(), MyError>)
    ensures
        r matches Err(MyError::Bar(w)) && w == v,
{
    Err(MyError::Bar(v))
}

/// Propagates the first failure it meets; since `foo` always fails, the
/// result carries the text cause `piyo`.
pub fn hoge() -> (r: Result<(), MyError>)
    ensures
        r matches Err(MyError::Foo(s)) && s@ == "piyo"@,
{
    match foo("piyo") {
        Ok(u) => u,
        Err(e) => {
            return Err(e);
        },
    };
    match foo("hoge") {
        Ok(u) => u,
        Err(e) => {
            return Err(e);
        },
    };
    Ok(())
}

/// Second layer: wraps the basic error, or an I/O failure's message.
#[derive(Debug)]
pub enum MyError2 {
    MyError(MyError),
    IoError(String),
}

impl vstd::std_specs::convert::FromSpecImpl<MyError> for MyError2 {
    open spec fn obeys_from_spec() -> bool {
        true
    }

    open spec fn from_spec(x: MyError) -> Self {
        MyError2::MyError(x)
    }
}

impl From<MyError> for MyError2 {
    fn from(x: MyError) -> Self {
        MyError2::MyError(x)
    }
}

/// Third layer: as the second, with one structured cause of its own.
#[derive(Debug)]
pub enum MyError3 {
    MyError(MyError),
    IoError(String),
    Hoge { a: u32, b: String },
}

impl vstd::std_specs::convert::FromSpecImpl<MyError> for MyError3 {
    open spec fn obeys_from_spec() -> bool {
        true
    }

    open spec fn from_spec(x: MyError) -> Self {
        MyError3::MyError(x)
    }
}

impl From<MyError> for MyError3 {
    fn from(x: MyError) -> Self {
        MyError3::MyError(x)
    }
}

} // verus!
