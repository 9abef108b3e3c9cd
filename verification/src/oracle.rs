//! Functions that are handed in and always give the same answer.

use vstd::prelude::*;

verus! {

/// A function may be asked anything, and gives one answer to each question.
pub open spec fn consistent<A, R, F: Fn(A) -> R>(f: F) -> bool {
    &&& forall|a: A| #[trigger] call_requires(f, (a,))
    &&& forall|a: A, r: R, s: R| #[trigger]
        call_ensures(f, (a,), r) && #[trigger] call_ensures(f, (a,), s) ==> r == s
}

/// The answers of a function.
pub open spec fn function_of<A, R, F: Fn(A) -> R>(f: F) -> spec_fn(A) -> R {
    |a: A| choose|r: R| call_ensures(f, (a,), r)
}

/// Ask a function.
pub fn ask<A, R, F: Fn(A) -> R>(f: &F, a: A) -> (r: R)
    requires
        consistent::<A, R, F>(*f),
    ensures
        r == function_of::<A, R, F>(*f)(a),
{
    f(a)
}

/// A function writes every value, and always in the same way.
pub open spec fn writes<A, F: Fn(A) -> String>(f: F) -> bool {
    &&& forall|a: A| #[trigger] call_requires(f, (a,))
    &&& forall|a: A, r: String, s: String| #[trigger]
        call_ensures(f, (a,), r) && #[trigger] call_ensures(f, (a,), s) ==> r@ == s@
}

/// How a function may write a value.
pub open spec fn may_write<A, F: Fn(A) -> String>(f: F, a: A, text: Seq<char>) -> bool {
    exists|s: String| s@ == text && #[trigger] call_ensures(f, (a,), s)
}

/// How a function writes values.
pub open spec fn writing<A, F: Fn(A) -> String>(f: F) -> spec_fn(A) -> Seq<char> {
    |a: A| choose|text: Seq<char>| may_write(f, a, text)
}

/// Have a value written.
pub fn write_with<A, F: Fn(A) -> String>(f: &F, a: A) -> (r: String)
    requires
        writes(*f),
    ensures
        r@ == writing(*f)(a),
{
    let ghost asked = a;
    let text: String = f(a);
    assert(may_write(*f, asked, text@));
    text
}

} // verus!
