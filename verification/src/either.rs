//! A two-variant sum type used by the access layer to report which branch of
//! an alternation matched.

use vstd::prelude::*;

verus! {

/// The result of a left-biased alternation: `Left` when the first branch
/// matched, `Right` when only the second did.
pub enum Either<A, B> {
    Left(A),
    Right(B),
}

/// Projections out of a two-variant sum.
pub trait LeftRight {
    type Left;

    type Right;

    fn left(self) -> Option<Self::Left>;

    fn right(self) -> Option<Self::Right>;
}

impl<A, B> LeftRight for Either<A, B> {
    type Left = A;

    type Right = B;

    fn left(self) -> (r: Option<A>)
        ensures
            self matches Either::Left(a) ==> r == Some(a),
            self matches Either::Right(b) ==> r is None,
    {
        match self {
            Either::Left(a) => Some(a),
            _ => None,
        }
    }

    fn right(self) -> (r: Option<B>)
        ensures
            self matches Either::Right(b) ==> r == Some(b),
            self matches Either::Left(a) ==> r is None,
    {
        match self {
            Either::Right(b) => Some(b),
            _ => None,
        }
    }
}

impl<'a, A, B> LeftRight for &'a Either<A, B> {
    type Left = &'a A;

    type Right = &'a B;

    fn left(self) -> (r: Option<&'a A>)
        ensures
            self matches Either::Left(x) ==> r == Some(x),
            self matches Either::Right(y) ==> r is None,
    {
        match self {
            Either::Left(a) => Some(a),
            _ => None,
        }
    }

    fn right(self) -> (r: Option<&'a B>)
        ensures
            self matches Either::Right(y) ==> r == Some(y),
            self matches Either::Left(x) ==> r is None,
    {
        match self {
            Either::Right(b) => Some(b),
            _ => None,
        }
    }
}

} // verus!
