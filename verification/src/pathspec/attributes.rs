//! The attribute list of an `attr:` keyword, read by `git_attributes`.

use git_attributes::parse::{Error, Iter};
use git_attributes::StateRef;
use vstd::prelude::*;

use crate::pathspec::{State, StateView};

verus! {

/// What `git_attributes::parse::Iter` makes of one line of attribute
/// assignments: the assignments in the order of the line, each a name and
/// the state asked of it, or the first failure. A failure holds the name
/// that was refused where the reader reports one.
pub uninterp spec fn attribute_assignments(input: Seq<u8>) -> Result<
    Seq<(Seq<u8>, StateView)>,
    Option<Seq<u8>>,
>;

/// The mathematical value of what [`read_assignments`] returns.
pub open spec fn assignments_view(
    r: Result<Vec<(Vec<u8>, State)>, Option<Vec<u8>>>,
) -> Result<Seq<(Seq<u8>, StateView)>, Option<Seq<u8>>> {
    match r {
        Ok(list) => Ok(list.deep_view()),
        Err(Some(name)) => Err(Some(name@)),
        Err(None) => Err(None),
    }
}

/// Runs `git_attributes::parse::Iter::new(input, 0)` to its end and hands out
/// what it yields as plain values. Nothing is claimed of the outcome but that
/// it is the one which [`attribute_assignments`] names: the same bytes give
/// the same list or the same failure.
#[verifier::external_body]
pub(crate) fn read_assignments(input: &[u8]) -> (r: Result<
    Vec<(Vec<u8>, State)>,
    Option<Vec<u8>>,
>)
    ensures
        assignments_view(r) == attribute_assignments(input@),
{
    let mut list = Vec::new();
    for item in Iter::new(input.into(), 0) {
        list.push(match item {
            Ok((name, StateRef::Set)) => (name.to_vec(), State::IsSet),
            Ok((name, StateRef::Unset)) => (name.to_vec(), State::Unset),
            Ok((name, StateRef::Unspecified)) => (name.to_vec(), State::Unspecified),
            Ok((name, StateRef::Value(v))) => (name.to_vec(), State::Value(v.to_vec())),
            Err(Error::AttributeName { attribute, .. }) => return Err(Some(attribute.into())),
            Err(_) => return Err(None),
        });
    }
    Ok(list)
}

} // verus!
