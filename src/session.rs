//! One assignment statement `name = expression` against the variable table.
use vstd::prelude::*;

use crate::chars::{is_identifier, is_valid_identifier};
use crate::grammar::evaluation;
use crate::parser::evaluate;
use crate::table::Variables;
use crate::value::ParseError;

verus! {

/// Why an assignment statement was skipped.
#[derive(Debug, Clone, Copy, PartialEq, Eq, Structural)]
pub enum StatementError {
    /// The assignment target is not a valid identifier.
    InvalidIdentifier,
    /// The right-hand side did not evaluate.
    Evaluation(ParseError),
}

/// Runs `target = expression`: on success the table binds `target` to the
/// value of `expression`; on failure it is left as it was.
pub fn assign(vars: &mut Variables, target: &str, expression: &str) -> (r: Result<(), StatementError>)
    requires
        old(vars).wf(),
    ensures
        final(vars).wf(),
        !is_identifier(target@) ==> r == Err::<(), StatementError>(StatementError::InvalidIdentifier)
            && final(vars)@ == old(vars)@,
        is_identifier(target@) ==> match evaluation(expression@, old(vars)@) {
            Ok(v) => r == Ok::<(), StatementError>(()) && final(vars)@ == old(vars)@.insert(target@, v),
            Err(e) => r == Err::<(), StatementError>(StatementError::Evaluation(e))
                && final(vars)@ == old(vars)@,
        },
{
    if !is_valid_identifier(target) {
        return Err(StatementError::InvalidIdentifier);
    }
    match evaluate(expression, vars) {
        Ok(v) => {
            vars.insert(target.to_owned(), v);
            Ok(())
        },
        Err(e) => Err(StatementError::Evaluation(e)),
    }
}

} // verus!
