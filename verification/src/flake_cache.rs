//! The Nix expression that loads the flake of a workspace.

use vstd::prelude::*;
use vstd::string::StringExecFns;

verus! {

/// The expression that evaluates to the flake at `flake_path`, fetched
/// through git from the local file system.
pub open spec fn flake_expression_of(flake_path: Seq<char>) -> Seq<char> {
    "builtins.getFlake git+file://"@ + flake_path
}

/// The expression is `builtins.getFlake` applied to the `git+file://`
/// URL of the path: that fixed text followed by the path, unchanged.
pub proof fn law_flake_expression_shape(flake_path: Seq<char>)
    ensures
        flake_expression_of(flake_path).len() == 29 + flake_path.len(),
        flake_expression_of(flake_path).take(29) == "builtins.getFlake git+file://"@,
        flake_expression_of(flake_path).skip(29) == flake_path,
{
    reveal_strlit("builtins.getFlake git+file://");
    assert(flake_expression_of(flake_path).take(29) =~= "builtins.getFlake git+file://"@);
    assert(flake_expression_of(flake_path).skip(29) =~= flake_path);
}

/// Builds the expression that loads the flake at `flake_path`.
pub fn flake_expression(flake_path: &str) -> (expression: String)
    ensures
        expression@ == flake_expression_of(flake_path@),
{
    let mut expression = String::from_str("builtins.getFlake git+file://");
    expression.append(flake_path);
    expression
}

} // verus!
