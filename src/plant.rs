use crate::grammar::{derives, expand, Grammar};
use crate::turtle::{plan, plan_outcome, Binding, BranchError, TurtleAction};
use rand::rngs::StdRng;
use vstd::prelude::*;

verus! {

/// Grows one plant: expands the grammar with the given random stream and
/// turns the word reached into turtle actions.
pub fn new_plant(grammar: &Grammar, bindings: &Vec<Binding>, rng: &mut StdRng) -> (r: Result<
    Vec<TurtleAction>,
    BranchError,
>)
    requires
        grammar.wf(),
    ensures
        exists|word: Seq<char>|
            derives(grammar.rules@, grammar.start@, grammar.iterations as nat, word)
                && #[trigger] plan_outcome(word, bindings@, r),
{
    let word = expand(grammar, rng);
    let r = plan(&word, bindings);
    assert(derives(grammar.rules@, grammar.start@, grammar.iterations as nat, word@)
        && plan_outcome(word@, bindings@, r));
    r
}

} // verus!
