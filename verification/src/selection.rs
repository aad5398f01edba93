//! Choosing the variables to inject: those whose name starts with a prefix.

use crate::attributes::{pairs_model, PairModel};
use vstd::prelude::*;

verus! {

/// The predicate "the pair's name starts with `prefix`".
pub open spec fn named_with(prefix: Seq<char>) -> spec_fn(PairModel) -> bool {
    |p: PairModel| prefix.is_prefix_of(p.0)
}

/// The pairs whose name starts with `prefix`, in their order.
pub open spec fn selected(pairs: Seq<PairModel>, prefix: Seq<char>) -> Seq<PairModel> {
    pairs.filter(named_with(prefix))
}

/// `str::starts_with` with a string as the pattern: whether `prefix` is a
/// prefix of `text`.
#[verifier::external_body]
fn starts_with(text: &str, prefix: &str) -> (r: bool)
    ensures
        r == prefix@.is_prefix_of(text@),
{
    text.starts_with(prefix)
}

/// The variables among `pairs` whose name starts with `prefix`, in the
/// order in which `pairs` holds them.
pub fn select_variables(pairs: &Vec<(String, String)>, prefix: &str) -> (chosen: Vec<(String, String)>)
    ensures
        pairs_model(chosen@) == selected(pairs_model(pairs@), prefix@),
{
    let ghost all = pairs_model(pairs@);
    let ghost pred = named_with(prefix@);
    let mut chosen: Vec<(String, String)> = Vec::new();
    let mut n: usize = 0;
    assert(all.take(0) =~= Seq::<PairModel>::empty());
    assert(pairs_model(chosen@) =~= all.take(0).filter(pred));
    while n < pairs.len()
        invariant
            n <= pairs@.len(),
            all == pairs_model(pairs@),
            pred == named_with(prefix@),
            pairs_model(chosen@) == all.take(n as int).filter(pred),
        decreases pairs@.len() - n,
    {
        let pair = &pairs[n];
        let ghost before = pairs_model(chosen@);
        proof {
            assert(all.take(n + 1).drop_last() =~= all.take(n as int));
            assert(all.take(n + 1).last() == (pair.0@, pair.1@));
            reveal_with_fuel(Seq::filter, 2);
        }
        if starts_with(pair.0.as_str(), prefix) {
            chosen.push((pair.0.clone(), pair.1.clone()));
            assert(pairs_model(chosen@) =~= before.push((pair.0@, pair.1@)));
        }
        n += 1;
    }
    assert(all.take(n as int) =~= all);
    chosen
}

} // verus!
