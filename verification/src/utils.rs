//! Search helpers over the open-quote book.

use vstd::prelude::*;

use crate::types::Quote;

verus! {

/// Whether some resting quote crosses the incoming one.
pub open spec fn spec_has_match(quotes: Seq<Quote>, incoming: Quote) -> bool {
    exists|i: int| 0 <= i < quotes.len() && (#[trigger] quotes[i]).spec_crosses(incoming)
}

/// Index of the first resting quote that crosses the incoming one;
/// meaningful only when some quote does.
pub open spec fn spec_first_cross(quotes: Seq<Quote>, q: Quote) -> int
    decreases quotes.len(),
{
    if quotes.len() == 0 {
        0
    } else if quotes.first().spec_crosses(q) {
        0
    } else {
        1 + spec_first_cross(quotes.drop_first(), q)
    }
}

/// When some resting quote crosses, the first crossing position is in range
/// and crosses.
pub proof fn lemma_first_cross_props(quotes: Seq<Quote>, q: Quote)
    requires
        spec_has_match(quotes, q),
    ensures
        0 <= spec_first_cross(quotes, q) < quotes.len(),
        quotes[spec_first_cross(quotes, q)].spec_crosses(q),
    decreases quotes.len(),
{
    if quotes.first().spec_crosses(q) {
        assert(quotes[0] == quotes.first());
    } else {
        let i = choose|i: int| 0 <= i < quotes.len() && (#[trigger] quotes[i]).spec_crosses(q);
        assert(quotes.drop_first()[i - 1] == quotes[i]);
        assert(spec_has_match(quotes.drop_first(), q));
        lemma_first_cross_props(quotes.drop_first(), q);
        let k = spec_first_cross(quotes.drop_first(), q);
        assert(quotes[1 + k] == quotes.drop_first()[k]);
    }
}

/// A position that crosses, before which nothing crosses, is the first
/// crossing position.
pub proof fn lemma_first_cross(quotes: Seq<Quote>, q: Quote, i: int)
    requires
        0 <= i < quotes.len(),
        quotes[i].spec_crosses(q),
        forall|j: int| 0 <= j < i ==> !(#[trigger] quotes[j]).spec_crosses(q),
    ensures
        spec_first_cross(quotes, q) == i,
    decreases quotes.len(),
{
    if i == 0 {
        assert(quotes.first() == quotes[0]);
    } else {
        assert(!quotes.first().spec_crosses(q)) by {
            assert(quotes.first() == quotes[0]);
        }
        assert forall|j: int| 0 <= j < i - 1 implies !(#[trigger] quotes.drop_first()[j]).spec_crosses(
            q,
        ) by {
            assert(quotes.drop_first()[j] == quotes[j + 1]);
        }
        assert(quotes.drop_first()[i - 1] == quotes[i]);
        lemma_first_cross(quotes.drop_first(), q, i - 1);
    }
}

/// Index of the first resting quote a new quote crosses: a different owner,
/// the same suit, an equal price and the opposite side.
pub fn find_matching_quote_idx(quotes: &[Quote], new_quote: &Quote) -> (r: Option<usize>)
    ensures
        match r {
            Some(i) => {
                &&& i < quotes@.len()
                &&& quotes@[i as int].spec_crosses(*new_quote)
                &&& forall|j: int|
                    0 <= j < i ==> !(#[trigger] quotes@[j]).spec_crosses(*new_quote)
            },
            None => !spec_has_match(quotes@, *new_quote),
        },
{
    let mut i: usize = 0;
    while i < quotes.len()
        invariant
            i <= quotes@.len(),
            forall|j: int| 0 <= j < i ==> !(#[trigger] quotes@[j]).spec_crosses(*new_quote),
        decreases quotes@.len() - i,
    {
        if quotes[i].crosses(new_quote) {
            return Some(i);
        }
        i = i + 1;
    }
    None
}

} // verus!
