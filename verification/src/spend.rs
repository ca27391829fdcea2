//! Prices of models. Token counts become money where the host multiplies.

use vstd::prelude::*;

use crate::text::text_eq;

verus! {

/// The prices of a model of a provider, for a million tokens.
#[derive(Debug, Clone)]
pub struct ModelPricing<P> {
    pub provider: String,
    pub model: String,
    pub input_cost_per_mtok: Option<P>,
    pub output_cost_per_mtok: Option<P>,
}

impl<P> ModelPricing<P> {
    /// Whether these are the prices of a model of a provider.
    pub open spec fn is_of(self, provider: Seq<char>, model: Seq<char>) -> bool {
        self.provider@ == provider && self.model@ == model
    }
}

/// What a model is charged at: nothing is known where neither price is set;
/// otherwise a price that is not set counts as free.
pub open spec fn charged<P>(p: ModelPricing<P>, free: P) -> Option<(P, P)> {
    if p.input_cost_per_mtok is None && p.output_cost_per_mtok is None {
        None
    } else {
        Some(
            (
                match p.input_cost_per_mtok {
                    Some(c) => c,
                    None => free,
                },
                match p.output_cost_per_mtok {
                    Some(c) => c,
                    None => free,
                },
            ),
        )
    }
}

impl<P: Copy> ModelPricing<P> {
    /// What the model is charged at, input and output, if any price is set.
    pub fn rates(&self, free: P) -> (r: Option<(P, P)>)
        ensures
            r == charged(*self, free),
    {
        match (self.input_cost_per_mtok, self.output_cost_per_mtok) {
            (None, None) => None,
            (Some(i), Some(o)) => Some((i, o)),
            (Some(i), None) => Some((i, free)),
            (None, Some(o)) => Some((free, o)),
        }
    }
}

/// The prices of models.
#[derive(Debug, Clone)]
pub struct PricingTable<P>(pub Vec<ModelPricing<P>>);

impl<P> Default for PricingTable<P> {
    fn default() -> (r: PricingTable<P>)
        ensures
            r.0@.len() == 0,
    {
        PricingTable(Vec::new())
    }
}

/// Whether the first entry for the model of a provider stands at a position.
pub open spec fn first_price<P>(
    table: Seq<ModelPricing<P>>,
    provider: Seq<char>,
    model: Seq<char>,
    at: int,
) -> bool {
    &&& 0 <= at < table.len()
    &&& table[at].is_of(provider, model)
    &&& forall|k: int| 0 <= k < at ==> !(#[trigger] table[k]).is_of(provider, model)
}

impl<P> PricingTable<P> {
    /// The first prices of a model of a provider.
    pub fn find(&self, provider: &str, model: &str) -> (r: Option<&ModelPricing<P>>)
        ensures
            match r {
                Some(p) => exists|i: int| #[trigger] first_price(self.0@, provider@, model@, i)
                    && self.0@[i] == *p,
                None => forall|i: int|
                    0 <= i < self.0@.len() ==> !(#[trigger] self.0@[i]).is_of(provider@, model@),
            },
    {
        let mut i: usize = 0;
        while i < self.0.len()
            invariant
                i <= self.0@.len(),
                forall|k: int| 0 <= k < i ==> !(#[trigger] self.0@[k]).is_of(provider@, model@),
            decreases self.0.len() - i,
        {
            let p = &self.0[i];
            if text_eq(p.provider.as_str(), provider) && text_eq(p.model.as_str(), model) {
                proof {
                    assert(first_price(self.0@, provider@, model@, i as int));
                }
                return Some(p);
            }
            i = i + 1;
        }
        None
    }
}

impl<P: Copy> PricingTable<P> {
    /// What a model is charged at, input and output; nothing for a model
    /// without prices.
    pub fn rates(&self, provider: &str, model: &str, free: P) -> (r: Option<(P, P)>)
        ensures
            match r {
                Some(rates) => exists|i: int| #[trigger]
                    first_price(self.0@, provider@, model@, i) && charged(self.0@[i], free)
                        == Some(rates),
                None => forall|i: int| #[trigger]
                    first_price(self.0@, provider@, model@, i) ==> charged(self.0@[i], free)
                        is None,
            },
    {
        match self.find(provider, model) {
            Some(p) => p.rates(free),
            None => None,
        }
    }
}

/// A model is charged at its prices; a price that is not set is free where the
/// other is set, and nothing is known where neither is.
pub proof fn models_are_charged_at_their_prices<P>(p: ModelPricing<P>, free: P)
    ensures
        charged(p, free) is None <==> p.input_cost_per_mtok is None
            && p.output_cost_per_mtok is None,
        charged(p, free) matches Some((input, output)) ==> {
            &&& p.input_cost_per_mtok matches Some(c) ==> input == c
            &&& p.input_cost_per_mtok is None ==> input == free
            &&& p.output_cost_per_mtok matches Some(c) ==> output == c
            &&& p.output_cost_per_mtok is None ==> output == free
        },
{
}

/// The prices that are found for a model are prices of it, and none stand in
/// front of them.
pub proof fn first_prices_come_first<P>(
    table: Seq<ModelPricing<P>>,
    provider: Seq<char>,
    model: Seq<char>,
    at: int,
)
    requires
        first_price(table, provider, model, at),
    ensures
        0 <= at < table.len(),
        table[at].provider@ == provider && table[at].model@ == model,
        forall|k: int|
            0 <= k < at ==> (#[trigger] table[k]).provider@ != provider || table[k].model@ != model,
{
    assert forall|k: int| 0 <= k < at implies (#[trigger] table[k]).provider@ != provider
        || table[k].model@ != model by {
        assert(!table[k].is_of(provider, model));
    }
}

}
