//! The configured language models.
//!
//! A price is whatever the host counts money in: the library carries prices
//! and never computes with them.

use vstd::prelude::*;
use vstd::string::StringExecFns;

use crate::text::{lowercased, occurs_in, text_contains, text_eq, texts, to_lowercase};

verus! {

/// A configured model, for the pickers of models and validators.
#[derive(Debug, Clone)]
pub struct LlmModelEntry<P> {
    /// Name for humans.
    pub name: String,
    /// Name that the provider knows the model by.
    pub model: String,
    /// "ollama", "anthropic", "openrouter", or the name of a source.
    pub provider: String,
    /// Token budget of the model, in place of the common one.
    pub token_budget: Option<u64>,
    /// Price of a million input tokens.
    pub input_cost_per_mtok: Option<P>,
    /// Price of a million output tokens.
    pub output_cost_per_mtok: Option<P>,
    /// Offered as a validator.
    pub validator: bool,
    /// Offered as a validator only.
    pub validator_only: bool,
    /// Chat types that the model is limited to; empty for all.
    pub restrict: Vec<String>,
}

/// A setting that is one string, or a list of them.
#[derive(Debug, Clone)]
pub enum OneOrMany {
    One(String),
    Many(Vec<String>),
}

/// The strings of a setting that is one string, or a list of them.
pub fn one_or_many(setting: OneOrMany) -> (r: Vec<String>)
    ensures
        match setting {
            OneOrMany::One(s) => texts(r@) == seq![s@],
            OneOrMany::Many(v) => r == v,
        },
{
    match setting {
        OneOrMany::One(s) => {
            let mut out: Vec<String> = Vec::new();
            let ghost text = s@;
            out.push(s);
            proof {
                assert(texts(out@) =~= seq![text]);
            }
            out
        },
        OneOrMany::Many(v) => v,
    }
}

/// What a provider is called.
pub open spec fn provider_title(provider: Seq<char>) -> Seq<char> {
    if provider == "ollama"@ {
        "Ollama"@
    } else if provider == "anthropic"@ {
        "Anthropic"@
    } else if provider == "openrouter"@ {
        "OpenRouter"@
    } else if provider == "openai_compat"@ {
        "plan.ai Hosted"@
    } else {
        provider
    }
}

/// The name of a model with its provider behind it, unless the name has it
/// already.
pub open spec fn titled(name: Seq<char>, provider: Seq<char>) -> Seq<char> {
    if occurs_in(lowercased(name), lowercased(provider)) {
        name
    } else {
        name + " ("@ + provider_title(provider) + ")"@
    }
}

impl<P> LlmModelEntry<P> {
    /// Whether the model serves a chat type.
    pub open spec fn serves(self, chat_type: Seq<char>) -> bool {
        self.restrict@.len() == 0 || texts(self.restrict@).contains(chat_type)
    }

    /// Whether this is the model of a provider.
    pub open spec fn is_model(self, provider: Seq<char>, model: Seq<char>) -> bool {
        self.provider@ == provider && self.model@ == model
    }

    /// A regular model for all chat types, without budget and prices.
    pub fn basic(name: &str, model: &str, provider: &str) -> (r: LlmModelEntry<P>)
        ensures
            r.name@ == name@,
            r.model@ == model@,
            r.provider@ == provider@,
            r.token_budget is None,
            r.input_cost_per_mtok is None,
            r.output_cost_per_mtok is None,
            !r.validator,
            !r.validator_only,
            r.restrict@.len() == 0,
    {
        LlmModelEntry {
            name: name.to_owned(),
            model: model.to_owned(),
            provider: provider.to_owned(),
            token_budget: None,
            input_cost_per_mtok: None,
            output_cost_per_mtok: None,
            validator: false,
            validator_only: false,
            restrict: Vec::new(),
        }
    }

    /// A regular model for all chat types, with a budget.
    pub fn with_budget(name: &str, model: &str, provider: &str, budget: u64) -> (r: LlmModelEntry<
        P,
    >)
        ensures
            r.name@ == name@,
            r.model@ == model@,
            r.provider@ == provider@,
            r.token_budget == Some(budget),
            r.input_cost_per_mtok is None,
            r.output_cost_per_mtok is None,
            !r.validator,
            !r.validator_only,
            r.restrict@.len() == 0,
    {
        let mut r = LlmModelEntry::basic(name, model, provider);
        r.token_budget = Some(budget);
        r
    }

    /// The name of the model with its provider behind it, unless the name has
    /// it already, in upper or lower case.
    pub fn display_name(&self) -> (r: String)
        ensures
            r@ == titled(self.name@, self.provider@),
    {
        let lower = to_lowercase(self.name.as_str());
        let provider_lower = to_lowercase(self.provider.as_str());
        with_provider(
            self.name.as_str(),
            self.provider.as_str(),
            text_contains(lower.as_str(), provider_lower.as_str()),
        )
    }

    /// Whether the model serves a chat type.
    pub fn allows(&self, chat_type: &str) -> (r: bool)
        ensures
            r == self.serves(chat_type@),
    {
        if self.restrict.len() == 0 {
            return true;
        }
        let mut i: usize = 0;
        while i < self.restrict.len()
            invariant
                i <= self.restrict@.len(),
                forall|k: int| 0 <= k < i ==> texts(self.restrict@)[k] != chat_type@,
            decreases self.restrict.len() - i,
        {
            if text_eq(self.restrict[i].as_str(), chat_type) {
                proof {
                    assert(texts(self.restrict@)[i as int] == chat_type@);
                }
                return true;
            }
            i = i + 1;
        }
        false
    }
}

/// The name of a model, with its provider behind it where it is not named.
pub fn with_provider(name: &str, provider: &str, named: bool) -> (r: String)
    ensures
        r@ == if named {
            name@
        } else {
            name@ + " ("@ + provider_title(provider@) + ")"@
        },
{
    if named {
        return name.to_owned();
    }
    let suffix: &str = if text_eq(provider, "ollama") {
        "Ollama"
    } else if text_eq(provider, "anthropic") {
        "Anthropic"
    } else if text_eq(provider, "openrouter") {
        "OpenRouter"
    } else if text_eq(provider, "openai_compat") {
        "plan.ai Hosted"
    } else {
        provider
    };
    let mut s = name.to_owned();
    s.append(" (");
    s.append(suffix);
    s.append(")");
    s
}

/// The configured models.
#[derive(Debug, Clone)]
pub struct ModelCatalog<P> {
    entries: Vec<LlmModelEntry<P>>,
}

impl<P> View for ModelCatalog<P> {
    type V = Seq<LlmModelEntry<P>>;

    closed spec fn view(&self) -> Seq<LlmModelEntry<P>> {
        self.entries@
    }
}

impl<P> Default for ModelCatalog<P> {
    fn default() -> (r: ModelCatalog<P>)
        ensures
            r@.len() == 0,
    {
        ModelCatalog { entries: Vec::new() }
    }
}

/// The models that are referred to.
pub open spec fn referred<P>(v: Seq<&LlmModelEntry<P>>) -> Seq<LlmModelEntry<P>> {
    v.map_values(|e: &LlmModelEntry<P>| *e)
}

impl<P> ModelCatalog<P> {
    /// A catalog of models.
    pub fn new(entries: Vec<LlmModelEntry<P>>) -> (r: ModelCatalog<P>)
        ensures
            r@ == entries@,
    {
        ModelCatalog { entries }
    }

    /// Every configured model.
    pub fn entries(&self) -> (r: &[LlmModelEntry<P>])
        ensures
            r@ == self@,
    {
        self.entries.as_slice()
    }

    /// The regular models of a chat type.
    pub fn models_for(&self, chat_type: &str) -> (r: Vec<&LlmModelEntry<P>>)
        ensures
            referred(r@) == self@.filter(
                |e: LlmModelEntry<P>| !e.validator_only && e.serves(chat_type@),
            ),
    {
        let ghost keeps = |e: LlmModelEntry<P>| !e.validator_only && e.serves(chat_type@);
        let mut out: Vec<&LlmModelEntry<P>> = Vec::new();
        let mut i: usize = 0;
        proof {
            reveal(Seq::filter);
            assert(referred(out@) =~= self.entries@.take(0).filter(keeps));
        }
        while i < self.entries.len()
            invariant
                i <= self.entries@.len(),
                keeps == (|e: LlmModelEntry<P>| !e.validator_only && e.serves(chat_type@)),
                referred(out@) == self.entries@.take(i as int).filter(keeps),
            decreases self.entries.len() - i,
        {
            let e = &self.entries[i];
            let ghost before = out@;
            proof {
                reveal(Seq::filter);
                assert(self.entries@.take(i + 1).drop_last() =~= self.entries@.take(i as int));
            }
            if !e.validator_only && e.allows(chat_type) {
                out.push(e);
                proof {
                    assert(referred(out@) =~= referred(before).push(*e));
                }
            }
            i = i + 1;
        }
        proof {
            assert(self.entries@.take(i as int) =~= self.entries@);
        }
        out
    }

    /// The validators of a chat type.
    pub fn validators_for(&self, chat_type: &str) -> (r: Vec<&LlmModelEntry<P>>)
        ensures
            referred(r@) == self@.filter(
                |e: LlmModelEntry<P>| e.validator && e.serves(chat_type@),
            ),
    {
        let ghost keeps = |e: LlmModelEntry<P>| e.validator && e.serves(chat_type@);
        let mut out: Vec<&LlmModelEntry<P>> = Vec::new();
        let mut i: usize = 0;
        proof {
            reveal(Seq::filter);
            assert(referred(out@) =~= self.entries@.take(0).filter(keeps));
        }
        while i < self.entries.len()
            invariant
                i <= self.entries@.len(),
                keeps == (|e: LlmModelEntry<P>| e.validator && e.serves(chat_type@)),
                referred(out@) == self.entries@.take(i as int).filter(keeps),
            decreases self.entries.len() - i,
        {
            let e = &self.entries[i];
            let ghost before = out@;
            proof {
                reveal(Seq::filter);
                assert(self.entries@.take(i + 1).drop_last() =~= self.entries@.take(i as int));
            }
            if e.validator && e.allows(chat_type) {
                out.push(e);
                proof {
                    assert(referred(out@) =~= referred(before).push(*e));
                }
            }
            i = i + 1;
        }
        proof {
            assert(self.entries@.take(i as int) =~= self.entries@);
        }
        out
    }

    /// The first entry for the model of a provider.
    pub fn find(&self, provider: &str, model: &str) -> (r: Option<&LlmModelEntry<P>>)
        ensures
            match r {
                Some(e) => exists|i: int| #[trigger] first_entry(self@, provider@, model@, i)
                    && self@[i] == *e,
                None => forall|i: int|
                    0 <= i < self@.len() ==> !(#[trigger] self@[i]).is_model(provider@, model@),
            },
    {
        let mut i: usize = 0;
        while i < self.entries.len()
            invariant
                i <= self.entries@.len(),
                forall|k: int|
                    0 <= k < i ==> !(#[trigger] self.entries@[k]).is_model(provider@, model@),
            decreases self.entries.len() - i,
        {
            let e = &self.entries[i];
            if text_eq(e.provider.as_str(), provider) && text_eq(e.model.as_str(), model) {
                proof {
                    assert(first_entry(self@, provider@, model@, i as int));
                }
                return Some(e);
            }
            i = i + 1;
        }
        None
    }
}

/// Whether the first entry for the model of a provider stands at a position.
pub open spec fn first_entry<P>(
    entries: Seq<LlmModelEntry<P>>,
    provider: Seq<char>,
    model: Seq<char>,
    at: int,
) -> bool {
    &&& 0 <= at < entries.len()
    &&& entries[at].is_model(provider, model)
    &&& forall|k: int| 0 <= k < at ==> !(#[trigger] entries[k]).is_model(provider, model)
}

impl<P: Copy> ModelCatalog<P> {
    /// The prices of a model, input and output, where both are configured.
    pub fn price_of(&self, provider: &str, model: &str) -> (r: Option<(P, P)>)
        ensures
            match r {
                Some((input, output)) => exists|i: int| #[trigger]
                    first_entry(self@, provider@, model@, i) && self@[i].input_cost_per_mtok
                        == Some(input) && self@[i].output_cost_per_mtok == Some(output),
                None => forall|i: int| #[trigger]
                    first_entry(self@, provider@, model@, i) ==> self@[i].input_cost_per_mtok
                        is None || self@[i].output_cost_per_mtok is None,
            },
    {
        match self.find(provider, model) {
            Some(e) => {
                proof {
                    first_entry_is_one(self@, provider@, model@);
                }
                match (e.input_cost_per_mtok, e.output_cost_per_mtok) {
                    (Some(input), Some(output)) => Some((input, output)),
                    _ => None,
                }
            },
            None => None,
        }
    }
}

/// There is one first entry at most.
proof fn first_entry_is_one<P>(
    entries: Seq<LlmModelEntry<P>>,
    provider: Seq<char>,
    model: Seq<char>,
)
    ensures
        forall|i: int, j: int|
            #[trigger] first_entry(entries, provider, model, i) && #[trigger] first_entry(
                entries,
                provider,
                model,
                j,
            ) ==> i == j,
{
}

/// Providers go by their titles, and one that is not known by its own name.
pub proof fn providers_go_by_their_titles(provider: Seq<char>)
    ensures
        provider_title("ollama"@) == "Ollama"@,
        provider_title("anthropic"@) == "Anthropic"@,
        provider_title("openrouter"@) == "OpenRouter"@,
        provider_title("openai_compat"@) == "plan.ai Hosted"@,
        provider != "ollama"@ && provider != "anthropic"@ && provider != "openrouter"@ && provider
            != "openai_compat"@ ==> provider_title(provider) == provider,
{
    reveal_strlit("ollama");
    reveal_strlit("anthropic");
    reveal_strlit("openrouter");
    reveal_strlit("openai_compat");
    assert("ollama"@.len() == 6 && "anthropic"@.len() == 9 && "openrouter"@.len() == 10
        && "openai_compat"@.len() == 13);
}

/// A model is shown under its name; its provider stands behind it in brackets
/// exactly where the name does not have it, in whatever case.
pub proof fn models_are_shown_with_their_provider(name: Seq<char>, provider: Seq<char>)
    ensures
        occurs_in(lowercased(name), lowercased(provider)) ==> titled(name, provider) == name,
        !occurs_in(lowercased(name), lowercased(provider)) ==> titled(name, provider) == name
            + " ("@ + provider_title(provider) + ")"@,
{
}

/// A model serves every chat type where it is limited to none, and otherwise
/// those that it is limited to; it goes by its provider and its name there.
pub proof fn models_serve_what_they_are_limited_to<P>(
    entry: LlmModelEntry<P>,
    chat_type: Seq<char>,
    provider: Seq<char>,
    model: Seq<char>,
)
    ensures
        entry.restrict@.len() == 0 ==> entry.serves(chat_type),
        entry.restrict@.len() > 0 ==> (entry.serves(chat_type) <==> exists|i: int|
            0 <= i < entry.restrict@.len() && (#[trigger] entry.restrict@[i])@ == chat_type),
        entry.is_model(provider, model) <==> entry.provider@ == provider && entry.model@ == model,
{
    let all = texts(entry.restrict@);
    if all.contains(chat_type) {
        let k = choose|k: int| 0 <= k < all.len() && all[k] == chat_type;
        assert(entry.restrict@[k]@ == chat_type);
    }
    if exists|i: int|
        0 <= i < entry.restrict@.len() && (#[trigger] entry.restrict@[i])@ == chat_type {
        let i = choose|i: int|
            0 <= i < entry.restrict@.len() && (#[trigger] entry.restrict@[i])@ == chat_type;
        assert(all[i] == chat_type);
    }
}

/// The entry that is found for a model is one for it, and none stands in front
/// of it.
pub proof fn first_entries_come_first<P>(
    entries: Seq<LlmModelEntry<P>>,
    provider: Seq<char>,
    model: Seq<char>,
    at: int,
)
    requires
        first_entry(entries, provider, model, at),
    ensures
        0 <= at < entries.len(),
        entries[at].provider@ == provider && entries[at].model@ == model,
        forall|k: int|
            0 <= k < at ==> (#[trigger] entries[k]).provider@ != provider || entries[k].model@
                != model,
{
    assert forall|k: int| 0 <= k < at implies (#[trigger] entries[k]).provider@ != provider
        || entries[k].model@ != model by {
        assert(!entries[k].is_model(provider, model));
    }
}

/// The models that are referred to are those models, in their order.
pub proof fn models_are_referred_to_in_order<P>(v: Seq<&LlmModelEntry<P>>)
    ensures
        referred(v).len() == v.len(),
        forall|i: int| 0 <= i < v.len() ==> #[trigger] referred(v)[i] == *v[i],
{
}

}
