//! Model requests and responses, and what a call costs.
use crate::decimal::{
    adds_exactly, divides_exactly, fits_at, lemma_adds_exactly, lemma_pow10_monotone,
    lemma_pow10_positive, lemma_smaller_mantissa, magnitude, multiplies_exactly, over, plus, pow10,
    times, Decimal, MAX_SCALE,
};
use crate::text::concat2;
use vstd::prelude::*;
use vstd::std_specs::cmp::PartialEqSpec;
use vstd::string::*;

verus! {

/// A tool call that a model asks for.
#[derive(Clone, Debug, PartialEq, Eq)]
pub struct ToolCall {
    /// The id of the call.
    pub id: String,
    /// The name of the tool.
    pub name: String,
    /// The arguments, as JSON text.
    pub arguments: String,
}

/// A tool that is offered to a model.
#[derive(Clone, Debug, PartialEq, Eq)]
pub struct ToolDefinition {
    /// The name of the tool.
    pub name: String,
    /// What the tool is for.
    pub description: String,
    /// The schema of its parameters, as JSON text.
    pub parameters: String,
}

/// A message of a conversation.
#[derive(Clone, Debug, PartialEq, Eq)]
pub enum Message {
    /// An instruction.
    System {
        /// The text.
        content: String,
    },
    /// A turn of the user.
    User {
        /// The text.
        content: String,
    },
    /// A turn of the model.
    Assistant {
        /// The text; `None` on a turn of tool calls alone.
        content: Option<String>,
        /// The tool calls.
        tool_calls: Vec<ToolCall>,
    },
    /// The result of a tool call.
    ToolResult {
        /// The id of the call.
        tool_call_id: String,
        /// The text.
        content: String,
    },
}

impl Message {
    /// An instruction.
    pub fn system(content: &str) -> (r: Message)
        ensures
            r matches Message::System { content: c } && c@ == content@,
    {
        Message::System { content: content.to_owned() }
    }

    /// A turn of the user.
    pub fn user(content: &str) -> (r: Message)
        ensures
            r matches Message::User { content: c } && c@ == content@,
    {
        Message::User { content: content.to_owned() }
    }

    /// A turn of the model, without tool calls.
    pub fn assistant(content: &str) -> (r: Message)
        ensures
            r matches Message::Assistant { content: Some(c), tool_calls } && c@ == content@
                && tool_calls@.len() == 0,
    {
        Message::Assistant { content: Some(content.to_owned()), tool_calls: Vec::new() }
    }

    /// The result of a tool call.
    pub fn tool_result(tool_call_id: &str, content: &str) -> (r: Message)
        ensures
            r matches Message::ToolResult { tool_call_id: id, content: c } && id@ == tool_call_id@
                && c@ == content@,
    {
        Message::ToolResult { tool_call_id: tool_call_id.to_owned(), content: content.to_owned() }
    }
}

/// The tokens that a call is billed for.
#[derive(Clone, Copy, Debug, PartialEq, Eq, Structural)]
pub struct TokenUsage {
    /// Tokens of the prompt.
    pub input_tokens: u32,
    /// Tokens of the completion.
    pub output_tokens: u32,
}

impl Default for TokenUsage {
    fn default() -> (r: TokenUsage)
        ensures
            r == (TokenUsage { input_tokens: 0, output_tokens: 0 }),
    {
        TokenUsage { input_tokens: 0, output_tokens: 0 }
    }
}

/// The completion of a call.
#[derive(Clone, Debug, PartialEq, Eq)]
pub struct LlmResponse {
    /// The text; `None` on a turn of tool calls alone.
    pub content: Option<String>,
    /// The tool calls.
    pub tool_calls: Vec<ToolCall>,
    /// The tokens billed.
    pub usage: TokenUsage,
}

/// Where a call is sent.
#[derive(Clone, Copy, Debug, PartialEq, Eq, Structural)]
pub enum LlmBackend {
    /// Ollama Cloud.
    Ollama,
}

/// How much a model may think before it answers.
#[derive(Clone, Copy, Debug, PartialEq, Eq, Structural)]
pub enum ReasoningEffort {
    /// As little as it can.
    Minimal,
    /// Little.
    Low,
    /// A balanced amount.
    Medium,
    /// As much as it can.
    High,
}

/// Why a call failed.
#[derive(Clone, Debug, PartialEq, Eq)]
#[non_exhaustive]
pub enum LlmError {
    /// The provider or the transport failed.
    Provider(String),
    /// The configuration is missing or wrong.
    Config(String),
    /// This process failed on the way to the provider.
    Local(String),
}

/// The text of an error.
pub open spec fn llm_error_text(e: LlmError) -> Seq<char> {
    match e {
        LlmError::Provider(s) => "llm provider error: "@ + s@,
        LlmError::Config(s) => "llm config error: "@ + s@,
        LlmError::Local(s) => "llm local error: "@ + s@,
    }
}

impl LlmError {
    /// The text of the error.
    pub fn to_string(&self) -> (t: String)
        ensures
            t@ == llm_error_text(*self),
    {
        match self {
            LlmError::Provider(s) => concat2("llm provider error: ", s.as_str()),
            LlmError::Config(s) => concat2("llm config error: ", s.as_str()),
            LlmError::Local(s) => concat2("llm local error: ", s.as_str()),
        }
    }
}

// ---------------------------------------------------------------------------
// Prices.
// ---------------------------------------------------------------------------

/// The price of a model, per million tokens.
#[derive(Clone, Copy, Debug, PartialEq, Eq)]
pub struct ModelPrice {
    /// Of prompt tokens.
    pub input_per_mtok: Decimal,
    /// Of completion tokens.
    pub output_per_mtok: Decimal,
}

/// The prices of models by id, in one currency. No id has two prices.
#[derive(Debug)]
pub struct PriceTable {
    currency: String,
    models: Vec<(String, ModelPrice)>,
}

/// The prices that a list sets: a later entry replaces an earlier one of the same id.
pub open spec fn prices_of(entries: Seq<(String, ModelPrice)>) -> Map<Seq<char>, ModelPrice>
    decreases entries.len(),
{
    if entries.len() == 0 {
        Map::empty()
    } else {
        prices_of(entries.drop_last()).insert(entries.last().0@, entries.last().1)
    }
}

/// Whether no id occurs twice.
pub open spec fn distinct_ids(entries: Seq<(String, ModelPrice)>) -> bool {
    forall|i: int, j: int|
        0 <= i < j < entries.len() ==> (#[trigger] entries[i]).0@ != (#[trigger] entries[j]).0@
}

/// The price of tokens at a price per million.
pub open spec fn token_cost(tokens: u32, per_mtok: Decimal) -> Option<Decimal> {
    match times(Decimal::of_parts(tokens as int, 0), per_mtok) {
        Some(product) => over(product, Decimal::of_parts(1_000_000, 0)),
        None => None,
    }
}

/// The price of a call; `None` where a figure does not fit.
pub open spec fn call_cost(price: ModelPrice, usage: TokenUsage) -> Option<Decimal> {
    match (
        token_cost(usage.input_tokens, price.input_per_mtok),
        token_cost(usage.output_tokens, price.output_per_mtok),
    ) {
        (Some(input), Some(output)) => plus(input, output),
        _ => None,
    }
}

/// Whether the price of tokens is computed without losing a digit.
pub open spec fn token_cost_is_exact(tokens: u32, per_mtok: Decimal) -> bool {
    let count = Decimal::of_parts(tokens as int, 0);
    &&& multiplies_exactly(count, per_mtok)
    &&& divides_exactly(times(count, per_mtok)->0, Decimal::of_parts(1_000_000, 0))
}

/// Whether the price of a call is computed without losing a digit.
pub open spec fn cost_is_exact(price: ModelPrice, usage: TokenUsage) -> bool {
    &&& token_cost_is_exact(usage.input_tokens, price.input_per_mtok)
    &&& token_cost_is_exact(usage.output_tokens, price.output_per_mtok)
    &&& adds_exactly(
        token_cost(usage.input_tokens, price.input_per_mtok)->0,
        token_cost(usage.output_tokens, price.output_per_mtok)->0,
    )
}

/// What a million times the price of a call comes to: the tokens of each kind at their
/// price per million, in units.
pub open spec fn million_costs(price: ModelPrice, usage: TokenUsage) -> int {
    usage.input_tokens * price.input_per_mtok.units() + usage.output_tokens
        * price.output_per_mtok.units()
}

/// Whether so many tokens at a price are an ordinary sum: the price has at most six digits
/// behind the point, and the sum, without its point, fits 64 bits.
pub open spec fn ordinary_sum(tokens: u32, per_mtok: Decimal) -> bool {
    &&& per_mtok.scale() <= 6
    &&& magnitude(tokens * per_mtok.mantissa()) <= u64::MAX
}

/// Whether both sums of a call are ordinary.
pub open spec fn ordinary_call(price: ModelPrice, usage: TokenUsage) -> bool {
    &&& ordinary_sum(usage.input_tokens, price.input_per_mtok)
    &&& ordinary_sum(usage.output_tokens, price.output_per_mtok)
}

/// The error about a model without a price.
pub open spec fn no_price_text(model: Seq<char>) -> Seq<char> {
    "no price for model "@ + model
}

fn tokens_cost(tokens: u32, per_mtok: Decimal) -> (r: Option<Decimal>)
    ensures
        r == token_cost(tokens, per_mtok),
        token_cost_is_exact(tokens, per_mtok) ==> r is Some && r->0.units() * 1_000_000 == tokens
            * per_mtok.units(),
        ordinary_sum(tokens, per_mtok) ==> token_cost_is_exact(tokens, per_mtok)
            && r->0.scale() <= 15 && fits_at(2 * r->0.units(), 15),
{
    let count = Decimal::from_u64(tokens as u64);
    match count.checked_mul(per_mtok) {
        Some(product) => {
            let million = Decimal::from_u64(1_000_000);
            proof {
                if ordinary_sum(tokens, per_mtok) {
                    lemma_smaller_mantissa(
                        product,
                        tokens * per_mtok.mantissa(),
                        per_mtok.scale() as nat,
                    );
                    lemma_millionths(product.mantissa() as int);
                }
            }
            let r = product.checked_div(million);
            proof {
                if ordinary_sum(tokens, per_mtok) {
                    lemma_pow10_positive(MAX_SCALE as nat);
                    lemma_token_cost(
                        tokens as int,
                        per_mtok.mantissa() as int,
                        pow10((MAX_SCALE - per_mtok.scale()) as nat),
                        product.units(),
                        r->0.units(),
                        pow10(MAX_SCALE as nat),
                    );
                    lemma_ordinary_sum_fits(
                        tokens * per_mtok.mantissa(),
                        per_mtok.scale() as nat,
                        product.units(),
                        r->0.units(),
                    );
                }
                if token_cost_is_exact(tokens, per_mtok) {
                    lemma_pow10_positive(MAX_SCALE as nat);
                    lemma_token_cost(
                        tokens as int,
                        per_mtok.mantissa() as int,
                        pow10((MAX_SCALE - per_mtok.scale()) as nat),
                        product.units(),
                        r->0.units(),
                        pow10(MAX_SCALE as nat),
                    );
                }
            }
            r
        },
        None => None,
    }
}

/// Nine more digits are enough to divide by a million.
proof fn lemma_millionths(m: int)
    ensures
        (m * pow10(9)) % 1_000_000 == 0,
{
    reveal_with_fuel(pow10, 10);
    assert((m * 1_000_000_000) % 1_000_000 == 0);
}

/// An ordinary sum over a million fits at fifteen digits, and so does its double.
proof fn lemma_ordinary_sum_fits(m: int, scale: nat, product: int, q: int)
    requires
        scale <= 6,
        magnitude(m) <= u64::MAX,
        product == m * pow10((MAX_SCALE - scale) as nat),
        q * 1_000_000 == product,
    ensures
        fits_at(2 * q, 15),
{
    let p = pow10((MAX_SCALE - scale) as nat);
    lemma_pow10_positive((MAX_SCALE - scale) as nat);
    lemma_pow10_monotone((MAX_SCALE - scale) as nat, MAX_SCALE as nat);
    crate::decimal::lemma_pow10_max();
    let one = pow10(MAX_SCALE as nat);
    let most = u64::MAX as int;
    assert(-(most * one) <= m * p <= most * one) by (nonlinear_arith)
        requires
            -most <= m <= most,
            1 <= p <= one,
            most >= 0,
    ;
    assert(pow10(13) == 10_000_000_000_000) by {
        reveal_with_fuel(pow10, 14);
    }
    assert((MAX_SCALE - 15) as nat == 13);
}

/// A quotient by a million, cleared of the common power of ten.
proof fn lemma_token_cost(tokens: int, mantissa: int, power: int, product: int, q: int, one: int)
    requires
        product == tokens * mantissa * power,
        q * (1_000_000 * one) == product * one,
        one > 0,
    ensures
        q * 1_000_000 == tokens * (mantissa * power),
        q * 1_000_000 == product,
{
    assert(tokens * mantissa * power == tokens * (mantissa * power)) by (nonlinear_arith);
    assert(q * 1_000_000 == product) by (nonlinear_arith)
        requires
            q * (1_000_000 * one) == product * one,
            one > 0,
    ;
}

fn price_call(price: &ModelPrice, usage: &TokenUsage) -> (r: Option<Decimal>)
    ensures
        r == call_cost(*price, *usage),
        cost_is_exact(*price, *usage) ==> r is Some && r->0.units() * 1_000_000
            == million_costs(*price, *usage),
        ordinary_call(*price, *usage) ==> r is Some && r->0.units() * 1_000_000
            == usage.input_tokens * price.input_per_mtok.units() + usage.output_tokens
            * price.output_per_mtok.units(),
{
    match (
        tokens_cost(usage.input_tokens, price.input_per_mtok),
        tokens_cost(usage.output_tokens, price.output_per_mtok),
    ) {
        (Some(input), Some(output)) => {
            proof {
                if ordinary_call(*price, *usage) {
                    lemma_adds_exactly(input, output, 15);
                }
            }
            input.checked_add(output)
        },
        _ => None,
    }
}

/// An id is priced exactly where an entry has it; a single entry of an id is its price.
proof fn lemma_prices(entries: Seq<(String, ModelPrice)>, id: Seq<char>)
    ensures
        prices_of(entries).contains_key(id) <==> exists|i: int|
            0 <= i < entries.len() && (#[trigger] entries[i]).0@ == id,
        distinct_ids(entries) ==> forall|i: int|
            0 <= i < entries.len() && (#[trigger] entries[i]).0@ == id ==> prices_of(entries)[id]
                == entries[i].1,
    decreases entries.len(),
{
    if entries.len() > 0 {
        let init = entries.drop_last();
        let k = entries.len() - 1;
        lemma_prices(init, id);
        if prices_of(init).contains_key(id) {
            let i = choose|i: int| 0 <= i < init.len() && (#[trigger] init[i]).0@ == id;
            assert(entries[i].0@ == id);
        }
        if entries[k].0@ == id {
            assert(prices_of(entries).contains_key(id));
        }
        assert forall|i: int| 0 <= i < entries.len() && (#[trigger] entries[i]).0@ == id implies
            prices_of(entries).contains_key(id) by {
            if i < k {
                assert(init[i].0@ == id);
            }
        }
        if distinct_ids(entries) {
            assert(distinct_ids(init)) by {
                assert forall|i: int, j: int| 0 <= i < j < init.len() implies (
                #[trigger] init[i]).0@ != (#[trigger] init[j]).0@ by {
                    assert(entries[i].0@ != entries[j].0@);
                }
            }
            assert forall|i: int| 0 <= i < entries.len() && (#[trigger] entries[i]).0@ == id implies
                prices_of(entries)[id] == entries[i].1 by {
                if i < k {
                    assert(init[i].0@ == id);
                    assert(entries[i].0@ != entries[k].0@);
                }
            }
        }
    }
}

/// The price of an id is that of its last entry, and an id without an entry has none.
pub proof fn law_last_price_counts(entries: Seq<(String, ModelPrice)>, id: Seq<char>, i: int)
    ensures
        0 <= i < entries.len() && entries[i].0@ == id && (forall|j: int|
            i < j < entries.len() ==> (#[trigger] entries[j]).0@ != id) ==> prices_of(
            entries,
        ).contains_key(id) && prices_of(entries)[id] == entries[i].1,
        (forall|j: int| 0 <= j < entries.len() ==> (#[trigger] entries[j]).0@ != id) ==> !prices_of(
            entries,
        ).contains_key(id),
    decreases entries.len(),
{
    if entries.len() > 0 {
        let init = entries.drop_last();
        let k = entries.len() - 1;
        law_last_price_counts(init, id, i);
        if 0 <= i < k && entries[i].0@ == id && (forall|j: int|
            i < j < entries.len() ==> (#[trigger] entries[j]).0@ != id) {
            assert(init[i] == entries[i]);
            assert forall|j: int| i < j < init.len() implies (#[trigger] init[j]).0@ != id by {
                assert(entries[j].0@ != id);
            }
            assert(entries[k].0@ != id);
        }
        if forall|j: int| 0 <= j < entries.len() ==> (#[trigger] entries[j]).0@ != id {
            assert forall|j: int| 0 <= j < init.len() implies (#[trigger] init[j]).0@ != id by {
                assert(entries[j].0@ != id);
            }
            assert(entries[k].0@ != id);
        }
    }
}

impl PriceTable {
    #[verifier::type_invariant]
    spec fn inv(&self) -> bool {
        distinct_ids(self.models@)
    }

    /// The prices by model id.
    pub closed spec fn prices(&self) -> Map<Seq<char>, ModelPrice> {
        prices_of(self.models@)
    }

    /// The currency.
    pub closed spec fn spec_currency(&self) -> Seq<char> {
        self.currency@
    }

    /// A table of the given prices. Of two entries with one id the later one counts.
    pub fn from_config(currency: &str, models: Vec<(String, ModelPrice)>) -> (r: PriceTable)
        ensures
            r.spec_currency() == currency@,
            r.prices() == prices_of(models@),
    {
        let mut kept: Vec<(String, ModelPrice)> = Vec::new();
        assert(models@.take(0) =~= Seq::empty());
        for i in 0..models.len()
            invariant
                distinct_ids(kept@),
                prices_of(kept@) == prices_of(models@.take(i as int)),
        {
            let ghost next = models@.take(i as int + 1);
            assert(next.drop_last() =~= models@.take(i as int));
            assert(next.last() == models@[i as int]);
            set_price(&mut kept, models[i].0.as_str(), models[i].1);
            assert(prices_of(kept@) == prices_of(next));
        }
        assert(models@.take(models@.len() as int) =~= models@);
        PriceTable { currency: currency.to_owned(), models: kept }
    }

    /// The currency.
    pub fn currency(&self) -> (r: &str)
        ensures
            r@ == self.spec_currency(),
    {
        self.currency.as_str()
    }

    /// The price of a model.
    fn find(&self, model: &str) -> (r: Option<ModelPrice>)
        ensures
            r is Some <==> self.prices().contains_key(model@),
            r matches Some(price) ==> price == self.prices()[model@],
    {
        proof {
            use_type_invariant(self);
            lemma_prices(self.models@, model@);
        }
        let wanted = model.to_owned();
        let mut i: usize = 0;
        while i < self.models.len()
            invariant
                i <= self.models@.len(),
                wanted@ == model@,
                forall|j: int| 0 <= j < i ==> (#[trigger] self.models@[j]).0@ != model@,
            decreases self.models@.len() - i,
        {
            if self.models[i].0 == wanted {
                proof {
                    use_type_invariant(self);
                    lemma_prices(self.models@, model@);
                    assert(self.models@[i as int].0@ == model@);
                }
                return Some(self.models[i].1);
            }
            i = i + 1;
        }
        proof {
            lemma_prices(self.models@, model@);
        }
        None
    }

    /// The price of a call to a model. Where no digit is lost, a million times the price
    /// is what the tokens come to at their prices per million.
    pub fn cost(&self, model: &str, usage: &TokenUsage) -> (r: Result<Decimal, LlmError>)
        requires
            self.prices().contains_key(model@) ==> call_cost(self.prices()[model@], *usage) is Some,
        ensures
            r is Ok <==> self.prices().contains_key(model@),
            r matches Ok(cost) ==> call_cost(self.prices()[model@], *usage) == Some(cost),
            r matches Ok(cost) ==> (cost_is_exact(self.prices()[model@], *usage) ==> cost.units()
                * 1_000_000 == million_costs(self.prices()[model@], *usage)),
            r matches Ok(cost) ==> (ordinary_call(self.prices()[model@], *usage) ==> cost.units()
                * 1_000_000 == usage.input_tokens * self.prices()[model@].input_per_mtok.units()
                + usage.output_tokens * self.prices()[model@].output_per_mtok.units()),
            r matches Ok(cost) ==> (cost_is_exact(self.prices()[model@], *usage) ==> cost.units()
                * 1_000_000 == usage.input_tokens * self.prices()[model@].input_per_mtok.units()
                + usage.output_tokens * self.prices()[model@].output_per_mtok.units()),
            r matches Err(e) ==> (e matches LlmError::Config(s) && s@ == no_price_text(model@)),
    {
        match self.find(model) {
            Some(price) => match price_call(&price, usage) {
                Some(cost) => Ok(cost),
                None => Ok(Decimal::zero()),
            },
            None => Err(LlmError::Config(concat2("no price for model ", model))),
        }
    }

    /// The price of a call to a model; `Ok(None)` where a figure does not fit.
    pub fn checked_cost(&self, model: &str, usage: &TokenUsage) -> (r: Result<
        Option<Decimal>,
        LlmError,
    >)
        ensures
            r is Ok <==> self.prices().contains_key(model@),
            r matches Ok(cost) ==> cost == call_cost(self.prices()[model@], *usage),
            r matches Ok(cost) ==> (ordinary_call(self.prices()[model@], *usage) ==> cost is Some
                && cost->0.units() * 1_000_000 == usage.input_tokens
                * self.prices()[model@].input_per_mtok.units() + usage.output_tokens
                * self.prices()[model@].output_per_mtok.units()),
            r matches Ok(Some(cost)) ==> (cost_is_exact(self.prices()[model@], *usage)
                ==> cost.units() * 1_000_000 == million_costs(self.prices()[model@], *usage)),
            r matches Ok(Some(cost)) ==> (cost_is_exact(self.prices()[model@], *usage)
                ==> cost.units() * 1_000_000 == usage.input_tokens
                * self.prices()[model@].input_per_mtok.units() + usage.output_tokens
                * self.prices()[model@].output_per_mtok.units()),
            r matches Err(e) ==> (e matches LlmError::Config(s) && s@ == no_price_text(model@)),
    {
        if let Some(price) = self.find(model) {
            if price_call(&price, usage).is_none() {
                return Ok(None);
            }
        }
        match self.cost(model, usage) {
            Ok(cost) => Ok(Some(cost)),
            Err(e) => Err(e),
        }
    }
}

impl Clone for PriceTable {
    fn clone(&self) -> (r: PriceTable)
        ensures
            r.spec_currency() == self.spec_currency(),
            r.prices() == self.prices(),
    {
        proof {
            use_type_invariant(self);
        }
        let mut models: Vec<(String, ModelPrice)> = Vec::new();
        for i in 0..self.models.len()
            invariant
                models@ == self.models@.take(i as int),
        {
            let id = self.models[i].0.clone();
            models.push((id, self.models[i].1));
            assert(models@ =~= self.models@.take(i as int + 1));
        }
        assert(models@ =~= self.models@);
        PriceTable { currency: self.currency.clone(), models }
    }
}

/// Whether two prices are the same numbers.
pub open spec fn same_price(a: ModelPrice, b: ModelPrice) -> bool {
    a.input_per_mtok.units() == b.input_per_mtok.units() && a.output_per_mtok.units()
        == b.output_per_mtok.units()
}

/// Whether every price of one table is a price of another.
pub open spec fn priced_in(a: Map<Seq<char>, ModelPrice>, b: Map<Seq<char>, ModelPrice>) -> bool {
    forall|id: Seq<char>| #[trigger]
        a.contains_key(id) ==> b.contains_key(id) && same_price(a[id], b[id])
}

impl PriceTable {
    /// Whether every price of this table is a price of the other.
    fn within(&self, other: &PriceTable) -> (r: bool)
        ensures
            r == priced_in(self.prices(), other.prices()),
    {
        proof {
            use_type_invariant(self);
        }
        let mut i: usize = 0;
        while i < self.models.len()
            invariant
                i <= self.models@.len(),
                distinct_ids(self.models@),
                forall|j: int|
                    0 <= j < i ==> other.prices().contains_key((#[trigger] self.models@[j]).0@)
                        && same_price(self.models@[j].1, other.prices()[self.models@[j].0@]),
            decreases self.models@.len() - i,
        {
            let price = self.models[i].1;
            let ghost id = self.models@[i as int].0@;
            proof {
                lemma_prices(self.models@, id);
                assert(self.prices().contains_key(id) && self.prices()[id] == price);
            }
            match other.find(self.models[i].0.as_str()) {
                None => {
                    return false;
                },
                Some(theirs) => {
                    if !price.input_per_mtok.equals(&theirs.input_per_mtok)
                        || !price.output_per_mtok.equals(&theirs.output_per_mtok) {
                        return false;
                    }
                },
            }
            i = i + 1;
        }
        assert forall|id: Seq<char>| #[trigger] self.prices().contains_key(id) implies
            other.prices().contains_key(id) && same_price(
            self.prices()[id],
            other.prices()[id],
        ) by {
            lemma_prices(self.models@, id);
            let j = choose|j: int|
                0 <= j < self.models@.len() && (#[trigger] self.models@[j]).0@ == id;
            assert(self.models@[j].0@ == id);
        }
        true
    }
}

/// Two tables are equal where they have one currency and price the same models, each at
/// the same numbers.
impl PartialEq for PriceTable {
    fn eq(&self, other: &PriceTable) -> (r: bool) {
        self.currency == other.currency && self.within(other) && other.within(self)
    }
}

impl vstd::std_specs::cmp::PartialEqSpecImpl for PriceTable {
    open spec fn obeys_eq_spec() -> bool {
        true
    }

    open spec fn eq_spec(&self, other: &PriceTable) -> bool {
        &&& self.spec_currency() == other.spec_currency()
        &&& priced_in(self.prices(), other.prices())
        &&& priced_in(other.prices(), self.prices())
    }
}

/// Two tables are equal exactly where they have one currency, price the same models, and
/// ask of each the same numbers for its prompts and for its completions.
pub proof fn law_equal_tables(a: PriceTable, b: PriceTable)
    ensures
        a.eq_spec(&b) <==> {
            &&& a.spec_currency() == b.spec_currency()
            &&& forall|id: Seq<char>|
                a.prices().contains_key(id) <==> #[trigger] b.prices().contains_key(id)
            &&& forall|id: Seq<char>| #[trigger]
                a.prices().contains_key(id) ==> a.prices()[id].input_per_mtok.units()
                    == b.prices()[id].input_per_mtok.units()
                    && a.prices()[id].output_per_mtok.units()
                    == b.prices()[id].output_per_mtok.units()
        },
{
    if a.eq_spec(&b) {
        assert forall|id: Seq<char>|
            a.prices().contains_key(id) <==> #[trigger] b.prices().contains_key(id) by {
            assert(a.prices().contains_key(id) ==> b.prices().contains_key(id));
        }
    }
}

impl Eq for PriceTable {

}

impl Default for PriceTable {
    fn default() -> (r: PriceTable)
        ensures
            r.spec_currency() == Seq::<char>::empty(),
            r.prices() == Map::<Seq<char>, ModelPrice>::empty(),
    {
        PriceTable { currency: String::new(), models: Vec::new() }
    }
}

/// Sets the price of an id.
fn set_price(entries: &mut Vec<(String, ModelPrice)>, id: &str, price: ModelPrice)
    requires
        distinct_ids(old(entries)@),
    ensures
        distinct_ids(final(entries)@),
        prices_of(final(entries)@) == prices_of(old(entries)@).insert(id@, price),
{
    let wanted = id.to_owned();
    let ghost before = entries@;
    let mut i: usize = 0;
    while i < entries.len()
        invariant
            i <= entries@.len(),
            entries@ == before,
            before == old(entries)@,
            distinct_ids(before),
            wanted@ == id@,
            forall|j: int| 0 <= j < i ==> (#[trigger] before[j]).0@ != id@,
        decreases entries@.len() - i,
    {
        if entries[i].0 == wanted {
            let ghost at = i as int;
            entries.set(i, (wanted, price));
            proof {
                let after = entries@;
                assert(after[at].0@ == id@ && before[at].0@ == id@);
                assert(distinct_ids(after)) by {
                    assert forall|a: int, b: int| 0 <= a < b < after.len() implies (
                    #[trigger] after[a]).0@ != (#[trigger] after[b]).0@ by {
                        assert(before[a].0@ != before[b].0@);
                    }
                }
                lemma_replaced(before, after, at, id@, price);
            }
            return ;
        }
        i = i + 1;
    }
    entries.push((wanted, price));
    proof {
        let after = entries@;
        assert(after.drop_last() =~= before);
        assert(distinct_ids(after)) by {
            assert forall|a: int, b: int| 0 <= a < b < after.len() implies (
            #[trigger] after[a]).0@ != (#[trigger] after[b]).0@ by {
                if b < before.len() {
                    assert(before[a].0@ != before[b].0@);
                } else {
                    assert(before[a].0@ != id@);
                }
            }
        }
    }
}

/// Replacing the price of an id sets it and leaves the others.
proof fn lemma_replaced(
    before: Seq<(String, ModelPrice)>,
    after: Seq<(String, ModelPrice)>,
    at: int,
    id: Seq<char>,
    price: ModelPrice,
)
    requires
        0 <= at < before.len(),
        after.len() == before.len(),
        distinct_ids(before),
        distinct_ids(after),
        before[at].0@ == id,
        after[at].0@ == id && after[at].1 == price,
        forall|j: int| 0 <= j < before.len() && j != at ==> #[trigger] after[j] == before[j],
    ensures
        prices_of(after) == prices_of(before).insert(id, price),
{
    let p = prices_of(before).insert(id, price);
    let q = prices_of(after);
    assert forall|k: Seq<char>| #[trigger] q.contains_key(k) <==> p.contains_key(k) by {
        lemma_prices(before, k);
        lemma_prices(after, k);
        if q.contains_key(k) {
            let i = choose|i: int| 0 <= i < after.len() && (#[trigger] after[i]).0@ == k;
            if i != at {
                assert(before[i].0@ == k);
            }
        }
        if p.contains_key(k) && k != id {
            let i = choose|i: int| 0 <= i < before.len() && (#[trigger] before[i]).0@ == k;
            assert(after[i].0@ == k);
        }
        assert(after[at].0@ == id);
    }
    assert forall|k: Seq<char>| #[trigger] q.contains_key(k) implies q[k] == p[k] by {
        lemma_prices(before, k);
        lemma_prices(after, k);
        let i = choose|i: int| 0 <= i < after.len() && (#[trigger] after[i]).0@ == k;
        if i != at {
            assert(before[i].0@ == k);
            if k == id {
                if i < at {
                    assert(before[i].0@ != before[at].0@);
                } else {
                    assert(before[at].0@ != before[i].0@);
                }
            }
        }
    }
    assert(q =~= p);
}

} // verus!
