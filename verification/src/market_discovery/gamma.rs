//! Markets, as the Gamma API describes them.

use crate::utils::text;
use crate::utils::text::same_text;
use vstd::arithmetic::power2::*;
use vstd::prelude::*;
use vstd::string::*;

verus! {

/// Represents a discovered Polymarket binary market with its token IDs.
#[derive(Debug)]
pub struct MarketInfo {
    pub slug: String,
    pub condition_id: String,
    /// Token ID for the "Up" outcome (equivalent to YES).
    pub yes_token_id: String,
    /// Token ID for the "Down" outcome (equivalent to NO).
    pub no_token_id: String,
    pub question: String,
}

impl Clone for MarketInfo {
    fn clone(&self) -> (r: Self)
        ensures
            r == *self,
    {
        MarketInfo {
            slug: self.slug.clone(),
            condition_id: self.condition_id.clone(),
            yes_token_id: self.yes_token_id.clone(),
            no_token_id: self.no_token_id.clone(),
            question: self.question.clone(),
        }
    }
}

/// A market, as the API sends it. Note: `clob_token_ids` and `outcomes` are
/// JSON-encoded strings (e.g. `"[\"Up\",\"Down\"]"`), not arrays.
#[derive(Debug)]
pub struct GammaMarket {
    pub condition_id: Option<String>,
    pub clob_token_ids: Option<String>,
    pub outcomes: Option<String>,
    pub question: Option<String>,
}

/// Why no market can be made of an answer.
#[derive(Debug, Clone, Copy, PartialEq, Eq, Structural)]
pub enum MarketError {
    NoMarket,
    NoConditionId,
    NoTokenIds,
    InvalidTokenIds,
    NoOutcomes,
    InvalidOutcomes,
    TooFew,
    NoUpToken,
    NoDownToken,
}

impl MarketError {
    /// The error in words, up to the name of the market.
    pub open spec fn words(self) -> Seq<char> {
        match self {
            MarketError::NoMarket => "No market found for slug: "@,
            MarketError::NoConditionId => "No conditionId for slug: "@,
            MarketError::NoTokenIds => "No clobTokenIds for slug: "@,
            MarketError::InvalidTokenIds => "Failed to parse clobTokenIds for slug: "@,
            MarketError::NoOutcomes => "No outcomes for slug: "@,
            MarketError::InvalidOutcomes => "Failed to parse outcomes for slug: "@,
            MarketError::TooFew => "Expected 2 outcomes and 2 token IDs for slug: "@,
            MarketError::NoUpToken => "No Up/Yes token for slug: "@,
            MarketError::NoDownToken => "No Down/No token for slug: "@,
        }
    }

    /// The error in words.
    pub fn message(&self, slug: &str) -> (r: String)
        ensures
            r@ == self.words() + slug@,
    {
        let start: String = match self {
            MarketError::NoMarket => "No market found for slug: ".to_owned(),
            MarketError::NoConditionId => "No conditionId for slug: ".to_owned(),
            MarketError::NoTokenIds => "No clobTokenIds for slug: ".to_owned(),
            MarketError::InvalidTokenIds => "Failed to parse clobTokenIds for slug: ".to_owned(),
            MarketError::NoOutcomes => "No outcomes for slug: ".to_owned(),
            MarketError::InvalidOutcomes => "Failed to parse outcomes for slug: ".to_owned(),
            MarketError::TooFew => "Expected 2 outcomes and 2 token IDs for slug: ".to_owned(),
            MarketError::NoUpToken => "No Up/Yes token for slug: ".to_owned(),
            MarketError::NoDownToken => "No Down/No token for slug: ".to_owned(),
        };
        start.concat(slug)
    }
}

/// The texts of a JSON array of strings, if a text is one.
pub uninterp spec fn json_strings(raw: Seq<char>) -> Option<Seq<Seq<char>>>;

pub open spec fn seen(list: Option<Vec<String>>) -> Option<Seq<Seq<char>>> {
    match list {
        Some(list) => Some(text::texts(list@)),
        None => None,
    }
}

/// `serde_json::from_str` into a list of strings: what the text holds if it is a
/// JSON array of strings, which depends on the text alone.
#[verifier::external_body]
fn parse_json_string_array(raw: &str) -> (r: Option<Vec<String>>)
    ensures
        seen(r) == json_strings(raw@),
{
    serde_json::from_str::<Vec<String>>(raw).ok()
}

pub open spec fn means_up(outcome: Seq<char>) -> bool {
    outcome == "Up"@ || outcome == "Yes"@
}

pub open spec fn means_down(outcome: Seq<char>) -> bool {
    outcome == "Down"@ || outcome == "No"@
}

/// The token of the last outcome with a meaning: the one at the same place.
pub open spec fn token_where(
    outcomes: Seq<Seq<char>>,
    tokens: Seq<Seq<char>>,
    up: bool,
) -> Option<Seq<char>>
    decreases outcomes.len(),
{
    if outcomes.len() == 0 {
        None
    } else {
        let i = outcomes.len() - 1;
        if (up && means_up(outcomes[i])) || (!up && means_down(outcomes[i])) {
            if i < tokens.len() {
                Some(tokens[i])
            } else {
                None
            }
        } else {
            token_where(outcomes.drop_last(), tokens, up)
        }
    }
}

/// The error that a list of tokens and a list of outcomes give, if any.
pub open spec fn pairing_error(
    tokens: Seq<Seq<char>>,
    outcomes: Seq<Seq<char>>,
) -> Option<MarketError> {
    if tokens.len() < 2 || outcomes.len() < 2 {
        Some(MarketError::TooFew)
    } else if token_where(outcomes, tokens, true) is None {
        Some(MarketError::NoUpToken)
    } else if token_where(outcomes, tokens, false) is None {
        Some(MarketError::NoDownToken)
    } else {
        None
    }
}

fn pick_token(outcomes: &Vec<String>, tokens: &Vec<String>, up: bool) -> (r: Option<String>)
    ensures
        match r {
            Some(token) => token_where(text::texts(outcomes@), text::texts(tokens@), up) == Some(
                token@,
            ),
            None => token_where(text::texts(outcomes@), text::texts(tokens@), up) is None,
        },
{
    let ghost names = text::texts(outcomes@);
    let ghost ids = text::texts(tokens@);
    let mut i: usize = outcomes.len();
    assert(names.take(i as int) =~= names);
    while i > 0
        invariant
            i <= outcomes@.len(),
            names == text::texts(outcomes@),
            ids == text::texts(tokens@),
            token_where(names.take(i as int), ids, up) == token_where(names, ids, up),
        decreases i,
    {
        i = i - 1;
        assert(names.take(i + 1).drop_last() =~= names.take(i as int));
        assert(names.take(i + 1)[i as int] == outcomes@[i as int]@);
        let outcome: &str = outcomes[i].as_str();
        let here: bool = if up {
            same_text(outcome, "Up") || same_text(outcome, "Yes")
        } else {
            same_text(outcome, "Down") || same_text(outcome, "No")
        };
        if here {
            if i < tokens.len() {
                return Some(tokens[i].clone());
            }
            return None;
        }
    }
    None
}

/// Whether `r` is the market that tokens and outcomes make, or their error.
pub open spec fn matched(
    r: Result<MarketInfo, MarketError>,
    slug: Seq<char>,
    condition_id: String,
    tokens: Seq<Seq<char>>,
    names: Seq<Seq<char>>,
    question: Option<String>,
) -> bool {
    match pairing_error(tokens, names) {
        Some(e) => r == Err::<MarketInfo, MarketError>(e),
        None => r is Ok && ({
            let info = r->Ok_0;
            &&& info.slug@ == slug
            &&& info.condition_id == condition_id
            &&& token_where(names, tokens, true) == Some(info.yes_token_id@)
            &&& token_where(names, tokens, false) == Some(info.no_token_id@)
            &&& info.question@ == match question {
                Some(question) => question@,
                None => ""@,
            }
        }),
    }
}

/// Matches the tokens of a market to its outcomes.
pub fn match_outcomes(
    slug: &str,
    condition_id: String,
    token_ids: &Vec<String>,
    outcomes: &Vec<String>,
    question: Option<String>,
) -> (r: Result<MarketInfo, MarketError>)
    ensures
        matched(
            r,
            slug@,
            condition_id,
            text::texts(token_ids@),
            text::texts(outcomes@),
            question,
        ),
{
    if token_ids.len() < 2 || outcomes.len() < 2 {
        return Err(MarketError::TooFew);
    }
    let yes_token_id: String = match pick_token(outcomes, token_ids, true) {
        Some(token) => token,
        None => return Err(MarketError::NoUpToken),
    };
    let no_token_id: String = match pick_token(outcomes, token_ids, false) {
        Some(token) => token,
        None => return Err(MarketError::NoDownToken),
    };
    let question: String = match question {
        Some(question) => question,
        None => "".to_owned(),
    };
    Ok(MarketInfo { slug: slug.to_owned(), condition_id, yes_token_id, no_token_id, question })
}

/// The error of a market, if any: the first thing that is missing or cannot be
/// read.
pub open spec fn market_error(market: GammaMarket) -> Option<MarketError> {
    if market.condition_id is None {
        Some(MarketError::NoConditionId)
    } else if market.clob_token_ids is None {
        Some(MarketError::NoTokenIds)
    } else if json_strings(market.clob_token_ids->Some_0@) is None {
        Some(MarketError::InvalidTokenIds)
    } else if market.outcomes is None {
        Some(MarketError::NoOutcomes)
    } else if json_strings(market.outcomes->Some_0@) is None {
        Some(MarketError::InvalidOutcomes)
    } else {
        pairing_error(
            json_strings(market.clob_token_ids->Some_0@)->Some_0,
            json_strings(market.outcomes->Some_0@)->Some_0,
        )
    }
}

/// Whether a market is the one that the API describes under a slug.
pub open spec fn described(info: MarketInfo, market: GammaMarket, slug: Seq<char>) -> bool {
    let tokens = json_strings(market.clob_token_ids->Some_0@)->Some_0;
    let names = json_strings(market.outcomes->Some_0@)->Some_0;
    &&& info.slug@ == slug
    &&& market.condition_id == Some(info.condition_id)
    &&& token_where(names, tokens, true) == Some(info.yes_token_id@)
    &&& token_where(names, tokens, false) == Some(info.no_token_id@)
    &&& info.question@ == match market.question {
        Some(question) => question@,
        None => ""@,
    }
}

/// Whether `r` is the market of a slug in an answer, or why there is none.
pub open spec fn selected(
    r: Result<MarketInfo, MarketError>,
    market: Option<GammaMarket>,
    slug: Seq<char>,
) -> bool {
    match market {
        None => r == Err::<MarketInfo, MarketError>(MarketError::NoMarket),
        Some(market) => match market_error(market) {
            Some(e) => r == Err::<MarketInfo, MarketError>(e),
            None => r matches Ok(info) && described(info, market, slug),
        },
    }
}

/// The market of a slug, from the first market of an answer.
pub fn select_market(market: Option<GammaMarket>, slug: &str) -> (r: Result<
    MarketInfo,
    MarketError,
>)
    ensures
        selected(r, market, slug@),
{
    let market: GammaMarket = match market {
        Some(market) => market,
        None => return Err(MarketError::NoMarket),
    };
    let condition_id: String = match market.condition_id {
        Some(id) => id,
        None => return Err(MarketError::NoConditionId),
    };
    let token_ids: Vec<String> = match market.clob_token_ids {
        Some(raw) => match parse_json_string_array(raw.as_str()) {
            Some(list) => list,
            None => return Err(MarketError::InvalidTokenIds),
        },
        None => return Err(MarketError::NoTokenIds),
    };
    let outcomes: Vec<String> = match market.outcomes {
        Some(raw) => match parse_json_string_array(raw.as_str()) {
            Some(list) => list,
            None => return Err(MarketError::InvalidOutcomes),
        },
        None => return Err(MarketError::NoOutcomes),
    };
    match_outcomes(slug, condition_id, &token_ids, &outcomes, market.question)
}

/// Where the API describes the market of a slug.
pub open spec fn market_address(gamma_url: Seq<char>, slug: Seq<char>) -> Seq<char> {
    gamma_url + "/markets?slug="@ + slug
}

/// The address starts with that of the API and asks for the slug at its end.
pub proof fn lemma_market_address(gamma_url: Seq<char>, slug: Seq<char>)
    ensures
        ({
            let address = market_address(gamma_url, slug);
            let end = address.len() - slug.len();
            &&& address.take(gamma_url.len() as int) == gamma_url
            &&& address.skip(end) == slug
            &&& address.subrange(gamma_url.len() as int, end) == "/markets?slug="@
        }),
{
    let address = market_address(gamma_url, slug);
    let end = address.len() - slug.len();
    assert(address.take(gamma_url.len() as int) =~= gamma_url);
    assert(address.skip(end) =~= slug);
    assert(address.subrange(gamma_url.len() as int, end) =~= "/markets?slug="@);
}

/// Where the API describes the market of a slug.
pub fn market_url(gamma_url: &str, slug: &str) -> (r: String)
    ensures
        r@ == market_address(gamma_url@, slug@),
{
    gamma_url.to_owned().concat("/markets?slug=").concat(slug)
}

/// What follows an attempt to look a market up.
#[derive(Debug, Clone, Copy, PartialEq, Eq, Structural)]
pub enum PrefetchStep {
    /// The market was found.
    Done,
    /// Wait, then try once more.
    Retry { secs: u64 },
    GiveUp,
}

/// What follows an attempt, counted from zero: after a failed one, another one is
/// made, twice as long later each time, until so many were made.
pub open spec fn after_attempt(attempt: nat, max_retries: nat, found: bool) -> PrefetchStep {
    if found {
        PrefetchStep::Done
    } else if attempt + 1 < max_retries {
        PrefetchStep::Retry { secs: pow2(attempt) as u64 }
    } else {
        PrefetchStep::GiveUp
    }
}

/// What follows an attempt to look a market up, counted from zero.
pub fn prefetch_step(attempt: u32, max_retries: u32, found: bool) -> (r: PrefetchStep)
    requires
        !found && attempt + 1 < max_retries ==> attempt < 64,
    ensures
        r == after_attempt(attempt as nat, max_retries as nat, found),
        r matches PrefetchStep::Retry { secs } ==> secs == pow2(attempt as nat),
{
    if found {
        return PrefetchStep::Done;
    }
    if attempt < max_retries && attempt < max_retries - 1 {
        let mut secs: u64 = 1;
        let mut i: u32 = 0;
        proof {
            lemma2_to64();
            lemma2_to64_rest();
        }
        while i < attempt
            invariant
                i <= attempt < 64,
                secs == pow2(i as nat),
                pow2(64) == 0x1_0000_0000_0000_0000,
            decreases attempt - i,
        {
            proof {
                lemma_pow2_unfold((i + 1) as nat);
                if i + 1 < 64 {
                    lemma_pow2_strictly_increases((i + 1) as nat, 64);
                }
            }
            secs = secs * 2;
            i = i + 1;
        }
        PrefetchStep::Retry { secs }
    } else {
        PrefetchStep::GiveUp
    }
}

/// How many attempts are made from one on, where `found` says of each whether it
/// finds the market.
pub open spec fn attempts_from(attempt: nat, max_retries: nat, found: spec_fn(nat) -> bool) -> nat
    decreases max_retries - attempt,
{
    if attempt >= max_retries {
        0
    } else {
        match after_attempt(attempt, max_retries, found(attempt)) {
            PrefetchStep::Retry { .. } => 1 + attempts_from(attempt + 1, max_retries, found),
            _ => 1,
        }
    }
}

/// A market is looked up no more often than the number of retries says, and
/// exactly that often where it is not found.
pub proof fn lemma_attempts_are_bounded(
    attempt: nat,
    max_retries: nat,
    found: spec_fn(nat) -> bool,
)
    requires
        attempt <= max_retries,
    ensures
        attempts_from(attempt, max_retries, found) <= max_retries - attempt,
        (forall|i: nat| attempt <= i < max_retries ==> !(#[trigger] found(i))) ==> attempts_from(
            attempt,
            max_retries,
            found,
        ) == max_retries - attempt,
    decreases max_retries - attempt,
{
    if attempt < max_retries {
        lemma_attempts_are_bounded(attempt + 1, max_retries, found);
    }
}

/// The first attempt that finds the market is the last one.
pub proof fn lemma_found_is_last(
    attempt: nat,
    max_retries: nat,
    found: spec_fn(nat) -> bool,
    hit: nat,
)
    requires
        attempt <= hit < max_retries,
        found(hit),
        forall|i: nat| attempt <= i < hit ==> !(#[trigger] found(i)),
    ensures
        attempts_from(attempt, max_retries, found) == hit - attempt + 1,
    decreases hit - attempt,
{
    if attempt < hit {
        lemma_found_is_last(attempt + 1, max_retries, found, hit);
    }
}

/// Whether an outcome is spelled as one of two words.
pub open spec fn spelled(outcome: Seq<char>, up: bool) -> bool {
    if up {
        outcome == "Up"@ || outcome == "Yes"@
    } else {
        outcome == "Down"@ || outcome == "No"@
    }
}

/// The token of a side stands at the same place as the outcome of that side: the
/// last one that is spelled `Up` or `Yes`, and the last one that is spelled
/// `Down` or `No`. Without such an outcome there is no token.
pub proof fn lemma_token_at_place_of_outcome(
    outcomes: Seq<Seq<char>>,
    tokens: Seq<Seq<char>>,
    up: bool,
    i: int,
)
    requires
        -1 <= i < outcomes.len(),
        i >= 0 ==> spelled(outcomes[i], up),
        forall|j: int| i < j < outcomes.len() ==> !spelled(#[trigger] outcomes[j], up),
    ensures
        0 <= i < tokens.len() ==> token_where(outcomes, tokens, up) == Some(tokens[i]),
        i >= tokens.len() ==> token_where(outcomes, tokens, up) is None,
        i == -1 ==> token_where(outcomes, tokens, up) is None,
    decreases outcomes.len(),
{
    if outcomes.len() > 0 && i < outcomes.len() - 1 {
        let last = outcomes.len() - 1;
        assert(!spelled(outcomes[last], up));
        let rest = outcomes.drop_last();
        assert forall|j: int| i < j < rest.len() implies !spelled(#[trigger] rest[j], up) by {
            assert(!spelled(outcomes[j], up));
        }
        lemma_token_at_place_of_outcome(rest, tokens, up, i);
    }
}

/// A market with two outcomes, one up and one down, has the token of each at its
/// place, in whichever order they come: YES is the token of the outcome that is
/// up and NO that of the one that is down.
pub proof fn lemma_two_outcomes(
    r: Result<MarketInfo, MarketError>,
    slug: Seq<char>,
    condition_id: String,
    tokens: Seq<Seq<char>>,
    names: Seq<Seq<char>>,
    question: Option<String>,
    up: int,
    down: int,
)
    requires
        matched(r, slug, condition_id, tokens, names, question),
        tokens.len() == 2,
        names.len() == 2,
        up == 0 && down == 1 || up == 1 && down == 0,
        spelled(names[up], true),
        spelled(names[down], false),
    ensures
        r is Ok,
        r->Ok_0.yes_token_id@ == tokens[up],
        r->Ok_0.no_token_id@ == tokens[down],
        r->Ok_0.condition_id == condition_id,
        r->Ok_0.slug@ == slug,
        question is Some ==> r->Ok_0.question@ == question->0@,
{
    lemma_spellings_differ();
    lemma_token_at_place_of_outcome(names, tokens, true, up);
    lemma_token_at_place_of_outcome(names, tokens, false, down);
}

proof fn lemma_spellings_differ()
    ensures
        forall|outcome: Seq<char>|
            !(#[trigger] spelled(outcome, true) && spelled(outcome, false)),
{
    reveal_strlit("Up");
    reveal_strlit("Yes");
    reveal_strlit("Down");
    reveal_strlit("No");
    assert("Up"@[0] != "No"@[0]);
    assert("Up"@.len() == 2 && "Yes"@.len() == 3 && "Down"@.len() == 4 && "No"@.len() == 2);
}

/// No market comes of fewer than two tokens or outcomes, nor without an outcome
/// of either side that has a token; of all others one does.
pub proof fn lemma_when_tokens_match(
    tokens: Seq<Seq<char>>,
    names: Seq<Seq<char>>,
    up: int,
    down: int,
)
    requires
        -1 <= up < names.len(),
        -1 <= down < names.len(),
        up >= 0 ==> spelled(names[up], true),
        down >= 0 ==> spelled(names[down], false),
        forall|j: int| up < j < names.len() ==> !spelled(#[trigger] names[j], true),
        forall|j: int| down < j < names.len() ==> !spelled(#[trigger] names[j], false),
    ensures
        pairing_error(tokens, names) is None <==> tokens.len() >= 2 && names.len() >= 2 && 0 <= up
            < tokens.len() && 0 <= down < tokens.len(),
        tokens.len() < 2 || names.len() < 2 ==> pairing_error(tokens, names) == Some(
            MarketError::TooFew,
        ),
{
    lemma_token_at_place_of_outcome(names, tokens, true, up);
    lemma_token_at_place_of_outcome(names, tokens, false, down);
}

/// A market that the API describes is the one that its tokens and outcomes make;
/// one that lacks its condition, its tokens or its outcomes is none.
pub proof fn lemma_described_market(
    info: MarketInfo,
    market: GammaMarket,
    slug: Seq<char>,
)
    requires
        market_error(market) is None,
        described(info, market, slug),
    ensures
        market.condition_id is Some && market.clob_token_ids is Some && market.outcomes is Some,
        json_strings(market.clob_token_ids->0@) is Some,
        json_strings(market.outcomes->0@) is Some,
        matched(
            Ok(info),
            slug,
            market.condition_id->0,
            json_strings(market.clob_token_ids->0@)->0,
            json_strings(market.outcomes->0@)->0,
            market.question,
        ),
{
}

/// What is missing, or cannot be read, is told in the order of condition, tokens
/// and outcomes.
pub proof fn lemma_what_is_missing(market: GammaMarket)
    ensures
        market.condition_id is None <==> market_error(market) == Some(MarketError::NoConditionId),
        market.condition_id is Some && market.clob_token_ids is None ==> market_error(market)
            == Some(MarketError::NoTokenIds),
        market.condition_id is Some && market.clob_token_ids is Some && json_strings(
            market.clob_token_ids->0@,
        ) is None ==> market_error(market) == Some(MarketError::InvalidTokenIds),
        market.condition_id is Some && market.clob_token_ids is Some && json_strings(
            market.clob_token_ids->0@,
        ) is Some && market.outcomes is None ==> market_error(market) == Some(
            MarketError::NoOutcomes,
        ),
        market.condition_id is Some && market.clob_token_ids is Some && json_strings(
            market.clob_token_ids->0@,
        ) is Some && market.outcomes is Some && json_strings(market.outcomes->0@) is None
            ==> market_error(market) == Some(MarketError::InvalidOutcomes),
{
}

/// A market that is found is not looked up again; the first wait is one second,
/// and each wait is twice as long as the one before.
pub proof fn lemma_waits_double(attempt: nat, max_retries: nat)
    requires
        attempt + 1 < 63,
    ensures
        after_attempt(attempt, max_retries, true) is Done,
        !(after_attempt(attempt, max_retries, false) is Done),
        after_attempt(attempt, max_retries, false) is Retry <==> attempt + 1 < max_retries,
        1 < max_retries ==> after_attempt(0, max_retries, false) == (PrefetchStep::Retry {
            secs: 1,
        }),
        attempt + 2 < max_retries ==> after_attempt(attempt + 1, max_retries, false)->secs == 2
            * after_attempt(attempt, max_retries, false)->secs,
{
    lemma2_to64();
    lemma2_to64_rest();
    lemma_pow2_unfold(attempt + 1);
    lemma_pow2_strictly_increases(attempt, attempt + 1);
    lemma_pow2_strictly_increases(attempt + 1, 64);
}

/// An answer gives a market exactly where it holds one in which nothing is missing
/// and a token stands for either side.
pub proof fn lemma_when_market_is_selected(
    r: Result<MarketInfo, MarketError>,
    market: Option<GammaMarket>,
    slug: Seq<char>,
)
    requires
        selected(r, market, slug),
    ensures
        r is Ok <==> market is Some && market_error(market->0) is None,
        market is None ==> r == Err::<MarketInfo, MarketError>(MarketError::NoMarket),
        r is Err && market is Some ==> market_error(market->0) == Some(r->Err_0),
        r is Ok ==> r->Ok_0.slug@ == slug && Some(r->Ok_0.condition_id) == market->0.condition_id,
{
}

} // verus!
