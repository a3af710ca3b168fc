use polymarket_bot::market_discovery::gamma::{
    market_url, match_outcomes, prefetch_step, select_market, GammaMarket, MarketError, PrefetchStep,
};

fn some(s: &str) -> Option<String> {
    Some(s.to_string())
}

fn market() -> GammaMarket {
    GammaMarket {
        condition_id: some("0xc"),
        clob_token_ids: some("[\"11\", \"22\"]"),
        outcomes: some("[\"Up\",\"Down\"]"),
        question: some("Up or down?"),
    }
}

fn strings(list: &[&str]) -> Vec<String> {
    list.iter().map(|s| s.to_string()).collect()
}

#[test]
fn tokens_follow_their_outcomes() {
    let info = select_market(Some(market()), "btc-updown-5m-0").unwrap();
    assert_eq!(info.slug, "btc-updown-5m-0");
    assert_eq!(info.condition_id, "0xc");
    assert_eq!(info.yes_token_id, "11");
    assert_eq!(info.no_token_id, "22");
    assert_eq!(info.question, "Up or down?");
    let mut swapped = market();
    swapped.outcomes = some("[\"No\",\"Yes\"]");
    swapped.question = None;
    let info = select_market(Some(swapped), "s").unwrap();
    assert_eq!(info.yes_token_id, "22");
    assert_eq!(info.no_token_id, "11");
    assert_eq!(info.question, "");
}

fn error(change: fn(&mut GammaMarket)) -> MarketError {
    let mut m = market();
    change(&mut m);
    select_market(Some(m), "s").unwrap_err()
}

#[test]
fn each_gap_has_its_error() {
    assert_eq!(select_market(None, "s").unwrap_err(), MarketError::NoMarket);
    assert_eq!(error(|m| m.condition_id = None), MarketError::NoConditionId);
    assert_eq!(error(|m| m.clob_token_ids = None), MarketError::NoTokenIds);
    assert_eq!(error(|m| m.clob_token_ids = some("11,22")), MarketError::InvalidTokenIds);
    assert_eq!(error(|m| m.clob_token_ids = some("[11,22]")), MarketError::InvalidTokenIds);
    assert_eq!(error(|m| m.outcomes = None), MarketError::NoOutcomes);
    assert_eq!(error(|m| m.outcomes = some("{}")), MarketError::InvalidOutcomes);
    assert_eq!(error(|m| m.outcomes = some("[\"Up\"]")), MarketError::TooFew);
    assert_eq!(error(|m| m.clob_token_ids = some("[]")), MarketError::TooFew);
    assert_eq!(error(|m| m.outcomes = some("[\"Down\",\"up\"]")), MarketError::NoUpToken);
    assert_eq!(error(|m| m.outcomes = some("[\"Up\",\"Maybe\"]")), MarketError::NoDownToken);
    assert_eq!(MarketError::NoUpToken.message("s"), "No Up/Yes token for slug: s");
    assert_eq!(MarketError::TooFew.message("s"), "Expected 2 outcomes and 2 token IDs for slug: s");
}

#[test]
fn the_last_outcome_of_a_meaning_counts() {
    let tokens = strings(&["1", "2", "3"]);
    let info = match_outcomes("s", "c".to_string(), &tokens, &strings(&["Up", "Down", "Yes"]), None).unwrap();
    assert_eq!(info.yes_token_id, "3");
    let e = match_outcomes("s", "c".to_string(), &strings(&["1", "2"]), &strings(&["Up", "Down", "Yes"]), None);
    assert_eq!(e.unwrap_err(), MarketError::NoUpToken);
}

#[test]
fn markets_are_asked_for_by_slug() {
    assert_eq!(market_url("https://g", "btc-updown-5m-300"), "https://g/markets?slug=btc-updown-5m-300");
}

#[test]
fn attempts_back_off() {
    let steps: Vec<PrefetchStep> = (0..5).map(|i| prefetch_step(i, 5, false)).collect();
    let waits: Vec<PrefetchStep> =
        [1, 2, 4, 8].iter().map(|secs| PrefetchStep::Retry { secs: *secs }).collect();
    assert_eq!(steps[..4], waits[..]);
    assert_eq!(steps[4], PrefetchStep::GiveUp);
    assert_eq!(prefetch_step(0, 1, false), PrefetchStep::GiveUp);
    assert_eq!(prefetch_step(63, 65, false), PrefetchStep::Retry { secs: 1 << 63 });
    assert_eq!(prefetch_step(0, 1, true), PrefetchStep::Done);
    assert_eq!(prefetch_step(2, 5, true), PrefetchStep::Done);
}

#[test]
fn a_market_is_looked_up_no_more_often_than_asked_for() {
    for max in 1..8 {
        for hit in 0..10 {
            let mut attempts = 0;
            for attempt in 0..max {
                attempts += 1;
                if !matches!(prefetch_step(attempt, max, attempt == hit), PrefetchStep::Retry { .. }) {
                    break;
                }
            }
            assert_eq!(attempts, if hit < max { hit + 1 } else { max });
        }
    }
}
