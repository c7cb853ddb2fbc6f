use macolint::errors::SnipError;
use macolint::fuzzy::{
    auto_choice, check_candidates, interpret_matcher_exit, numbered_choice, parse_selection,
    rank_candidates, shown_count, ExternalOutcome,
};

fn options(names: &[&str]) -> Vec<String> {
    names.iter().map(|n| (*n).to_owned()).collect()
}

#[test]
fn ranking_keeps_matches_and_drops_non_matches() {
    let opts = options(&["foo", "foobar", "bar"]);
    let ranked = rank_candidates(&opts, "foo");
    // "bar" has no subsequence match for "foo"
    let indices: Vec<usize> = ranked.iter().map(|m| m.index).collect();
    assert!(indices.contains(&0));
    assert!(indices.contains(&1));
    assert!(!indices.contains(&2));
    assert_eq!(ranked.len(), 2);
    // the exact match ranks first
    assert_eq!(ranked[0].index, 0);
    assert!(ranked[0].score >= ranked[1].score);
}

#[test]
fn clear_winner_is_auto_selected_else_both_offered() {
    let opts = options(&["foo", "foobar", "bar"]);
    let ranked = rank_candidates(&opts, "foo");
    match auto_choice(&ranked) {
        Some(i) => {
            assert_eq!(i, 0);
            assert!(ranked[0].score - ranked[1].score > 100);
        }
        None => {
            assert_eq!(ranked.len(), 2);
            assert!(ranked[0].score - ranked[1].score <= 100);
        }
    }
}

#[test]
fn sole_match_is_auto_selected() {
    let opts = options(&["alpha", "beta"]);
    let ranked = rank_candidates(&opts, "alp");
    assert_eq!(ranked.len(), 1);
    assert_eq!(auto_choice(&ranked), Some(0));
}

#[test]
fn empty_candidates_and_no_matches_yield_nothing() {
    let none: Vec<String> = Vec::new();
    assert_eq!(check_candidates(&none).unwrap_err(), SnipError::NoCandidates);
    assert!(check_candidates(&options(&["a"])).is_ok());
    assert!(rank_candidates(&none, "query").is_empty());
    assert_eq!(auto_choice(&Vec::new()), None);
    assert_eq!(numbered_choice(&Vec::new(), 1), None);
    let opts = options(&["abc"]);
    assert!(rank_candidates(&opts, "xyz").is_empty());
}

#[test]
fn ties_keep_first_seen_order() {
    let opts = options(&["same", "same"]);
    let ranked = rank_candidates(&opts, "same");
    assert_eq!(ranked.len(), 2);
    assert_eq!(ranked[0].index, 0);
    assert_eq!(ranked[1].index, 1);
    assert_eq!(ranked[0].score, ranked[1].score);
    assert_eq!(auto_choice(&ranked), None);
}

#[test]
fn numbered_choice_accepts_only_the_shown_range() {
    let opts = options(&["one", "ones", "onesie"]);
    let ranked = rank_candidates(&opts, "one");
    assert_eq!(ranked.len(), 3);
    assert!(numbered_choice(&ranked, 0).is_none());
    assert!(numbered_choice(&ranked, 4).is_none());
    let first = numbered_choice(&ranked, 1).unwrap();
    assert_eq!(first, ranked[0].index);
    let third = numbered_choice(&ranked, 3).unwrap();
    assert_eq!(third, ranked[2].index);
}

#[test]
fn shown_count_caps_at_ten() {
    assert_eq!(shown_count(3), 3);
    assert_eq!(shown_count(10), 10);
    assert_eq!(shown_count(25), 10);
}

#[test]
fn selection_parsing_trims_and_validates() {
    assert_eq!(parse_selection("2"), Some(2));
    assert_eq!(parse_selection(" 7 \n"), Some(7));
    assert_eq!(parse_selection("007"), Some(7));
    assert_eq!(parse_selection("abc"), None);
    assert_eq!(parse_selection(""), None);
    assert_eq!(parse_selection("  "), None);
    assert_eq!(parse_selection("1x"), None);
    assert_eq!(parse_selection("-3"), None);
    assert_eq!(
        parse_selection("99999999999999999999999999999999999999999999"),
        None
    );
}

#[test]
fn normalized_query_rejects_blank_lines() {
    assert_eq!(macolint::fuzzy::normalized_query("  \n"), None);
    assert_eq!(
        macolint::fuzzy::normalized_query(" find me \n"),
        Some("find me".to_owned())
    );
}

#[test]
fn external_matcher_outcomes() {
    assert!(matches!(
        interpret_matcher_exit(Some(130), "ignored"),
        ExternalOutcome::Cancelled
    ));
    match interpret_matcher_exit(Some(0), " picked \n") {
        ExternalOutcome::Selected(s) => assert_eq!(s, "picked"),
        _ => panic!("expected a selection"),
    }
    assert!(matches!(
        interpret_matcher_exit(Some(0), "   \n"),
        ExternalOutcome::Unavailable
    ));
    assert!(matches!(
        interpret_matcher_exit(Some(1), "out"),
        ExternalOutcome::Unavailable
    ));
    assert!(matches!(
        interpret_matcher_exit(None, "out"),
        ExternalOutcome::Unavailable
    ));
}
