use sprite_gen::rule::{Action, ActionParam, Rule, RuleError, serialize_actions};

#[test]
fn parse_simple_token() {
    let actions = Rule::parse_action("5B");
    assert_eq!(actions.len(), 1);
    assert_eq!(actions[0].location, ActionParam::Index(5));
    assert_eq!(actions[0].value, ActionParam::Char('B'));
    assert_eq!(actions[0].chance, None);
}

#[test]
fn parse_wildcards() {
    let actions = Rule::parse_action("*C1*");
    assert_eq!(actions.len(), 2);
    assert_eq!(actions[0].location, ActionParam::Wildcard);
    assert_eq!(actions[0].value, ActionParam::Char('C'));
    assert_eq!(actions[1].location, ActionParam::Index(1));
    assert_eq!(actions[1].value, ActionParam::Wildcard);
}

#[test]
fn parse_probability_literal() {
    let actions = Rule::parse_action("AB[0.25]");
    assert_eq!(actions.len(), 1);
    assert_eq!(actions[0].location, ActionParam::Char('A'));
    assert_eq!(actions[0].value, ActionParam::Char('B'));
    assert_eq!(actions[0].chance, Some(vec!['2', '5']));
}

#[test]
fn parse_probability_without_leading_zero() {
    let actions = Rule::parse_action("AB[.7]");
    assert_eq!(actions.len(), 1);
    assert_eq!(actions[0].chance, Some(vec!['7']));
}

#[test]
fn parse_skips_malformed_residue() {
    let actions = Rule::parse_action("x!5B  ??CD[nope]9*");
    assert_eq!(actions.len(), 3);
    assert_eq!(actions[0].location, ActionParam::Index(5));
    assert_eq!(actions[0].value, ActionParam::Char('B'));
    assert_eq!(actions[1].location, ActionParam::Char('C'));
    assert_eq!(actions[1].value, ActionParam::Char('D'));
    assert_eq!(actions[1].chance, None);
    assert_eq!(actions[2].location, ActionParam::Index(9));
    assert_eq!(actions[2].value, ActionParam::Wildcard);
}

#[test]
fn parse_broken_probability_keeps_token() {
    // the bracket part fails to close on a digit run, so only the two
    // specifier characters count
    let actions = Rule::parse_action("AB[0.5x]");
    assert_eq!(actions.len(), 1);
    assert_eq!(actions[0].chance, None);
}

#[test]
fn parse_zero_is_not_positional() {
    // 0 is outside the 1-9 positional range, so "0B" is residue
    let actions = Rule::parse_action("0B");
    assert_eq!(actions.len(), 0);
}

// Round trip: parsing a serialized action list yields the same
// location/value/probability triples back.
#[test]
fn action_round_trip() {
    let source = "5B*C[0.25]AZ[0.903]1*";
    let actions = Rule::parse_action(source);
    let rebuilt = serialize_actions(&actions);
    let reparsed = Rule::parse_action(&rebuilt);
    assert_eq!(actions, reparsed);
    assert_eq!(rebuilt, "5B*C[0.25]AZ[0.903]1*");
}

#[test]
fn rule_new_keeps_sources() {
    let rule = Rule::new("....A....", "5B").unwrap();
    assert_eq!(rule.original_condition(), "....A....");
    assert_eq!(rule.original_action(), "5B");
    assert_eq!(rule.action().len(), 1);
}

#[test]
fn rule_new_rejects_bad_condition() {
    let result = Rule::new("(", "5B");
    assert_eq!(result.unwrap_err(), RuleError::InvalidCondition);
}

#[test]
fn set_condition_rejects_and_keeps_rule() {
    let mut rule = Rule::new("A", "5B").unwrap();
    let r = rule.set_condition("[");
    assert_eq!(r.unwrap_err(), RuleError::InvalidCondition);
    assert_eq!(rule.original_condition(), "A");
    let ok = rule.set_condition("B+");
    assert!(ok.is_ok());
    assert_eq!(rule.original_condition(), "B+");
}

#[test]
fn set_action_reparses() {
    let mut rule = Rule::new("A", "5B").unwrap();
    rule.set_action("*Z[0.5]");
    assert_eq!(rule.original_action(), "*Z[0.5]");
    assert_eq!(rule.action().len(), 1);
    assert_eq!(rule.action()[0].value, ActionParam::Char('Z'));
    assert_eq!(rule.action()[0].chance, Some(vec!['5']));
}

#[test]
fn condition_matches_window_text() {
    let rule = Rule::new("....A....", "5B").unwrap();
    let window: Vec<char> = "####A####".chars().collect();
    assert!(rule.condition_matches(&window));
    let miss: Vec<char> = "####B####".chars().collect();
    assert!(!rule.condition_matches(&miss));
}

#[test]
fn condition_matches_agrees_with_regex_crate() {
    let pattern = "(?:[AB].*){2}";
    let rule = Rule::new(pattern, "").unwrap();
    let re = regex::Regex::new(pattern).unwrap();
    for text in ["AA#######", "#A#######", "ABABABABA", "#########"] {
        let window: Vec<char> = text.chars().collect();
        assert_eq!(rule.condition_matches(&window), re.is_match(text));
    }
}

#[test]
fn wrapped_action_equality_uses_all_fields() {
    let a = Action {
        chance: None,
        location: ActionParam::Index(1),
        value: ActionParam::Char('B'),
    };
    let b = Action {
        chance: Some(vec!['5']),
        location: ActionParam::Index(1),
        value: ActionParam::Char('B'),
    };
    assert_ne!(a, b);
}
