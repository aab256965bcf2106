//! One test per error kind, each on an input that triggers it.

use varion::parse;
use varion::ParseErrorKind;

#[test]
fn test_missing_node_name() {
    let err = parse("::   ").unwrap_err();
    assert_eq!(err.kind, ParseErrorKind::MissingNodeName);
    assert_eq!(err.line, Some(1));
}

#[test]
fn test_condition_outside_node() {
    let err = parse("@if ready").unwrap_err();
    assert_eq!(err.kind, ParseErrorKind::ConditionOutsideNode);
    assert_eq!(err.line, Some(1));
}

#[test]
fn test_consecutive_conditions() {
    let err = parse("::a\n@if x\n@if y").unwrap_err();
    assert_eq!(err.kind, ParseErrorKind::ConsecutiveConditions);
    assert_eq!(err.line, Some(3));
}

#[test]
fn test_condition_followed_by_meta_line() {
    let err = parse("::a\n@if x\n@who: NPC").unwrap_err();
    assert_eq!(err.kind, ParseErrorKind::ConditionFollowedByNonChoice);
    assert_eq!(err.line, Some(3));
}

#[test]
fn test_condition_followed_by_body_line() {
    let err = parse("::a\n@if x\nplain text").unwrap_err();
    assert_eq!(err.kind, ParseErrorKind::ConditionFollowedByNonChoice);
    assert_eq!(err.line, Some(3));
}

#[test]
fn test_invalid_meta_or_action_line() {
    let err = parse("::a\n@nocolonhere").unwrap_err();
    assert_eq!(err.kind, ParseErrorKind::InvalidMetaOrActionLine);
    assert_eq!(err.line, Some(2));
}

#[test]
fn test_invalid_choice_format_no_arrow() {
    let err = parse("::a\n* no arrow here").unwrap_err();
    assert_eq!(err.kind, ParseErrorKind::InvalidChoiceFormat);
    assert_eq!(err.line, Some(2));
}

#[test]
fn test_invalid_choice_format_two_arrows() {
    let err = parse("::a\n* label => b => c").unwrap_err();
    assert_eq!(err.kind, ParseErrorKind::InvalidChoiceFormat);
    assert_eq!(err.line, Some(2));
}

#[test]
fn test_dual_condition_conflict() {
    let err = parse("::a\n@if first\n* label => b @if second").unwrap_err();
    assert_eq!(err.kind, ParseErrorKind::DualConditionConflict);
    assert_eq!(err.line, Some(3));
}

#[test]
fn test_dangling_condition_at_eof_has_no_line() {
    let err = parse("::a\n@if never_used").unwrap_err();
    assert_eq!(err.kind, ParseErrorKind::DanglingConditionAtEof);
    assert_eq!(err.line, None);
}

#[test]
fn test_messages_name_the_failure() {
    let err = parse("@if ready").unwrap_err();
    assert_eq!(err.message(), "@if condition found outside of a node.");
    let eof_err = parse("::a\n@if never_used").unwrap_err();
    assert_eq!(eof_err.message(), "Dangling @if condition at end of file.");
}

#[test]
fn test_inline_condition_alone_is_accepted() {
    let dialogue = parse("::a\n* label => b @if ok").unwrap();
    let node = dialogue.get("a").unwrap();
    assert_eq!(node.choices[0].target_node, "b");
    assert_eq!(node.choices[0].condition, Some("ok".to_string()));
}
