//! Tests of the parser against whole scripts.

use varion::parse;
use varion::Dialogue;
use varion::ParseErrorKind;

#[test]
fn test_parse_simple_node() {
    let script = r#"
::start
@who: NPC
Hello, world!
* Go next => next_node
        "#;
    let dialogue = parse(script).unwrap();
    assert_eq!(dialogue.nodes.len(), 1);
    let node = dialogue.get("start").unwrap();
    assert_eq!(node.name, "start");
    assert_eq!(node.get_meta("who").unwrap().as_str(), "NPC");
    assert_eq!(node.body.trim(), "Hello, world!");
    assert_eq!(node.choices.len(), 1);
    assert_eq!(node.choices[0].text, "Go next");
    assert_eq!(node.choices[0].target_node, "next_node");
    assert_eq!(node.choices[0].condition, None);
}

#[test]
fn test_parse_full_example() {
    let script = r#"
::start
@background: images/bg.png
@who: NPC
@action: set help_requested = 0

Welcome! What can I do for you?

* I need help! => ask_help
* Just looking. => end_neutral

::ask_help
@who: NPC
@action: set help_requested = 1

Really? I would be grateful for your help!

* Yes, I'll help. => help_accepted
* Sorry, I'm busy. => help_declined @if reputation < 3
        "#;

    let dialogue = parse(script).unwrap();
    assert_eq!(dialogue.nodes.len(), 2);

    let start_node = dialogue.get("start").unwrap();
    assert_eq!(start_node.name, "start");
    assert_eq!(start_node.get_meta("who").unwrap().as_str(), "NPC");
    assert_eq!(start_node.actions.len(), 1);
    assert_eq!(start_node.actions[0].command, "set help_requested = 0");
    assert_eq!(start_node.body.trim(), "Welcome! What can I do for you?");
    assert_eq!(start_node.choices.len(), 2);
    assert_eq!(start_node.choices[0].target_node, "ask_help");

    let ask_help_node = dialogue.get("ask_help").unwrap();
    assert_eq!(ask_help_node.name, "ask_help");
    assert_eq!(ask_help_node.choices.len(), 2);
    let conditional_choice = &ask_help_node.choices[1];
    assert_eq!(conditional_choice.text, "Sorry, I'm busy.");
    assert_eq!(conditional_choice.target_node, "help_declined");
    assert_eq!(
        conditional_choice.condition,
        Some("reputation < 3".to_string())
    );
}

#[test]
fn test_parse_multiline_body() {
    let script = r#"
::multiline
This is the first line.
    This is the second line, with indentation.
* A choice => somewhere
        "#;
    let dialogue = parse(script).unwrap();
    let node = dialogue.get("multiline").unwrap();
    assert_eq!(
        node.body,
        "This is the first line.\n    This is the second line, with indentation."
    );
}

#[test]
fn test_no_node_error() {
    let script = "Just some text without a node.";
    assert!(parse(script).is_err());
}

#[test]
fn test_empty_script_is_empty_dialogue() {
    let dialogue = parse("").unwrap();
    assert_eq!(dialogue.nodes.len(), 0);
}

#[test]
fn test_blank_only_script_is_empty_dialogue() {
    let dialogue = parse("\n   \n\t\n").unwrap();
    assert_eq!(dialogue.nodes.len(), 0);
}

#[test]
fn test_new_dialogue_is_empty() {
    let dialogue = Dialogue::new();
    assert_eq!(dialogue.nodes.len(), 0);
    assert!(!dialogue.contains_key("start"));
    let defaulted = Dialogue::default();
    assert_eq!(defaulted.nodes.len(), 0);
}

#[test]
fn test_crlf_line_endings() {
    let script = "::a\r\nfirst\r\nsecond\r\n";
    let dialogue = parse(script).unwrap();
    let node = dialogue.get("a").unwrap();
    assert_eq!(node.body, "first\nsecond");
}

#[test]
fn test_duplicate_node_replaced_by_last() {
    let script = "::a\nold body\n::b\nother\n::a\nnew body";
    let dialogue = parse(script).unwrap();
    assert_eq!(dialogue.nodes.len(), 2);
    assert_eq!(dialogue.get("a").unwrap().body, "new body");
    assert_eq!(dialogue.get("b").unwrap().body, "other");
}

#[test]
fn test_parse_twice_yields_equal_dialogues() {
    let script = "::a\n@who: NPC\nSome text\n* Go => b\n::b\nEnd.";
    let first = parse(script).unwrap();
    let second = parse(script).unwrap();
    assert_eq!(first, second);
}

#[test]
fn test_blank_lines_collapse_in_body() {
    let script = "::n\nfirst\n\n\nsecond\n\nthird\n";
    let dialogue = parse(script).unwrap();
    assert_eq!(dialogue.get("n").unwrap().body, "first\nsecond\nthird");
}

#[test]
fn test_pending_condition_attached_and_cleared() {
    let script = "::n\n@if has_key\n* Open the door => door_open\n* Leave => hallway";
    let dialogue = parse(script).unwrap();
    let node = dialogue.get("n").unwrap();
    assert_eq!(node.choices.len(), 2);
    assert_eq!(node.choices[0].condition, Some("has_key".to_string()));
    assert_eq!(node.choices[1].condition, None);
}

#[test]
fn test_meta_last_write_wins() {
    let script = "::n\n@who: Alice\n@who: Bob\n@mood: calm";
    let dialogue = parse(script).unwrap();
    let node = dialogue.get("n").unwrap();
    assert_eq!(node.get_meta("who").unwrap().as_str(), "Bob");
    assert_eq!(node.get_meta("mood").unwrap().as_str(), "calm");
    assert!(node.get_meta("missing").is_none());
}

#[test]
fn test_actions_keep_source_order() {
    let script = "::n\n@action: set x = 1\n@action: set y = 2";
    let dialogue = parse(script).unwrap();
    let node = dialogue.get("n").unwrap();
    assert_eq!(node.actions.len(), 2);
    assert_eq!(node.actions[0].command, "set x = 1");
    assert_eq!(node.actions[1].command, "set y = 2");
}

#[test]
fn test_scenario_content_outside_node() {
    let err = parse("Just some text without a node.").unwrap_err();
    assert_eq!(err.kind, ParseErrorKind::ContentOutsideNode);
    assert_eq!(err.line, Some(1));
}

#[test]
fn test_scenario_dangling_condition_before_node() {
    let err = parse("::a\n@if cond\n::b").unwrap_err();
    assert_eq!(err.kind, ParseErrorKind::DanglingConditionBeforeNode);
    assert_eq!(err.line, Some(3));
}

#[test]
fn test_node_name_keeps_inner_spaces() {
    let script = "::  spaced name  \nbody text";
    let dialogue = parse(script).unwrap();
    assert!(dialogue.contains_key("spaced name"));
    assert_eq!(dialogue.get("spaced name").unwrap().body, "body text");
}

#[test]
fn test_meta_key_and_value_are_trimmed() {
    let script = "::n\n@ who :  NPC  ";
    let dialogue = parse(script).unwrap();
    let node = dialogue.get("n").unwrap();
    assert_eq!(node.get_meta("who").unwrap().as_str(), "NPC");
}

#[test]
fn test_meta_value_may_contain_colons() {
    let script = "::n\n@who: a:b";
    let dialogue = parse(script).unwrap();
    assert_eq!(dialogue.get("n").unwrap().get_meta("who").unwrap().as_str(), "a:b");
}

#[test]
fn test_action_with_space_before_colon_is_meta() {
    let script = "::n\n@action : x";
    let dialogue = parse(script).unwrap();
    let node = dialogue.get("n").unwrap();
    assert_eq!(node.actions.len(), 0);
    assert_eq!(node.get_meta("action").unwrap().as_str(), "x");
}

#[test]
fn test_choice_parts_are_trimmed() {
    let script = "::n\n*   Go onward   =>   target_node  ";
    let dialogue = parse(script).unwrap();
    let node = dialogue.get("n").unwrap();
    assert_eq!(node.choices[0].text, "Go onward");
    assert_eq!(node.choices[0].target_node, "target_node");
}

#[test]
fn test_condition_marker_without_space() {
    let script = "::n\n@ifready\n* Go => t";
    let dialogue = parse(script).unwrap();
    let node = dialogue.get("n").unwrap();
    assert_eq!(node.choices[0].condition, Some("ready".to_string()));
}
