//! Whole-script scenarios checked field by field, without any trimming on
//! the caller's side.

use varion::parse;

#[test]
fn test_scenario_single_node_exact() {
    let script = "::start\n@who: NPC\nHello, world!\n* Go next => next_node";
    let dialogue = parse(script).unwrap();
    assert_eq!(dialogue.nodes.len(), 1);
    let node = dialogue.get("start").unwrap();
    assert_eq!(node.name, "start");
    assert_eq!(node.meta.len(), 1);
    assert_eq!(node.get_meta("who").unwrap().as_str(), "NPC");
    assert_eq!(node.body, "Hello, world!");
    assert_eq!(node.actions.len(), 0);
    assert_eq!(node.choices.len(), 1);
    assert_eq!(node.choices[0].text, "Go next");
    assert_eq!(node.choices[0].target_node, "next_node");
    assert_eq!(node.choices[0].condition, None);
}

#[test]
fn test_scenario_inline_condition_on_second_choice() {
    let script = "::ask_help\n@who: NPC\nReally? I would be grateful for your help!\n\
                  * Yes => help_accepted\n* Sorry => help_declined @if reputation < 3";
    let dialogue = parse(script).unwrap();
    let node = dialogue.get("ask_help").unwrap();
    assert_eq!(node.choices.len(), 2);
    assert_eq!(node.choices[0].condition, None);
    assert_eq!(node.choices[1].text, "Sorry");
    assert_eq!(node.choices[1].target_node, "help_declined");
    assert_eq!(node.choices[1].condition, Some("reputation < 3".to_string()));
}
