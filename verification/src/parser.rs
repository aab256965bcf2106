//! The script parser: a single-pass state machine over the lines of a
//! script.
//!
//! The machine is stated twice: once as spec functions ([`step_line`],
//! [`run_lines`], [`parse_outcome`]) over sequences of characters, and once
//! as the executable [`parse`], whose contract says that it returns exactly
//! what [`parse_outcome`] describes — the dialogue on success, and the first
//! error with its 1-based line number otherwise.

use vstd::prelude::*;

use crate::model::ChoiceV;
use crate::model::Dialogue;
use crate::model::Node;
use crate::model::NodeV;
use crate::model::lemma_meta_put_unique;
use crate::model::lemma_store_node_wf;
use crate::model::meta_put;
use crate::model::node_names_unique;
use crate::model::store_node;
use crate::model::Choice;
use crate::text::find_from;
use crate::text::find_sub;
use crate::text::lemma_find_from;
use crate::text::lines_of;
use crate::text::match_at;
use crate::text::match_here;
use crate::text::nl_pat;
use crate::text::split_lines;
use crate::text::trim_str;
use crate::text::trimmed;

verus! {

/// The ways a script can be malformed.  Every parse failure is one of
/// these; all are fatal to the parse.
#[derive(Debug, Clone, Copy, PartialEq, Eq, Structural)]
pub enum ParseErrorKind {
    /// A pending condition stood unconsumed when a new node was declared.
    DanglingConditionBeforeNode,
    /// A pending condition stood unconsumed at the end of the script.
    DanglingConditionAtEof,
    /// A node declaration `::` with no name after it.
    MissingNodeName,
    /// A condition line before any node was declared.
    ConditionOutsideNode,
    /// Two condition lines in a row.
    ConsecutiveConditions,
    /// A condition line followed by a meta, action, or body line instead of
    /// a choice.
    ConditionFollowedByNonChoice,
    /// An `@` line that is neither an action nor a `key: value` pair.
    InvalidMetaOrActionLine,
    /// A choice line without exactly one arrow.
    InvalidChoiceFormat,
    /// A choice carrying both a preceding and an inline condition.
    DualConditionConflict,
    /// A content-bearing line before any node was declared.
    ContentOutsideNode,
}

/// A parse failure: its kind, and the 1-based line number of the offending
/// line.  The number is absent only for [`ParseErrorKind::DanglingConditionAtEof`],
/// which is detected past the last line.
#[derive(Debug, Clone, PartialEq, Eq)]
pub struct ParseError {
    pub kind: ParseErrorKind,
    pub line: Option<usize>,
}

/// The message text for each error kind.
pub open spec fn kind_message(k: ParseErrorKind) -> Seq<char> {
    match k {
        ParseErrorKind::DanglingConditionBeforeNode => "Dangling @if condition before new node."@,
        ParseErrorKind::DanglingConditionAtEof => "Dangling @if condition at end of file."@,
        ParseErrorKind::MissingNodeName => "Node declaration '::' must be followed by a name."@,
        ParseErrorKind::ConditionOutsideNode => "@if condition found outside of a node."@,
        ParseErrorKind::ConsecutiveConditions => "Consecutive @if conditions are not allowed."@,
        ParseErrorKind::ConditionFollowedByNonChoice => "@if must be immediately followed by a choice."@,
        ParseErrorKind::InvalidMetaOrActionLine => "Invalid meta or action line."@,
        ParseErrorKind::InvalidChoiceFormat => "Invalid choice format."@,
        ParseErrorKind::DualConditionConflict => "A choice cannot have both a preceding @if and an inline @if."@,
        ParseErrorKind::ContentOutsideNode => "Content found outside of a node declaration. Every line must belong to a node starting with '::'."@,
    }
}

impl ParseError {
    /// A human-readable description of the error.
    pub fn message(&self) -> (m: &'static str)
        ensures
            m@ == kind_message(self.kind),
    {
        match self.kind {
            ParseErrorKind::DanglingConditionBeforeNode => "Dangling @if condition before new node.",
            ParseErrorKind::DanglingConditionAtEof => "Dangling @if condition at end of file.",
            ParseErrorKind::MissingNodeName => "Node declaration '::' must be followed by a name.",
            ParseErrorKind::ConditionOutsideNode => "@if condition found outside of a node.",
            ParseErrorKind::ConsecutiveConditions => "Consecutive @if conditions are not allowed.",
            ParseErrorKind::ConditionFollowedByNonChoice => "@if must be immediately followed by a choice.",
            ParseErrorKind::InvalidMetaOrActionLine => "Invalid meta or action line.",
            ParseErrorKind::InvalidChoiceFormat => "Invalid choice format.",
            ParseErrorKind::DualConditionConflict => "A choice cannot have both a preceding @if and an inline @if.",
            ParseErrorKind::ContentOutsideNode => "Content found outside of a node declaration. Every line must belong to a node starting with '::'.",
        }
    }
}

/// The parser's state between lines: the nodes finalized so far, the node
/// under construction, and the condition awaiting its choice line.
pub ghost struct StateV {
    pub nodes: Seq<NodeV>,
    pub cur: Option<NodeV>,
    pub pending: Option<Seq<char>>,
}

/// What one line does to the state: carries it forward, or fails.
pub ghost enum StepV {
    Next(StateV),
    Fail(ParseErrorKind),
}

/// What a whole script parses to: the finalized nodes, or the first error
/// with its 1-based line number (absent for the end-of-input dangling
/// condition).
pub ghost enum OutcomeV {
    Parsed(Seq<NodeV>),
    Failed(ParseErrorKind, Option<int>),
}

/// A trimmed line that declares a node: it starts with `::`.
pub open spec fn is_decl(t: Seq<char>) -> bool {
    t.len() >= 2 && t[0] == ':' && t[1] == ':'
}

/// A trimmed line that sets a pending condition: it starts with `@if`.
pub open spec fn is_cond(t: Seq<char>) -> bool {
    t.len() >= 3 && t[0] == '@' && t[1] == 'i' && t[2] == 'f'
}

/// The colon that separates a metadata key from its value.
pub open spec fn colon_pat() -> Seq<char> {
    seq![':']
}

/// The arrow that separates a choice's label from its target.
pub open spec fn arrow_pat() -> Seq<char> {
    seq!['=', '>']
}

/// The inline condition marker inside a choice's target part.
pub open spec fn if_pat() -> Seq<char> {
    seq!['@', 'i', 'f']
}

/// The seven-character marker `action:` that distinguishes an action line
/// from a metadata line.
pub open spec fn action_pat() -> Seq<char> {
    seq!['a', 'c', 't', 'i', 'o', 'n', ':']
}

/// Whether the remainder of an `@` line begins with the action marker.
pub open spec fn has_action_prefix(m: Seq<char>) -> bool {
    match_at(m, action_pat(), 0)
}

/// Classifies one line and applies it to the state.  The branches stand in
/// the grammar's precedence order: blank, node declaration, condition,
/// content outside any node, meta/action, choice, body text.
pub open spec fn step_line(st: StateV, raw: Seq<char>) -> StepV {
    let t = trimmed(raw);
    if t.len() == 0 {
        StepV::Next(st)
    } else if is_decl(t) {
        let stored = match st.cur {
            Some(n) => store_node(st.nodes, n),
            None => st.nodes,
        };
        if st.pending is Some {
            StepV::Fail(ParseErrorKind::DanglingConditionBeforeNode)
        } else {
            let name = trimmed(t.subrange(2, t.len() as int));
            if name.len() == 0 {
                StepV::Fail(ParseErrorKind::MissingNodeName)
            } else {
                StepV::Next(
                    StateV {
                        nodes: stored,
                        cur: Some(
                            NodeV {
                                name,
                                meta: Seq::empty(),
                                actions: Seq::empty(),
                                body: Seq::empty(),
                                choices: Seq::empty(),
                            },
                        ),
                        pending: None,
                    },
                )
            }
        }
    } else if is_cond(t) {
        if st.cur is None {
            StepV::Fail(ParseErrorKind::ConditionOutsideNode)
        } else if st.pending is Some {
            StepV::Fail(ParseErrorKind::ConsecutiveConditions)
        } else {
            StepV::Next(StateV { pending: Some(trimmed(t.subrange(3, t.len() as int))), ..st })
        }
    } else if st.cur is None {
        StepV::Fail(ParseErrorKind::ContentOutsideNode)
    } else {
        let n = st.cur->Some_0;
        if t[0] == '@' {
            if st.pending is Some {
                StepV::Fail(ParseErrorKind::ConditionFollowedByNonChoice)
            } else {
                let m = t.subrange(1, t.len() as int);
                if has_action_prefix(m) {
                    let cmd = trimmed(m.subrange(7, m.len() as int));
                    StepV::Next(StateV { cur: Some(NodeV { actions: n.actions.push(cmd), ..n }), ..st })
                } else {
                    match find_from(m, colon_pat(), 0) {
                        Some(ci) => {
                            let key = trimmed(m.subrange(0, ci));
                            let value = trimmed(m.subrange(ci + 1, m.len() as int));
                            StepV::Next(
                                StateV { cur: Some(NodeV { meta: meta_put(n.meta, key, value), ..n }), ..st },
                            )
                        },
                        None => StepV::Fail(ParseErrorKind::InvalidMetaOrActionLine),
                    }
                }
            }
        } else if t[0] == '*' {
            let c = t.subrange(1, t.len() as int);
            match find_from(c, arrow_pat(), 0) {
                None => StepV::Fail(ParseErrorKind::InvalidChoiceFormat),
                Some(ai) => if find_from(c, arrow_pat(), ai + 2) is Some {
                    StepV::Fail(ParseErrorKind::InvalidChoiceFormat)
                } else {
                    let text = trimmed(c.subrange(0, ai));
                    let rest = trimmed(c.subrange(ai + 2, c.len() as int));
                    match find_from(rest, if_pat(), 0) {
                        Some(fi) => if st.pending is Some {
                            StepV::Fail(ParseErrorKind::DualConditionConflict)
                        } else {
                            let target = trimmed(rest.subrange(0, fi));
                            let cond = trimmed(rest.subrange(fi + 3, rest.len() as int));
                            StepV::Next(
                                StateV {
                                    cur: Some(
                                        NodeV {
                                            choices: n.choices.push(
                                                ChoiceV { text, target, condition: Some(cond) },
                                            ),
                                            ..n
                                        },
                                    ),
                                    ..st
                                },
                            )
                        },
                        None => StepV::Next(
                            StateV {
                                nodes: st.nodes,
                                cur: Some(
                                    NodeV {
                                        choices: n.choices.push(
                                            ChoiceV { text, target: rest, condition: st.pending },
                                        ),
                                        ..n
                                    },
                                ),
                                pending: None,
                            },
                        ),
                    }
                },
            }
        } else {
            if st.pending is Some {
                StepV::Fail(ParseErrorKind::ConditionFollowedByNonChoice)
            } else {
                let body1 = if n.body.len() == 0 {
                    raw
                } else {
                    n.body + nl_pat() + raw
                };
                StepV::Next(StateV { cur: Some(NodeV { body: body1, ..n }), ..st })
            }
        }
    }
}

/// End of input: a still-open node is finalized, unless a pending condition
/// was never consumed.
pub open spec fn finish(st: StateV) -> OutcomeV {
    match st.cur {
        Some(n) => if st.pending is Some {
            OutcomeV::Failed(ParseErrorKind::DanglingConditionAtEof, None)
        } else {
            OutcomeV::Parsed(store_node(st.nodes, n))
        },
        None => OutcomeV::Parsed(st.nodes),
    }
}

/// Runs the machine over the lines from position `i` onward.
pub open spec fn run_lines(lines: Seq<Seq<char>>, i: int, st: StateV) -> OutcomeV
    decreases lines.len() - i,
{
    if i < 0 || i >= lines.len() {
        finish(st)
    } else {
        match step_line(st, lines[i]) {
            StepV::Fail(k) => OutcomeV::Failed(k, Some(i + 1)),
            StepV::Next(st2) => run_lines(lines, i + 1, st2),
        }
    }
}

/// The state before any line: nothing finalized, no node open, no pending
/// condition.
pub open spec fn init_state() -> StateV {
    StateV { nodes: Seq::empty(), cur: None, pending: None }
}

/// What the whole script parses to.
pub open spec fn parse_outcome(s: Seq<char>) -> OutcomeV {
    run_lines(lines_of(s), 0, init_state())
}

impl StateV {
    /// The state's invariant: finalized nodes have unique names and unique
    /// meta keys, the open node has unique meta keys, and a pending
    /// condition implies an open node.
    pub open spec fn inv(self) -> bool {
        &&& node_names_unique(self.nodes)
        &&& forall|i: int| 0 <= i < self.nodes.len() ==> (#[trigger] self.nodes[i]).wf()
        &&& match self.cur {
            Some(n) => n.wf(),
            None => true,
        }
        &&& self.pending is Some ==> self.cur is Some
    }
}

/// One line keeps the state invariant.
pub proof fn lemma_step_inv(st: StateV, raw: Seq<char>)
    requires
        st.inv(),
    ensures
        step_line(st, raw) matches StepV::Next(st2) ==> st2.inv(),
{
    let t = trimmed(raw);
    if t.len() == 0 {
    } else if is_decl(t) {
        match st.cur {
            Some(n) => {
                lemma_store_node_wf(st.nodes, n);
            },
            None => {},
        }
    } else if is_cond(t) {
    } else if st.cur is None {
    } else {
        let n = st.cur->Some_0;
        if t[0] == '@' && st.pending is None && !has_action_prefix(t.subrange(1, t.len() as int)) {
            let m = t.subrange(1, t.len() as int);
            match find_from(m, colon_pat(), 0) {
                Some(ci) => {
                    lemma_meta_put_unique(
                        n.meta,
                        trimmed(m.subrange(0, ci)),
                        trimmed(m.subrange(ci + 1, m.len() as int)),
                    );
                },
                None => {},
            }
        }
    }
}

/// A successful run of the machine from an invariant state yields nodes
/// with unique names, all well formed.
pub proof fn lemma_run_wf(lines: Seq<Seq<char>>, i: int, st: StateV)
    requires
        0 <= i,
        st.inv(),
    ensures
        run_lines(lines, i, st) matches OutcomeV::Parsed(ns) ==> node_names_unique(ns) && (forall|
            j: int,
        | 0 <= j < ns.len() ==> (#[trigger] ns[j]).wf()),
    decreases lines.len() - i,
{
    if i >= lines.len() {
        match st.cur {
            Some(n) => {
                if st.pending is None {
                    lemma_store_node_wf(st.nodes, n);
                }
            },
            None => {},
        }
    } else {
        match step_line(st, lines[i]) {
            StepV::Next(st2) => {
                lemma_step_inv(st, lines[i]);
                lemma_run_wf(lines, i + 1, st2);
            },
            StepV::Fail(_) => {},
        }
    }
}

/// Whether the trimmed line declares a node.
fn decl_here(t: &str) -> (b: bool)
    ensures
        b == is_decl(t@),
{
    let n: usize = t.unicode_len();
    n >= 2 && t.get_char(0) == ':' && t.get_char(1) == ':'
}

/// Whether the trimmed line sets a pending condition.
fn cond_here(t: &str) -> (b: bool)
    ensures
        b == is_cond(t@),
{
    let n: usize = t.unicode_len();
    n >= 3 && t.get_char(0) == '@' && t.get_char(1) == 'i' && t.get_char(2) == 'f'
}

/// Whether the remainder of an `@` line begins with `action:`.
fn action_here(m: &str) -> (b: bool)
    ensures
        b == has_action_prefix(m@),
{
    let n: usize = m.unicode_len();
    if n < 7 {
        return false;
    }
    proof {
        reveal_strlit("action:");
        assert("action:"@ =~= action_pat());
    }
    match_here(m, "action:", 0)
}

/// The first arrow `=>` at or after `from`.
fn find_arrow(s: &str, from: usize) -> (r: Option<usize>)
    requires
        from <= s@.len(),
    ensures
        match r {
            Some(j) => find_from(s@, arrow_pat(), from as int) == Some(j as int),
            None => find_from(s@, arrow_pat(), from as int) is None,
        },
{
    proof {
        reveal_strlit("=>");
        assert("=>"@ =~= arrow_pat());
    }
    find_sub(s, "=>", from)
}

/// The first inline condition marker `@if` at or after `from`.
fn find_if_marker(s: &str, from: usize) -> (r: Option<usize>)
    requires
        from <= s@.len(),
    ensures
        match r {
            Some(j) => find_from(s@, if_pat(), from as int) == Some(j as int),
            None => find_from(s@, if_pat(), from as int) is None,
        },
{
    proof {
        reveal_strlit("@if");
        assert("@if"@ =~= if_pat());
    }
    find_sub(s, "@if", from)
}

/// The first colon at or after `from`.
fn find_colon(s: &str, from: usize) -> (r: Option<usize>)
    requires
        from <= s@.len(),
    ensures
        match r {
            Some(j) => find_from(s@, colon_pat(), from as int) == Some(j as int),
            None => find_from(s@, colon_pat(), from as int) is None,
        },
{
    proof {
        reveal_strlit(":");
        assert(":"@ =~= colon_pat());
    }
    find_sub(s, ":", from)
}

/// The parser's state as the spec machine sees it.
spec fn st_view(d: Dialogue, cur: Option<Node>, pending: Option<String>) -> StateV {
    StateV { nodes: d@, cur: cur.deep_view(), pending: pending.deep_view() }
}

/// Parses a script into a [`Dialogue`].
///
/// The result is exactly what [`parse_outcome`] describes: on success the
/// finalized nodes in order of first declaration, a later same-named
/// declaration fully replacing the earlier node; on failure the first
/// error, with the 1-based number of the offending line (absent only for a
/// dangling condition at end of input).
pub fn parse(script: &str) -> (r: Result<Dialogue, ParseError>)
    ensures
        match parse_outcome(script@) {
            OutcomeV::Parsed(ns) => r matches Ok(d) && d@ == ns && d.wf(),
            OutcomeV::Failed(k, lno) => r matches Err(e) && e.kind == k && (match lno {
                Some(l) => e.line matches Some(el) && el as int == l,
                None => e.line is None,
            }),
        },
{
    let lines: Vec<String> = split_lines(script);
    let ghost linesv: Seq<Seq<char>> = lines.deep_view();
    let mut dialogue: Dialogue = Dialogue::new();
    let mut cur: Option<Node> = None;
    let mut pending: Option<String> = None;
    let nlines: usize = lines.len();
    let mut idx: usize = 0;
    proof {
        assert(st_view(dialogue, cur, pending) == init_state());
    }
    while idx < nlines
        invariant
            nlines == lines.len(),
            linesv == lines.deep_view(),
            linesv == lines_of(script@),
            idx <= nlines,
            st_view(dialogue, cur, pending).inv(),
            run_lines(linesv, idx as int, st_view(dialogue, cur, pending)) == parse_outcome(
                script@,
            ),
        decreases nlines - idx,
    {
        let ghost st0 = st_view(dialogue, cur, pending);
        let ghost raw = linesv[idx as int];
        proof {
            lemma_step_inv(st0, raw);
        }
        let line: &String = &lines[idx];
        proof {
            assert(line@ == raw);
        }
        let t: &str = trim_str(line.as_str());
        let tlen: usize = t.unicode_len();
        if tlen == 0 {
        } else if decl_here(t) {
            let taken: Option<Node> = cur.take();
            match taken {
                Some(n) => {
                    dialogue.insert_node(n);
                },
                None => {},
            }
            if pending.is_some() {
                return Err(
                    ParseError {
                        kind: ParseErrorKind::DanglingConditionBeforeNode,
                        line: Some(idx + 1),
                    },
                );
            }
            let name_part: &str = trim_str(t.substring_char(2, tlen));
            if name_part.unicode_len() == 0 {
                return Err(
                    ParseError { kind: ParseErrorKind::MissingNodeName, line: Some(idx + 1) },
                );
            }
            cur = Some(Node::empty(String::from_str(name_part)));
            pending = None;
        } else if cond_here(t) {
            if cur.is_none() {
                return Err(
                    ParseError { kind: ParseErrorKind::ConditionOutsideNode, line: Some(idx + 1) },
                );
            }
            if pending.is_some() {
                return Err(
                    ParseError { kind: ParseErrorKind::ConsecutiveConditions, line: Some(idx + 1) },
                );
            }
            pending = Some(String::from_str(trim_str(t.substring_char(3, tlen))));
        } else {
            match &mut cur {
                None => {
                    return Err(
                        ParseError { kind: ParseErrorKind::ContentOutsideNode, line: Some(idx + 1) },
                    );
                },
                Some(node) => {
                    if t.get_char(0) == '@' {
                        if pending.is_some() {
                            return Err(
                                ParseError {
                                    kind: ParseErrorKind::ConditionFollowedByNonChoice,
                                    line: Some(idx + 1),
                                },
                            );
                        }
                        let m: &str = t.substring_char(1, tlen);
                        let mlen: usize = m.unicode_len();
                        if action_here(m) {
                            node.push_action(String::from_str(trim_str(m.substring_char(7, mlen))));
                        } else {
                            match find_colon(m, 0) {
                                Some(ci) => {
                                    proof {
                                        lemma_find_from(m@, colon_pat(), 0);
                                    }
                                    let key = String::from_str(trim_str(m.substring_char(0, ci)));
                                    let value = String::from_str(
                                        trim_str(m.substring_char(ci + 1, mlen)),
                                    );
                                    node.set_meta(key, value);
                                },
                                None => {
                                    return Err(
                                        ParseError {
                                            kind: ParseErrorKind::InvalidMetaOrActionLine,
                                            line: Some(idx + 1),
                                        },
                                    );
                                },
                            }
                        }
                    } else if t.get_char(0) == '*' {
                        let c: &str = t.substring_char(1, tlen);
                        let clen: usize = c.unicode_len();
                        match find_arrow(c, 0) {
                            None => {
                                return Err(
                                    ParseError {
                                        kind: ParseErrorKind::InvalidChoiceFormat,
                                        line: Some(idx + 1),
                                    },
                                );
                            },
                            Some(ai) => {
                                proof {
                                    lemma_find_from(c@, arrow_pat(), 0);
                                }
                                let second = find_arrow(c, ai + 2);
                                if second.is_some() {
                                    return Err(
                                        ParseError {
                                            kind: ParseErrorKind::InvalidChoiceFormat,
                                            line: Some(idx + 1),
                                        },
                                    );
                                }
                                let text_s = String::from_str(trim_str(c.substring_char(0, ai)));
                                let rest: &str = trim_str(c.substring_char(ai + 2, clen));
                                let rlen: usize = rest.unicode_len();
                                match find_if_marker(rest, 0) {
                                    Some(fi) => {
                                        if pending.is_some() {
                                            return Err(
                                                ParseError {
                                                    kind: ParseErrorKind::DualConditionConflict,
                                                    line: Some(idx + 1),
                                                },
                                            );
                                        }
                                        proof {
                                            lemma_find_from(rest@, if_pat(), 0);
                                        }
                                        let target = String::from_str(
                                            trim_str(rest.substring_char(0, fi)),
                                        );
                                        let cnd = String::from_str(
                                            trim_str(rest.substring_char(fi + 3, rlen)),
                                        );
                                        node.push_choice(
                                            Choice {
                                                text: text_s,
                                                target_node: target,
                                                condition: Some(cnd),
                                            },
                                        );
                                    },
                                    None => {
                                        let cond_taken: Option<String> = pending.take();
                                        node.push_choice(
                                            Choice {
                                                text: text_s,
                                                target_node: String::from_str(rest),
                                                condition: cond_taken,
                                            },
                                        );
                                    },
                                }
                            },
                        }
                    } else {
                        if pending.is_some() {
                            return Err(
                                ParseError {
                                    kind: ParseErrorKind::ConditionFollowedByNonChoice,
                                    line: Some(idx + 1),
                                },
                            );
                        }
                        let ghost body0 = node@.body;
                        if !node.body.as_str().is_empty() {
                            proof {
                                reveal_strlit("\n");
                                assert("\n"@ =~= nl_pat());
                            }
                            node.body.append("\n");
                        }
                        node.body.append(line.as_str());
                        proof {
                            if body0.len() == 0 {
                                assert(node@.body =~= raw);
                            } else {
                                assert(node@.body =~= body0 + nl_pat() + raw);
                            }
                        }
                    }
                },
            }
        }
        proof {
            assert(step_line(st0, raw) == StepV::Next(st_view(dialogue, cur, pending)));
            assert(run_lines(linesv, idx as int, st0) == run_lines(
                linesv,
                idx + 1,
                st_view(dialogue, cur, pending),
            ));
        }
        idx = idx + 1;
    }
    proof {
        lemma_run_wf(linesv, idx as int, st_view(dialogue, cur, pending));
        assert(run_lines(linesv, idx as int, st_view(dialogue, cur, pending)) == finish(
            st_view(dialogue, cur, pending),
        ));
    }
    let taken: Option<Node> = cur.take();
    match taken {
        Some(n) => {
            if pending.is_some() {
                return Err(ParseError { kind: ParseErrorKind::DanglingConditionAtEof, line: None });
            }
            dialogue.insert_node(n);
        },
        None => {},
    }
    Ok(dialogue)
}

} // verus!
