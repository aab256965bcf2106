//! General properties of the parser, proved against the spec state machine
//! in [`crate::parser`].

use vstd::prelude::*;

use crate::model::NodeV;
use crate::model::ChoiceV;
use crate::model::names_of;
use crate::model::node_idx;
use crate::model::node_names_unique;
use crate::model::lemma_node_idx;
use crate::model::store_node;
use crate::parser::OutcomeV;
use crate::parser::ParseErrorKind;
use crate::parser::StateV;
use crate::parser::StepV;
use crate::parser::arrow_pat;
use crate::parser::if_pat;
use crate::parser::init_state;
use crate::parser::is_cond;
use crate::parser::is_decl;
use crate::parser::lemma_run_wf;
use crate::parser::lemma_step_inv;
use crate::parser::parse_outcome;
use crate::parser::run_lines;
use crate::parser::step_line;
use crate::model::Dialogue;
use crate::text::find_from;
use crate::text::lines_of;
use crate::text::nl_pat;
use crate::text::trimmed;

verus! {

broadcast use vstd::set::group_set_axioms;

/// The set of names declared by `::` lines at or after position `i`.
pub open spec fn declared_names(lines: Seq<Seq<char>>, i: int) -> Set<Seq<char>>
    decreases lines.len() - i,
{
    if i < 0 || i >= lines.len() {
        Set::empty()
    } else {
        let rest = declared_names(lines, i + 1);
        let t = trimmed(lines[i]);
        if is_decl(t) {
            rest.insert(trimmed(t.subrange(2, t.len() as int)))
        } else {
            rest
        }
    }
}

/// The name of the node under construction, as a set.
pub open spec fn open_node_names(cur: Option<NodeV>) -> Set<Seq<char>> {
    match cur {
        Some(n) => Set::empty().insert(n.name),
        None => Set::empty(),
    }
}

/// Replacing a node by one of the same name leaves the name set unchanged.
proof fn lemma_names_update(ns: Seq<NodeV>, j: int, n: NodeV)
    requires
        0 <= j < ns.len(),
        ns[j].name == n.name,
    ensures
        names_of(ns.update(j, n)) == names_of(ns),
    decreases ns.len(),
{
    if j == ns.len() - 1 {
        assert(ns.update(j, n).drop_last() =~= ns.drop_last());
        assert(names_of(ns.update(j, n)) =~= names_of(ns));
    } else {
        assert(ns.update(j, n).drop_last() =~= ns.drop_last().update(j, n));
        lemma_names_update(ns.drop_last(), j, n);
        assert(ns.update(j, n).last() == ns.last());
        assert(names_of(ns.update(j, n)) =~= names_of(ns));
    }
}

/// Appending a node inserts its name into the name set.
proof fn lemma_names_push(ns: Seq<NodeV>, n: NodeV)
    ensures
        names_of(ns.push(n)) == names_of(ns).insert(n.name),
{
    assert(ns.push(n).drop_last() =~= ns);
    assert(ns.push(n).last() == n);
}

/// A name is in the name set exactly when some node holds it.
proof fn lemma_names_contains(ns: Seq<NodeV>, name: Seq<char>)
    ensures
        names_of(ns).contains(name) <==> exists|i: int| 0 <= i < ns.len() && ns[i].name == name,
    decreases ns.len(),
{
    if ns.len() > 0 {
        lemma_names_contains(ns.drop_last(), name);
        if names_of(ns).contains(name) && ns.last().name != name {
            let i = choose|i: int| 0 <= i < ns.drop_last().len() && ns.drop_last()[i].name == name;
            assert(ns[i].name == name);
        }
        if exists|i: int| 0 <= i < ns.len() && ns[i].name == name {
            let i = choose|i: int| 0 <= i < ns.len() && ns[i].name == name;
            if i < ns.len() - 1 {
                assert(ns.drop_last()[i].name == name);
            }
        }
    }
}

/// Finalizing a node inserts its name into the name set.
proof fn lemma_store_names(ns: Seq<NodeV>, n: NodeV)
    ensures
        names_of(store_node(ns, n)) == names_of(ns).insert(n.name),
{
    lemma_node_idx(ns, n.name, 0);
    match node_idx(ns, n.name, 0) {
        Some(j) => {
            lemma_names_update(ns, j, n);
            lemma_names_contains(ns, n.name);
            assert(names_of(ns).insert(n.name) =~= names_of(ns));
        },
        None => {
            lemma_names_push(ns, n);
        },
    }
}

/// With unique names, the name set is finite and counts the nodes.
proof fn lemma_names_card(ns: Seq<NodeV>)
    requires
        node_names_unique(ns),
    ensures
        names_of(ns).finite(),
        names_of(ns).len() == ns.len(),
    decreases ns.len(),
{
    if ns.len() > 0 {
        assert(node_names_unique(ns.drop_last())) by {
            assert(forall|p: int, q: int|
                0 <= p < q < ns.drop_last().len() ==> ns.drop_last()[p] == ns[p]
                    && ns.drop_last()[q] == ns[q]);
        }
        lemma_names_card(ns.drop_last());
        lemma_names_contains(ns.drop_last(), ns.last().name);
        assert(!names_of(ns.drop_last()).contains(ns.last().name)) by {
            if exists|i: int|
                0 <= i < ns.drop_last().len() && ns.drop_last()[i].name == ns.last().name {
                let i = choose|i: int|
                    0 <= i < ns.drop_last().len() && ns.drop_last()[i].name == ns.last().name;
                assert(ns[i].name == ns[ns.len() - 1].name);
            }
        }
    }
}

/// A successful run finalizes exactly the names already stored, the open
/// node's name, and the names the remaining lines declare.
proof fn lemma_run_names(lines: Seq<Seq<char>>, i: int, st: StateV)
    requires
        0 <= i,
        st.inv(),
    ensures
        run_lines(lines, i, st) matches OutcomeV::Parsed(ns) ==> names_of(ns) == names_of(
            st.nodes,
        ).union(open_node_names(st.cur)).union(declared_names(lines, i)),
    decreases lines.len() - i,
{
    if i >= lines.len() {
        match st.cur {
            Some(n) => {
                if st.pending is None {
                    lemma_store_names(st.nodes, n);
                    assert(names_of(store_node(st.nodes, n)) =~= names_of(st.nodes).union(
                        open_node_names(st.cur),
                    ).union(declared_names(lines, i)));
                }
            },
            None => {
                assert(names_of(st.nodes) =~= names_of(st.nodes).union(
                    open_node_names(st.cur),
                ).union(declared_names(lines, i)));
            },
        }
    } else {
        let raw = lines[i];
        let t = trimmed(raw);
        match step_line(st, raw) {
            StepV::Fail(_) => {},
            StepV::Next(st2) => {
                lemma_step_inv(st, raw);
                lemma_run_names(lines, i + 1, st2);
                match run_lines(lines, i + 1, st2) {
                    OutcomeV::Parsed(ns) => {
                        if t.len() == 0 {
                            assert(names_of(ns) =~= names_of(st.nodes).union(
                                open_node_names(st.cur),
                            ).union(declared_names(lines, i)));
                        } else if is_decl(t) {
                            let name = trimmed(t.subrange(2, t.len() as int));
                            match st.cur {
                                Some(n) => {
                                    lemma_store_names(st.nodes, n);
                                },
                                None => {},
                            }
                            assert(declared_names(lines, i) == declared_names(
                                lines,
                                i + 1,
                            ).insert(name));
                            assert(names_of(ns) =~= names_of(st.nodes).union(
                                open_node_names(st.cur),
                            ).union(declared_names(lines, i)));
                        } else {
                            assert(st2.nodes == st.nodes);
                            assert(open_node_names(st2.cur) == open_node_names(st.cur));
                            assert(declared_names(lines, i) == declared_names(lines, i + 1));
                            assert(names_of(ns) =~= names_of(st.nodes).union(
                                open_node_names(st.cur),
                            ).union(declared_names(lines, i)));
                        }
                    },
                    OutcomeV::Failed(_, _) => {},
                }
            },
        }
    }
}

/// For every script that parses, the finalized nodes are exactly the
/// distinct names among the `::` declarations: duplicate declarations
/// collapse onto one node, and the node count equals the count of
/// distinct declared names.
pub proof fn lemma_node_count(s: Seq<char>)
    ensures
        parse_outcome(s) matches OutcomeV::Parsed(ns) ==> names_of(ns) == declared_names(
            lines_of(s),
            0,
        ) && ns.len() == declared_names(lines_of(s), 0).len(),
{
    lemma_run_names(lines_of(s), 0, init_state());
    lemma_run_wf(lines_of(s), 0, init_state());
    match parse_outcome(s) {
        OutcomeV::Parsed(ns) => {
            assert(names_of(ns) =~= declared_names(lines_of(s), 0));
            lemma_names_card(ns);
        },
        OutcomeV::Failed(_, _) => {},
    }
}

/// Idempotence: parsing is a function of the script text alone, so two
/// dialogues built from equal inputs are structurally equal.
pub proof fn lemma_parse_idempotent(s1: Seq<char>, s2: Seq<char>, d1: Dialogue, d2: Dialogue)
    requires
        s1 == s2,
        parse_outcome(s1) matches OutcomeV::Parsed(ns1) && d1@ == ns1,
        parse_outcome(s2) matches OutcomeV::Parsed(ns2) && d2@ == ns2,
    ensures
        d1@ == d2@,
{
}

/// A line the classifier treats as body text whenever a node is open:
/// non-blank, with no marker leading it.
pub open spec fn plain_line(raw: Seq<char>) -> bool {
    let t = trimmed(raw);
    &&& t.len() > 0
    &&& !is_decl(t)
    &&& !is_cond(t)
    &&& t[0] != '@'
    &&& t[0] != '*'
}

/// A line that trims to nothing.
pub open spec fn blank_line(raw: Seq<char>) -> bool {
    trimmed(raw).len() == 0
}

/// The body after appending every non-blank line at or after `i`, each
/// separated from what precedes it by exactly one newline.
pub open spec fn body_after(b: Seq<char>, lines: Seq<Seq<char>>, i: int) -> Seq<char>
    decreases lines.len() - i,
{
    if i < 0 || i >= lines.len() {
        b
    } else if blank_line(lines[i]) {
        body_after(b, lines, i + 1)
    } else {
        body_after(
            if b.len() == 0 {
                lines[i]
            } else {
                b + nl_pat() + lines[i]
            },
            lines,
            i + 1,
        )
    }
}

/// Blank-line collapse: with a node open and no pending condition, a tail
/// of body and blank lines parses successfully, and the node's body is the
/// non-blank lines joined with single newlines — the blank lines leave no
/// trace, and no newline leads the first line.
pub proof fn lemma_blank_line_collapse(lines: Seq<Seq<char>>, i: int, st: StateV)
    requires
        0 <= i,
        st.cur is Some,
        st.pending is None,
        forall|j: int| i <= j < lines.len() ==> blank_line(#[trigger] lines[j]) || plain_line(lines[j]),
    ensures
        run_lines(lines, i, st) == OutcomeV::Parsed(
            store_node(
                st.nodes,
                NodeV { body: body_after(st.cur->Some_0.body, lines, i), ..st.cur->Some_0 },
            ),
        ),
    decreases lines.len() - i,
{
    let n = st.cur->Some_0;
    if i >= lines.len() {
        assert(NodeV { body: body_after(n.body, lines, i), ..n } == n);
    } else if blank_line(lines[i]) {
        lemma_blank_line_collapse(lines, i + 1, st);
    } else {
        let raw = lines[i];
        let body1 = if n.body.len() == 0 {
            raw
        } else {
            n.body + nl_pat() + raw
        };
        let st2 = StateV { cur: Some(NodeV { body: body1, ..n }), ..st };
        assert(step_line(st, raw) == StepV::Next(st2));
        lemma_blank_line_collapse(lines, i + 1, st2);
    }
}

/// Blank-line collapse for a whole script: a node declaration followed
/// only by body text and blank lines parses to exactly one node, whose
/// body is the non-blank lines joined with single newlines, in order,
/// with no leading newline and no trace of the blanks.
pub proof fn lemma_script_body_collapse(lines: Seq<Seq<char>>)
    requires
        lines.len() >= 1,
        is_decl(trimmed(lines[0])),
        trimmed(trimmed(lines[0]).subrange(2, trimmed(lines[0]).len() as int)).len() > 0,
        forall|j: int|
            1 <= j < lines.len() ==> blank_line(#[trigger] lines[j]) || plain_line(lines[j]),
    ensures
        run_lines(lines, 0, init_state()) == OutcomeV::Parsed(
            seq![
                NodeV {
                    name: trimmed(trimmed(lines[0]).subrange(2, trimmed(lines[0]).len() as int)),
                    meta: Seq::empty(),
                    actions: Seq::empty(),
                    body: body_after(Seq::empty(), lines, 1),
                    choices: Seq::empty(),
                },
            ],
        ),
{
    let t = trimmed(lines[0]);
    let name = trimmed(t.subrange(2, t.len() as int));
    let n0 = NodeV {
        name,
        meta: Seq::empty(),
        actions: Seq::empty(),
        body: Seq::empty(),
        choices: Seq::empty(),
    };
    let st1 = StateV { nodes: Seq::empty(), cur: Some(n0), pending: None };
    assert(step_line(init_state(), lines[0]) == StepV::Next(st1));
    lemma_blank_line_collapse(lines, 1, st1);
    let built = NodeV { body: body_after(Seq::empty(), lines, 1), ..n0 };
    assert(store_node(Seq::empty(), built) =~= seq![built]);
}

/// The position of the arrow in a choice line whose trimmed form contains
/// exactly one.
pub open spec fn arrow_at(raw: Seq<char>) -> int {
    let t = trimmed(raw);
    let c = t.subrange(1, t.len() as int);
    find_from(c, arrow_pat(), 0)->Some_0
}

/// The trimmed label before the arrow of a choice line.
pub open spec fn choice_text(raw: Seq<char>) -> Seq<char> {
    let t = trimmed(raw);
    let c = t.subrange(1, t.len() as int);
    trimmed(c.subrange(0, arrow_at(raw)))
}

/// The trimmed part after the arrow of a choice line.
pub open spec fn choice_rest(raw: Seq<char>) -> Seq<char> {
    let t = trimmed(raw);
    let c = t.subrange(1, t.len() as int);
    trimmed(c.subrange(arrow_at(raw) + 2, c.len() as int))
}

/// A well-formed choice line: it starts with `*` and carries exactly one
/// arrow.
pub open spec fn choice_line(raw: Seq<char>) -> bool {
    let t = trimmed(raw);
    let c = t.subrange(1, t.len() as int);
    &&& t.len() > 0
    &&& !is_decl(t)
    &&& !is_cond(t)
    &&& t[0] == '*'
    &&& find_from(c, arrow_pat(), 0) is Some
    &&& find_from(c, arrow_pat(), arrow_at(raw) + 2) is None
}

/// Pending-condition consumption: a condition line immediately followed by
/// a choice line without an inline condition attaches the pending
/// condition to that choice and clears the pending state.
pub proof fn lemma_pending_condition_consumed(
    st: StateV,
    cond_line: Seq<char>,
    choice_line_text: Seq<char>,
)
    requires
        st.cur is Some,
        st.pending is None,
        is_cond(trimmed(cond_line)),
        choice_line(choice_line_text),
        find_from(choice_rest(choice_line_text), if_pat(), 0) is None,
    ensures
        ({
            let t1 = trimmed(cond_line);
            let cond = trimmed(t1.subrange(3, t1.len() as int));
            let st1 = StateV { pending: Some(cond), ..st };
            &&& step_line(st, cond_line) == StepV::Next(st1)
            &&& step_line(st1, choice_line_text) == StepV::Next(
                StateV {
                    nodes: st.nodes,
                    cur: Some(
                        NodeV {
                            choices: st.cur->Some_0.choices.push(
                                ChoiceV {
                                    text: choice_text(choice_line_text),
                                    target: choice_rest(choice_line_text),
                                    condition: Some(cond),
                                },
                            ),
                            ..st.cur->Some_0
                        },
                    ),
                    pending: None,
                },
            )
        }),
{
}

/// Dual-condition rejection: with a pending condition set, a choice line
/// that also carries an inline condition fails with the conflict error —
/// neither condition is silently preferred.
pub proof fn lemma_dual_condition_rejected(st: StateV, choice_line_text: Seq<char>)
    requires
        st.cur is Some,
        st.pending is Some,
        choice_line(choice_line_text),
        find_from(choice_rest(choice_line_text), if_pat(), 0) is Some,
    ensures
        step_line(st, choice_line_text) == StepV::Fail(ParseErrorKind::DualConditionConflict),
{
}

} // verus!


