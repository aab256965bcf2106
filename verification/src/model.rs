//! The parsed representation of a script, together with its mathematical
//! model.
//!
//! A [`Dialogue`] is a collection of named [`Node`]s, keyed by name with the
//! later of two same-named nodes fully replacing the earlier.  A node's
//! metadata is a string-to-string mapping with last-write-wins semantics.
//! Both are held as insertion-ordered vectors whose keys stay unique; the
//! spec functions [`nodes_map`] and [`meta_map`] give their map readings.

use vstd::prelude::*;
use vstd::pervasive::VecAdditionalExecFns;

use crate::text::str_eq;

verus! {

/// Model of a [`Choice`]: its label, its target node's name, and its
/// optional condition.
pub ghost struct ChoiceV {
    pub text: Seq<char>,
    pub target: Seq<char>,
    pub condition: Option<Seq<char>>,
}

/// Model of a [`Node`]: name, metadata entries in write order, action
/// commands in source order, body text, and choices in source order.
pub ghost struct NodeV {
    pub name: Seq<char>,
    pub meta: Seq<(Seq<char>, Seq<char>)>,
    pub actions: Seq<Seq<char>>,
    pub body: Seq<char>,
    pub choices: Seq<ChoiceV>,
}

/// A choice offered to the player: a label, the name of the node it leads
/// to, and an optional opaque condition gating it.
#[derive(Debug, Clone, PartialEq, Eq)]
pub struct Choice {
    pub text: String,
    pub target_node: String,
    pub condition: Option<String>,
}

/// A side-effect command attached to a node, executed by an external
/// runtime.
#[derive(Debug, Clone, PartialEq, Eq)]
pub struct Action {
    pub command: String,
}

/// A named unit of dialogue: metadata, actions, body text, and choices.
#[derive(Debug, Clone, PartialEq, Eq)]
pub struct Node {
    pub name: String,
    pub meta: Vec<(String, String)>,
    pub actions: Vec<Action>,
    pub body: String,
    pub choices: Vec<Choice>,
}

/// The complete parsed script: every finalized node, in order of first
/// declaration, with names unique.
#[derive(Debug, Clone, PartialEq, Eq)]
pub struct Dialogue {
    pub nodes: Vec<Node>,
}

impl View for Choice {
    type V = ChoiceV;

    open spec fn view(&self) -> ChoiceV {
        ChoiceV {
            text: self.text@,
            target: self.target_node@,
            condition: match self.condition {
                Some(c) => Some(c@),
                None => None,
            },
        }
    }
}

impl DeepView for Choice {
    type V = ChoiceV;

    open spec fn deep_view(&self) -> ChoiceV {
        self.view()
    }
}

impl View for Action {
    type V = Seq<char>;

    open spec fn view(&self) -> Seq<char> {
        self.command@
    }
}

impl DeepView for Action {
    type V = Seq<char>;

    open spec fn deep_view(&self) -> Seq<char> {
        self.view()
    }
}

impl View for Node {
    type V = NodeV;

    open spec fn view(&self) -> NodeV {
        NodeV {
            name: self.name@,
            meta: self.meta.deep_view(),
            actions: self.actions.deep_view(),
            body: self.body@,
            choices: self.choices.deep_view(),
        }
    }
}

impl DeepView for Node {
    type V = NodeV;

    open spec fn deep_view(&self) -> NodeV {
        self.view()
    }
}

impl View for Dialogue {
    type V = Seq<NodeV>;

    open spec fn view(&self) -> Seq<NodeV> {
        self.nodes.deep_view()
    }
}

/// No two metadata entries share a key.
pub open spec fn meta_keys_unique(entries: Seq<(Seq<char>, Seq<char>)>) -> bool {
    forall|i: int, j: int| 0 <= i < j < entries.len() ==> entries[i].0 != entries[j].0
}

/// No two nodes share a name.
pub open spec fn node_names_unique(ns: Seq<NodeV>) -> bool {
    forall|i: int, j: int| 0 <= i < j < ns.len() ==> ns[i].name != ns[j].name
}

impl NodeV {
    /// The metadata entries form a mapping: keys are unique.
    pub open spec fn wf(self) -> bool {
        meta_keys_unique(self.meta)
    }
}

impl Node {
    /// The metadata entries form a mapping: keys are unique.
    pub open spec fn wf(self) -> bool {
        self@.wf()
    }
}

impl Dialogue {
    /// Node names are unique and every node is well formed.
    pub open spec fn wf(self) -> bool {
        &&& node_names_unique(self@)
        &&& forall|i: int| 0 <= i < self@.len() ==> (#[trigger] self@[i]).wf()
    }
}

/// The position of the first metadata entry at or after `i` whose key is
/// `key`, if any.
pub open spec fn meta_idx(entries: Seq<(Seq<char>, Seq<char>)>, key: Seq<char>, i: int) -> Option<
    int,
>
    decreases entries.len() - i,
{
    if i < 0 || i >= entries.len() {
        None
    } else if entries[i].0 == key {
        Some(i)
    } else {
        meta_idx(entries, key, i + 1)
    }
}

/// Writing `key = value` into the entries: the existing entry with that key
/// is replaced in place, or a new entry is appended.
pub open spec fn meta_put(
    entries: Seq<(Seq<char>, Seq<char>)>,
    key: Seq<char>,
    value: Seq<char>,
) -> Seq<(Seq<char>, Seq<char>)> {
    match meta_idx(entries, key, 0) {
        Some(i) => entries.update(i, (key, value)),
        None => entries.push((key, value)),
    }
}

/// The entries read as a mapping, later writes shadowing earlier ones.
pub open spec fn meta_map(entries: Seq<(Seq<char>, Seq<char>)>) -> Map<Seq<char>, Seq<char>>
    decreases entries.len(),
{
    if entries.len() == 0 {
        Map::empty()
    } else {
        meta_map(entries.drop_last()).insert(entries.last().0, entries.last().1)
    }
}

/// The position of the first node at or after `i` named `name`, if any.
pub open spec fn node_idx(ns: Seq<NodeV>, name: Seq<char>, i: int) -> Option<int>
    decreases ns.len() - i,
{
    if i < 0 || i >= ns.len() {
        None
    } else if ns[i].name == name {
        Some(i)
    } else {
        node_idx(ns, name, i + 1)
    }
}

/// Finalizing a node into the collection: a node of the same name is fully
/// replaced in place, otherwise the node is appended.
pub open spec fn store_node(ns: Seq<NodeV>, n: NodeV) -> Seq<NodeV> {
    match node_idx(ns, n.name, 0) {
        Some(i) => ns.update(i, n),
        None => ns.push(n),
    }
}

/// The nodes read as a mapping from name to node.
pub open spec fn nodes_map(ns: Seq<NodeV>) -> Map<Seq<char>, NodeV>
    decreases ns.len(),
{
    if ns.len() == 0 {
        Map::empty()
    } else {
        nodes_map(ns.drop_last()).insert(ns.last().name, ns.last())
    }
}

/// The set of node names present in the collection.
pub open spec fn names_of(ns: Seq<NodeV>) -> Set<Seq<char>>
    decreases ns.len(),
{
    if ns.len() == 0 {
        Set::empty()
    } else {
        names_of(ns.drop_last()).insert(ns.last().name)
    }
}

/// [`meta_idx`] returns the first entry with the key, or reports that there
/// is none.
pub proof fn lemma_meta_idx(entries: Seq<(Seq<char>, Seq<char>)>, key: Seq<char>, i: int)
    requires
        0 <= i,
    ensures
        match meta_idx(entries, key, i) {
            Some(j) => i <= j < entries.len() && entries[j].0 == key && (forall|k: int|
                i <= k < j ==> entries[k].0 != key),
            None => forall|k: int| i <= k < entries.len() ==> entries[k].0 != key,
        },
    decreases entries.len() - i,
{
    if i < entries.len() && entries[i].0 != key {
        lemma_meta_idx(entries, key, i + 1);
    }
}

/// [`node_idx`] returns the first node with the name, or reports that there
/// is none.
pub proof fn lemma_node_idx(ns: Seq<NodeV>, name: Seq<char>, i: int)
    requires
        0 <= i,
    ensures
        match node_idx(ns, name, i) {
            Some(j) => i <= j < ns.len() && ns[j].name == name && (forall|k: int|
                i <= k < j ==> ns[k].name != name),
            None => forall|k: int| i <= k < ns.len() ==> ns[k].name != name,
        },
    decreases ns.len() - i,
{
    if i < ns.len() && ns[i].name != name {
        lemma_node_idx(ns, name, i + 1);
    }
}

/// A key is in [`meta_map`] exactly when some entry holds it.
pub proof fn lemma_meta_map_contains(entries: Seq<(Seq<char>, Seq<char>)>, key: Seq<char>)
    ensures
        meta_map(entries).contains_key(key) <==> exists|i: int|
            0 <= i < entries.len() && entries[i].0 == key,
    decreases entries.len(),
{
    if entries.len() > 0 {
        lemma_meta_map_contains(entries.drop_last(), key);
        if meta_map(entries).contains_key(key) && entries.last().0 != key {
            let i = choose|i: int| 0 <= i < entries.drop_last().len() && entries.drop_last()[i].0
                == key;
            assert(entries[i].0 == key);
        }
        if exists|i: int| 0 <= i < entries.len() && entries[i].0 == key {
            let i = choose|i: int| 0 <= i < entries.len() && entries[i].0 == key;
            if i < entries.len() - 1 {
                assert(entries.drop_last()[i].0 == key);
            }
        }
    }
}

/// With unique keys, [`meta_map`] sends each entry's key to its value.
pub proof fn lemma_meta_map_at(entries: Seq<(Seq<char>, Seq<char>)>, i: int)
    requires
        meta_keys_unique(entries),
        0 <= i < entries.len(),
    ensures
        meta_map(entries).contains_key(entries[i].0),
        meta_map(entries)[entries[i].0] == entries[i].1,
    decreases entries.len(),
{
    if i < entries.len() - 1 {
        assert(meta_keys_unique(entries.drop_last())) by {
            assert(forall|p: int, q: int|
                0 <= p < q < entries.drop_last().len() ==> entries.drop_last()[p]
                    == entries[p] && entries.drop_last()[q] == entries[q]);
        }
        lemma_meta_map_at(entries.drop_last(), i);
        assert(entries.drop_last()[i] == entries[i]);
        assert(entries[i].0 != entries.last().0);
    }
}

/// A name is in [`nodes_map`] exactly when some node holds it.
pub proof fn lemma_nodes_map_contains(ns: Seq<NodeV>, name: Seq<char>)
    ensures
        nodes_map(ns).contains_key(name) <==> exists|i: int|
            0 <= i < ns.len() && ns[i].name == name,
    decreases ns.len(),
{
    if ns.len() > 0 {
        lemma_nodes_map_contains(ns.drop_last(), name);
        if nodes_map(ns).contains_key(name) && ns.last().name != name {
            let i = choose|i: int| 0 <= i < ns.drop_last().len() && ns.drop_last()[i].name == name;
            assert(ns[i].name == name);
        }
        if exists|i: int| 0 <= i < ns.len() && ns[i].name == name {
            let i = choose|i: int| 0 <= i < ns.len() && ns[i].name == name;
            if i < ns.len() - 1 {
                assert(ns.drop_last()[i].name == name);
            }
        }
    }
}

/// With unique names, [`nodes_map`] sends each node's name to that node.
pub proof fn lemma_nodes_map_at(ns: Seq<NodeV>, i: int)
    requires
        node_names_unique(ns),
        0 <= i < ns.len(),
    ensures
        nodes_map(ns).contains_key(ns[i].name),
        nodes_map(ns)[ns[i].name] == ns[i],
    decreases ns.len(),
{
    if i < ns.len() - 1 {
        assert(node_names_unique(ns.drop_last())) by {
            assert(forall|p: int, q: int|
                0 <= p < q < ns.drop_last().len() ==> ns.drop_last()[p] == ns[p]
                    && ns.drop_last()[q] == ns[q]);
        }
        lemma_nodes_map_at(ns.drop_last(), i);
        assert(ns.drop_last()[i] == ns[i]);
        assert(ns[i].name != ns.last().name);
    }
}

/// [`meta_put`] keeps keys unique.
pub proof fn lemma_meta_put_unique(
    entries: Seq<(Seq<char>, Seq<char>)>,
    key: Seq<char>,
    value: Seq<char>,
)
    requires
        meta_keys_unique(entries),
    ensures
        meta_keys_unique(meta_put(entries, key, value)),
{
    lemma_meta_idx(entries, key, 0);
    match meta_idx(entries, key, 0) {
        Some(i) => {
            assert(entries[i].0 == key);
        },
        None => {},
    }
}

/// [`store_node`] keeps names unique.
pub proof fn lemma_store_node_unique(ns: Seq<NodeV>, n: NodeV)
    requires
        node_names_unique(ns),
    ensures
        node_names_unique(store_node(ns, n)),
{
    lemma_node_idx(ns, n.name, 0);
    match node_idx(ns, n.name, 0) {
        Some(i) => {
            assert(ns[i].name == n.name);
        },
        None => {},
    }
}

/// [`store_node`] keeps names unique and every node well formed.
pub proof fn lemma_store_node_wf(ns: Seq<NodeV>, n: NodeV)
    requires
        node_names_unique(ns),
        forall|i: int| 0 <= i < ns.len() ==> (#[trigger] ns[i]).wf(),
        n.wf(),
    ensures
        node_names_unique(store_node(ns, n)),
        forall|i: int| 0 <= i < store_node(ns, n).len() ==> (#[trigger] store_node(ns, n)[i]).wf(),
{
    lemma_store_node_unique(ns, n);
    lemma_node_idx(ns, n.name, 0);
    let stored = store_node(ns, n);
    assert forall|i: int| 0 <= i < stored.len() implies (#[trigger] stored[i]).wf() by {
        match node_idx(ns, n.name, 0) {
            Some(j) => {
                if i != j {
                    assert(stored[i] == ns[i]);
                }
            },
            None => {
                if i < ns.len() {
                    assert(stored[i] == ns[i]);
                }
            },
        }
    }
}

impl Dialogue {
    /// An empty dialogue, holding no nodes.
    pub fn new() -> (d: Dialogue)
        ensures
            d@ == Seq::<NodeV>::empty(),
            d.wf(),
    {
        let d = Dialogue { nodes: Vec::new() };
        proof {
            assert(d@ =~= Seq::<NodeV>::empty());
        }
        d
    }

    /// Finalizes a node into the dialogue: a node of the same name is fully
    /// replaced, otherwise the node is appended.
    pub fn insert_node(&mut self, n: Node)
        ensures
            final(self)@ == store_node(old(self)@, n@),
    {
        let len: usize = self.nodes.len();
        let mut i: usize = 0;
        while i < len
            invariant
                *self == *old(self),
                len == self.nodes.len(),
                i <= len,
                node_idx(old(self)@, n@.name, 0) == node_idx(old(self)@, n@.name, i as int),
            decreases len - i,
        {
            if str_eq(self.nodes[i].name.as_str(), n.name.as_str()) {
                proof {
                    assert(node_idx(old(self)@, n@.name, i as int) == Some(i as int));
                }
                let ghost prev = self@;
                self.nodes.set(i, n);
                proof {
                    assert(self@ =~~= prev.update(i as int, n@));
                }
                return ;
            }
            i = i + 1;
        }
        proof {
            assert(node_idx(old(self)@, n@.name, len as int) is None);
        }
        let ghost prev = self@;
        self.nodes.push(n);
        proof {
            assert(self@ =~~= prev.push(n@));
        }
    }

    /// Looks a node up by name.
    pub fn get<'a>(&'a self, name: &str) -> (r: Option<&'a Node>)
        requires
            self.wf(),
        ensures
            match r {
                Some(node) => nodes_map(self@).contains_key(name@) && node@ == nodes_map(
                    self@,
                )[name@],
                None => !nodes_map(self@).contains_key(name@),
            },
    {
        let len: usize = self.nodes.len();
        let mut i: usize = 0;
        while i < len
            invariant
                self.wf(),
                len == self.nodes.len(),
                i <= len,
                forall|k: int| 0 <= k < i ==> self@[k].name != name@,
            decreases len - i,
        {
            if str_eq(self.nodes[i].name.as_str(), name) {
                proof {
                    lemma_nodes_map_at(self@, i as int);
                }
                return Some(&self.nodes[i]);
            }
            i = i + 1;
        }
        proof {
            lemma_nodes_map_contains(self@, name@);
        }
        None
    }

    /// Whether a node of the given name is present.
    pub fn contains_key(&self, name: &str) -> (r: bool)
        ensures
            r == nodes_map(self@).contains_key(name@),
    {
        let len: usize = self.nodes.len();
        let mut i: usize = 0;
        proof {
            lemma_nodes_map_contains(self@, name@);
        }
        while i < len
            invariant
                len == self.nodes.len(),
                i <= len,
                forall|k: int| 0 <= k < i ==> self@[k].name != name@,
                nodes_map(self@).contains_key(name@) <==> exists|k: int|
                    0 <= k < self@.len() && self@[k].name == name@,
            decreases len - i,
        {
            if str_eq(self.nodes[i].name.as_str(), name) {
                proof {
                    assert(0 <= i < self@.len() && self@[i as int].name == name@);
                }
                return true;
            }
            i = i + 1;
        }
        false
    }
}

impl Default for Dialogue {
    /// The same empty dialogue as [`Dialogue::new`].
    fn default() -> (d: Self)
        ensures
            d@ == Seq::<NodeV>::empty(),
            d.wf(),
    {
        Dialogue::new()
    }
}

impl Node {
    /// A freshly declared node with the given name and nothing else.
    pub fn empty(name: String) -> (n: Node)
        ensures
            n@ == (NodeV {
                name: name@,
                meta: Seq::empty(),
                actions: Seq::empty(),
                body: Seq::empty(),
                choices: Seq::empty(),
            }),
            n.wf(),
    {
        let n = Node {
            name,
            meta: Vec::new(),
            actions: Vec::new(),
            body: String::new(),
            choices: Vec::new(),
        };
        proof {
            assert(n@.meta =~= Seq::<(Seq<char>, Seq<char>)>::empty());
            assert(n@.actions =~= Seq::<Seq<char>>::empty());
            assert(n@.choices =~= Seq::<ChoiceV>::empty());
        }
        n
    }

    /// Writes a metadata entry, the last write per key winning.
    pub fn set_meta(&mut self, key: String, value: String)
        ensures
            final(self)@ == (NodeV { meta: meta_put(old(self)@.meta, key@, value@), ..old(self)@ }),
    {
        let len: usize = self.meta.len();
        let mut i: usize = 0;
        while i < len
            invariant
                *self == *old(self),
                len == self.meta.len(),
                i <= len,
                meta_idx(old(self)@.meta, key@, 0) == meta_idx(old(self)@.meta, key@, i as int),
            decreases len - i,
        {
            if str_eq(self.meta[i].0.as_str(), key.as_str()) {
                proof {
                    assert(meta_idx(old(self)@.meta, key@, i as int) == Some(i as int));
                }
                let ghost prev = self@.meta;
                self.meta.set(i, (key, value));
                proof {
                    assert(self@.meta =~~= prev.update(i as int, (key@, value@)));
                }
                return ;
            }
            i = i + 1;
        }
        proof {
            assert(meta_idx(old(self)@.meta, key@, len as int) is None);
        }
        let ghost prev = self@.meta;
        self.meta.push((key, value));
        proof {
            assert(self@.meta =~~= prev.push((key@, value@)));
        }
    }

    /// Appends an action command.
    pub fn push_action(&mut self, command: String)
        ensures
            final(self)@ == (NodeV {
                actions: old(self)@.actions.push(command@),
                ..old(self)@
            }),
    {
        let ghost cmdv = command@;
        let ghost prev = self@.actions;
        self.actions.push(Action { command });
        proof {
            assert(self@.actions =~~= prev.push(cmdv));
        }
    }

    /// Appends a choice.
    pub fn push_choice(&mut self, c: Choice)
        ensures
            final(self)@ == (NodeV { choices: old(self)@.choices.push(c@), ..old(self)@ }),
    {
        let ghost cv = c@;
        let ghost prev = self@.choices;
        self.choices.push(c);
        proof {
            assert(self@.choices =~~= prev.push(cv));
        }
    }

    /// Looks a metadata value up by key.
    pub fn get_meta<'a>(&'a self, key: &str) -> (r: Option<&'a String>)
        requires
            self.wf(),
        ensures
            match r {
                Some(value) => meta_map(self@.meta).contains_key(key@) && value@ == meta_map(
                    self@.meta,
                )[key@],
                None => !meta_map(self@.meta).contains_key(key@),
            },
    {
        let len: usize = self.meta.len();
        let mut i: usize = 0;
        while i < len
            invariant
                self.wf(),
                len == self.meta.len(),
                i <= len,
                forall|k: int| 0 <= k < i ==> self@.meta[k].0 != key@,
            decreases len - i,
        {
            if str_eq(self.meta[i].0.as_str(), key) {
                proof {
                    lemma_meta_map_at(self@.meta, i as int);
                }
                return Some(&self.meta[i].1);
            }
            i = i + 1;
        }
        proof {
            lemma_meta_map_contains(self@.meta, key@);
        }
        None
    }
}

} // verus!
