//! The cursor over the context tree: an arena of nodes, the active node and
//! its kind.
use vstd::prelude::*;
use crate::definitions::{ContextNode, ContextType, NodeView, root_view};

verus! {

/// The cursor state as plain values.
pub struct StateView {
    pub kind: ContextType,
    pub cursor: usize,
    pub nodes: Seq<NodeView>,
}

/// Whether node `k` lies on the path from node `c` up to the root
/// (`c` itself included).
pub open spec fn on_path(nodes: Seq<NodeView>, c: int, k: int) -> bool
    decreases c,
{
    if c == k {
        true
    } else if c <= 0 || c >= nodes.len() {
        false
    } else {
        match nodes[c].parent {
            Some(p) => if p < c { on_path(nodes, p as int, k) } else { false },
            None => false,
        }
    }
}

/// The number of non-root nodes on the path from node `c` up to the root.
pub open spec fn path_len(nodes: Seq<NodeView>, c: int) -> nat
    decreases c,
{
    if c <= 0 || c >= nodes.len() {
        0
    } else {
        match nodes[c].parent {
            Some(p) => if p < c { 1 + path_len(nodes, p as int) } else { 0 },
            None => 0,
        }
    }
}

/// Whether a kind denotes a real nested scope.
pub open spec fn is_structural(k: ContextType) -> bool {
    k != ContextType::DOCSTRING && k != ContextType::ROOT
}

/// The number of structural nodes on the path from node `c` up to the root.
pub open spec fn structural_len(nodes: Seq<NodeView>, c: int) -> nat
    decreases c,
{
    if c <= 0 || c >= nodes.len() {
        0
    } else {
        match nodes[c].parent {
            Some(p) => if p < c {
                (if is_structural(nodes[c].kind) { 1nat } else { 0nat }) + structural_len(
                    nodes,
                    p as int,
                )
            } else {
                0
            },
            None => 0,
        }
    }
}

/// Every non-root node has an earlier parent that lists it among its
/// children, a start line, and a kind other than the root's.
#[verifier::opaque]
pub open spec fn wf_links(n: Seq<NodeView>) -> bool {
    forall|k: int|
        #![trigger n[k].parent]
        0 < k < n.len() ==> {
            &&& n[k].parent is Some
            &&& n[k].parent->0 < k
            &&& n[k].kind != ContextType::ROOT
            &&& n[k].start is Some
            &&& n[n[k].parent->0 as int].children.contains(k as usize)
        }
}

/// Every child lists its node as parent, and children stand in order of
/// position.
#[verifier::opaque]
pub open spec fn wf_children(n: Seq<NodeView>) -> bool {
    &&& forall|p: int, i: int|
        #![trigger n[p].children[i]]
        0 <= p < n.len() && 0 <= i < n[p].children.len() ==> {
            &&& 0 < n[p].children[i] < n.len()
            &&& n[n[p].children[i] as int].parent == Some(p as usize)
        }
    &&& forall|p: int, i: int, j: int|
        #![trigger n[p].children[i], n[p].children[j]]
        0 <= p < n.len() && 0 <= i < j < n[p].children.len() ==> n[p].children[i]
            < n[p].children[j]
}

/// A non-root node is open exactly while it lies on the path from `c`.
#[verifier::opaque]
pub open spec fn wf_open(n: Seq<NodeView>, c: int) -> bool {
    forall|k: int| #![trigger n[k]] 0 < k < n.len() ==> (n[k].end is None <==> on_path(n, c, k))
}

/// The shape every tree keeps: one root at position 0; every other node
/// has an earlier parent that lists it among its children, in order of
/// position; a node is open exactly while it lies on the cursor's path.
pub open spec fn tree_wf(s: StateView) -> bool {
    let n = s.nodes;
    &&& n.len() >= 1
    &&& n[0].kind == ContextType::ROOT
    &&& n[0].parent is None
    &&& n[0].start is None
    &&& n[0].end is None
    &&& s.cursor < n.len()
    &&& s.kind == n[s.cursor as int].kind
    &&& wf_links(n)
    &&& wf_children(n)
    &&& wf_open(n, s.cursor as int)
}

/// A tree that holds the root alone, with the cursor on it.
pub open spec fn fresh_state() -> StateView {
    StateView { kind: ContextType::ROOT, cursor: 0, nodes: seq![root_view()] }
}

/// `node` attached as the last child of the cursor's node, and the cursor
/// moved onto it.
pub open spec fn descend_spec(s: StateView, node: NodeView) -> StateView {
    let c = s.cursor as int;
    let idx = s.nodes.len() as usize;
    StateView {
        kind: node.kind,
        cursor: idx,
        nodes: s.nodes.update(
            c,
            NodeView { children: s.nodes[c].children.push(idx), ..s.nodes[c] },
        ).push(NodeView { parent: Some(s.cursor), ..node }),
    }
}

/// The cursor's node closed at `line` and the cursor moved to its parent;
/// at the root nothing changes.
pub open spec fn ascend_spec(s: StateView, line: usize) -> StateView {
    let c = s.cursor as int;
    if c == 0 {
        s
    } else {
        let p = match s.nodes[c].parent {
            Some(p) => p,
            None => 0,
        };
        StateView {
            kind: s.nodes[p as int].kind,
            cursor: p,
            nodes: s.nodes.update(
                c,
                NodeView {
                    end: if s.nodes[c].end is None { Some(line) } else { s.nodes[c].end },
                    ..s.nodes[c]
                },
            ),
        }
    }
}

/// Ascending from the cursor until the root is reached.
pub open spec fn top_spec(s: StateView, line: usize) -> StateView
    decreases s.cursor,
{
    if s.cursor == 0 || s.cursor >= s.nodes.len() {
        s
    } else {
        match s.nodes[s.cursor as int].parent {
            Some(p) => if p < s.cursor {
                top_spec(ascend_spec(s, line), line)
            } else {
                s
            },
            None => s,
        }
    }
}

/// A node that may be attached by `descend`.
pub open spec fn attachable(node: NodeView) -> bool {
    &&& node.kind != ContextType::ROOT
    &&& node.start is Some
    &&& node.end is None
    &&& node.children.len() == 0
}

/// Appending a node leaves the paths from the earlier nodes as they were.
pub proof fn lemma_paths_push(a: Seq<NodeView>, x: NodeView, c: int, k: int)
    requires
        0 <= c < a.len(),
        k != a.len(),
    ensures
        on_path(a.push(x), c, k) == on_path(a, c, k),
        path_len(a.push(x), c) == path_len(a, c),
        structural_len(a.push(x), c) == structural_len(a, c),
    decreases c,
{
    let b = a.push(x);
    assert(b[c] == a[c]);
    if 0 < c {
        if let Some(p) = a[c].parent {
            if p < c {
                lemma_paths_push(a, x, p as int, k);
            }
        }
    }
}

/// Changing anything but the parent and the kind of a node leaves every
/// path, and what it counts, as it was.
pub proof fn lemma_paths_update(a: Seq<NodeView>, i: int, x: NodeView, c: int, k: int)
    requires
        0 <= i < a.len(),
        x.parent == a[i].parent,
        x.kind == a[i].kind,
    ensures
        on_path(a.update(i, x), c, k) == on_path(a, c, k),
        path_len(a.update(i, x), c) == path_len(a, c),
        structural_len(a.update(i, x), c) == structural_len(a, c),
    decreases c,
{
    let b = a.update(i, x);
    if 0 < c < a.len() {
        assert(b[c].parent == a[c].parent);
        assert(b[c].kind == a[c].kind);
        if let Some(p) = a[c].parent {
            if p < c {
                lemma_paths_update(a, i, x, p as int, k);
            }
        }
    }
}

/// Paths from the node that `descend` attaches.
proof fn lemma_descend_paths(s: StateView, node: NodeView, k: int)
    requires
        s.nodes.len() < usize::MAX,
        tree_wf(s),
        0 <= k <= s.nodes.len(),
    ensures
        ({
            let t = descend_spec(s, node);
            &&& on_path(t.nodes, t.cursor as int, k) == (k == s.nodes.len() || on_path(
                s.nodes,
                s.cursor as int,
                k,
            ))
            &&& path_len(t.nodes, t.cursor as int) == path_len(s.nodes, s.cursor as int) + 1
            &&& structural_len(t.nodes, t.cursor as int) == structural_len(
                s.nodes,
                s.cursor as int,
            ) + (if is_structural(node.kind) { 1nat } else { 0nat })
        }),
{
    let t = descend_spec(s, node);
    let c = s.cursor as int;
    let idx = s.nodes.len() as int;
    let mid = s.nodes.update(
        c,
        NodeView { children: s.nodes[c].children.push(idx as usize), ..s.nodes[c] },
    );
    let x = NodeView { parent: Some(s.cursor), ..node };
    assert(t.nodes == mid.push(x));
    assert(t.nodes[idx] == x);
    assert(s.nodes.update(c, mid[c]) =~= mid);
    let kk = if k == idx { 0 } else { k };
    lemma_paths_push(mid, x, c, kk);
    lemma_paths_update(s.nodes, c, mid[c], c, kk);
    if k == idx {
        lemma_on_path_below(s.nodes, c, k);
    }
}

proof fn lemma_descend_links(s: StateView, node: NodeView)
    requires
        s.nodes.len() < usize::MAX,
        tree_wf(s),
        attachable(node),
    ensures
        wf_links(descend_spec(s, node).nodes),
{
    let t = descend_spec(s, node);
    let c = s.cursor as int;
    let idx = s.nodes.len() as int;
    assert(t.nodes[idx].parent == Some(c as usize));
    assert(t.nodes[c].children[t.nodes[c].children.len() - 1] == idx as usize);
    reveal(wf_links);
    assert forall|k: int|
        #![trigger t.nodes[k].parent]
        0 < k < t.nodes.len() implies {
        &&& t.nodes[k].parent is Some
        &&& t.nodes[k].parent->0 < k
        &&& t.nodes[k].kind != ContextType::ROOT
        &&& t.nodes[k].start is Some
        &&& t.nodes[t.nodes[k].parent->0 as int].children.contains(k as usize)
    } by {
        if k < idx {
            assert(t.nodes[k].parent == s.nodes[k].parent);
            let p = s.nodes[k].parent->0 as int;
            assert(s.nodes[p].children.contains(k as usize));
            if p == c {
                let j = choose|j: int|
                    0 <= j < s.nodes[p].children.len() && s.nodes[p].children[j] == k as usize;
                assert(t.nodes[p].children[j] == k as usize);
            } else {
                assert(t.nodes[p].children == s.nodes[p].children);
            }
        }
    }
}

proof fn lemma_descend_children(s: StateView, node: NodeView)
    requires
        s.nodes.len() < usize::MAX,
        tree_wf(s),
        attachable(node),
    ensures
        wf_children(descend_spec(s, node).nodes),
{
    let t = descend_spec(s, node);
    let c = s.cursor as int;
    let idx = s.nodes.len() as int;
    assert(t.nodes[idx].parent == Some(c as usize));
    reveal(wf_children);
    assert forall|p: int, i: int|
        #![trigger t.nodes[p].children[i]]
        0 <= p < t.nodes.len() && 0 <= i < t.nodes[p].children.len() implies {
        &&& 0 < t.nodes[p].children[i] < t.nodes.len()
        &&& t.nodes[t.nodes[p].children[i] as int].parent == Some(p as usize)
    } by {
        if p != c && p < idx {
            assert(t.nodes[p].children[i] == s.nodes[p].children[i]);
        } else if p == c && i < s.nodes[c].children.len() {
            assert(t.nodes[p].children[i] == s.nodes[p].children[i]);
        } else if p == c {
            assert(t.nodes[p].children[i] == idx as usize);
        }
    }
    assert forall|p: int, i: int, j: int|
        #![trigger t.nodes[p].children[i], t.nodes[p].children[j]]
        0 <= p < t.nodes.len() && 0 <= i < j < t.nodes[p].children.len() implies t.nodes[p].children[i]
        < t.nodes[p].children[j] by {
        if p != c && p < idx {
            assert(t.nodes[p].children[i] == s.nodes[p].children[i]);
            assert(t.nodes[p].children[j] == s.nodes[p].children[j]);
        } else if p == c {
            assert(t.nodes[p].children[i] == s.nodes[p].children[i]);
            if j < s.nodes[c].children.len() {
                assert(t.nodes[p].children[j] == s.nodes[p].children[j]);
            }
        }
    }
}

proof fn lemma_descend_open(s: StateView, node: NodeView)
    requires
        s.nodes.len() < usize::MAX,
        tree_wf(s),
        attachable(node),
    ensures
        wf_open(descend_spec(s, node).nodes, descend_spec(s, node).cursor as int),
{
    let t = descend_spec(s, node);
    let idx = s.nodes.len() as int;
    reveal(wf_open);
    assert forall|k: int| #![trigger t.nodes[k]] 0 < k < t.nodes.len() implies (t.nodes[k].end is None
        <==> on_path(t.nodes, t.cursor as int, k)) by {
        lemma_descend_paths(s, node, k);
        if k < idx {
            assert(t.nodes[k].end == s.nodes[k].end);
        }
    }
}

/// `descend` keeps the tree well formed.
pub proof fn lemma_descend_wf(s: StateView, node: NodeView)
    requires
        s.nodes.len() < usize::MAX,
        tree_wf(s),
        attachable(node),
    ensures
        tree_wf(descend_spec(s, node)),
        path_len(descend_spec(s, node).nodes, descend_spec(s, node).cursor as int) == path_len(
            s.nodes,
            s.cursor as int,
        ) + 1,
        structural_len(descend_spec(s, node).nodes, descend_spec(s, node).cursor as int)
            == structural_len(s.nodes, s.cursor as int) + (if is_structural(node.kind) {
            1nat
        } else {
            0nat
        }),
{
    lemma_descend_paths(s, node, 0);
    lemma_descend_links(s, node);
    lemma_descend_children(s, node);
    lemma_descend_open(s, node);
}

/// Paths from the parent that `ascend` moves to.
proof fn lemma_ascend_paths(s: StateView, line: usize, k: int)
    requires
        tree_wf(s),
        s.cursor != 0,
        0 <= k < s.nodes.len(),
    ensures
        ({
            let t = ascend_spec(s, line);
            &&& t.cursor < s.cursor
            &&& on_path(t.nodes, t.cursor as int, k) == (on_path(s.nodes, s.cursor as int, k) && k
                != s.cursor)
            &&& path_len(s.nodes, s.cursor as int) == path_len(t.nodes, t.cursor as int) + 1
            &&& structural_len(s.nodes, s.cursor as int) == structural_len(
                t.nodes,
                t.cursor as int,
            ) + (if is_structural(s.kind) { 1nat } else { 0nat })
        }),
{
    let t = ascend_spec(s, line);
    let c = s.cursor as int;
    reveal(wf_links);
    assert(s.nodes[c].parent is Some);
    let p = s.nodes[c].parent->0 as int;
    assert(t.nodes[c].parent == s.nodes[c].parent);
    lemma_paths_update(s.nodes, c, t.nodes[c], p, k);
    lemma_paths_update(s.nodes, c, t.nodes[c], c, k);
    lemma_on_path_below(s.nodes, p, c);
}

proof fn lemma_ascend_links(s: StateView, line: usize)
    requires
        tree_wf(s),
        s.cursor != 0,
    ensures
        wf_links(ascend_spec(s, line).nodes),
{
    let t = ascend_spec(s, line);
    reveal(wf_links);
    assert forall|k: int|
        #![trigger t.nodes[k].parent]
        0 < k < t.nodes.len() implies {
        &&& t.nodes[k].parent is Some
        &&& t.nodes[k].parent->0 < k
        &&& t.nodes[k].kind != ContextType::ROOT
        &&& t.nodes[k].start is Some
        &&& t.nodes[t.nodes[k].parent->0 as int].children.contains(k as usize)
    } by {
        assert(s.nodes[k].parent is Some);
        let q = s.nodes[k].parent->0 as int;
        assert(s.nodes[q].children.contains(k as usize));
        assert(t.nodes[q].children == s.nodes[q].children);
    }
}

proof fn lemma_ascend_children(s: StateView, line: usize)
    requires
        tree_wf(s),
        s.cursor != 0,
    ensures
        wf_children(ascend_spec(s, line).nodes),
{
    let t = ascend_spec(s, line);
    reveal(wf_children);
    assert forall|q: int, i: int|
        #![trigger t.nodes[q].children[i]]
        0 <= q < t.nodes.len() && 0 <= i < t.nodes[q].children.len() implies {
        &&& 0 < t.nodes[q].children[i] < t.nodes.len()
        &&& t.nodes[t.nodes[q].children[i] as int].parent == Some(q as usize)
    } by {
        assert(t.nodes[q].children[i] == s.nodes[q].children[i]);
    }
    assert forall|q: int, i: int, j: int|
        #![trigger t.nodes[q].children[i], t.nodes[q].children[j]]
        0 <= q < t.nodes.len() && 0 <= i < j < t.nodes[q].children.len() implies t.nodes[q].children[i]
        < t.nodes[q].children[j] by {
        assert(t.nodes[q].children[i] == s.nodes[q].children[i]);
        assert(t.nodes[q].children[j] == s.nodes[q].children[j]);
    }
}

proof fn lemma_ascend_open(s: StateView, line: usize)
    requires
        tree_wf(s),
        s.cursor != 0,
    ensures
        wf_open(ascend_spec(s, line).nodes, ascend_spec(s, line).cursor as int),
{
    let t = ascend_spec(s, line);
    reveal(wf_open);
    assert forall|k: int| #![trigger t.nodes[k]] 0 < k < t.nodes.len() implies (t.nodes[k].end is None
        <==> on_path(t.nodes, t.cursor as int, k)) by {
        lemma_ascend_paths(s, line, k);
    }
}

/// `ascend` keeps the tree well formed.
pub proof fn lemma_ascend_wf(s: StateView, line: usize)
    requires
        tree_wf(s),
    ensures
        tree_wf(ascend_spec(s, line)),
        s.cursor != 0 ==> ascend_spec(s, line).cursor < s.cursor,
        s.cursor != 0 ==> path_len(s.nodes, s.cursor as int) == path_len(
            ascend_spec(s, line).nodes,
            ascend_spec(s, line).cursor as int,
        ) + 1,
        s.cursor != 0 ==> structural_len(s.nodes, s.cursor as int) == structural_len(
            ascend_spec(s, line).nodes,
            ascend_spec(s, line).cursor as int,
        ) + (if is_structural(s.kind) { 1nat } else { 0nat }),
{
    if s.cursor != 0 {
        lemma_ascend_paths(s, line, 0);
        lemma_ascend_links(s, line);
        lemma_ascend_children(s, line);
        lemma_ascend_open(s, line);
    }
}

/// A path never climbs back to a node below its start.
pub proof fn lemma_on_path_below(nodes: Seq<NodeView>, c: int, k: int)
    requires
        c < k,
    ensures
        !on_path(nodes, c, k),
    decreases c,
{
    if 0 < c < nodes.len() {
        if let Some(p) = nodes[c].parent {
            if p < c {
                lemma_on_path_below(nodes, p as int, k);
            }
        }
    }
}

/// The cursor into the context tree.
pub struct ContextState {
    /// The kind of the active node.
    pub context_type: ContextType,
    /// The position of the active node.
    pub context_node: usize,
    /// The arena of nodes; the root stands at position 0.
    pub nodes: Vec<ContextNode>,
}

impl View for ContextState {
    type V = StateView;

    open spec fn view(&self) -> StateView {
        StateView {
            kind: self.context_type,
            cursor: self.context_node,
            nodes: self.nodes@.map_values(|n: ContextNode| n@),
        }
    }
}

impl ContextState {
    /// A tree holding the root alone, with the cursor on it.
    pub fn new() -> (r: ContextState)
        ensures
            r@ == fresh_state(),
            tree_wf(r@),
    {
        let r = ContextState {
            context_type: ContextType::ROOT,
            context_node: 0,
            nodes: vec![ContextNode::root()],
        };
        assert(r@.nodes =~= seq![root_view()]);
        proof {
            reveal(wf_links);
            reveal(wf_children);
            reveal(wf_open);
        }
        r
    }

    /// Attaches `new_node` as the last child of the active node, records
    /// the active node as its parent, and makes it the active node.
    pub fn descend(&mut self, new_node: ContextNode)
        requires
            tree_wf(old(self)@),
            attachable(new_node@),
            old(self)@.nodes.len() < usize::MAX,
        ensures
            final(self)@ == descend_spec(old(self)@, new_node@),
            tree_wf(final(self)@),
    {
        let ghost s = self@;
        let idx = self.nodes.len();
        let c = self.context_node;
        self.nodes[c].add_node(idx);
        let mut node = new_node;
        node.set_parent(c);
        self.context_type = node.context_type;
        self.nodes.push(node);
        self.context_node = idx;
        assert(self@.nodes =~= descend_spec(s, new_node@).nodes);
        proof {
            lemma_descend_wf(s, new_node@);
        }
    }

    /// Closes the active node at `line` and makes its parent the active
    /// node; at the root nothing changes.
    pub fn ascend(&mut self, line: usize)
        requires
            tree_wf(old(self)@),
        ensures
            final(self)@ == ascend_spec(old(self)@, line),
            tree_wf(final(self)@),
    {
        let ghost s = self@;
        proof {
            lemma_ascend_wf(s, line);
        }
        let c = self.context_node;
        if c == 0 {
            return;
        }
        let p = match self.nodes[c].parent {
            Some(p) => p,
            None => 0,
        };
        self.nodes[c].set_location(line);
        self.context_node = p;
        self.context_type = self.nodes[p].context_type;
        assert(self@.nodes =~= ascend_spec(s, line).nodes);
    }

    /// Ascends, closing each node at `line`, until the root is active.
    pub fn top(&mut self, line: usize)
        requires
            tree_wf(old(self)@),
        ensures
            final(self)@ == top_spec(old(self)@, line),
            tree_wf(final(self)@),
            final(self)@.cursor == 0,
    {
        while self.context_type != ContextType::ROOT
            invariant
                tree_wf(self@),
                top_spec(self@, line) == top_spec(old(self)@, line),
            decreases self.context_node,
        {
            proof {
                lemma_ascend_wf(self@, line);
                reveal(wf_links);
            }
            self.ascend(line);
        }
        proof {
            reveal(wf_links);
        }
    }
}

} // verus!

verus! {

/// Changing a node's name, text or visibility keeps the tree well formed
/// and every path as it was.
pub proof fn lemma_update_payload_wf(s: StateView, i: int, x: NodeView)
    requires
        tree_wf(s),
        0 <= i < s.nodes.len(),
        x.parent == s.nodes[i].parent,
        x.kind == s.nodes[i].kind,
        x.start == s.nodes[i].start,
        x.end == s.nodes[i].end,
        x.children == s.nodes[i].children,
    ensures
        tree_wf(StateView { nodes: s.nodes.update(i, x), ..s }),
        path_len(s.nodes.update(i, x), s.cursor as int) == path_len(s.nodes, s.cursor as int),
        structural_len(s.nodes.update(i, x), s.cursor as int) == structural_len(
            s.nodes,
            s.cursor as int,
        ),
{
    let t = StateView { nodes: s.nodes.update(i, x), ..s };
    lemma_paths_update(s.nodes, i, x, s.cursor as int, 0);
    reveal(wf_links);
    reveal(wf_children);
    reveal(wf_open);
    assert forall|k: int|
        #![trigger t.nodes[k].parent]
        0 < k < t.nodes.len() implies {
        &&& t.nodes[k].parent is Some
        &&& t.nodes[k].parent->0 < k
        &&& t.nodes[k].kind != ContextType::ROOT
        &&& t.nodes[k].start is Some
        &&& t.nodes[t.nodes[k].parent->0 as int].children.contains(k as usize)
    } by {
        assert(s.nodes[k].parent is Some);
        let q = s.nodes[k].parent->0 as int;
        assert(s.nodes[q].children.contains(k as usize));
        assert(t.nodes[q].children == s.nodes[q].children);
    }
    assert forall|k: int| #![trigger t.nodes[k]] 0 < k < t.nodes.len() implies (t.nodes[k].end is None
        <==> on_path(t.nodes, t.cursor as int, k)) by {
        lemma_paths_update(s.nodes, i, x, s.cursor as int, k);
    }
    assert forall|q: int, j: int|
        #![trigger t.nodes[q].children[j]]
        0 <= q < t.nodes.len() && 0 <= j < t.nodes[q].children.len() implies {
        &&& 0 < t.nodes[q].children[j] < t.nodes.len()
        &&& t.nodes[t.nodes[q].children[j] as int].parent == Some(q as usize)
    } by {
        assert(t.nodes[q].children[j] == s.nodes[q].children[j]);
    }
    assert forall|q: int, a: int, b: int|
        #![trigger t.nodes[q].children[a], t.nodes[q].children[b]]
        0 <= q < t.nodes.len() && 0 <= a < b < t.nodes[q].children.len() implies t.nodes[q].children[a]
        < t.nodes[q].children[b] by {
        assert(t.nodes[q].children[a] == s.nodes[q].children[a]);
        assert(t.nodes[q].children[b] == s.nodes[q].children[b]);
    }
}

/// Along a well-formed tree the structural nodes on a path are at most
/// the nodes on it, which are at most the position it starts from.
pub proof fn lemma_path_bounds(nodes: Seq<NodeView>, c: int)
    requires
        wf_links(nodes),
        0 <= c < nodes.len(),
    ensures
        structural_len(nodes, c) <= path_len(nodes, c) <= c,
    decreases c,
{
    reveal(wf_links);
    if c > 0 {
        assert(nodes[c].parent is Some);
        let p = nodes[c].parent->0 as int;
        lemma_path_bounds(nodes, p);
    }
}

/// The only kind at the root's position is the root's, and no other
/// position holds it.
pub proof fn lemma_root_kind(s: StateView)
    requires
        tree_wf(s),
    ensures
        (s.kind == ContextType::ROOT) == (s.cursor == 0),
{
    reveal(wf_links);
    if s.cursor != 0 {
        assert(s.nodes[s.cursor as int].parent is Some);
    }
}

} // verus!
