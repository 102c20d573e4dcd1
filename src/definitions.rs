//! The context tree: kinds of scope, the nodes of the tree and the
//! indentation tracker.
use vstd::prelude::*;
use vstd::string::StringExecFns;

verus! {

/// A start line and an end line of a closed node.
pub type CodeLocation = (usize, usize);

/// The kind of a tracked scope.
#[allow(non_camel_case_types)]
#[derive(Debug, Clone, Copy, PartialEq, Eq, Structural, Hash)]
pub enum ContextType {
    /// The synthetic root: no scope is active.
    ROOT,
    /// A function or method definition.
    METHOD,
    /// A class definition.
    CLASS,
    /// A public export list (`__all__ = [...]`).
    ALL,
    /// A docstring span.
    DOCSTRING,
}

/// What a node is, as plain values.
pub struct NodeView {
    pub name: Seq<char>,
    pub kind: ContextType,
    pub start: Option<usize>,
    pub end: Option<usize>,
    pub is_public: bool,
    pub value: Option<Seq<char>>,
    pub children: Seq<usize>,
    pub parent: Option<usize>,
}

/// Whether a name follows the private-naming convention.
pub open spec fn starts_private(name: Seq<char>) -> bool {
    name.len() > 0 && name[0] == '_'
}

/// The text a node has accumulated; a node that never accumulated any holds
/// the empty text.
pub open spec fn text_of(value: Option<Seq<char>>) -> Seq<char> {
    match value {
        Some(v) => v,
        None => Seq::empty(),
    }
}

/// One node of the context tree. Nodes live in an arena; `children` and
/// `parent` hold positions in it.
pub struct ContextNode {
    pub name: String,
    pub context_type: ContextType,
    pub start: Option<usize>,
    pub end: Option<usize>,
    pub is_public: bool,
    pub value: Option<String>,
    pub children: Vec<usize>,
    pub parent: Option<usize>,
}

impl View for ContextNode {
    type V = NodeView;

    open spec fn view(&self) -> NodeView {
        NodeView {
            name: self.name@,
            kind: self.context_type,
            start: self.start,
            end: self.end,
            is_public: self.is_public,
            value: match self.value {
                Some(v) => Some(v@),
                None => None,
            },
            children: self.children@,
            parent: self.parent,
        }
    }
}

impl ContextNode {
    /// Appends `child_node` as the last child.
    pub fn add_node(&mut self, child_node: usize)
        ensures
            final(self)@ == (NodeView { children: old(self)@.children.push(child_node), ..old(self)@ }),
    {
        self.children.push(child_node);
    }

    /// Appends `new_value` to the accumulated text.
    pub fn append_value(&mut self, new_value: &String)
        ensures
            final(self)@ == (NodeView {
                value: Some(text_of(old(self)@.value) + new_value@),
                ..old(self)@
            }),
    {
        match &mut self.value {
            Some(v) => v.append(new_value.as_str()),
            None => self.value = Some(new_value.clone()),
        }
    }

    /// The start and end line, once the node is closed.
    pub fn location(&self) -> (r: Option<CodeLocation>)
        ensures
            r == (match (self@.start, self@.end) {
                (Some(s), Some(e)) => Some((s, e)),
                _ => None,
            }),
    {
        match (self.start, self.end) {
            (Some(s), Some(e)) => Some((s, e)),
            _ => None,
        }
    }

    /// A new open node with no text, children or parent.
    pub fn new(name: String, context_type: ContextType, start: usize, is_public: bool) -> (r:
        ContextNode)
        ensures
            r@ == (NodeView {
                name: name@,
                kind: context_type,
                start: Some(start),
                end: None,
                is_public,
                value: None,
                children: Seq::empty(),
                parent: None,
            }),
    {
        ContextNode {
            name,
            context_type,
            start: Some(start),
            end: None,
            is_public,
            value: None,
            children: Vec::new(),
            parent: None,
        }
    }

    /// The synthetic root: empty name, no lines, no parent.
    pub fn root() -> (r: ContextNode)
        ensures
            r@ == root_view(),
    {
        ContextNode {
            name: String::new(),
            context_type: ContextType::ROOT,
            start: None,
            end: None,
            is_public: true,
            value: None,
            children: Vec::new(),
            parent: None,
        }
    }

    /// Closes the node at line `end`; a node that is already closed keeps
    /// its end line.
    pub fn set_location(&mut self, end: usize)
        ensures
            final(self)@ == (NodeView {
                end: if old(self)@.end is None { Some(end) } else { old(self)@.end },
                ..old(self)@
            }),
    {
        if self.end.is_none() {
            self.end = Some(end);
        }
    }

    /// Records `parent_node` as the enclosing node.
    pub fn set_parent(&mut self, parent_node: usize)
        ensures
            final(self)@ == (NodeView { parent: Some(parent_node), ..old(self)@ }),
    {
        self.parent = Some(parent_node);
    }
}

/// The view of a fresh root node.
pub open spec fn root_view() -> NodeView {
    NodeView {
        name: Seq::empty(),
        kind: ContextType::ROOT,
        start: None,
        end: None,
        is_public: true,
        value: None,
        children: Seq::empty(),
        parent: None,
    }
}

} // verus!

verus! {

/// Four spaces for each level of nesting.
pub open spec fn indent_prefix(depth: nat) -> Seq<char> {
    Seq::new(4 * depth, |i: int| ' ')
}

/// The nesting depth of structural scopes.
pub struct Indent {
    depth: usize,
}

impl View for Indent {
    type V = nat;

    closed spec fn view(&self) -> nat {
        self.depth as nat
    }
}

impl Indent {
    /// Depth zero.
    pub fn new() -> (r: Indent)
        ensures
            r@ == 0,
    {
        Indent { depth: 0 }
    }

    /// One level deeper.
    pub fn increase(&mut self)
        requires
            old(self)@ < usize::MAX,
        ensures
            final(self)@ == old(self)@ + 1,
    {
        self.depth = self.depth + 1;
    }

    /// One level shallower; depth zero stays.
    pub fn decrease(&mut self)
        ensures
            final(self)@ == if old(self)@ == 0 { 0 } else { (old(self)@ - 1) as nat },
    {
        if self.depth > 0 {
            self.depth = self.depth - 1;
        }
    }

    /// The current depth.
    pub fn depth(&self) -> (r: usize)
        ensures
            r == self@,
    {
        self.depth
    }

    /// The indentation that lines at the current depth begin with.
    pub fn value(&self) -> (r: String)
        requires
            4 * self@ <= usize::MAX,
        ensures
            r@ == indent_prefix(self@),
    {
        spaces(self.depth)
    }
}

/// Four spaces for each of `depth` levels.
pub fn spaces(depth: usize) -> (r: String)
    requires
        4 * depth <= usize::MAX,
    ensures
        r@ == indent_prefix(depth as nat),
{
    let mut r = String::new();
    let mut i: usize = 0;
    proof {
        reveal_strlit("    ");
    }
    while i < depth
        invariant
            i <= depth,
            r@ =~= indent_prefix(i as nat),
            "    "@ == seq![' ', ' ', ' ', ' '],
        decreases depth - i,
    {
        r.append("    ");
        i = i + 1;
        assert(r@ =~= indent_prefix(i as nat));
    }
    r
}

} // verus!
