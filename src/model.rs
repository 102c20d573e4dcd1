//! The scan as a state machine over plain values: what each phase of a
//! line does to the tree, the indentation depth and the event log.
use vstd::prelude::*;
use crate::definitions::{ContextType, NodeView, indent_prefix, starts_private, text_of};
use crate::patterns::{
    ALL_MATCH, CLASS_MATCH, DEF_MATCH, DOCSTRING_END, DOCSTRING_START, regex_first_match,
    regex_matches,
};
use crate::rules::rule_kinds;
use crate::state::{
    StateView, ascend_spec, descend_spec, fresh_state, is_structural, path_len, structural_len,
    tree_wf,
};

verus! {

/// A transition of the scan, as plain values.
pub enum EventView {
    Enter { kind: ContextType, name: Seq<char>, line: usize },
    Exit { kind: ContextType, name: Seq<char>, line: usize },
}

/// A node that the final unwind had to close, as plain values.
pub struct UnclosedView {
    pub name: Seq<char>,
    pub start: usize,
}

/// The whole mutable state of a scan, as plain values.
pub struct ProcView {
    pub state: StateView,
    pub depth: nat,
    pub line: usize,
    pub events: Seq<EventView>,
    pub unclosed: Seq<UnclosedView>,
}

/// The number of `Enter` events.
pub open spec fn count_enter(events: Seq<EventView>) -> nat
    decreases events.len(),
{
    if events.len() == 0 {
        0
    } else {
        count_enter(events.drop_last()) + if events.last() is Enter {
            1nat
        } else {
            0nat
        }
    }
}

/// The number of `Exit` events.
pub open spec fn count_exit(events: Seq<EventView>) -> nat
    decreases events.len(),
{
    if events.len() == 0 {
        0
    } else {
        count_exit(events.drop_last()) + if events.last() is Exit {
            1nat
        } else {
            0nat
        }
    }
}

/// Whether `s` begins with `p`.
pub open spec fn has_prefix(s: Seq<char>, p: Seq<char>) -> bool {
    p.len() <= s.len() && s.subrange(0, p.len() as int) == p
}

/// Whether a newly matched `kind` is ignored because it and the `active`
/// kind are both non-structural.
pub open spec fn suppressed(active: ContextType, kind: ContextType) -> bool {
    rule_kinds().contains(active) && rule_kinds().contains(kind)
}

/// The entry chosen from which rules matched, in the fixed priority order
/// export list, class, method, docstring.
pub open spec fn select_spec(
    active: ContextType,
    all: bool,
    class: bool,
    method: bool,
    docstring: bool,
) -> Option<ContextType> {
    if all && !suppressed(active, ContextType::ALL) {
        Some(ContextType::ALL)
    } else if class && !suppressed(active, ContextType::CLASS) {
        Some(ContextType::CLASS)
    } else if method && !suppressed(active, ContextType::METHOD) {
        Some(ContextType::METHOD)
    } else if docstring && !suppressed(active, ContextType::DOCSTRING) {
        Some(ContextType::DOCSTRING)
    } else {
        None
    }
}

/// The entry that `line` opens while `active` is the active kind.
pub open spec fn classify_spec(active: ContextType, line: Seq<char>) -> Option<ContextType> {
    select_spec(
        active,
        regex_matches(ALL_MATCH@, line),
        regex_matches(CLASS_MATCH@, line),
        regex_matches(DEF_MATCH@, line),
        regex_matches(DOCSTRING_START@, line),
    )
}

/// The placeholder name of nodes whose kind carries no name.
pub open spec fn placeholder_name() -> Seq<char> {
    seq!['_', '_', 'e', 'm', 'p', 't', 'y', '_', '_']
}

/// Whether a node of `kind` takes its name from a match on the line.
pub open spec fn named_kind(kind: ContextType) -> bool {
    kind == ContextType::CLASS || kind == ContextType::METHOD
}

/// The source of the rule whose match names a node of `kind`.
pub open spec fn name_rule(kind: ContextType) -> Seq<char> {
    if kind == ContextType::CLASS {
        CLASS_MATCH@
    } else {
        DEF_MATCH@
    }
}

/// The name of a node of `kind` opened at `line`: the matched keyword and
/// identifier for classes and methods, the placeholder otherwise.
pub open spec fn name_spec(kind: ContextType, line: Seq<char>) -> Seq<char> {
    if named_kind(kind) {
        regex_first_match(name_rule(kind), line)
    } else {
        placeholder_name()
    }
}

/// Whether a name can be extracted for `kind` from `line`.
pub open spec fn name_found(kind: ContextType, line: Seq<char>) -> bool {
    named_kind(kind) ==> regex_matches(name_rule(kind), line)
}

/// The exit rule, from what was learnt of the current line and of the
/// next one: whether the current line is blank, whether it ends a
/// docstring, and for the next line (absent at the end of input) whether
/// it is blank or unindented and whether it would open an entry.
pub open spec fn exit_rule(
    kind: ContextType,
    blank: bool,
    ends_docstring: bool,
    next: Option<(bool, bool)>,
) -> bool {
    match kind {
        ContextType::ROOT => false,
        ContextType::DOCSTRING => ends_docstring,
        ContextType::CLASS => blank && match next {
            None => true,
            Some((dedent, _)) => dedent,
        },
        _ => blank && match next {
            None => true,
            Some((dedent, opens)) => dedent || opens,
        },
    }
}

/// The line after `i`, if any.
pub open spec fn next_line(lines: Seq<Seq<char>>, i: int) -> Option<Seq<char>> {
    if i + 1 < lines.len() {
        Some(lines[i + 1])
    } else {
        None
    }
}

/// Whether `line` is blank or lacks one level of indentation.
pub open spec fn dedented(line: Seq<char>) -> bool {
    line.len() == 0 || !has_prefix(line, indent_prefix(1))
}

/// Whether the scope of `kind` ends at `line`, followed by `next`.
pub open spec fn exit_spec(kind: ContextType, line: Seq<char>, next: Option<Seq<char>>) -> bool {
    exit_rule(
        kind,
        line.len() == 0,
        regex_matches(DOCSTRING_END@, line),
        match next {
            None => None,
            Some(n) => Some((dedented(n), classify_spec(kind, n) is Some)),
        },
    )
}

/// The initial scan state.
pub open spec fn initial_view() -> ProcView {
    ProcView {
        state: fresh_state(),
        depth: 0,
        line: 0,
        events: Seq::empty(),
        unclosed: Seq::empty(),
    }
}

/// The node that an entry of `kind` at `line` opens.
pub open spec fn entry_node(kind: ContextType, line: Seq<char>, at: usize) -> NodeView {
    let name = name_spec(kind, line);
    NodeView {
        name,
        kind,
        start: Some(at),
        end: None,
        is_public: !starts_private(name),
        value: None,
        children: Seq::empty(),
        parent: None,
    }
}

/// Entering a scope of `kind` opened by `line`.
pub open spec fn enter_spec(p: ProcView, kind: ContextType, line: Seq<char>) -> ProcView {
    let node = entry_node(kind, line, p.line);
    ProcView {
        state: descend_spec(p.state, node),
        depth: if rule_kinds().contains(kind) {
            p.depth
        } else {
            p.depth + 1
        },
        events: p.events.push(EventView::Enter { kind, name: node.name, line: p.line }),
        ..p
    }
}

/// Appending `line` to the active node when it is a docstring.
pub open spec fn extract_spec(p: ProcView, line: Seq<char>) -> ProcView {
    if p.state.kind == ContextType::DOCSTRING {
        let c = p.state.cursor as int;
        ProcView {
            state: StateView {
                nodes: p.state.nodes.update(
                    c,
                    NodeView {
                        value: Some(text_of(p.state.nodes[c].value) + line),
                        ..p.state.nodes[c]
                    },
                ),
                ..p.state
            },
            ..p
        }
    } else {
        p
    }
}

/// Leaving the active scope at the current line; `report` records it as
/// closed by force.
pub open spec fn exit_one_spec(p: ProcView, report: bool) -> ProcView {
    let node = p.state.nodes[p.state.cursor as int];
    ProcView {
        state: ascend_spec(p.state, p.line),
        depth: if is_structural(node.kind) && p.depth > 0 {
            (p.depth - 1) as nat
        } else {
            p.depth
        },
        events: p.events.push(EventView::Exit { kind: node.kind, name: node.name, line: p.line }),
        unclosed: if report {
            p.unclosed.push(
                UnclosedView {
                    name: node.name,
                    start: match node.start {
                        Some(s) => s,
                        None => 0,
                    },
                },
            )
        } else {
            p.unclosed
        },
        ..p
    }
}

/// Leaving every open scope, innermost first.
pub open spec fn unwind_spec(p: ProcView, report: bool) -> ProcView
    decreases p.state.cursor,
{
    let c = p.state.cursor;
    if c == 0 || c >= p.state.nodes.len() {
        p
    } else {
        match p.state.nodes[c as int].parent {
            Some(q) => if q < c {
                unwind_spec(exit_one_spec(p, report), report)
            } else {
                p
            },
            None => p,
        }
    }
}

/// Whether leaving the active scope also leaves every enclosing one: the
/// next line lacks the indentation of the depth recorded before leaving.
pub open spec fn cascades(p: ProcView, lines: Seq<Seq<char>>) -> bool {
    p.line + 1 < lines.len() && !has_prefix(lines[p.line + 1], indent_prefix(p.depth))
}

/// Leaving the active scope, and every enclosing one when it cascades.
pub open spec fn leave_spec(p: ProcView, lines: Seq<Seq<char>>) -> ProcView {
    if cascades(p, lines) {
        unwind_spec(p, false)
    } else {
        exit_one_spec(p, false)
    }
}

/// The state after the entry phase of the current line.
pub open spec fn entered_spec(p: ProcView, lines: Seq<Seq<char>>) -> ProcView {
    let line = lines[p.line as int];
    match classify_spec(p.state.kind, line) {
        Some(k) => enter_spec(p, k, line),
        None => p,
    }
}

/// One visited line: entry, extraction, exit, then the next line.
pub open spec fn step_spec(p: ProcView, lines: Seq<Seq<char>>) -> ProcView {
    let line = lines[p.line as int];
    let after_text = extract_spec(entered_spec(p, lines), line);
    let after_exit = if exit_spec(after_text.state.kind, line, next_line(lines, p.line as int)) {
        leave_spec(after_text, lines)
    } else {
        after_text
    };
    ProcView { line: (after_exit.line + 1) as usize, ..after_exit }
}

/// `n` visited lines from `p`.
pub open spec fn steps_spec(p: ProcView, lines: Seq<Seq<char>>, n: nat) -> ProcView
    decreases n,
{
    if n == 0 {
        p
    } else {
        step_spec(steps_spec(p, lines, (n - 1) as nat), lines)
    }
}

/// The number of lines a scan of `n` lines visits: all but the last.
pub open spec fn visit_count(n: nat) -> nat {
    if n == 0 {
        0
    } else {
        (n - 1) as nat
    }
}

/// The scan from `p` to its end: the remaining lines but the last, then
/// the forced closing of every scope still open.
pub open spec fn finish_spec(p: ProcView, lines: Seq<Seq<char>>) -> ProcView {
    unwind_spec(steps_spec(p, lines, (visit_count(lines.len()) - p.line) as nat), true)
}

/// The complete scan of `lines`.
pub open spec fn scan_spec(lines: Seq<Seq<char>>) -> ProcView {
    finish_spec(initial_view(), lines)
}

/// Every node is public exactly when its name does not follow the
/// private-naming convention.
#[verifier::opaque]
pub open spec fn visibility_holds(n: Seq<NodeView>) -> bool {
    forall|k: int| 0 <= k < n.len() ==> #[trigger] n[k].is_public == !starts_private(n[k].name)
}

/// No docstring node lies directly inside another.
#[verifier::opaque]
pub open spec fn no_nested_docstrings(n: Seq<NodeView>) -> bool {
    forall|k: int, q: int|
        #![trigger n[k].parent, n[q].kind]
        0 < k < n.len() && 0 <= q < n.len() && n[k].parent == Some(q as usize) && n[k].kind
            == ContextType::DOCSTRING ==> n[q].kind != ContextType::DOCSTRING
}

/// What holds of the scan state at every point.
pub open spec fn core_inv(p: ProcView) -> bool {
    let n = p.state.nodes;
    &&& tree_wf(p.state)
    &&& p.depth == structural_len(n, p.state.cursor as int)
    &&& count_enter(p.events) == count_exit(p.events) + path_len(n, p.state.cursor as int)
    &&& visibility_holds(n)
    &&& no_nested_docstrings(n)
}

/// Changing what a node holds but its name, visibility, kind and parent
/// keeps the node properties.
pub proof fn lemma_props_update(n: Seq<NodeView>, i: int, x: NodeView)
    requires
        0 <= i < n.len(),
        x.name == n[i].name,
        x.is_public == n[i].is_public,
        x.kind == n[i].kind,
        x.parent == n[i].parent,
        visibility_holds(n),
        no_nested_docstrings(n),
    ensures
        visibility_holds(n.update(i, x)),
        no_nested_docstrings(n.update(i, x)),
{
    let m = n.update(i, x);
    reveal(visibility_holds);
    reveal(no_nested_docstrings);
    assert forall|j: int| 0 <= j < m.len() implies #[trigger] m[j].is_public == !starts_private(
        m[j].name,
    ) by {
        assert(m[j].name == n[j].name && m[j].is_public == n[j].is_public);
    }
    assert forall|j: int, q: int|
        #![trigger m[j].parent, m[q].kind]
        0 < j < m.len() && 0 <= q < m.len() && m[j].parent == Some(q as usize) && m[j].kind
            == ContextType::DOCSTRING implies m[q].kind != ContextType::DOCSTRING by {
        assert(m[j].kind == n[j].kind && m[j].parent == n[j].parent);
        assert(m[q].kind == n[q].kind);
        assert(n[j].parent == Some(q as usize));
    }
}

/// What holds of the scan state between two lines.
pub open spec fn model_inv(p: ProcView) -> bool {
    &&& core_inv(p)
    &&& p.state.nodes.len() <= p.line + 1
}

} // verus!

verus! {

pub(crate) proof fn lemma_count_push(events: Seq<EventView>, e: EventView)
    ensures
        count_enter(events.push(e)) == count_enter(events) + if e is Enter {
            1nat
        } else {
            0nat
        },
        count_exit(events.push(e)) == count_exit(events) + if e is Exit {
            1nat
        } else {
            0nat
        },
{
    assert(events.push(e).drop_last() =~= events);
}

/// The rule set holds the docstring kind alone.
pub proof fn lemma_rule_kinds(k: ContextType)
    ensures
        rule_kinds().contains(k) <==> k == ContextType::DOCSTRING,
{
    if k == ContextType::DOCSTRING {
        assert(rule_kinds()[0] == k);
    }
}

pub(crate) proof fn lemma_enter_inv(p: ProcView, k: ContextType, line: Seq<char>)
    requires
        core_inv(p),
        k != ContextType::ROOT,
        !suppressed(p.state.kind, k),
        p.state.nodes.len() < usize::MAX,
    ensures
        core_inv(enter_spec(p, k, line)),
        enter_spec(p, k, line).state.nodes.len() == p.state.nodes.len() + 1,
{
    let q = enter_spec(p, k, line);
    let node = entry_node(k, line, p.line);
    crate::state::lemma_descend_wf(p.state, node);
    lemma_count_push(p.events, EventView::Enter { kind: k, name: node.name, line: p.line });
    lemma_rule_kinds(k);
    lemma_rule_kinds(p.state.kind);
    let n = p.state.nodes;
    let c = p.state.cursor as int;
    let mid = n.update(c, NodeView { children: n[c].children.push(n.len() as usize), ..n[c] });
    let x = NodeView { parent: Some(p.state.cursor), ..node };
    lemma_props_update(n, c, mid[c]);
    let m = q.state.nodes;
    assert(m == mid.push(x));
    reveal(visibility_holds);
    reveal(no_nested_docstrings);
    assert forall|j: int| 0 <= j < m.len() implies #[trigger] m[j].is_public == !starts_private(
        m[j].name,
    ) by {
        if j < n.len() {
            assert(m[j] == mid[j]);
        }
    }
    assert forall|j: int, r: int|
        #![trigger m[j].parent, m[r].kind]
        0 < j < m.len() && 0 <= r < m.len() && m[j].parent == Some(r as usize) && m[j].kind
            == ContextType::DOCSTRING implies m[r].kind != ContextType::DOCSTRING by {
        if j < n.len() {
            assert(m[j] == mid[j]);
            reveal(crate::state::wf_links);
            assert(n[j].parent is Some);
            assert(r < j);
            assert(m[r] == mid[r]);
        } else {
            assert(m[j] == x);
            assert(m[r] == mid[r]);
            assert(mid[c].kind == n[c].kind);
        }
    }
}

pub(crate) proof fn lemma_extract_inv(p: ProcView, line: Seq<char>)
    requires
        core_inv(p),
    ensures
        core_inv(extract_spec(p, line)),
        extract_spec(p, line).state.nodes.len() == p.state.nodes.len(),
        extract_spec(p, line).state.cursor == p.state.cursor,
        extract_spec(p, line).state.kind == p.state.kind,
{
    if p.state.kind == ContextType::DOCSTRING {
        let c = p.state.cursor as int;
        let n = p.state.nodes;
        let x = NodeView { value: Some(text_of(n[c].value) + line), ..n[c] };
        crate::state::lemma_update_payload_wf(p.state, c, x);
        lemma_props_update(n, c, x);
    }
}

pub(crate) proof fn lemma_exit_one_inv(p: ProcView, report: bool)
    requires
        core_inv(p),
        p.state.cursor != 0,
    ensures
        core_inv(exit_one_spec(p, report)),
        exit_one_spec(p, report).state.cursor < p.state.cursor,
        exit_one_spec(p, report).state.nodes.len() == p.state.nodes.len(),
        exit_one_spec(p, report).line == p.line,
        forall|j: int|
            0 <= j < p.state.nodes.len() ==> #[trigger] exit_one_spec(p, report).state.nodes[j].value
                == p.state.nodes[j].value,
{
    let n = p.state.nodes;
    let c = p.state.cursor as int;
    crate::state::lemma_ascend_wf(p.state, p.line);
    lemma_count_push(
        p.events,
        EventView::Exit { kind: n[c].kind, name: n[c].name, line: p.line },
    );
    let x = NodeView { end: if n[c].end is None { Some(p.line) } else { n[c].end }, ..n[c] };
    lemma_props_update(n, c, x);
    assert(exit_one_spec(p, report).state.nodes == n.update(c, x));
}

pub(crate) proof fn lemma_unwind_inv(p: ProcView, report: bool)
    requires
        core_inv(p),
    ensures
        core_inv(unwind_spec(p, report)),
        unwind_spec(p, report).state.cursor == 0,
        unwind_spec(p, report).state.nodes.len() == p.state.nodes.len(),
        unwind_spec(p, report).line == p.line,
        forall|j: int|
            0 <= j < p.state.nodes.len() ==> #[trigger] unwind_spec(p, report).state.nodes[j].value
                == p.state.nodes[j].value,
    decreases p.state.cursor,
{
    let c = p.state.cursor;
    if c != 0 {
        crate::state::lemma_ascend_wf(p.state, p.line);
        reveal(crate::state::wf_links);
        assert(p.state.nodes[c as int].parent is Some);
        lemma_exit_one_inv(p, report);
        lemma_unwind_inv(exit_one_spec(p, report), report);
    }
}

pub(crate) proof fn lemma_leave_inv(p: ProcView, lines: Seq<Seq<char>>)
    requires
        core_inv(p),
        p.state.cursor != 0,
    ensures
        core_inv(leave_spec(p, lines)),
        leave_spec(p, lines).state.nodes.len() == p.state.nodes.len(),
        leave_spec(p, lines).line == p.line,
        forall|j: int|
            0 <= j < p.state.nodes.len() ==> #[trigger] leave_spec(p, lines).state.nodes[j].value
                == p.state.nodes[j].value,
{
    if cascades(p, lines) {
        lemma_unwind_inv(p, false);
    } else {
        lemma_exit_one_inv(p, false);
    }
}

/// One visited line keeps the scan state well formed.
pub proof fn lemma_step_inv(p: ProcView, lines: Seq<Seq<char>>)
    requires
        model_inv(p),
        p.line + 1 < lines.len(),
        lines.len() <= usize::MAX,
    ensures
        model_inv(step_spec(p, lines)),
        step_spec(p, lines).line == p.line + 1,
{
    let line = lines[p.line as int];
    let after_entry = entered_spec(p, lines);
    match classify_spec(p.state.kind, line) {
        Some(k) => {
            lemma_enter_inv(p, k, line);
        },
        None => {},
    }
    let after_text = extract_spec(after_entry, line);
    lemma_extract_inv(after_entry, line);
    if exit_spec(after_text.state.kind, line, next_line(lines, p.line as int)) {
        crate::state::lemma_root_kind(after_text.state);
        lemma_leave_inv(after_text, lines);
    }
}

/// Visited lines keep the scan state well formed.
pub proof fn lemma_steps_inv(p: ProcView, lines: Seq<Seq<char>>, n: nat)
    requires
        model_inv(p),
        n == 0 || p.line + n < lines.len(),
        lines.len() <= usize::MAX,
    ensures
        model_inv(steps_spec(p, lines, n)),
        steps_spec(p, lines, n).line == p.line + n,
    decreases n,
{
    if n > 0 {
        lemma_steps_inv(p, lines, (n - 1) as nat);
        lemma_step_inv(steps_spec(p, lines, (n - 1) as nat), lines);
    }
}

/// The initial state is well formed.
pub proof fn lemma_initial_inv()
    ensures
        model_inv(initial_view()),
{
    let p = initial_view();
    reveal(crate::state::wf_links);
    reveal(crate::state::wf_children);
    reveal(crate::state::wf_open);
    reveal(visibility_holds);
    reveal(no_nested_docstrings);
    assert(p.state.nodes[0] == crate::definitions::root_view());
    assert(count_enter(p.events) == 0);
    assert(count_exit(p.events) == 0);
    assert(!starts_private(p.state.nodes[0].name));
}

} // verus!
