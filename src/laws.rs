//! What holds of every complete scan.
use vstd::prelude::*;
use crate::definitions::{ContextType, starts_private, text_of};
use crate::model::{
    classify_spec, core_inv, count_enter, count_exit, entered_spec, initial_view, no_nested_docstrings,
    scan_spec, steps_spec, visibility_holds, visit_count,
};
use crate::patterns::{DOCSTRING_START, regex_matches};
use crate::state::{StateView, on_path};

verus! {

/// A complete scan ends well formed, with the root active.
proof fn lemma_scan_inv(lines: Seq<Seq<char>>)
    requires
        lines.len() <= usize::MAX,
    ensures
        core_inv(scan_spec(lines)),
        scan_spec(lines).state.cursor == 0,
{
    crate::model::lemma_initial_inv();
    let n = visit_count(lines.len());
    crate::model::lemma_steps_inv(initial_view(), lines, n);
    crate::model::lemma_unwind_inv(steps_spec(initial_view(), lines, n), true);
}

/// Every scope a scan opens it also closes: a complete scan records as
/// many `Exit` events as `Enter` events.
pub proof fn lemma_scan_balanced(lines: Seq<Seq<char>>)
    requires
        lines.len() <= usize::MAX,
    ensures
        count_enter(scan_spec(lines).events) == count_exit(scan_spec(lines).events),
{
    lemma_scan_inv(lines);
}

/// The tree of a complete scan has the root at position 0, of the root
/// kind, without parent, start or end; every other node is closed.
pub proof fn lemma_scan_root(lines: Seq<Seq<char>>)
    requires
        lines.len() <= usize::MAX,
    ensures
        ({
            let n = scan_spec(lines).state.nodes;
            &&& n.len() >= 1
            &&& n[0].kind == ContextType::ROOT
            &&& n[0].parent is None
            &&& n[0].start is None
            &&& n[0].end is None
            &&& forall|k: int| 0 < k < n.len() ==> (#[trigger] n[k]).end is Some
        }),
{
    lemma_scan_inv(lines);
    let n = scan_spec(lines).state.nodes;
    reveal(crate::state::wf_open);
    assert forall|k: int| 0 < k < n.len() implies (#[trigger] n[k]).end is Some by {
        assert(!on_path(n, 0, k));
    }
}

/// Every node of a scanned tree is public exactly when its name does not
/// begin with an underscore.
pub proof fn lemma_scan_visibility(lines: Seq<Seq<char>>)
    requires
        lines.len() <= usize::MAX,
    ensures
        forall|k: int|
            0 <= k < scan_spec(lines).state.nodes.len() ==> (#[trigger] scan_spec(
                lines,
            ).state.nodes[k]).is_public == !starts_private(scan_spec(lines).state.nodes[k].name),
{
    lemma_scan_inv(lines);
    reveal(visibility_holds);
}

/// Scanning the same lines twice gives the same tree, events and forced
/// closings.
pub proof fn lemma_scan_deterministic(a: Seq<Seq<char>>, b: Seq<Seq<char>>)
    requires
        a =~= b,
    ensures
        scan_spec(a).state.nodes == scan_spec(b).state.nodes,
        scan_spec(a).events == scan_spec(b).events,
        scan_spec(a).unclosed == scan_spec(b).unclosed,
{
}

/// A line that would start a docstring does not open one while a
/// docstring is active.
pub proof fn lemma_docstring_not_reentered(line: Seq<char>)
    requires
        regex_matches(DOCSTRING_START@, line),
    ensures
        classify_spec(ContextType::DOCSTRING, line) != Some(ContextType::DOCSTRING),
{
    crate::model::lemma_rule_kinds(ContextType::DOCSTRING);
}

/// No docstring node of a scanned tree lies directly inside another.
pub proof fn lemma_scan_no_nested_docstrings(lines: Seq<Seq<char>>)
    requires
        lines.len() <= usize::MAX,
    ensures
        ({
            let n = scan_spec(lines).state.nodes;
            forall|k: int|
                0 < k < n.len() && (#[trigger] n[k]).kind == ContextType::DOCSTRING ==> n[n[k].parent->0 as int].kind
                    != ContextType::DOCSTRING
        }),
{
    lemma_scan_inv(lines);
    let n = scan_spec(lines).state.nodes;
    reveal(no_nested_docstrings);
    reveal(crate::state::wf_links);
    assert forall|k: int|
        0 < k < n.len() && (#[trigger] n[k]).kind == ContextType::DOCSTRING implies n[n[k].parent->0 as int].kind
        != ContextType::DOCSTRING by {
        assert(n[k].parent is Some);
    }
}

/// The cursor state while line `i` is visited, once its entry phase is
/// done: the node that receives text on that line.
pub open spec fn active_at(lines: Seq<Seq<char>>, i: nat) -> StateView {
    entered_spec(steps_spec(initial_view(), lines, i), lines).state
}

/// The concatenation, in order, of the first `n` visited lines during
/// which node `k` was the active docstring.
pub open spec fn docstring_text(lines: Seq<Seq<char>>, k: int, n: nat) -> Seq<char>
    decreases n,
{
    if n == 0 {
        Seq::empty()
    } else {
        let a = active_at(lines, (n - 1) as nat);
        docstring_text(lines, k, (n - 1) as nat) + if a.cursor == k && a.kind
            == ContextType::DOCSTRING {
            lines[n - 1]
        } else {
            Seq::empty()
        }
    }
}

proof fn lemma_text_prefix(lines: Seq<Seq<char>>, i: nat)
    requires
        lines.len() <= usize::MAX,
        i == 0 || i < lines.len(),
    ensures
        ({
            let s = steps_spec(initial_view(), lines, i).state.nodes;
            &&& forall|k: int|
                0 <= k < s.len() ==> #[trigger] text_of(s[k].value) == docstring_text(lines, k, i)
            &&& forall|k: int| k >= s.len() ==> #[trigger] docstring_text(lines, k, i) == Seq::<
                char,
            >::empty()
        }),
    decreases i,
{
    crate::model::lemma_initial_inv();
    if i == 0 {
        let s = initial_view().state.nodes;
        assert forall|k: int| 0 <= k < s.len() implies #[trigger] text_of(s[k].value)
            == docstring_text(lines, k, 0) by {
            assert(s[k].value is None);
        }
    } else {
        let j = (i - 1) as nat;
        lemma_text_prefix(lines, j);
        crate::model::lemma_steps_inv(initial_view(), lines, j);
        let p = steps_spec(initial_view(), lines, j);
        let line = lines[p.line as int];
        let e = entered_spec(p, lines);
        match classify_spec(p.state.kind, line) {
            Some(c) => {
                crate::model::lemma_rule_kinds(c);
                crate::model::lemma_enter_inv(p, c, line);
            },
            None => {},
        }
        assert(p.line == j);
        assert(e.state == active_at(lines, j));
        assert(forall|k: int|
            0 <= k < p.state.nodes.len() ==> #[trigger] e.state.nodes[k].value
                == p.state.nodes[k].value);
        assert(e.state.nodes.len() > p.state.nodes.len() ==> e.state.nodes[p.state.nodes.len() as int].value
            is None);
        let x = crate::model::extract_spec(e, line);
        crate::model::lemma_extract_inv(e, line);
        if crate::model::exit_spec(x.state.kind, line, crate::model::next_line(lines, p.line as int)) {
            crate::state::lemma_root_kind(x.state);
            crate::model::lemma_leave_inv(x, lines);
        }
        let t = steps_spec(initial_view(), lines, i).state.nodes;
        assert(t.len() == e.state.nodes.len());
        assert(forall|k: int| 0 <= k < t.len() ==> #[trigger] t[k].value == x.state.nodes[k].value);
        assert forall|k: int| 0 <= k < t.len() implies #[trigger] text_of(t[k].value)
            == docstring_text(lines, k, i) by {
            assert(t[k].value == x.state.nodes[k].value);
            let a = active_at(lines, j);
            let add = if a.cursor == k && a.kind == ContextType::DOCSTRING {
                lines[j as int]
            } else {
                Seq::<char>::empty()
            };
            assert(docstring_text(lines, k, i) == docstring_text(lines, k, j) + add);
            if k < p.state.nodes.len() {
                assert(e.state.nodes[k].value == p.state.nodes[k].value);
                assert(text_of(e.state.nodes[k].value) == docstring_text(lines, k, j));
            } else {
                assert(docstring_text(lines, k, j) == Seq::<char>::empty());
                assert(text_of(e.state.nodes[k].value) == docstring_text(lines, k, j));
            }
            if a.cursor == k && a.kind == ContextType::DOCSTRING {
                assert(text_of(x.state.nodes[k].value) == text_of(e.state.nodes[k].value) + line);
            } else {
                assert(x.state.nodes[k].value == e.state.nodes[k].value);
                assert(docstring_text(lines, k, i) =~= docstring_text(lines, k, j));
            }
        }
        assert forall|k: int| k >= t.len() implies #[trigger] docstring_text(lines, k, i) == Seq::<
            char,
        >::empty() by {
            assert(docstring_text(lines, k, j) == Seq::<char>::empty());
            assert(e.state.cursor < e.state.nodes.len());
            assert(docstring_text(lines, k, i) =~= docstring_text(lines, k, j));
        }
    }
}

/// The text of each node of a scanned tree is the concatenation, in
/// order, of every visited line during which it was the active docstring.
pub proof fn lemma_scan_docstring_content(lines: Seq<Seq<char>>)
    requires
        lines.len() <= usize::MAX,
    ensures
        forall|k: int|
            0 <= k < scan_spec(lines).state.nodes.len() ==> #[trigger] text_of(
                scan_spec(lines).state.nodes[k].value,
            ) == docstring_text(lines, k, visit_count(lines.len())),
{
    let n = visit_count(lines.len());
    lemma_text_prefix(lines, n);
    crate::model::lemma_initial_inv();
    crate::model::lemma_steps_inv(initial_view(), lines, n);
    crate::model::lemma_unwind_inv(steps_spec(initial_view(), lines, n), true);
}

} // verus!
