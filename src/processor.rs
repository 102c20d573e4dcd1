//! The line-by-line driver: classifies each line, opens and closes scopes,
//! accumulates docstring text and records every transition.
//!
//! Policies of the heuristic:
//! - Indentation is four spaces per level. A tab counts as no indentation,
//!   so a line indented with tabs reads as unindented.
//! - A docstring opens on a triple double quote after four whitespace
//!   characters, and closes on a line that ends with a triple quote of
//!   either style; a docstring opened with single quotes is not detected.
//! - A definition header is a single line.
//! - The last line of the input is never visited: a definition that
//!   stands on it opens nothing. Scopes still open at that point are closed
//!   by force at its index and reported as unclosed.
//! - When a scope ends, the next line is held against the indentation of
//!   the depth that the tracker records before the scope is left; when it
//!   lacks it, every open scope ends at once.
use vstd::prelude::*;
use vstd::string::StringExecFns;
use crate::definitions::{ContextNode, ContextType, Indent, indent_prefix, spaces};
use crate::model::{
    EventView, ProcView, UnclosedView, classify_spec, core_inv, cascades, exit_one_spec,
    exit_rule, exit_spec, extract_spec, enter_spec, finish_spec, has_prefix, initial_view,
    model_inv, name_found, name_spec, next_line, select_spec, step_spec, steps_spec,
    unwind_spec, visit_count, placeholder_name, suppressed,
};
use crate::patterns::{PatternRegistry, regex_compiles, registry_compiles};
use crate::rules::{LogicContext, rule_kinds};
use crate::state::{ContextState, fresh_state};

verus! {

/// A transition of the scan.
#[derive(Debug)]
pub enum ContextEvent {
    /// A scope of `kind` named `name` opened at `line`.
    Enter { kind: ContextType, name: String, line: usize },
    /// A scope of `kind` named `name` closed at `line`.
    Exit { kind: ContextType, name: String, line: usize },
}

impl View for ContextEvent {
    type V = EventView;

    open spec fn view(&self) -> EventView {
        match self {
            ContextEvent::Enter { kind, name, line } => EventView::Enter {
                kind: *kind,
                name: name@,
                line: *line,
            },
            ContextEvent::Exit { kind, name, line } => EventView::Exit {
                kind: *kind,
                name: name@,
                line: *line,
            },
        }
    }
}

/// A scope that was still open when the input ended and was closed by
/// force.
#[derive(Debug)]
pub struct UnclosedContext {
    pub name: String,
    pub start: usize,
}

impl View for UnclosedContext {
    type V = UnclosedView;

    open spec fn view(&self) -> UnclosedView {
        UnclosedView { name: self.name@, start: self.start }
    }
}

/// What can go wrong while loading or scanning.
#[derive(Debug)]
pub enum ContextError {
    /// An entry of a named kind at `line` yielded no name.
    NoCaptureMatch { line: usize },
    /// The detection rule `pattern` does not compile.
    InvalidPattern { pattern: String },
}

/// Relies on `str::starts_with`: whether `s` begins with `prefix`.
#[verifier::external_body]
fn starts_with(s: &str, prefix: &str) -> (r: bool)
    ensures
        r == has_prefix(s@, prefix@),
{
    s.starts_with(prefix)
}

/// The entry chosen from which detection rules matched a line, while
/// `active` is the active kind: the first in the order export list,
/// class, method, docstring that the rule set does not suppress.
pub fn select_context(
    rules: &LogicContext,
    active: ContextType,
    all: bool,
    class: bool,
    method: bool,
    docstring: bool,
) -> (r: Option<ContextType>)
    requires
        rules@ == rule_kinds(),
    ensures
        r == select_spec(active, all, class, method, docstring),
{
    let active_rule = rules.contains(&active);
    if all && !(active_rule && rules.contains(&ContextType::ALL)) {
        Some(ContextType::ALL)
    } else if class && !(active_rule && rules.contains(&ContextType::CLASS)) {
        Some(ContextType::CLASS)
    } else if method && !(active_rule && rules.contains(&ContextType::METHOD)) {
        Some(ContextType::METHOD)
    } else if docstring && !(active_rule && rules.contains(&ContextType::DOCSTRING)) {
        Some(ContextType::DOCSTRING)
    } else {
        None
    }
}

/// The exit rule for an active scope of `kind`, from whether the current
/// line is blank, whether it ends a docstring, and, unless the input ends,
/// whether the next line is blank or unindented and whether it would open
/// an entry.
pub fn decide_exit(
    kind: ContextType,
    blank: bool,
    ends_docstring: bool,
    next: Option<(bool, bool)>,
) -> (r: bool)
    ensures
        r == exit_rule(kind, blank, ends_docstring, next),
{
    match kind {
        ContextType::ROOT => false,
        ContextType::DOCSTRING => ends_docstring,
        ContextType::CLASS => blank && match next {
            None => true,
            Some((dedent, _)) => dedent,
        },
        _ => blank && match next {
            None => true,
            Some((dedent, opens)) => dedent || opens,
        },
    }
}

/// Whether `name` begins with an underscore.
fn starts_underscore(name: &String) -> (r: bool)
    ensures
        r == crate::definitions::starts_private(name@),
{
    proof {
        reveal_strlit("_");
    }
    let r = starts_with(name.as_str(), "_");
    proof {
        if name@.len() > 0 {
            assert(name@.subrange(0, 1)[0] == name@[0]);
            if name@[0] == '_' {
                assert(name@.subrange(0, 1) =~= "_"@);
            }
        }
    }
    r
}

/// The scan over the lines of one source file.
pub struct ContextProcessor {
    /// The tree and the cursor into it.
    pub context_state: ContextState,
    /// The line being visited.
    pub line_counter: usize,
    /// The input.
    pub file_lines: Vec<String>,
    rules: LogicContext,
    max_height: usize,
    indent: Indent,
    patterns: PatternRegistry,
    /// The transitions so far, in order.
    pub events: Vec<ContextEvent>,
    /// The scopes that the end of the input closed by force.
    pub unclosed: Vec<UnclosedContext>,
}

impl View for ContextProcessor {
    type V = ProcView;

    closed spec fn view(&self) -> ProcView {
        ProcView {
            state: self.context_state@,
            depth: self.indent@,
            line: self.line_counter,
            events: self.events@.map_values(|e: ContextEvent| e@),
            unclosed: self.unclosed@.map_values(|u: UnclosedContext| u@),
        }
    }
}

impl ContextProcessor {
    /// The input lines as plain values.
    pub closed spec fn lines(&self) -> Seq<Seq<char>> {
        self.file_lines@.map_values(|s: String| s@)
    }

    /// The fixed parts: the rule set, the detection rules and the input
    /// length.
    pub closed spec fn config_wf(&self) -> bool {
        &&& self.rules@ == rule_kinds()
        &&& self.patterns.wf()
        &&& self.max_height == self.file_lines@.len()
        &&& self.file_lines@.len() <= usize::MAX / 4
    }

    /// The state between two visited lines.
    pub closed spec fn wf(&self) -> bool {
        &&& self.config_wf()
        &&& model_inv(self@)
        &&& self.line_counter <= visit_count(self.file_lines@.len() as nat)
    }

    /// The state while a line that is not the last is visited.
    pub closed spec fn visiting(&self) -> bool {
        &&& self.config_wf()
        &&& core_inv(self@)
        &&& self.line_counter + 1 < self.max_height
        &&& self@.state.nodes.len() <= self.line_counter + 2
    }

    /// A scan of `file_lines` ready to start; fails when a detection rule
    /// does not compile. The indentation prefix of the deepest nesting the
    /// input allows must fit in memory, which bounds the number of lines.
    pub fn load(file_lines: Vec<String>) -> (r: Result<ContextProcessor, ContextError>)
        requires
            file_lines@.len() <= usize::MAX / 4,
        ensures
            r is Ok <==> registry_compiles(),
            r matches Ok(p) ==> {
                &&& p.wf()
                &&& p.config_wf()
                &&& core_inv(p@)
                &&& p@ == initial_view()
                &&& p.lines() == file_lines@.map_values(|s: String| s@)
            },
            r matches Err(e) ==> e is InvalidPattern,
            r matches Err(ContextError::InvalidPattern { pattern }) ==> !regex_compiles(pattern@),
    {
        let patterns = match PatternRegistry::load() {
            Ok(reg) => reg,
            Err(e) => {
                return Err(ContextError::InvalidPattern { pattern: e.pattern });
            },
        };
        let max_height = file_lines.len();
        let p = ContextProcessor {
            context_state: ContextState::new(),
            line_counter: 0,
            max_height,
            file_lines,
            rules: LogicContext::new(),
            indent: Indent::new(),
            patterns,
            events: Vec::new(),
            unclosed: Vec::new(),
        };
        proof {
            crate::model::lemma_initial_inv();
            assert(p@.events =~= Seq::<EventView>::empty());
            assert(p@.unclosed =~= Seq::<UnclosedView>::empty());
        }
        Ok(p)
    }

    /// The entry that `current_line` opens while the active kind is
    /// active, if any.
    pub fn check_context_entry(&self, current_line: &String) -> (r: Option<ContextType>)
        requires
            self.config_wf(),
        ensures
            r == classify_spec(self@.state.kind, current_line@),
    {
        let line = current_line.as_str();
        let all = self.patterns.all.is_match(line);
        let class = self.patterns.class.is_match(line);
        let method = self.patterns.method.is_match(line);
        let docstring = self.patterns.docstring_start.is_match(line);
        select_context(&self.rules, self.context_state.context_type, all, class, method, docstring)
    }

    /// The name of an entry of `kind` opened by `current_line`.
    fn name_for(&self, kind: ContextType, current_line: &String) -> (r: Result<String, ContextError>)
        requires
            self.config_wf(),
        ensures
            r is Ok <==> name_found(kind, current_line@),
            r matches Ok(n) ==> n@ == name_spec(kind, current_line@),
            r matches Err(e) ==> e matches ContextError::NoCaptureMatch { line } && line
                == self@.line,
    {
        let found = match kind {
            ContextType::METHOD => self.patterns.method.find(current_line.as_str()),
            ContextType::CLASS => self.patterns.class.find(current_line.as_str()),
            _ => {
                proof {
                    reveal_strlit("__empty__");
                }
                let r = String::from_str("__empty__");
                assert(r@ =~= placeholder_name());
                return Ok(r);
            },
        };
        match found {
            Some(name) => Ok(name),
            None => Err(ContextError::NoCaptureMatch { line: self.line_counter }),
        }
    }

    /// The name of an entry of the active kind opened by `current_line`:
    /// the matched keyword and identifier for classes and methods, a
    /// placeholder for the other kinds.
    pub fn get_context_name(&self, current_line: &String) -> (r: Result<String, ContextError>)
        requires
            self.config_wf(),
        ensures
            r is Ok <==> name_found(self@.state.kind, current_line@),
            r matches Ok(n) ==> n@ == name_spec(self@.state.kind, current_line@),
            r matches Err(e) ==> e matches ContextError::NoCaptureMatch { line } && line
                == self@.line,
    {
        self.name_for(self.context_state.context_type, current_line)
    }

    /// Opens a scope of `context_type` at the current line: a new node
    /// named after `current_line` becomes the last child of the active
    /// node and the active node itself, a structural kind deepens the
    /// indentation, and an `Enter` event is recorded. Without a name for a
    /// named kind nothing changes and the error says so.
    pub fn start_context(&mut self, context_type: ContextType, current_line: &String) -> (r:
        Result<(), ContextError>)
        requires
            old(self).config_wf(),
            core_inv(old(self)@),
            old(self)@.state.nodes.len() + 1 < usize::MAX,
            context_type != ContextType::ROOT,
            !suppressed(old(self)@.state.kind, context_type),
        ensures
            r is Ok <==> name_found(context_type, current_line@),
            r is Ok ==> final(self)@ == enter_spec(old(self)@, context_type, current_line@),
            r matches Err(e) ==> {
                &&& final(self)@ == old(self)@
                &&& e matches ContextError::NoCaptureMatch { line } && line == old(self)@.line
            },
            final(self).config_wf(),
            final(self).lines() == old(self).lines(),
            final(self)@.line == old(self)@.line,
            core_inv(final(self)@),
            final(self)@.state.nodes.len() <= old(self)@.state.nodes.len() + 1,
    {
        let context_name = match self.name_for(context_type, current_line) {
            Ok(n) => n,
            Err(e) => {
                return Err(e);
            },
        };
        let ghost old_view = self@;
        let ghost node_view = crate::model::entry_node(context_type, current_line@, self.line_counter);
        proof {
            crate::model::lemma_enter_inv(self@, context_type, current_line@);
            crate::state::lemma_path_bounds(self@.state.nodes, self@.state.cursor as int);
            crate::model::lemma_rule_kinds(context_type);
        }
        let is_public = !starts_underscore(&context_name);
        let event = ContextEvent::Enter {
            kind: context_type,
            name: context_name.clone(),
            line: self.line_counter,
        };
        let child_node = ContextNode::new(context_name, context_type, self.line_counter, is_public);
        assert(child_node@ == node_view);
        self.context_state.descend(child_node);
        if !self.rules.contains(&context_type) {
            self.indent.increase();
        }
        self.events.push(event);
        assert(self@.events =~= old_view.events.push(event@));
        Ok(())
    }

    /// Appends `current_line` to the active node when it is a docstring.
    pub fn extract_context_data(&mut self, current_line: &String)
        requires
            old(self).config_wf(),
            core_inv(old(self)@),
        ensures
            final(self)@ == extract_spec(old(self)@, current_line@),
            final(self).config_wf(),
            core_inv(final(self)@),
            final(self).lines() == old(self).lines(),
    {
        proof {
            crate::model::lemma_extract_inv(self@, current_line@);
        }
        if self.context_state.context_type == ContextType::DOCSTRING {
            let ghost s = self@;
            let c = self.context_state.context_node;
            self.context_state.nodes[c].append_value(current_line);
            assert(self@.state.nodes =~= extract_spec(s, current_line@).state.nodes);
        }
    }

    /// Whether the active scope ends at `current_line`, looking at the
    /// next line when the kind asks for it.
    pub fn check_context_exit(&self, current_line: &String) -> (r: bool)
        requires
            self.config_wf(),
        ensures
            r == exit_spec(self@.state.kind, current_line@, next_line(self.lines(), self@.line as int)),
    {
        let kind = self.context_state.context_type;
        let blank = current_line.as_str().is_empty();
        let ends_docstring = if kind == ContextType::DOCSTRING {
            self.patterns.docstring_end.is_match(current_line.as_str())
        } else {
            false
        };
        let next = if self.line_counter < self.max_height && self.line_counter + 1 < self.max_height {
            let second_line = &self.file_lines[self.line_counter + 1];
            proof {
                reveal_strlit("    ");
                assert("    "@ =~= indent_prefix(1));
            }
            let dedent = second_line.as_str().is_empty() || !starts_with(
                second_line.as_str(),
                "    ",
            );
            let opens = if kind == ContextType::METHOD || kind == ContextType::ALL {
                self.check_context_entry(second_line).is_some()
            } else {
                false
            };
            Some((dedent, opens))
        } else {
            None
        };
        decide_exit(kind, blank, ends_docstring, next)
    }

    /// Leaves the active scope at the current line: records an `Exit`
    /// event (and, when `report`, the scope as closed by force), makes the
    /// indentation shallower for a structural kind, and ascends.
    fn exit_context(&mut self, report: bool)
        requires
            old(self).config_wf(),
            core_inv(old(self)@),
            old(self)@.state.cursor != 0,
        ensures
            final(self)@ == exit_one_spec(old(self)@, report),
            final(self).config_wf(),
            final(self).lines() == old(self).lines(),
            core_inv(final(self)@),
    {
        let ghost s = self@;
        proof {
            crate::model::lemma_exit_one_inv(self@, report);
        }
        let c = self.context_state.context_node;
        let kind = self.context_state.nodes[c].context_type;
        let name = self.context_state.nodes[c].name.clone();
        let line = self.line_counter;
        if report {
            let start = match self.context_state.nodes[c].start {
                Some(st) => st,
                None => 0,
            };
            self.unclosed.push(UnclosedContext { name: name.clone(), start });
        }
        self.events.push(ContextEvent::Exit { kind, name, line });
        if kind != ContextType::DOCSTRING && kind != ContextType::ROOT {
            self.indent.decrease();
        }
        self.context_state.ascend(line);
        assert(self@.events =~= exit_one_spec(s, report).events);
        assert(self@.unclosed =~= exit_one_spec(s, report).unclosed);
    }

    /// Leaves every open scope, innermost first.
    fn unwind(&mut self, report: bool)
        requires
            old(self).config_wf(),
            core_inv(old(self)@),
        ensures
            final(self)@ == unwind_spec(old(self)@, report),
            final(self).config_wf(),
            final(self).lines() == old(self).lines(),
            core_inv(final(self)@),
    {
        while self.context_state.context_node != 0
            invariant
                self.config_wf(),
                core_inv(self@),
                self.lines() == old(self).lines(),
                unwind_spec(self@, report) == unwind_spec(old(self)@, report),
            decreases self.context_state.context_node,
        {
            proof {
                crate::model::lemma_exit_one_inv(self@, report);
                reveal(crate::state::wf_links);
                assert(self@.state.nodes[self@.state.cursor as int].parent is Some);
            }
            self.exit_context(report);
        }
    }

    /// Leaves every open scope when the next line lacks the indentation of
    /// the depth recorded by the tracker; says whether it did.
    pub fn check_root_exit(&mut self) -> (r: bool)
        requires
            old(self).visiting(),
            old(self)@.state.cursor != 0,
        ensures
            r == cascades(old(self)@, old(self).lines()),
            r ==> final(self)@ == unwind_spec(old(self)@, false),
            !r ==> final(self)@ == old(self)@,
            final(self).config_wf(),
            final(self).lines() == old(self).lines(),
            core_inv(final(self)@),
    {
        let depth = self.indent.depth();
        proof {
            crate::state::lemma_path_bounds(self@.state.nodes, self@.state.cursor as int);
        }
        let prefix = spaces(depth);
        if !starts_with(self.file_lines[self.line_counter + 1].as_str(), prefix.as_str()) {
            self.unwind(false);
            return true;
        }
        false
    }

    /// Visits the current line: entry, text extraction, exit with
    /// cascade, then moves to the next line.
    fn process_line(&mut self)
        requires
            old(self).wf(),
            old(self).line_counter + 1 < old(self).file_lines@.len(),
        ensures
            final(self)@ == step_spec(old(self)@, old(self).lines()),
            final(self).wf(),
            final(self).lines() == old(self).lines(),
    {
        let ghost p = self@;
        let ghost lines = self.lines();
        proof {
            crate::model::lemma_step_inv(p, lines);
        }
        let current_line = self.file_lines[self.line_counter].clone();
        assert(current_line@ == lines[p.line as int]);
        if let Some(c) = self.check_context_entry(&current_line) {
            proof {
                crate::model::lemma_rule_kinds(c);
            }
            let started = self.start_context(c, &current_line);
            assert(started is Ok);
        }
        assert(self@ == crate::model::entered_spec(p, lines));
        self.extract_context_data(&current_line);
        let ghost after_text = self@;
        if self.check_context_exit(&current_line) {
            proof {
                crate::state::lemma_root_kind(self@.state);
                crate::model::lemma_leave_inv(after_text, lines);
            }
            if !self.check_root_exit() {
                self.exit_context(false);
            }
            assert(self@ == crate::model::leave_spec(after_text, lines));
        }
        assert(self.line_counter == p.line);
        self.line_counter = self.line_counter + 1;
    }

    /// Visits every line but the last (the last one is never visited),
    /// then closes every scope still open, recording each as closed by
    /// force. Hands the finished tree over, root first; the processor keeps
    /// the events and the forced closings and is left with a fresh tree.
    pub fn parse_module(&mut self) -> (tree: Vec<ContextNode>)
        requires
            old(self).wf(),
        ensures
            tree@.map_values(|n: ContextNode| n@) == finish_spec(old(self)@, old(self).lines()).state.nodes,
            final(self)@ == (ProcView {
                state: fresh_state(),
                ..finish_spec(old(self)@, old(self).lines())
            }),
            final(self).config_wf(),
            final(self).lines() == old(self).lines(),
    {
        let ghost start = self@;
        let ghost lines = self.lines();
        while self.line_counter + 1 < self.max_height
            invariant
                self.wf(),
                self.lines() == lines,
                start.line <= self.line_counter,
                self@ == steps_spec(start, lines, (self.line_counter - start.line) as nat),
            decreases self.max_height - self.line_counter,
        {
            let ghost before = self@;
            proof {
                crate::model::lemma_step_inv(before, lines);
            }
            self.process_line();
            assert(self@ == steps_spec(start, lines, (self.line_counter - start.line) as nat));
        }
        self.unwind(true);
        let mut fresh = ContextState::new();
        std::mem::swap(&mut self.context_state, &mut fresh);
        fresh.nodes
    }
}

} // verus!
