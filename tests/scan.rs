use pydef_scan::definitions::{spaces, ContextNode, ContextType, Indent};
use pydef_scan::patterns::{PatternRegistry, ALL_MATCH, CLASS_MATCH, DEF_MATCH, DOCSTRING_END, DOCSTRING_START};
use pydef_scan::processor::{decide_exit, select_context, ContextError, ContextEvent, ContextProcessor};
use pydef_scan::rules::LogicContext;
use pydef_scan::state::ContextState;

fn owned(lines: &[&str]) -> Vec<String> {
    lines.iter().map(|s| s.to_string()).collect()
}

fn scan(lines: &[&str]) -> (Vec<ContextNode>, ContextProcessor) {
    let mut processor = ContextProcessor::load(owned(lines)).unwrap();
    let tree = processor.parse_module();
    (tree, processor)
}

fn count_events(processor: &ContextProcessor) -> (usize, usize) {
    let enters = processor.events.iter().filter(|e| matches!(e, ContextEvent::Enter { .. })).count();
    let exits = processor.events.iter().filter(|e| matches!(e, ContextEvent::Exit { .. })).count();
    (enters, exits)
}

const MODULE: &str = "
class TestClass:

    def __init__():
        \"\"\"One liner\"\"\"
        pass

    def hello():
        pass


class NewClass:

    def __init__():
        pass


def outscope_method():
    pass
";

#[test]
fn class_with_method_closes_both_on_blank_pair() {
    let (tree, processor) = scan(&["class Foo:", "", "    def bar():", "        pass", "", ""]);
    assert_eq!(tree.len(), 3);
    assert_eq!(tree[0].children, vec![1]);
    assert_eq!(tree[1].name, "class Foo");
    assert_eq!(tree[1].context_type, ContextType::CLASS);
    assert_eq!(tree[1].children, vec![2]);
    assert_eq!(tree[2].name, "def bar");
    assert_eq!(tree[2].context_type, ContextType::METHOD);
    assert_eq!(tree[2].parent, Some(1));
    assert_eq!(tree[1].location(), Some((0, 4)));
    assert_eq!(tree[2].location(), Some((2, 4)));
    assert_eq!(processor.events.len(), 4);
    assert!(matches!(&processor.events[2], ContextEvent::Exit { kind: ContextType::METHOD, line: 4, .. }));
    assert!(matches!(&processor.events[3], ContextEvent::Exit { kind: ContextType::CLASS, line: 4, .. }));
    assert!(processor.unclosed.is_empty());
}

#[test]
fn export_list_alone() {
    let (tree, processor) = scan(&["__all__ = [\"a\"]", ""]);
    assert_eq!(tree.len(), 2);
    assert_eq!(tree[0].children, vec![1]);
    assert_eq!(tree[1].context_type, ContextType::ALL);
    assert_eq!(tree[1].name, "__empty__");
    assert!(!tree[1].is_public);
    assert!(tree[1].children.is_empty());
    for event in &processor.events {
        match event {
            ContextEvent::Enter { kind, .. } | ContextEvent::Exit { kind, .. } => {
                assert_eq!(*kind, ContextType::ALL)
            }
        }
    }
    assert_eq!(tree[1].location(), Some((0, 1)));
    assert_eq!(processor.unclosed.len(), 1);
    assert_eq!(processor.unclosed[0].start, 0);
}

#[test]
fn three_line_docstring_under_method() {
    let (tree, _) = scan(&[
        "def f():",
        "    \"\"\"Summary",
        "    more text",
        "    \"\"\"",
        "    pass",
        "",
    ]);
    assert_eq!(tree.len(), 3);
    assert_eq!(tree[1].name, "def f");
    assert_eq!(tree[1].children, vec![2]);
    assert_eq!(tree[2].context_type, ContextType::DOCSTRING);
    assert_eq!(
        tree[2].value,
        Some("    \"\"\"Summary    more text    \"\"\"".to_string())
    );
    assert_eq!(tree[2].location(), Some((1, 3)));
    assert_eq!(tree[1].value, None);
}

#[test]
fn docstring_start_inside_docstring_opens_nothing() {
    let (tree, _) = scan(&[
        "def f():",
        "    \"\"\"Summary",
        "    \"\"\"Quoted again",
        "    end\"\"\"",
        "    pass",
        "",
    ]);
    let docstrings: Vec<&ContextNode> =
        tree.iter().filter(|n| n.context_type == ContextType::DOCSTRING).collect();
    assert_eq!(docstrings.len(), 1);
    assert_eq!(tree[2].children.len(), 0);
    assert_eq!(tree[2].location(), Some((1, 3)));
}

#[test]
fn full_module_tree() {
    let (tree, processor) = scan(&MODULE.split("\n").collect::<Vec<&str>>());
    let names: Vec<&str> = tree.iter().map(|n| n.name.as_str()).collect();
    assert_eq!(
        names,
        vec![
            "",
            "class TestClass",
            "def __init__",
            "__empty__",
            "def hello",
            "class NewClass",
            "def __init__",
            "def outscope_method"
        ]
    );
    assert_eq!(tree[0].children, vec![1, 4, 5, 7]);
    assert_eq!(tree[1].children, vec![2]);
    assert_eq!(tree[2].children, vec![3]);
    assert_eq!(tree[4].parent, Some(0));
    assert_eq!(tree[5].children, vec![6]);
    assert_eq!(tree[1].location(), Some((1, 6)));
    assert_eq!(tree[2].location(), Some((3, 6)));
    assert_eq!(tree[3].location(), Some((4, 4)));
    assert_eq!(tree[4].location(), Some((7, 9)));
    assert_eq!(tree[5].location(), Some((11, 15)));
    assert_eq!(tree[6].location(), Some((13, 15)));
    assert_eq!(tree[7].location(), Some((17, 19)));
    assert_eq!(tree[3].value, Some("        \"\"\"One liner\"\"\"".to_string()));
    assert_eq!(processor.unclosed.len(), 1);
    assert_eq!(processor.unclosed[0].name, "def outscope_method");
    assert_eq!(processor.unclosed[0].start, 17);
}

#[test]
fn events_balance() {
    let (_, processor) = scan(&MODULE.split("\n").collect::<Vec<&str>>());
    let (enters, exits) = count_events(&processor);
    assert_eq!(enters, 7);
    assert_eq!(enters, exits);
    let (_, processor) = scan(&["def f():", "    \"\"\"never closed", "    text", "    more"]);
    let (enters, exits) = count_events(&processor);
    assert_eq!(enters, 2);
    assert_eq!(enters, exits);
    assert_eq!(processor.unclosed.len(), 2);
    assert_eq!(processor.unclosed[0].name, "__empty__");
    assert_eq!(processor.unclosed[1].name, "def f");
}

#[test]
fn root_shape_and_all_closed() {
    let (tree, _) = scan(&MODULE.split("\n").collect::<Vec<&str>>());
    assert_eq!(tree[0].context_type, ContextType::ROOT);
    assert_eq!(tree[0].parent, None);
    assert_eq!(tree[0].start, None);
    assert_eq!(tree[0].end, None);
    assert_eq!(tree[0].location(), None);
    for node in &tree[1..] {
        assert!(node.end.is_some());
    }
}

#[test]
fn visibility_follows_name() {
    let (tree, _) = scan(&["__all__ = (\"x\")", "class _Hidden:", "    def _private():", "        pass", "", ""]);
    for node in &tree {
        assert_eq!(node.is_public, !node.name.starts_with("_"));
    }
    assert_eq!(tree[1].name, "__empty__");
    assert!(!tree[1].is_public);
}

#[test]
fn scanning_twice_gives_the_same_tree() {
    let lines: Vec<&str> = MODULE.split("\n").collect();
    let (a, _) = scan(&lines);
    let (b, _) = scan(&lines);
    assert_eq!(a.len(), b.len());
    for (x, y) in a.iter().zip(b.iter()) {
        assert_eq!(x.name, y.name);
        assert_eq!(x.context_type, y.context_type);
        assert_eq!(x.location(), y.location());
        assert_eq!(x.children, y.children);
        assert_eq!(x.parent, y.parent);
        assert_eq!(x.value, y.value);
    }
}

#[test]
fn empty_and_single_line_inputs() {
    let (tree, processor) = scan(&[]);
    assert_eq!(tree.len(), 1);
    assert!(processor.events.is_empty());
    // the last line is never visited, so a lone definition opens nothing
    let (tree, processor) = scan(&["class Foo:"]);
    assert_eq!(tree.len(), 1);
    assert!(processor.events.is_empty());
}

#[test]
fn method_exit_when_next_line_opens_entry() {
    // the next method is indented one level only, short of the recorded
    // depth of two, so the class ends with the first method
    let (tree, _) = scan(&[
        "class A:",
        "    def one():",
        "        pass",
        "",
        "    def two():",
        "        pass",
        "",
        "",
    ]);
    assert_eq!(tree[0].children, vec![1, 3]);
    assert_eq!(tree[1].children, vec![2]);
    assert_eq!(tree[2].location(), Some((1, 3)));
    assert_eq!(tree[1].location(), Some((0, 3)));
    assert_eq!(tree[3].parent, Some(0));
    assert_eq!(tree[3].location(), Some((4, 6)));
}

#[test]
fn priority_order_prefers_export_list() {
    let processor = ContextProcessor::load(Vec::new()).unwrap();
    let line = "__all__ = [\"class Foo\", \"def bar\"]".to_string();
    assert_eq!(processor.check_context_entry(&line), Some(ContextType::ALL));
    let line = "class Foo: def bar".to_string();
    assert_eq!(processor.check_context_entry(&line), Some(ContextType::CLASS));
    let line = "x = 1".to_string();
    assert_eq!(processor.check_context_entry(&line), None);
}

#[test]
fn select_context_order_and_suppression() {
    let rules = LogicContext::new();
    assert_eq!(select_context(&rules, ContextType::ROOT, true, true, true, true), Some(ContextType::ALL));
    assert_eq!(select_context(&rules, ContextType::ROOT, false, true, true, true), Some(ContextType::CLASS));
    assert_eq!(select_context(&rules, ContextType::CLASS, false, false, true, true), Some(ContextType::METHOD));
    assert_eq!(select_context(&rules, ContextType::METHOD, false, false, false, true), Some(ContextType::DOCSTRING));
    assert_eq!(select_context(&rules, ContextType::DOCSTRING, false, false, false, true), None);
    assert_eq!(select_context(&rules, ContextType::DOCSTRING, false, true, false, true), Some(ContextType::CLASS));
    assert_eq!(select_context(&rules, ContextType::ROOT, false, false, false, false), None);
}

#[test]
fn decide_exit_rules() {
    assert!(!decide_exit(ContextType::ROOT, true, true, None));
    assert!(decide_exit(ContextType::DOCSTRING, false, true, Some((false, false))));
    assert!(!decide_exit(ContextType::DOCSTRING, true, false, None));
    assert!(decide_exit(ContextType::CLASS, true, false, None));
    assert!(!decide_exit(ContextType::CLASS, true, false, Some((false, true))));
    assert!(decide_exit(ContextType::CLASS, true, false, Some((true, false))));
    assert!(!decide_exit(ContextType::CLASS, false, false, Some((true, false))));
    assert!(decide_exit(ContextType::METHOD, true, false, Some((false, true))));
    assert!(!decide_exit(ContextType::METHOD, true, false, Some((false, false))));
    assert!(decide_exit(ContextType::ALL, true, false, None));
}

#[test]
fn missing_name_is_reported() {
    let mut processor = ContextProcessor::load(Vec::new()).unwrap();
    processor.context_state.context_type = ContextType::METHOD;
    let result = processor.get_context_name(&"no definition here".to_string());
    assert!(matches!(result, Err(ContextError::NoCaptureMatch { line: 0 })));
    processor.context_state.context_type = ContextType::ALL;
    let result = processor.get_context_name(&"anything".to_string()).unwrap();
    assert_eq!(result, "__empty__");
}

#[test]
fn start_context_without_name_changes_nothing() {
    let mut processor = ContextProcessor::load(Vec::new()).unwrap();
    let result = processor.start_context(ContextType::CLASS, &"nothing".to_string());
    assert!(matches!(result, Err(ContextError::NoCaptureMatch { .. })));
    assert_eq!(processor.context_state.nodes.len(), 1);
    assert!(processor.events.is_empty());
}

#[test]
fn detection_rules_compile() {
    let registry = PatternRegistry::load().unwrap();
    assert_eq!(registry.method.as_str(), DEF_MATCH);
    assert_eq!(registry.class.as_str(), CLASS_MATCH);
    assert_eq!(registry.all.as_str(), ALL_MATCH);
    assert_eq!(registry.docstring_start.as_str(), DOCSTRING_START);
    assert_eq!(registry.docstring_end.as_str(), DOCSTRING_END);
}

#[test]
fn set_location_is_set_once() {
    let mut node = ContextNode::new("def f".to_string(), ContextType::METHOD, 2, true);
    node.set_location(5);
    node.set_location(9);
    assert_eq!(node.location(), Some((2, 5)));
}

#[test]
fn append_value_concatenates() {
    let mut node = ContextNode::new("__empty__".to_string(), ContextType::DOCSTRING, 0, false);
    node.append_value(&"a".to_string());
    node.append_value(&"b".to_string());
    assert_eq!(node.value, Some("ab".to_string()));
}

#[test]
fn root_node_values() {
    let root = ContextNode::root();
    assert_eq!(root.context_type, ContextType::ROOT);
    assert_eq!(root.name, "");
    assert!(root.is_public);
    assert_eq!(root.location(), None);
}

#[test]
fn indent_prefix_and_depth() {
    let mut indent = Indent::new();
    assert_eq!(indent.value(), "");
    indent.increase();
    indent.increase();
    assert_eq!(indent.depth(), 2);
    assert_eq!(indent.value(), "        ");
    indent.decrease();
    indent.decrease();
    indent.decrease();
    assert_eq!(indent.depth(), 0);
    assert_eq!(spaces(3), "            ");
}

#[test]
fn rule_set_holds_docstring_only() {
    let rules = LogicContext::new();
    assert!(rules.contains(&ContextType::DOCSTRING));
    assert!(!rules.contains(&ContextType::CLASS));
    assert!(!rules.contains(&ContextType::ROOT));
}

#[test]
fn state_descend_and_ascend() {
    let mut state = ContextState::new();
    state.descend(ContextNode::new("class A".to_string(), ContextType::CLASS, 0, true));
    state.descend(ContextNode::new("def b".to_string(), ContextType::METHOD, 1, true));
    assert_eq!(state.context_node, 2);
    assert_eq!(state.nodes[1].children, vec![2]);
    state.ascend(3);
    assert_eq!(state.context_type, ContextType::CLASS);
    assert_eq!(state.nodes[2].location(), Some((1, 3)));
    state.descend(ContextNode::new("def c".to_string(), ContextType::METHOD, 4, true));
    state.top(6);
    assert_eq!(state.context_type, ContextType::ROOT);
    assert_eq!(state.nodes[3].location(), Some((4, 6)));
    assert_eq!(state.nodes[1].location(), Some((0, 6)));
    state.ascend(7);
    assert_eq!(state.context_node, 0);
    assert_eq!(state.nodes[0].end, None);
}

#[test]
fn cascade_check_unwinds_on_dedent() {
    let mut processor = ContextProcessor::load(owned(&["class A:", "    def b():", "", "x = 1", ""])).unwrap();
    processor.start_context(ContextType::CLASS, &"class A:".to_string()).unwrap();
    processor.line_counter = 1;
    processor.start_context(ContextType::METHOD, &"    def b():".to_string()).unwrap();
    processor.line_counter = 2;
    assert!(processor.check_root_exit());
    assert_eq!(processor.context_state.context_type, ContextType::ROOT);
    assert_eq!(processor.context_state.nodes[1].location(), Some((0, 2)));
    assert_eq!(processor.context_state.nodes[2].location(), Some((1, 2)));
}

#[test]
fn cascade_check_measures_recorded_depth() {
    let mut processor =
        ContextProcessor::load(owned(&["class A:", "    def b():", "", "    def c():", ""])).unwrap();
    processor.start_context(ContextType::CLASS, &"class A:".to_string()).unwrap();
    processor.line_counter = 1;
    processor.start_context(ContextType::METHOD, &"    def b():".to_string()).unwrap();
    processor.line_counter = 2;
    assert!(processor.check_root_exit());
    assert_eq!(processor.context_state.context_type, ContextType::ROOT);
    assert_eq!(processor.context_state.nodes[1].location(), Some((0, 2)));
    assert_eq!(processor.context_state.nodes[2].location(), Some((1, 2)));
}

#[test]
fn cascade_check_keeps_scopes_when_indented_deep_enough() {
    let mut processor =
        ContextProcessor::load(owned(&["class A:", "    def b():", "", "        x = 1", ""])).unwrap();
    processor.start_context(ContextType::CLASS, &"class A:".to_string()).unwrap();
    processor.line_counter = 1;
    processor.start_context(ContextType::METHOD, &"    def b():".to_string()).unwrap();
    processor.line_counter = 2;
    assert!(!processor.check_root_exit());
    assert_eq!(processor.context_state.context_type, ContextType::METHOD);
    assert_eq!(processor.context_state.nodes[2].location(), None);
}

#[test]
fn extract_appends_only_to_docstrings() {
    let mut processor = ContextProcessor::load(owned(&["a", "b", "c"])).unwrap();
    processor.extract_context_data(&"ignored".to_string());
    assert_eq!(processor.context_state.nodes[0].value, None);
    processor.start_context(ContextType::DOCSTRING, &"    \"\"\"x".to_string()).unwrap();
    processor.extract_context_data(&"one".to_string());
    processor.extract_context_data(&"two".to_string());
    assert_eq!(processor.context_state.nodes[1].value, Some("onetwo".to_string()));
}
