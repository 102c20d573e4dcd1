use pydef_scan::definitions::{ContextNode, ContextType};
use pydef_scan::processor::ContextProcessor;

fn lines_of(text: &str) -> Vec<String> {
    text.split("\n").map(|s| s.to_string()).collect::<Vec<String>>()
}

#[test]
fn test_context_node_set_parent() {
    let mut parent_node = ContextNode::new("TestClass".to_string(), ContextType::CLASS, 0, true);
    let mut child_new = ContextNode::new("__init__".to_string(), ContextType::METHOD, 0, true);

    parent_node.add_node(1);
    child_new.set_parent(0);

    assert_eq!(parent_node.children.len(), 1);
    assert_eq!(child_new.parent, Some(0));
}

#[test]
fn test_set_location() {
    let mut parent_node = ContextNode::new("TestClass".to_string(), ContextType::CLASS, 1, true);

    assert_eq!(parent_node.location(), None);
    parent_node.set_location(10);
    assert_eq!(parent_node.location(), Some((1, 10)));
}

#[test]
fn test_append_value() {
    let mut parent_node = ContextNode::new("TestClass".to_string(), ContextType::CLASS, 1, true);

    assert_eq!(parent_node.value, None);
    parent_node.append_value(&"Some test value".to_string());
    assert_eq!(parent_node.value, Some("Some test value".to_string()));
}

#[test]
fn test_check_context_entry() {
    let blank_processor = ContextProcessor::load(Vec::new()).unwrap();
    let class_context = "class TestClass(TestInterface):  ".to_string();
    let method_context = "    def hello(args: int, test: str, **kwargs) -> None:".to_string();

    let class_result = blank_processor.check_context_entry(&class_context);
    let method_result = blank_processor.check_context_entry(&method_context);

    assert_eq!(class_result, Some(ContextType::CLASS));
    assert_eq!(method_result, Some(ContextType::METHOD));
}

#[test]
fn test_start_context_from_root() {
    let mut blank_processor = ContextProcessor::load(Vec::new()).unwrap();
    let class_context = "class TestClass(TestInterface):  ".to_string();

    blank_processor.start_context(ContextType::CLASS, &class_context).unwrap();

    assert_eq!(blank_processor.context_state.context_type, ContextType::CLASS);
    let active = blank_processor.context_state.context_node;
    assert_eq!(blank_processor.context_state.nodes[active].name, "class TestClass");
}

#[test]
fn test_get_context_name() {
    let mut blank_processor = ContextProcessor::load(Vec::new()).unwrap();
    let mut class_context = "class TestClass(TestInterface):  ".to_string();

    blank_processor.context_state.context_type = ContextType::CLASS;
    let result = blank_processor.get_context_name(&class_context).unwrap();
    assert_eq!(result, "class TestClass".to_string());

    class_context = "   async def test_method(self, args, kwargs) -> None:".to_string();
    blank_processor.context_state.context_type = ContextType::METHOD;
    let result = blank_processor.get_context_name(&class_context).unwrap();
    assert_eq!(result, "def test_method".to_string());
}

#[test]
fn test_check_context_exit_docstring_and_root() {
    let mut blank_processor = ContextProcessor::load(Vec::new()).unwrap();
    let current_line = " \"\"\"Docstring one liner\"\"\"".to_string();

    let result = blank_processor.check_context_exit(&current_line);
    assert_eq!(result, false);

    blank_processor.context_state.context_type = ContextType::DOCSTRING;
    let result = blank_processor.check_context_exit(&current_line);
    assert_eq!(result, true);

    let current_line = "   \"\"\"".to_string();
    let result = blank_processor.check_context_exit(&current_line);
    assert_eq!(result, true);

    let current_line = "   some text at the end\"\"\"".to_string();
    let result = blank_processor.check_context_exit(&current_line);
    assert_eq!(result, true);

    let current_line = "   \'\'\'".to_string();
    let result = blank_processor.check_context_exit(&current_line);
    assert_eq!(result, true);
}

#[test]
fn test_check_context_exit_class() {
    let text_code = lines_of(
        "
class TestClass:

    def __init__():
        pass


",
    );
    let mut blank_processor = ContextProcessor::load(text_code.clone()).unwrap();
    let current_line = text_code[5].clone();
    blank_processor.line_counter = 5;
    blank_processor.context_state.context_type = ContextType::CLASS;

    let result = blank_processor.check_context_exit(&current_line);
    assert_eq!(result, true);

    let current_line = text_code[4].clone();
    blank_processor.line_counter = 4;
    blank_processor.context_state.context_type = ContextType::CLASS;

    let result = blank_processor.check_context_exit(&current_line);
    assert_eq!(result, false);
}

#[test]
fn test_check_context_exit_method() {
    let text_code = lines_of(
        "
    def __init__():
        pass

    def hello() -> str:
        return hello world

",
    );
    let mut blank_processor = ContextProcessor::load(text_code.clone()).unwrap();
    let current_line = text_code[3].clone();
    blank_processor.line_counter = 3;
    blank_processor.context_state.context_type = ContextType::METHOD;

    let result = blank_processor.check_context_exit(&current_line);
    assert_eq!(result, true);
}

#[test]
fn test_parse_module() {
    let text_code = lines_of(
        "
class TestClass:

    def __init__():
        \"\"\"One liner\"\"\"
        pass

    def hello():
        pass


class NewClass:

    def __init__():
        pass


def outscope_method():
    pass
",
    );

    let mut processor = ContextProcessor::load(text_code).unwrap();

    processor.parse_module();
}
