use qk::error::{BuildError, NodeKind};
use qk::expr::Code;
use qk::format::{FormatError, FormattedText, Segment};
use qk::node::TraverseOperation::{FirstChild, NextSibling};
use qk::node::{update_dyn_nodes, DynamicNodeType, PlanStep, TraverseOperation};
use qk::rsx::{
    node_ident, CreateOp, Elements, NameKind, Node, NodeAttribute, NodeElement, NodeText,
    NodeValue, QkNode, Quoted,
};
use syn::visit::Visit;

struct Idents(Vec<String>);

impl<'ast> Visit<'ast> for Idents {
    fn visit_ident(&mut self, ident: &'ast proc_macro2::Ident) {
        self.0.push(ident.to_string());
    }
}

/// The identifiers of an expression, as its parser finds them.
fn idents(source: &str) -> Vec<String> {
    match syn::parse_str::<syn::Expr>(source) {
        Ok(expr) => {
            let mut found = Idents(Vec::new());
            found.visit_expr(&expr);
            found.0
        }
        Err(_) => Vec::new(),
    }
}

fn code(source: &str) -> Code {
    Code::new(source.to_string(), idents(source))
}

fn quoted(text: &str) -> Quoted {
    let (segments, _) = FormattedText::split(text);
    let names = segments
        .iter()
        .map(|segment| match segment {
            Segment::Literal(_) => Vec::new(),
            Segment::Formatted(f) => idents(&f.segment),
        })
        .collect();
    Quoted::new(text.to_string(), names)
}

fn text(content: &str) -> Node {
    Node::Text(NodeText { value: NodeValue::Literal(quoted(content)) })
}

fn literal(key: &str, value: &str) -> Node {
    Node::Attribute(NodeAttribute {
        key: key.to_string(),
        kind: NameKind::Path,
        value: Some(NodeValue::Literal(quoted(value))),
    })
}

fn expression(key: &str, source: &str) -> Node {
    Node::Attribute(NodeAttribute {
        key: key.to_string(),
        kind: NameKind::Path,
        value: Some(NodeValue::Expression(code(source))),
    })
}

fn element(name: &str, attributes: Vec<Node>, children: Vec<Node>) -> Node {
    Node::Element(NodeElement { name: name.to_string(), attributes, children })
}

fn show(op: &CreateOp) -> String {
    match op {
        CreateOp::Node { var } => format!("node {var}"),
        CreateOp::CreateElement { var, tag } => format!("element {var} {tag}"),
        CreateOp::CreateText { var, text } => format!("text {var} {text:?}"),
        CreateOp::SetAttribute { var, key, value } => format!("attribute {var} {key}={value}"),
        CreateOp::AppendChild { parent, child } => format!("append {parent} {child}"),
        CreateOp::AppendAll { parent, fragment } => format!("append_all {parent} {fragment}"),
        CreateOp::ReturnNode { var } => format!("return {var}"),
    }
}

#[test]
fn static_markup_is_created_once_per_node() {
    let markup = vec![element(
        "ul",
        vec![literal("class", "list")],
        vec![
            element("li", vec![], vec![text("one")]),
            element("li", vec![literal("id", "b")], vec![text("two")]),
        ],
    )];
    let built = Elements::new(&markup).unwrap();
    let ops: Vec<String> = built.creation.iter().map(show).collect();
    assert_eq!(
        ops,
        vec![
            "node 0",
            "element 0 ul",
            "attribute 0 class=list",
            "node 1",
            "element 1 li",
            "node 2",
            "text 2 \"one\"",
            "append 1 2",
            "return 2",
            "append 0 1",
            "return 1",
            "node 3",
            "element 3 li",
            "attribute 3 id=b",
            "node 4",
            "text 4 \"two\"",
            "append 3 4",
            "return 4",
            "append 0 3",
            "return 3",
        ]
    );
    assert_eq!(built.roots.len(), 1);
    assert_eq!(built.roots[0].idx, 0);
    assert_eq!(built.roots[0].root_name, Some(0));
    assert_eq!(built.roots[0].dynamic_nodes.len(), 1);
    assert!(built.roots[0].dynamic_nodes[0].path.is_empty());
    assert_eq!(built.keys.len(), 5);
    let mut keys = built.keys.clone();
    keys.sort();
    keys.dedup();
    assert_eq!(keys.len(), 5);
}

#[test]
fn dynamic_nodes_carry_their_paths() {
    let markup = vec![element(
        "div",
        vec![],
        vec![
            element("p", vec![], vec![text("static")]),
            element("p", vec![literal("title", "{tip}")], vec![text("n = {n}")]),
            text("{tail:?}"),
        ],
    )];
    let built = Elements::new(&markup).unwrap();
    let nodes = &built.roots[0].dynamic_nodes;
    let found: Vec<(usize, usize, Vec<TraverseOperation>)> =
        nodes.iter().map(|n| (n.root_id, n.id, n.path.clone())).collect();
    assert_eq!(
        found,
        vec![
            (0, 0, vec![]),
            (0, 1, vec![FirstChild, NextSibling]),
            (0, 2, vec![FirstChild, NextSibling, FirstChild]),
            (0, 3, vec![FirstChild, NextSibling, NextSibling]),
        ]
    );
    assert!(matches!(&nodes[0].node, DynamicNodeType::Element(e)
        if e.attributes.is_empty() && e.listeners.is_empty()));
    assert!(matches!(&nodes[1].node, DynamicNodeType::Element(e)
        if e.attributes.len() == 1 && e.attributes[0].key == "title"));
    assert!(matches!(&nodes[2].node, DynamicNodeType::Text(t) if t.text.is_dynamic()));
    assert!(matches!(&nodes[3].node, DynamicNodeType::Text(_)));
    let texts: Vec<String> = built
        .creation
        .iter()
        .filter_map(|op| match op {
            CreateOp::CreateText { text, .. } => Some(text.clone()),
            _ => None,
        })
        .collect();
    assert_eq!(texts, vec!["static", " ", " "]);
    assert_eq!(nodes[2].ident(), "__dyn_n_0_2");
    assert_eq!(built.roots[0].root_ident(), "__dyn_n_0_0");
    assert_eq!(nodes[2].type_def(), "__dyn_n_0_2: u32");
}

#[test]
fn listeners_and_expressions_make_an_element_dynamic() {
    let markup = vec![element(
        "div",
        vec![],
        vec![
            element("button", vec![expression("onclick", "|_| *num += 1")], vec![]),
            element("span", vec![expression("class", "style")], vec![]),
            element("i", vec![literal("class", "fixed")], vec![]),
        ],
    )];
    let built = Elements::new(&markup).unwrap();
    let nodes = &built.roots[0].dynamic_nodes;
    assert_eq!(nodes.len(), 3);
    match &nodes[1].node {
        DynamicNodeType::Element(e) => {
            assert_eq!(e.listeners.len(), 1);
            assert_eq!(e.listeners[0].key, "onclick");
            assert_eq!(e.listeners[0].value.source, "|_| *num += 1");
            assert_eq!(e.listeners[0].value.idents, vec!["num".to_string()]);
            assert!(e.listeners[0].states_used.is_empty());
        }
        other => panic!("unexpected {:?}", other),
    }
    match &nodes[2].node {
        DynamicNodeType::Element(e) => {
            assert_eq!(e.attributes.len(), 1);
            assert_eq!(e.attributes[0].value.arguments(), vec!["style".to_string()]);
            assert_eq!(e.attributes[0].value.format_literal(), "{:}");
        }
        other => panic!("unexpected {:?}", other),
    }
}

#[test]
fn a_static_text_root_is_dynamic_all_the_same() {
    let built = Elements::new(&vec![text("hello")]).unwrap();
    assert_eq!(built.roots[0].dynamic_nodes.len(), 1);
    let ops: Vec<String> = built.creation.iter().map(show).collect();
    assert_eq!(ops, vec!["node 0", "text 0 \"hello\""]);
}

#[test]
fn every_root_starts_at_the_empty_path() {
    let markup = vec![element("a", vec![], vec![text("{x}")]), element("b", vec![], vec![])];
    let built = Elements::new(&markup).unwrap();
    assert_eq!(built.roots.len(), 2);
    assert_eq!(built.roots[1].idx, 1);
    assert_eq!(built.roots[1].root_name, Some(2));
    assert!(built.roots[1].dynamic_nodes[0].path.is_empty());
    assert_eq!(built.roots[1].dynamic_nodes[0].root_id, 1);
    assert!(built.current_path.is_empty());
}

#[test]
fn markup_that_cannot_be_built() {
    let missing = Node::Attribute(NodeAttribute {
        key: "class".to_string(),
        kind: NameKind::Path,
        value: None,
    });
    assert!(matches!(
        Elements::new(&vec![element("div", vec![missing], vec![])]),
        Err(BuildError::MissingValue)
    ));
    assert!(matches!(
        Elements::new(&vec![element("div", vec![text("x")], vec![])]),
        Err(BuildError::AttributeExpected)
    ));
    assert!(matches!(
        Elements::new(&vec![element("div", vec![literal("onclick", "go")], vec![])]),
        Err(BuildError::ListenerExpected)
    ));
    match Elements::new(&vec![element("div", vec![expression("onwhatever", "|_| ()")], vec![])])
    {
        Err(BuildError::UnknownEvent(key)) => assert_eq!(key, "onwhatever"),
        other => panic!("unexpected {:?}", other.map(|_| ())),
    }
    assert!(matches!(
        Elements::new(&vec![element("div", vec![expression("on", "|_| ()")], vec![])]),
        Err(BuildError::UnknownEvent(_))
    ));
    assert!(matches!(
        Elements::new(&vec![element("div", vec![literal("class", "a } b")], vec![])]),
        Err(BuildError::Format(FormatError::UnmatchedClosingBrace))
    ));
    assert!(matches!(
        Elements::new(&vec![text("{1 +}")]),
        Err(BuildError::Format(FormatError::Expression(_)))
    ));
    assert!(matches!(
        Elements::new(&vec![text("a {b")]),
        Err(BuildError::Format(FormatError::UnclosedSegment))
    ));
    assert!(matches!(
        Elements::new(&vec![element("div", vec![literal("class", "a {b:")], vec![])]),
        Err(BuildError::Format(FormatError::UnclosedSegment))
    ));
    let forged = Quoted { text: "{a} {b}".to_string(), parsed: vec![true], idents: vec![] };
    match Elements::new(&vec![Node::Text(NodeText { value: NodeValue::Literal(forged) })]) {
        Err(BuildError::Format(FormatError::Expression(source))) => assert_eq!(source, "b"),
        other => panic!("unexpected {:?}", other.map(|_| ())),
    }
    assert!(matches!(
        Elements::new(&vec![Node::Fragment(vec![])]),
        Err(BuildError::Unsupported(NodeKind::Fragment))
    ));
    assert!(matches!(
        Elements::new(&vec![Node::Attribute(NodeAttribute {
            key: "k".to_string(),
            kind: NameKind::Path,
            value: None,
        })]),
        Err(BuildError::Unsupported(NodeKind::Attribute))
    ));
}

#[test]
fn plan_shares_the_moves_that_paths_begin_with() {
    let markup = vec![element(
        "div",
        vec![],
        vec![
            element("p", vec![], vec![text("{a}")]),
            element("p", vec![expression("class", "b")], vec![text("{c}")]),
        ],
    )];
    let built = Elements::new(&markup).unwrap();
    let paths: Vec<usize> = built.roots[0].dynamic_nodes.iter().map(|n| n.path.len()).collect();
    assert_eq!(paths, vec![0, 2, 2, 3]);
    let plan = update_dyn_nodes(&built.roots);
    assert_eq!(
        plan,
        vec![
            PlanStep::Node { root: 0, id: 0 },
            PlanStep::Node { root: 0, id: 1 },
            PlanStep::Node { root: 0, id: 2 },
            PlanStep::Node { root: 0, id: 3 },
            PlanStep::CloneTemplate { root: 0, into: 0 },
            PlanStep::Copy { root: 0, from: 0, to: 1 },
            PlanStep::FirstChild { root: 0, id: 1 },
            PlanStep::Copy { root: 0, from: 1, to: 2 },
            PlanStep::NextSibling { root: 0, id: 2 },
            PlanStep::Copy { root: 0, from: 2, to: 3 },
            PlanStep::FirstChild { root: 0, id: 3 },
            PlanStep::FirstChild { root: 0, id: 1 },
        ]
    );
    let moves = plan
        .iter()
        .filter(|s| matches!(s, PlanStep::FirstChild { .. } | PlanStep::NextSibling { .. }))
        .count();
    assert_eq!(moves, 4);
    assert!(moves <= paths.iter().sum::<usize>());
}

#[test]
fn appended_nodes() {
    let mut ops = Vec::new();
    QkNode::Static(4).append_children(1, &mut ops);
    QkNode::Dynamic("rows".to_string()).append_children(1, &mut ops);
    let shown: Vec<String> = ops.iter().map(show).collect();
    assert_eq!(shown, vec!["append 1 4", "return 4", "append_all 1 rows"]);
    assert_eq!(node_ident(4294967297), "__n_4294967297");
}
