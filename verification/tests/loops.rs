use qk::dynamic::loops::Loop;
use qk::expr::Code;
use qk::format::{FormattedText, Segment};
use qk::rsx::{NameKind, Node, NodeAttribute, NodeElement, NodeText, NodeValue, Quoted};
use syn::visit::Visit;

struct Idents(Vec<String>);

impl<'ast> Visit<'ast> for Idents {
    fn visit_ident(&mut self, ident: &'ast proc_macro2::Ident) {
        self.0.push(ident.to_string());
    }
}

/// The identifiers of an expression, as its parser finds them.
fn idents(source: &str) -> Vec<String> {
    match syn::parse_str::<syn::Expr>(source) {
        Ok(expr) => {
            let mut found = Idents(Vec::new());
            found.visit_expr(&expr);
            found.0
        }
        Err(_) => Vec::new(),
    }
}

fn code(source: &str) -> Code {
    Code::new(source.to_string(), idents(source))
}

fn quoted(text: &str) -> Quoted {
    let (segments, _) = FormattedText::split(text);
    let names = segments
        .iter()
        .map(|segment| match segment {
            Segment::Literal(_) => Vec::new(),
            Segment::Formatted(f) => idents(&f.segment),
        })
        .collect();
    Quoted::new(text.to_string(), names)
}

fn bare(name: &str) -> Node {
    Node::Attribute(NodeAttribute { key: name.to_string(), kind: NameKind::Path, value: None })
}

fn bare_as(name: &str, kind: NameKind) -> Node {
    Node::Attribute(NodeAttribute { key: name.to_string(), kind, value: None })
}

fn element(attributes: Vec<Node>, children: Vec<Node>) -> Node {
    Node::Element(NodeElement { name: "for".to_string(), attributes, children })
}

#[test]
fn loop_is_read_off_a_for_element() {
    let body = vec![Node::Text(NodeText { value: NodeValue::Literal(quoted("row")) })];
    let node = element(vec![bare("x"), bare("in"), Node::Block("0..10".to_string())], body);
    let found = Loop::try_from(node).unwrap();
    assert_eq!(found.for_token, "for");
    assert_eq!(found.pat, "x");
    assert_eq!(found.in_token, "in");
    assert_eq!(found.iterator, "0..10");
    assert_eq!(found.children.len(), 1);
}

#[test]
fn anything_else_is_no_loop() {
    let block = || Node::Block("0..10".to_string());
    assert!(Loop::try_from(Node::Comment("for".to_string())).is_err());
    assert!(Loop::try_from(element(vec![], vec![])).is_err());
    assert!(Loop::try_from(element(vec![bare("x"), bare("in")], vec![])).is_err());
    assert!(Loop::try_from(element(vec![bare("x"), bare("of"), block()], vec![])).is_err());
    assert!(Loop::try_from(element(vec![bare("x"), bare("in"), bare("y")], vec![])).is_err());
    assert!(Loop::try_from(element(vec![block(), bare("in"), block()], vec![])).is_err());
    assert!(Loop::try_from(element(vec![bare("x"), bare("in"), block(), bare("y")], vec![]))
        .is_err());
    let valued = Node::Attribute(NodeAttribute {
        key: "x".to_string(),
        kind: NameKind::Path,
        value: Some(NodeValue::Literal(quoted("1"))),
    });
    assert!(Loop::try_from(element(vec![valued, bare("in"), block()], vec![])).is_err());
    let dashed = bare_as("data-x", NameKind::Punctuated);
    assert!(Loop::try_from(element(vec![dashed, bare("in"), block()], vec![])).is_err());
    let braced = bare_as("{x}", NameKind::Block);
    assert!(Loop::try_from(element(vec![braced, bare("in"), block()], vec![])).is_err());
    let odd_in = bare_as("in", NameKind::Punctuated);
    assert!(Loop::try_from(element(vec![bare("x"), odd_in, block()], vec![])).is_err());
    assert!(Loop::try_from(element(vec![bare("a::b"), bare("in"), block()], vec![])).is_ok());
}

#[test]
fn a_condition_cannot_be_built() {
    let written = Node::Element(NodeElement {
        name: "if".to_string(),
        attributes: vec![Node::Block("true".to_string())],
        children: vec![],
    });
    assert!(matches!(
        qk::dynamic::conditions::Condition::parse_from(&vec![written]),
        Err(qk::error::BuildError::Unsupported(qk::error::NodeKind::Element))
    ));
    let other = element(vec![Node::Block("true".to_string())], vec![]);
    assert!(matches!(qk::dynamic::conditions::Condition::parse_from(&vec![other]), Ok(None)));
    assert!(matches!(qk::dynamic::conditions::Condition::parse_from(&vec![]), Ok(None)));
    let bare_if = Node::Element(NodeElement {
        name: "if".to_string(),
        attributes: vec![bare("x")],
        children: vec![],
    });
    assert!(matches!(qk::dynamic::conditions::Condition::parse_from(&vec![bare_if]), Ok(None)));
}

fn source(tokens: &impl quote::ToTokens) -> String {
    tokens.to_token_stream().to_string()
}

fn value(expr: &syn_rsx::NodeValueExpr) -> NodeValue {
    match expr.as_ref() {
        syn::Expr::Lit(syn::ExprLit { lit: syn::Lit::Str(text), .. }) => {
            NodeValue::Literal(quoted(&text.value()))
        }
        other => NodeValue::Expression(code(&source(other))),
    }
}

fn kind(name: &syn_rsx::NodeName) -> NameKind {
    match name {
        syn_rsx::NodeName::Path(_) => NameKind::Path,
        syn_rsx::NodeName::Punctuated(_) => NameKind::Punctuated,
        syn_rsx::NodeName::Block(_) => NameKind::Block,
    }
}

fn node(parsed: &syn_rsx::Node) -> Node {
    match parsed {
        syn_rsx::Node::Element(element) => Node::Element(NodeElement {
            name: element.name.to_string(),
            attributes: element.attributes.iter().map(node).collect(),
            children: element.children.iter().map(node).collect(),
        }),
        syn_rsx::Node::Attribute(attribute) => Node::Attribute(NodeAttribute {
            key: attribute.key.to_string(),
            kind: kind(&attribute.key),
            value: attribute.value.as_ref().map(value),
        }),
        syn_rsx::Node::Text(text) => Node::Text(NodeText { value: value(&text.value) }),
        syn_rsx::Node::Comment(comment) => Node::Comment(source(comment.value.as_ref())),
        syn_rsx::Node::Doctype(doctype) => Node::Doctype(source(doctype.value.as_ref())),
        syn_rsx::Node::Block(block) => Node::Block(source(block.value.as_ref())),
        syn_rsx::Node::Fragment(fragment) => {
            Node::Fragment(fragment.children.iter().map(node).collect())
        }
    }
}

#[test]
fn loops_parses() {
    let tokens: proc_macro2::TokenStream = "<for x in {0..10}> </for>".parse().unwrap();
    let mut nodes = syn_rsx::parse2(tokens).unwrap();
    println!("{nodes:#?}");
    let loop_ = Loop::try_from(node(&nodes.pop().unwrap())).unwrap();
    println!("{loop_:#?}");
}

#[test]
fn conditions_parses() {
    let tokens: proc_macro2::TokenStream =
        "<if {true}> </if> <elif {true}> </elif> <else> </else>".parse().unwrap();
    let nodes = syn_rsx::parse2(tokens).unwrap();
    println!("{nodes:#?}");
    let nodes: Vec<Node> = nodes.iter().map(node).collect();
    assert!(qk::dynamic::conditions::Condition::parse_from(&nodes).is_err());
}
