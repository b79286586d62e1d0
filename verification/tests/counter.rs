use qk::component::{Cell, Component};
use qk::component_visitor::{ComponentBuilder, Item};
use qk::error::{BuildError, NodeKind};
use qk::expr::Code;
use qk::format::{FormattedText, Segment};
use qk::launch;
use qk::memo::{Piece, Updater};
use qk::mount::Props;
use qk::renderer::{Command, CommandBuffer, Renderer};
use qk::rsx::{NameKind, Node, NodeAttribute, NodeElement, NodeText, NodeValue, Quoted};
use qk::runtime::Instance;
use qk::template::TemplateCache;
use qk::value::Value;
use syn::visit::Visit;

struct Idents(Vec<String>);

impl<'ast> Visit<'ast> for Idents {
    fn visit_ident(&mut self, ident: &'ast proc_macro2::Ident) {
        self.0.push(ident.to_string());
    }
}

/// The identifiers of an expression, as its parser finds them.
fn idents(source: &str) -> Vec<String> {
    match syn::parse_str::<syn::Expr>(source) {
        Ok(expr) => {
            let mut found = Idents(Vec::new());
            found.visit_expr(&expr);
            found.0
        }
        Err(_) => Vec::new(),
    }
}

fn code(source: &str) -> Code {
    Code::new(source.to_string(), idents(source))
}

fn quoted(text: &str) -> Quoted {
    let (segments, _) = FormattedText::split(text);
    let names = segments
        .iter()
        .map(|segment| match segment {
            Segment::Literal(_) => Vec::new(),
            Segment::Formatted(f) => idents(&f.segment),
        })
        .collect();
    Quoted::new(text.to_string(), names)
}

fn text(content: &str) -> Node {
    Node::Text(NodeText { value: NodeValue::Literal(quoted(content)) })
}

fn attribute(key: &str, value: NodeValue) -> Node {
    Node::Attribute(NodeAttribute { key: key.to_string(), kind: NameKind::Path, value: Some(value) })
}

fn element(name: &str, attributes: Vec<Node>, children: Vec<Node>) -> Node {
    Node::Element(NodeElement { name: name.to_string(), attributes, children })
}

/// The counter: two buttons and a text that shows the count.
fn counter_items() -> Vec<Item> {
    vec![
        Item::Local {
            name: "num".to_string(),
            ty: "i32".to_string(),
            init: "0".to_string(),
            inner: vec![],
        },
        Item::Macro {
            elements: vec![
                element(
                    "button",
                    vec![attribute("onclick", NodeValue::Expression(code("|_| *num += 1")))],
                    vec![text("increase")],
                ),
                element(
                    "button",
                    vec![attribute("onclick", NodeValue::Expression(code("|_| *num -= 1")))],
                    vec![text("decrease")],
                ),
                element("div", vec![], vec![text("count: {num}")]),
            ],
        },
    ]
}

fn build(name: &str, items: Vec<Item>) -> Result<Component, BuildError> {
    let mut builder = ComponentBuilder::new(name.to_string());
    builder.visit_items(&items)?;
    builder.build::<u8>()
}

fn set_texts(commands: &[Command]) -> Vec<(u32, String)> {
    commands
        .iter()
        .filter_map(|c| match c {
            Command::SetText { id, text } => Some((*id, text.clone())),
            _ => None,
        })
        .collect()
}

#[test]
fn counter_builds_one_state_and_one_binding() {
    let component = build("Counter", counter_items()).unwrap();
    assert_eq!(component.cells.len(), 2);
    match &component.cells[0] {
        Cell::State(state) => {
            assert_eq!(state.id, 0);
            assert_eq!(state.name, "num");
            assert_eq!(state.subscribers, std::collections::HashSet::from([1]));
        }
        other => panic!("unexpected {:?}", other),
    }
    match &component.cells[1] {
        Cell::Memo(memo) => {
            assert_eq!(memo.id, 1);
            assert_eq!(memo.subscriptions, std::collections::HashSet::from([0]));
            assert!(memo.subscribers.is_empty());
            assert!(matches!(memo.update, Updater::Text { root: 2, node: 1, .. }));
        }
        other => panic!("unexpected {:?}", other),
    }
    assert_eq!(component.rsx.memo_ids, vec![1]);
}

#[test]
fn setting_count_sets_the_text_once() {
    let component = build("Counter", counter_items()).unwrap();
    let mut ui = CommandBuffer::default();
    let mut cache = TemplateCache::default();
    let mut instance: Instance<u8> =
        launch(&mut ui, &component, &mut cache, &Props::new(vec![Value::I32(0)])).unwrap();
    let mounted = ui.take();
    let shown = set_texts(&mounted);
    assert_eq!(shown.len(), 1);
    assert_eq!(shown[0].1, "count: 0");
    let text_handle = shown[0].0;

    let runs = instance.with_state(&component, &mut ui, 0, Value::I32(1));
    assert_eq!(runs, vec![1]);
    let calls = ui.take();
    assert_eq!(calls.len(), 1);
    match &calls[0] {
        Command::SetText { id, text } => {
            assert_eq!(*id, text_handle);
            assert_eq!(text, "count: 1");
        }
        other => panic!("unexpected {:?}", other),
    }
}

#[test]
fn handler_commits_once_after_its_body() {
    let component = build("Counter", counter_items()).unwrap();
    let mut ui = CommandBuffer::default();
    let mut cache = TemplateCache::default();
    let mut instance: Instance<u8> =
        launch(&mut ui, &component, &mut cache, &Props::new(vec![Value::I32(0)])).unwrap();
    ui.take();
    let writes = vec![(0, Value::I32(1)), (0, Value::I32(2)), (0, Value::I32(3))];
    let runs = instance.handle(&component, &mut ui, &vec![0], &writes);
    assert_eq!(runs, vec![1]);
    let calls = ui.take();
    assert_eq!(calls.len(), 2);
    assert!(matches!(&calls[0], Command::SetText { text, .. } if text == "count: 3"));
    assert!(matches!(&calls[1], Command::Flush));
}

#[test]
fn handler_that_writes_nothing_updates_nothing() {
    let component = build("Counter", counter_items()).unwrap();
    let mut ui = CommandBuffer::default();
    let mut cache = TemplateCache::default();
    let mut instance: Instance<u8> =
        launch(&mut ui, &component, &mut cache, &Props::new(vec![Value::I32(0)])).unwrap();
    ui.take();
    let runs = instance.handle(&component, &mut ui, &vec![0], &vec![]);
    assert!(runs.is_empty());
    let calls = ui.take();
    assert_eq!(calls.len(), 1);
    assert!(matches!(&calls[0], Command::Flush));
}

#[test]
fn listeners_are_registered_with_their_events() {
    let component = build("Counter", counter_items()).unwrap();
    let mut ui = CommandBuffer::default();
    let mut cache = TemplateCache::default();
    let _instance: Instance<u8> =
        launch(&mut ui, &component, &mut cache, &Props::new(vec![Value::I32(0)])).unwrap();
    let calls = ui.take();
    let events: Vec<(String, usize)> = calls
        .iter()
        .filter_map(|c| match c {
            Command::AddListener { event, handler, .. } => Some((event.clone(), *handler)),
            _ => None,
        })
        .collect();
    assert_eq!(events, vec![("click".to_string(), 0), ("click".to_string(), 0)]);
    assert!(matches!(calls.last(), Some(Command::Flush)));
}

#[test]
fn template_is_created_once_for_many_mounts() {
    let component = build("Counter", counter_items()).unwrap();
    let mut ui = CommandBuffer::default();
    let mut cache = TemplateCache::default();
    let mut creates = Vec::new();
    let mut clones = Vec::new();
    for _ in 0..5 {
        let _instance: Instance<u8> =
            component.create(&mut ui, &mut cache, &Props::new(vec![Value::I32(0)]));
        let calls = ui.take();
        creates.push(
            calls
                .iter()
                .filter(|c| {
                    matches!(c, Command::CreateElement { .. } | Command::CreateText { .. })
                })
                .count(),
        );
        clones.push(calls.iter().filter(|c| matches!(c, Command::CloneNode { .. })).count());
    }
    assert_eq!(creates, vec![6, 0, 0, 0, 0]);
    assert_eq!(clones, vec![3, 3, 3, 3, 3]);
    assert_eq!(cache.names, vec!["Counter".to_string()]);
}

#[test]
fn nested_reactive_block_is_rejected() {
    let items = vec![Item::Call {
        closure: code("|| { rx(|| ()) }"),
        capture: false,
        inner: vec![Item::Call { closure: code("|| ()"), capture: false, inner: vec![] }],
    }];
    assert!(matches!(build("Nested", items), Err(BuildError::NestedReactive)));
}

#[test]
fn state_inside_reactive_block_is_rejected() {
    let items = vec![Item::Call {
        closure: code("|| { let x: Rx<i32> = 0; }"),
        capture: false,
        inner: vec![Item::Block {
            inner: vec![Item::Local {
                name: "x".to_string(),
                ty: "i32".to_string(),
                init: "0".to_string(),
                inner: vec![],
            }],
        }],
    }];
    assert!(matches!(build("Nested", items), Err(BuildError::NestedReactive)));
}

#[test]
fn component_without_markup_is_rejected() {
    let items = vec![Item::Local {
        name: "x".to_string(),
        ty: "i32".to_string(),
        init: "0".to_string(),
        inner: vec![],
    }];
    assert!(matches!(build("Bare", items), Err(BuildError::MissingMarkup)));
}

#[test]
fn more_slots_than_mask_bits_are_rejected() {
    let mut items: Vec<Item> = (0..8)
        .map(|i| Item::Local {
            name: format!("s{i}"),
            ty: "i32".to_string(),
            init: "0".to_string(),
            inner: vec![],
        })
        .collect();
    items.push(Item::Macro { elements: vec![element("div", vec![], vec![text("{s0}")])] });
    let mut builder = ComponentBuilder::new("Wide".to_string());
    builder.visit_items(&items).unwrap();
    assert!(matches!(builder.build::<u8>(), Err(BuildError::TooManySlots)));

    let mut builder = ComponentBuilder::new("Wide".to_string());
    builder.visit_items(&items).unwrap();
    assert!(builder.build::<u16>().is_ok());
}

#[test]
fn a_segment_that_names_no_cell_is_left_to_the_host() {
    let items = vec![Item::Macro { elements: vec![element("div", vec![], vec![text("{nope}")])] }];
    let component = build("Unknown", items).unwrap();
    assert_eq!(component.cells.len(), 1);
    match &component.cells[0] {
        Cell::Memo(memo) => {
            assert!(memo.subscriptions.is_empty());
            assert!(memo.runs_once());
            match &memo.update {
                Updater::Text { pieces, .. } => {
                    assert_eq!(pieces.len(), 1);
                    assert!(matches!(&pieces[0],
                        Piece::Host { index: 0, source, format_args, reads }
                            if source == "nope" && format_args.is_empty() && reads.is_empty()));
                }
                other => panic!("unexpected {:?}", other),
            }
        }
        other => panic!("unexpected {:?}", other),
    }
}

#[test]
fn a_text_that_does_not_close_its_segment_is_rejected() {
    let items = vec![Item::Macro { elements: vec![element("div", vec![], vec![text("n = {n")])] }];
    assert!(matches!(
        build("Open", items),
        Err(BuildError::Format(qk::format::FormatError::UnclosedSegment))
    ));
}

#[test]
fn unsupported_node_kinds_are_rejected() {
    for (node, kind) in [
        (Node::Comment("c".to_string()), NodeKind::Comment),
        (Node::Doctype("html".to_string()), NodeKind::Doctype),
        (Node::Block("x".to_string()), NodeKind::Block),
        (Node::Fragment(vec![]), NodeKind::Fragment),
    ] {
        let items = vec![Item::Macro { elements: vec![element("div", vec![], vec![node])] }];
        match build("Odd", items) {
            Err(BuildError::Unsupported(found)) => assert_eq!(found, kind),
            other => panic!("unexpected {:?}", other.map(|_| ())),
        }
    }
}
