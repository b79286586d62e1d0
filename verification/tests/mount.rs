use qk::component::Component;
use qk::component_visitor::{ComponentBuilder, Item};
use qk::expr::Code;
use qk::format::{FormattedText, Segment};
use qk::launch;
use qk::mount::Props;
use qk::node::TraverseOperation::{FirstChild, NextSibling};
use qk::node::{PlanStep, TraverseOperation};
use qk::renderer::{Command, CommandBuffer, Renderer};
use qk::rsx::{NameKind, Node, NodeAttribute, NodeElement, NodeText, NodeValue, Quoted};
use qk::runtime::Instance;
use qk::slab::IdSlab;
use qk::template::TemplateCache;
use qk::value::Value;
use syn::visit::Visit;

struct Idents(Vec<String>);

impl<'ast> Visit<'ast> for Idents {
    fn visit_ident(&mut self, ident: &'ast proc_macro2::Ident) {
        self.0.push(ident.to_string());
    }
}

/// The identifiers of an expression, as its parser finds them.
fn idents(source: &str) -> Vec<String> {
    match syn::parse_str::<syn::Expr>(source) {
        Ok(expr) => {
            let mut found = Idents(Vec::new());
            found.visit_expr(&expr);
            found.0
        }
        Err(_) => Vec::new(),
    }
}

fn code(source: &str) -> Code {
    Code::new(source.to_string(), idents(source))
}

fn quoted(text: &str) -> Quoted {
    let (segments, _) = FormattedText::split(text);
    let names = segments
        .iter()
        .map(|segment| match segment {
            Segment::Literal(_) => Vec::new(),
            Segment::Formatted(f) => idents(&f.segment),
        })
        .collect();
    Quoted::new(text.to_string(), names)
}

fn text(content: &str) -> Node {
    Node::Text(NodeText { value: NodeValue::Literal(quoted(content)) })
}

fn element(name: &str, attributes: Vec<Node>, children: Vec<Node>) -> Node {
    Node::Element(NodeElement { name: name.to_string(), attributes, children })
}

fn class(source: &str) -> Node {
    Node::Attribute(NodeAttribute {
        key: "class".to_string(),
        kind: NameKind::Path,
        value: Some(NodeValue::Expression(code(source))),
    })
}

fn table() -> Component {
    let items = vec![
        Item::Local {
            name: "a".to_string(),
            ty: "i32".to_string(),
            init: "0".to_string(),
            inner: vec![],
        },
        Item::Macro {
            elements: vec![element(
                "table",
                vec![],
                vec![
                    element("tr", vec![], vec![element("td", vec![], vec![text("{a}")])]),
                    element(
                        "tr",
                        vec![class("a")],
                        vec![
                            element("td", vec![], vec![text("fixed")]),
                            element("td", vec![class("a")], vec![text("<{a}>")]),
                        ],
                    ),
                    text("{a}"),
                ],
            )],
        },
    ];
    let mut builder = ComponentBuilder::new("Table".to_string());
    builder.visit_items(&items).unwrap();
    builder.build::<u8>().unwrap()
}

/// Follows the moves of a plan on paths.
fn follow(plan: &[PlanStep], count: usize) -> Vec<Vec<TraverseOperation>> {
    let mut at: Vec<Vec<TraverseOperation>> = vec![vec![]; count];
    for step in plan {
        match *step {
            PlanStep::Node { .. } => {}
            PlanStep::CloneTemplate { into, .. } => at[into] = vec![],
            PlanStep::Copy { from, to, .. } => at[to] = at[from].clone(),
            PlanStep::FirstChild { id, .. } => at[id].push(FirstChild),
            PlanStep::NextSibling { id, .. } => at[id].push(NextSibling),
        }
    }
    at
}

#[test]
fn plan_brings_every_handle_to_its_node() {
    let component = table();
    let nodes = &component.rsx.roots[0].dynamic_nodes;
    let paths: Vec<Vec<TraverseOperation>> = nodes.iter().map(|n| n.path.clone()).collect();
    assert_eq!(
        paths,
        vec![
            vec![],
            vec![FirstChild, FirstChild, FirstChild],
            vec![FirstChild, NextSibling],
            vec![FirstChild, NextSibling, FirstChild, NextSibling],
            vec![FirstChild, NextSibling, FirstChild, NextSibling, FirstChild],
            vec![FirstChild, NextSibling, NextSibling],
        ]
    );
    assert_eq!(follow(&component.plan, nodes.len()), paths);
    let moves = component
        .plan
        .iter()
        .filter(|s| matches!(s, PlanStep::FirstChild { .. } | PlanStep::NextSibling { .. }))
        .count();
    assert_eq!(moves, 8);
    assert_eq!(paths.iter().map(Vec::len).sum::<usize>(), 17);
}

#[test]
fn mount_replays_the_plan_on_fresh_handles() {
    let component = table();
    assert_eq!(component.count_handles(false), Some(6 + 10));
    assert_eq!(component.count_handles(true), Some(6));
    let mut ui = CommandBuffer::default();
    let mut cache = TemplateCache::default();
    let init = Props::new(vec![Value::I32(4)]);
    let instance: Instance<u8> = component.create(&mut ui, &mut cache, &init);
    let calls = ui.take();
    let handles = &instance.handles[0];
    assert_eq!(handles.len(), 6);
    let mut distinct = handles.clone();
    distinct.sort();
    distinct.dedup();
    assert_eq!(distinct.len(), 6);
    assert!(!handles.contains(&0));
    let template_root = cache.templates[0].roots[0];
    let replay: Vec<String> = calls
        .iter()
        .filter_map(|c| match c {
            Command::CloneNode { id, new_id } => {
                assert_eq!(*id, template_root);
                Some(format!("clone {}", handles.iter().position(|h| h == new_id).unwrap()))
            }
            Command::Copy { from, to } => Some(format!(
                "copy {} {}",
                handles.iter().position(|h| h == from).unwrap(),
                handles.iter().position(|h| h == to).unwrap()
            )),
            Command::FirstChild { id } => {
                Some(format!("down {}", handles.iter().position(|h| h == id).unwrap()))
            }
            Command::NextSibling { id } => {
                Some(format!("next {}", handles.iter().position(|h| h == id).unwrap()))
            }
            _ => None,
        })
        .collect();
    assert_eq!(
        replay,
        vec![
            "clone 0", "copy 0 1", "down 1", "copy 1 2", "next 2", "copy 2 5", "next 5", "copy 2 3",
            "down 3", "next 3", "copy 3 4", "down 4", "down 1", "down 1",
        ]
    );
    let updates: Vec<String> = calls
        .iter()
        .filter_map(|c| match c {
            Command::SetText { id, text } => {
                Some(format!("text {} {text}", handles.iter().position(|h| h == id).unwrap()))
            }
            Command::SetAttribute { id, name, value } => Some(format!(
                "attribute {} {name}={value}",
                handles.iter().position(|h| h == id).unwrap()
            )),
            _ => None,
        })
        .collect();
    assert_eq!(
        updates,
        vec![
            "text 1 4",
            "attribute 2 class=4",
            "attribute 3 class=4",
            "text 4 <4>",
            "text 5 4",
        ]
    );
}

#[test]
fn mount_refuses_a_mask_that_is_too_narrow() {
    let mut items: Vec<Item> = (0..9)
        .map(|i| Item::Local {
            name: format!("s{i}"),
            ty: "i32".to_string(),
            init: "0".to_string(),
            inner: vec![],
        })
        .collect();
    items.push(Item::Macro { elements: vec![element("div", vec![], vec![])] });
    let mut builder = ComponentBuilder::new("Wide".to_string());
    builder.visit_items(&items).unwrap();
    let component = builder.build::<u16>().unwrap();
    let mut ui = CommandBuffer::default();
    let mut cache = TemplateCache::default();
    assert!(component.mount::<CommandBuffer, u8>(&mut ui, &mut cache, &Props::new(vec![])).is_none());
    assert!(launch::<CommandBuffer, u8>(&mut ui, &component, &mut cache, &Props::new(vec![])).is_none());
    assert!(ui.take().is_empty());
    assert!(cache.names.is_empty());
    let mounted = component.mount::<CommandBuffer, u16>(&mut ui, &mut cache, &Props::new(vec![]));
    assert!(mounted.is_some());
    assert_eq!(cache.names.len(), 1);
}

#[test]
fn missing_first_values_are_the_unit_value() {
    let component = table();
    let mut ui = CommandBuffer::default();
    let mut cache = TemplateCache::default();
    let instance: Instance<u8> = component.create(&mut ui, &mut cache, &Props::new(vec![]));
    let texts: Vec<String> = ui
        .take()
        .iter()
        .filter_map(|c| match c {
            Command::SetText { text, .. } => Some(text.clone()),
            _ => None,
        })
        .collect();
    assert_eq!(texts, vec!["()", "<()>", "()"]);
    assert!(instance.peek(0).same(&Value::Unit));
}

#[test]
fn reading_marks_the_read_mask_only() {
    let component = table();
    let mut ui = CommandBuffer::default();
    let mut cache = TemplateCache::default();
    let mut instance: Instance<u8> = component.create(&mut ui, &mut cache, &Props::new(vec![Value::I32(1)]));
    assert_eq!(instance.tracking.get_read(), 0);
    assert!(instance.get(0).same(&Value::I32(1)));
    assert!(instance.get(2).same(&Value::Str("1".to_string())));
    assert_eq!(instance.tracking.get_read(), 0b101);
    assert_eq!(instance.tracking.get_write(), 0);
}

#[test]
fn spare_handles_are_counted() {
    let mut slab: IdSlab<()> = IdSlab::default();
    assert_eq!(slab.spare(), u32::MAX as u64);
    let a = slab.id(());
    slab.id(());
    assert_eq!(slab.spare(), u32::MAX as u64 - 2);
    slab.recycle(a);
    assert_eq!(slab.spare(), u32::MAX as u64 - 1);
    let ui = CommandBuffer::default();
    assert!(ui.has_spare(1000));
    assert!(ui.has_spare(u32::MAX as usize - 1));
    assert!(!ui.has_spare(u32::MAX as usize));
}

#[test]
fn two_component_types_have_a_template_each() {
    let first = table();
    let mut builder = ComponentBuilder::new("Other".to_string());
    builder.visit_macro(&vec![element("p", vec![], vec![text("hi")])]).unwrap();
    let second = builder.build::<u8>().unwrap();
    let mut ui = CommandBuffer::default();
    let mut cache = TemplateCache::default();
    let mut creates = Vec::new();
    for component in [&first, &second, &first, &second] {
        let _instance: Instance<u8> = component.create(&mut ui, &mut cache, &Props::new(vec![Value::I32(0)]));
        creates.push(
            ui.take()
                .iter()
                .filter(|c| {
                    matches!(c, Command::CreateElement { .. } | Command::CreateText { .. })
                })
                .count(),
        );
    }
    assert_eq!(creates, vec![10, 2, 0, 0]);
    assert_eq!(cache.names, vec!["Table".to_string(), "Other".to_string()]);
}

#[test]
fn a_held_template_needs_no_handles_of_its_own() {
    let component = table();
    let mut cache = TemplateCache::default();
    assert!(!cache.has("Table"));
    assert_eq!(component.count_handles(cache.has("Table")), Some(16));
    let mut ui = CommandBuffer::default();
    let props = Props::new(vec![]);
    assert!(component.mount::<CommandBuffer, u8>(&mut ui, &mut cache, &props).is_some());
    assert!(cache.has("Table"));
    assert!(!cache.has("Other"));
    assert_eq!(component.count_handles(cache.has("Table")), Some(6));
    ui.take();
    assert!(component.mount::<CommandBuffer, u8>(&mut ui, &mut cache, &props).is_some());
    let calls = ui.take();
    assert!(!calls
        .iter()
        .any(|c| matches!(c, Command::CreateElement { .. } | Command::CreateText { .. })));
    assert_eq!(cache.names, vec!["Table".to_string()]);
}

#[test]
fn the_template_is_made_at_the_first_call_only() {
    let component = table();
    let mut ui = CommandBuffer::default();
    let mut cache = TemplateCache::default();
    let first = component.rsx.get_template_fn(&component.name, &mut cache, &mut ui).unwrap();
    assert_eq!(first.len(), component.rsx.roots.len());
    let made = ui.take();
    let creates = made
        .iter()
        .filter(|c| matches!(c, Command::CreateElement { .. } | Command::CreateText { .. }))
        .count();
    assert_eq!(creates, 10);
    for _ in 0..5 {
        let again = component.rsx.get_template_fn(&component.name, &mut cache, &mut ui).unwrap();
        assert_eq!(again, first);
        assert!(ui.take().is_empty());
        assert_eq!(cache.names, vec!["Table".to_string()]);
        assert_eq!(cache.templates.len(), 1);
    }
    assert_eq!(cache.get_template(&component, &mut ui), 0);
    assert!(ui.take().is_empty());
}
