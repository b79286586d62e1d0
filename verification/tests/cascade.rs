use qk::component::{Cell, Component, ComponentState};
use qk::component_visitor::ComponentBuilder;
use qk::expr::Code;
use qk::format::{FormattedText, Segment};
use qk::fragment::Fragment;
use qk::memo::{Piece, Updater};
use qk::mount::Props;
use qk::prop::Prop;
use qk::renderer::{Command, CommandBuffer, Renderer};
use qk::rsx::{NameKind, Node, NodeElement, NodeText, NodeValue, Quoted};
use qk::runtime::Instance;
use qk::template::TemplateCache;
use qk::value::Value;
use syn::visit::Visit;

struct Idents(Vec<String>);

impl<'ast> Visit<'ast> for Idents {
    fn visit_ident(&mut self, ident: &'ast proc_macro2::Ident) {
        self.0.push(ident.to_string());
    }
}

/// The identifiers of an expression, as its parser finds them.
fn idents(source: &str) -> Vec<String> {
    match syn::parse_str::<syn::Expr>(source) {
        Ok(expr) => {
            let mut found = Idents(Vec::new());
            found.visit_expr(&expr);
            found.0
        }
        Err(_) => Vec::new(),
    }
}

fn code(source: &str) -> Code {
    Code::new(source.to_string(), idents(source))
}

fn quoted(text: &str) -> Quoted {
    let (segments, _) = FormattedText::split(text);
    let names = segments
        .iter()
        .map(|segment| match segment {
            Segment::Literal(_) => Vec::new(),
            Segment::Formatted(f) => idents(&f.segment),
        })
        .collect();
    Quoted::new(text.to_string(), names)
}

fn text(content: &str) -> Node {
    Node::Text(NodeText { value: NodeValue::Literal(quoted(content)) })
}

fn div(children: Vec<Node>) -> Node {
    Node::Element(NodeElement { name: "div".to_string(), attributes: vec![], children })
}

/// A derived cell that shows nothing: its node does not exist.
fn derived(pieces: Vec<Piece>) -> Updater {
    Updater::Text { root: 99, node: 0, pieces }
}

fn lit(text: &str) -> Piece {
    Piece::Literal(text.to_string())
}

fn mount(component: &Component, init: Vec<Value>) -> (Instance<u8>, CommandBuffer) {
    let mut ui = CommandBuffer::default();
    let mut cache = TemplateCache::default();
    let instance = component.create(&mut ui, &mut cache, &Props::new(init));
    ui.take();
    (instance, ui)
}

fn shown(instance: &Instance<u8>, slot: usize) -> String {
    let mut text = String::new();
    instance.peek(slot).write(&mut text);
    text
}

/// x in slot 0, then A = "a=" x in slot 1 and B = A "!" in slot 2.
fn chain() -> Component {
    let mut builder = ComponentBuilder::new("Chain".to_string());
    builder.state("x".to_string(), "i32".to_string(), "0".to_string());
    builder.visit_macro(&vec![div(vec![])]).unwrap();
    assert_eq!(builder.bind(derived(vec![lit("a="), Piece::Cell(0)])), 1);
    assert_eq!(builder.bind(derived(vec![Piece::Cell(1), lit("!")])), 2);
    builder.build::<u8>().unwrap()
}

#[test]
fn chain_is_recomputed_in_order_each_once() {
    let component = chain();
    match &component.cells[1] {
        Cell::Memo(a) => {
            assert_eq!(a.subscriptions, std::collections::HashSet::from([0]));
            assert_eq!(a.subscribers, std::collections::HashSet::from([2]));
            assert_eq!(a.ident(), "memo_1");
            assert!(!a.runs_once());
        }
        other => panic!("unexpected {:?}", other),
    }
    let (mut instance, mut ui) = mount(&component, vec![Value::I32(0)]);
    assert_eq!(shown(&instance, 1), "a=0");
    assert_eq!(shown(&instance, 2), "a=0!");
    let runs = instance.with_state(&component, &mut ui, 0, Value::I32(5));
    assert_eq!(runs, vec![1, 2]);
    assert_eq!(shown(&instance, 1), "a=5");
    assert_eq!(shown(&instance, 2), "a=5!");
}

#[test]
fn an_update_that_changes_nothing_does_not_cascade() {
    let component = chain();
    let (mut instance, mut ui) = mount(&component, vec![Value::I32(3)]);
    let runs = instance.with_state(&component, &mut ui, 0, Value::I32(3));
    assert_eq!(runs, vec![1]);
    assert!(instance.tracking.is_write(0));
    assert!(!instance.tracking.is_write(1));
    assert_eq!(shown(&instance, 2), "a=3!");
}

#[test]
fn recomputing_twice_is_quiet_the_second_time() {
    let component = chain();
    let (mut instance, mut ui) = mount(&component, vec![Value::I32(0)]);
    instance.begin();
    instance.set(0, Value::I32(8));
    let mut runs = Vec::new();
    instance.recompute(&component, &mut ui, &mut runs, 1);
    assert_eq!(shown(&instance, 1), "a=8");
    assert!(instance.tracking.is_write(1));
    let written = instance.tracking.get_write();
    instance.tracking.reset_write();
    instance.recompute(&component, &mut ui, &mut runs, 1);
    assert_eq!(shown(&instance, 1), "a=8");
    assert_eq!(instance.tracking.get_write(), 0);
    assert_eq!(written, 0b11);
    assert_eq!(instance.tracking.get_read(), 0b1);
    assert_eq!(runs, vec![1, 1]);
}

#[test]
fn a_cell_with_two_changed_dependencies_runs_once_after_both() {
    let mut builder = ComponentBuilder::new("Diamond".to_string());
    builder.state("x".to_string(), "i32".to_string(), "0".to_string());
    builder.visit_macro(&vec![div(vec![])]).unwrap();
    let a = builder.bind(derived(vec![lit("a"), Piece::Cell(0)]));
    let b = builder.bind(derived(vec![lit("b"), Piece::Cell(0)]));
    let c = builder.bind(derived(vec![Piece::Cell(a), lit("+"), Piece::Cell(b)]));
    let component = builder.build::<u8>().unwrap();
    let (mut instance, mut ui) = mount(&component, vec![Value::I32(1)]);
    assert_eq!(shown(&instance, c), "a1+b1");
    let runs = instance.with_state(&component, &mut ui, 0, Value::I32(2));
    assert_eq!(runs, vec![a, b, c]);
    assert_eq!(shown(&instance, c), "a2+b2");
}

#[test]
fn several_writes_in_one_handler_coalesce() {
    let mut builder = ComponentBuilder::new("Two".to_string());
    builder.state("x".to_string(), "i32".to_string(), "0".to_string());
    builder.state("y".to_string(), "i32".to_string(), "0".to_string());
    builder.visit_macro(&vec![div(vec![])]).unwrap();
    let a = builder.bind(derived(vec![Piece::Cell(1)]));
    let b = builder.bind(derived(vec![Piece::Cell(0), lit("/"), Piece::Cell(a)]));
    let only_y = builder.bind(derived(vec![lit("y"), Piece::Cell(1)]));
    let component = builder.build::<u8>().unwrap();
    let (mut instance, mut ui) = mount(&component, vec![Value::I32(0), Value::I32(0)]);
    let writes =
        vec![(0, Value::I32(1)), (1, Value::I32(7)), (0, Value::I32(2)), (1, Value::I32(9))];
    let runs = instance.handle(&component, &mut ui, &vec![0, 1, 0], &writes);
    assert_eq!(runs, vec![a, b, only_y]);
    assert_eq!(shown(&instance, b), "2/9");
    assert_eq!(shown(&instance, only_y), "y9");
    let calls = ui.take();
    assert_eq!(calls.len(), 1);
    assert!(matches!(calls[0], Command::Flush));
}

#[test]
fn writes_to_what_is_no_state_cell_are_left_out() {
    let component = chain();
    let (mut instance, mut ui) = mount(&component, vec![Value::I32(0)]);
    let writes = vec![(1, Value::Str("forged".to_string())), (17, Value::I32(1))];
    let runs = instance.handle(&component, &mut ui, &vec![1, 17], &writes);
    assert!(runs.is_empty());
    assert_eq!(shown(&instance, 1), "a=0");
}

#[test]
fn unrelated_bindings_are_not_touched() {
    let mut builder = ComponentBuilder::new("Pair".to_string());
    builder.state("count".to_string(), "i32".to_string(), "0".to_string());
    builder.state("name".to_string(), "String".to_string(), "String::new()".to_string());
    builder
        .visit_macro(&vec![div(vec![text("count: {count}"), text("name: { name }")])])
        .unwrap();
    let component = builder.build::<u8>().unwrap();
    let mut ui = CommandBuffer::default();
    let mut cache = TemplateCache::default();
    let init = Props::new(vec![Value::I32(0), Value::Str("qk".to_string())]);
    let mut instance: Instance<u8> = component.create(&mut ui, &mut cache, &init);
    let mounted = ui.take();
    let texts: Vec<String> = mounted
        .iter()
        .filter_map(|c| match c {
            Command::SetText { text, .. } => Some(text.clone()),
            _ => None,
        })
        .collect();
    assert_eq!(texts, vec!["count: 0", "name: qk"]);
    instance.with_state(&component, &mut ui, 0, Value::I32(1));
    let calls = ui.take();
    assert_eq!(calls.len(), 1);
    assert!(matches!(&calls[0], Command::SetText { text, .. } if text == "count: 1"));
}

#[test]
fn list_text_returns_after_push_and_clear() {
    let mut builder = ComponentBuilder::new("List".to_string());
    builder.state("nums".to_string(), "Vec<i32>".to_string(), "vec![]".to_string());
    builder.visit_macro(&vec![div(vec![text("nums={nums:?}")])]).unwrap();
    let component = builder.build::<u8>().unwrap();
    let (mut instance, mut ui) = mount(&component, vec![Value::List(vec![])]);
    assert_eq!(shown(&instance, 1), "nums=[]");
    let before = shown(&instance, 1);

    let mut nums = instance.peek(0).duplicate();
    nums.push(1);
    instance.with_state(&component, &mut ui, 0, nums);
    assert_eq!(shown(&instance, 1), "nums=[1]");

    let mut nums = instance.peek(0).duplicate();
    nums.clear();
    instance.with_state(&component, &mut ui, 0, nums);
    assert_eq!(shown(&instance, 1), before);
    let texts: Vec<String> = ui
        .take()
        .iter()
        .filter_map(|c| match c {
            Command::SetText { text, .. } => Some(text.clone()),
            _ => None,
        })
        .collect();
    assert_eq!(texts, vec!["nums=[1]", "nums=[]"]);
}

#[test]
fn attribute_bindings_set_their_attribute() {
    let mut builder = ComponentBuilder::new("Attr".to_string());
    builder.prop(Prop::new("kind".to_string(), "String".to_string()));
    let markup = vec![Node::Element(NodeElement {
        name: "p".to_string(),
        attributes: vec![Node::Attribute(qk::rsx::NodeAttribute {
            key: "class".to_string(),
            kind: NameKind::Path,
            value: Some(NodeValue::Literal(quoted("item {kind}"))),
        })],
        children: vec![],
    })];
    builder.visit_macro(&markup).unwrap();
    let component = builder.build::<u8>().unwrap();
    let mut ui = CommandBuffer::default();
    let mut cache = TemplateCache::default();
    let init = Props::new(vec![Value::Str("odd".to_string())]);
    let instance: Instance<u8> = component.create(&mut ui, &mut cache, &init);
    let calls = ui.take();
    let set: Vec<(u32, String, String)> = calls
        .iter()
        .filter_map(|c| match c {
            Command::SetAttribute { id, name, value } => Some((*id, name.clone(), value.clone())),
            _ => None,
        })
        .collect();
    assert_eq!(set, vec![(instance.handles[0][0], "class".to_string(), "item odd".to_string())]);
    assert_eq!(instance.roots, vec![instance.handles[0][0]]);
}

#[test]
fn reactive_blocks_of_the_component_are_reported() {
    let mut builder = ComponentBuilder::new("Effects".to_string());
    builder.state("x".to_string(), "i32".to_string(), "0".to_string());
    builder.state("y".to_string(), "i32".to_string(), "0".to_string());
    let first = builder.memo(None, code("{ let x = *x; println!(\"{x}\"); }"), true, vec![]);
    let second = builder.memo(None, code("{ let y = *y; }"), true, vec![]);
    builder.visit_macro(&vec![div(vec![])]).unwrap();
    let component = builder.build::<u8>().unwrap();
    match &component.cells[first] {
        Cell::Memo(memo) => {
            assert_eq!(memo.subscriptions, std::collections::HashSet::from([0]));
            assert_eq!(memo.ty, "()");
            assert!(matches!(memo.update, Updater::Effect));
        }
        other => panic!("unexpected {:?}", other),
    }
    match &component.cells[0] {
        Cell::State(x) => assert_eq!(x.subscribers, std::collections::HashSet::from([first])),
        other => panic!("unexpected {:?}", other),
    }
    let (mut instance, mut ui) = mount(&component, vec![Value::I32(0), Value::I32(0)]);
    assert_eq!(instance.with_state(&component, &mut ui, 0, Value::I32(1)), vec![first]);
    assert_eq!(instance.with_state(&component, &mut ui, 1, Value::I32(1)), vec![second]);
    assert!(ui.take().is_empty());
}

#[test]
fn fragment_replaces_its_items() {
    let component = chain();
    let mut ui = CommandBuffer::default();
    let mut cache = TemplateCache::default();
    let first: Instance<u8> = component.create(&mut ui, &mut cache, &Props::new(vec![Value::I32(1)]));
    let second: Instance<u8> = component.create(&mut ui, &mut cache, &Props::new(vec![Value::I32(2)]));
    let third: Instance<u8> = component.create(&mut ui, &mut cache, &Props::new(vec![Value::I32(3)]));
    let old_roots = vec![first.roots[0], second.roots[0]];
    let new_root = third.roots[0];
    ui.take();
    let mut fragment = Fragment::new(vec![first, second]);
    assert_eq!(
        <Fragment<Instance<u8>> as ComponentState<CommandBuffer>>::roots(&fragment),
        old_roots
    );
    fragment.update(vec![third], 0, &mut ui);
    let calls = ui.take();
    assert_eq!(calls.len(), 3);
    assert!(matches!(calls[0], Command::Remove { id } if id == old_roots[0]));
    assert!(matches!(calls[1], Command::Remove { id } if id == old_roots[1]));
    assert!(
        matches!(calls[2], Command::AppendChild { parent: 0, child } if child == new_root)
    );
    <Fragment<Instance<u8>> as ComponentState<CommandBuffer>>::remove(&fragment, &mut ui);
    assert!(matches!(ui.take()[..], [Command::Remove { id }] if id == new_root));
}

#[test]
fn buffer_hands_out_and_takes_back_handles() {
    let mut ui = CommandBuffer::default();
    let a = ui.node();
    let b = ui.node();
    assert_eq!((a, b), (1, 2));
    ui.return_node(a);
    assert_eq!(ui.node(), a);
    ui.create_element(a, "div");
    ui.set_style(a, "color", "red");
    ui.append_all(0, &vec![a, b]);
    ui.flush();
    let calls = ui.take();
    assert_eq!(calls.len(), 5);
    assert!(matches!(&calls[1], Command::SetStyle { id, name, value }
        if *id == a && name == "color" && value == "red"));
    assert!(matches!(calls[3], Command::AppendChild { parent: 0, child } if child == b));
    assert!(ui.take().is_empty());
}

#[test]
fn a_text_is_quoted_where_it_is_shown_for_debugging() {
    let mut builder = ComponentBuilder::new("Quote".to_string());
    builder.state("name".to_string(), "String".to_string(), "String::new()".to_string());
    builder.state("n".to_string(), "i32".to_string(), "0".to_string());
    builder
        .visit_macro(&vec![div(vec![text("{name} is {name:?}"), text("{n} is {n:?}")])])
        .unwrap();
    let component = builder.build::<u8>().unwrap();
    let init = vec![Value::Str("a \"b\"\n".to_string()), Value::I32(-3)];
    let (instance, _) = mount(&component, init);
    assert_eq!(shown(&instance, 2), "a \"b\"\n is \"a \\\"b\\\"\\n\"");
    assert_eq!(shown(&instance, 3), "-3 is -3");
}

#[test]
fn other_segments_are_left_to_the_host() {
    let mut builder = ComponentBuilder::new("Pad".to_string());
    builder.state("n".to_string(), "i32".to_string(), "0".to_string());
    builder.state("m".to_string(), "i32".to_string(), "0".to_string());
    builder.visit_macro(&vec![div(vec![text("{n:>5}|{n + m}|{n}|{other}|{ m :?}")])]).unwrap();
    let component = builder.build::<u8>().unwrap();
    match &component.cells[2] {
        Cell::Memo(memo) => {
            assert_eq!(memo.subscriptions, std::collections::HashSet::from([0, 1]));
            match &memo.update {
                Updater::Text { pieces, .. } => {
                    assert_eq!(pieces.len(), 9);
                    assert!(matches!(&pieces[0],
                        Piece::Host { index: 0, source, format_args, reads }
                            if source == "n" && format_args == ">5" && reads == &vec![0]));
                    assert!(matches!(&pieces[1], Piece::Literal(l) if l == "|"));
                    assert!(matches!(&pieces[2],
                        Piece::Host { index: 1, source, format_args, reads }
                            if source == "n + m" && format_args.is_empty() && reads == &vec![0, 1]));
                    assert!(matches!(&pieces[4], Piece::Cell(0)));
                    assert!(matches!(&pieces[6],
                        Piece::Host { index: 2, source, format_args, reads }
                            if source == "other" && format_args.is_empty() && reads.is_empty()));
                    assert!(matches!(&pieces[8], Piece::Debug(1)));
                }
                other => panic!("unexpected {:?}", other),
            }
        }
        other => panic!("unexpected {:?}", other),
    }
    match &component.cells[0] {
        Cell::State(n) => assert_eq!(n.subscribers, std::collections::HashSet::from([2])),
        other => panic!("unexpected {:?}", other),
    }
    let mut ui = CommandBuffer::default();
    let mut cache = TemplateCache::default();
    let init = Props {
        values: vec![Value::I32(7), Value::I32(1)],
        texts: vec![vec![], vec![], vec!["    7".to_string(), "8".to_string(), "x".to_string()]],
    };
    let mut instance: Instance<u8> = component.create(&mut ui, &mut cache, &init);
    assert_eq!(shown(&instance, 2), "    7|8|7|x|1");
    let set: Vec<String> = ui
        .take()
        .iter()
        .filter_map(|c| match c {
            Command::SetText { text, .. } => Some(text.clone()),
            _ => None,
        })
        .collect();
    assert_eq!(set, vec!["    7|8|7|x|1"]);
    assert_eq!(instance.supplied_to(2), vec!["    7", "8", "x"]);
    instance.supply(2, vec!["   70".to_string(), "71".to_string()]);
    assert_eq!(shown(&instance, 2), "    7|8|7|x|1");
    assert_eq!(instance.with_state(&component, &mut ui, 0, Value::I32(70)), vec![2]);
    assert_eq!(shown(&instance, 2), "   70|71|70||1");
    let calls = ui.take();
    assert!(matches!(&calls[0], Command::SetText { text, .. } if text == "   70|71|70||1"));
    instance.supply(5, vec!["far".to_string()]);
    assert_eq!(instance.supplied.len(), 6);
    assert_eq!(instance.supplied_to(5), vec!["far"]);
    assert_eq!(instance.supplied_to(4), Vec::<String>::new());
    assert_eq!(instance.supplied_to(9), Vec::<String>::new());
    assert_eq!(instance.supplied_to(2), vec!["   70", "71"]);
}

#[test]
fn a_text_that_the_host_does_not_supply_is_empty() {
    let mut builder = ComponentBuilder::new("Bare".to_string());
    builder.state("n".to_string(), "i32".to_string(), "0".to_string());
    builder.visit_macro(&vec![div(vec![text("[{n * 2}] {n}")])]).unwrap();
    let component = builder.build::<u8>().unwrap();
    let (instance, _) = mount(&component, vec![Value::I32(4)]);
    assert_eq!(shown(&instance, 1), "[] 4");
}

#[test]
fn a_cell_is_updated_through_its_own_method() {
    let component = chain();
    let (mut instance, mut ui) = mount(&component, vec![Value::I32(0)]);
    let (x, a) = match (&component.cells[0], &component.cells[1]) {
        (Cell::State(x), Cell::Memo(a)) => (x, a),
        other => panic!("unexpected {:?}", other),
    };
    let mut runs = Vec::new();
    instance.begin();
    x.update(&mut instance, &component, &mut ui, &mut runs);
    assert!(runs.is_empty());
    instance.set(0, Value::I32(4));
    x.update(&mut instance, &component, &mut ui, &mut runs);
    assert_eq!(runs, vec![1, 2]);
    assert_eq!(shown(&instance, 2), "a=4!");
    a.update(&mut instance, &component, &mut ui, &mut runs);
    assert_eq!(runs, vec![1, 2, 1]);
    assert_eq!(shown(&instance, 1), "a=4");
}

/// x and y in slots 0 and 1, then a binding of y alone in slot 2, one of x
/// in slot 3, and one of both bindings in slot 4.
fn two_states() -> Component {
    let mut builder = ComponentBuilder::new("TwoStates".to_string());
    builder.state("x".to_string(), "i32".to_string(), "0".to_string());
    builder.state("y".to_string(), "i32".to_string(), "0".to_string());
    builder.visit_macro(&vec![div(vec![])]).unwrap();
    assert_eq!(builder.bind(derived(vec![lit("y="), Piece::Cell(1)])), 2);
    assert_eq!(builder.bind(derived(vec![lit("x="), Piece::Cell(0)])), 3);
    assert_eq!(builder.bind(derived(vec![Piece::Cell(2), lit(" "), Piece::Cell(3)])), 4);
    builder.build::<u8>().unwrap()
}

#[test]
fn the_update_of_a_slot_reaches_its_own_subscribers_only() {
    let component = two_states();
    let (mut instance, mut ui) = mount(&component, vec![Value::I32(0), Value::I32(0)]);
    let (x, y) = match (&component.cells[0], &component.cells[1]) {
        (Cell::State(x), Cell::State(y)) => (x, y),
        other => panic!("unexpected {:?}", other),
    };
    instance.begin();
    instance.set(0, Value::I32(1));
    instance.set(1, Value::I32(2));
    let mut runs = Vec::new();
    x.update(&mut instance, &component, &mut ui, &mut runs);
    // the binding of y alone waits for the update of y
    assert_eq!(runs, vec![3, 4]);
    assert_eq!(shown(&instance, 2), "y=0");
    assert_eq!(shown(&instance, 3), "x=1");
    y.update(&mut instance, &component, &mut ui, &mut runs);
    assert_eq!(runs, vec![3, 4, 2]);
    assert_eq!(shown(&instance, 2), "y=2");
}

#[test]
fn the_update_of_a_slot_that_was_not_written_does_nothing() {
    let component = two_states();
    let (mut instance, mut ui) = mount(&component, vec![Value::I32(0), Value::I32(0)]);
    instance.begin();
    instance.set(1, Value::I32(2));
    let mut runs = Vec::new();
    instance.update_slot(&component, &mut ui, &mut runs, 0);
    assert!(runs.is_empty());
    assert!(ui.take().is_empty());
    instance.update_slot(&component, &mut ui, &mut runs, 1);
    assert_eq!(runs, vec![2, 4]);
}

#[test]
fn a_handler_notifies_its_targets_in_one_cascade() {
    let component = two_states();
    let (mut instance, mut ui) = mount(&component, vec![Value::I32(0), Value::I32(0)]);
    let writes = vec![(0, Value::I32(1)), (1, Value::I32(2))];
    let runs = instance.handle(&component, &mut ui, &vec![0, 1], &writes);
    assert_eq!(runs, vec![2, 3, 4]);
    assert_eq!(shown(&instance, 4), "y=2 x=1");
    // a write to a cell that the listener does not name is not carried on
    let writes = vec![(0, Value::I32(5)), (1, Value::I32(6))];
    let runs = instance.handle(&component, &mut ui, &vec![1], &writes);
    assert_eq!(runs, vec![2, 4]);
    assert_eq!(shown(&instance, 3), "x=1");
    assert_eq!(shown(&instance, 4), "y=6 x=1");
}

#[test]
fn the_update_of_a_derived_cell_cascades_where_its_value_changed() {
    let component = chain();
    let (mut instance, mut ui) = mount(&component, vec![Value::I32(0)]);
    let a = match &component.cells[1] {
        Cell::Memo(a) => a,
        other => panic!("unexpected {:?}", other),
    };
    let mut runs = Vec::new();
    instance.begin();
    // nothing was written: the value stays, and the subscriber is left alone
    a.update(&mut instance, &component, &mut ui, &mut runs);
    assert_eq!(runs, vec![1]);
    assert_eq!(instance.tracking.get_write(), 0);
    instance.begin();
    instance.set(0, Value::I32(7));
    let mut runs = Vec::new();
    a.update(&mut instance, &component, &mut ui, &mut runs);
    assert_eq!(runs, vec![1, 2]);
    assert_eq!(shown(&instance, 1), "a=7");
    assert_eq!(shown(&instance, 2), "a=7!");
    assert_eq!(instance.tracking.get_write(), 0b111);
    // the step alone recomputes one cell and says whether it changed
    instance.begin();
    instance.set(0, Value::I32(8));
    let mut runs = Vec::new();
    assert!(instance.recompute(&component, &mut ui, &mut runs, 1));
    assert!(!instance.recompute(&component, &mut ui, &mut runs, 1));
    assert_eq!(runs, vec![1, 1]);
    assert_eq!(shown(&instance, 2), "a=7!");
    instance.update_memo(&component, &mut ui, &mut runs, 2);
    assert_eq!(shown(&instance, 2), "a=8!");
}
