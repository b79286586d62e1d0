use qk::text::{same_text, starts_with, tail, trim};
use qk::component_visitor::{contains_slot, find_cell, subscriptions, SubscriptionVisitor};
use qk::expr::{copy_lists, copy_texts, Code};
use syn::visit::Visit;

fn names(list: &[&str]) -> Vec<String> {
    list.iter().map(|s| s.to_string()).collect()
}

struct Idents(Vec<String>);

impl<'ast> Visit<'ast> for Idents {
    fn visit_ident(&mut self, ident: &'ast proc_macro2::Ident) {
        self.0.push(ident.to_string());
    }
}

fn idents(source: &str) -> Vec<String> {
    let expr = syn::parse_str::<syn::Expr>(source).unwrap();
    let mut found = Idents(Vec::new());
    found.visit_expr(&expr);
    found.0
}

#[test]
fn identifiers_come_from_the_parsed_expression() {
    assert_eq!(idents("{ let a = *z; a + foo.bar(_w) }"), names(&["a", "z", "a", "foo", "bar", "_w"]));
    let code = Code::new("x + y".to_string(), idents("x + y"));
    assert_eq!(code.source, "x + y");
    assert_eq!(code.idents, names(&["x", "y"]));
    let copy = code.duplicate();
    assert_eq!(copy.source, code.source);
    assert_eq!(copy.idents, code.idents);
}

#[test]
fn lists_of_texts_are_copied() {
    let list = names(&["a", "", "b c"]);
    assert_eq!(copy_texts(&list), list);
    assert_eq!(copy_texts(&vec![]), Vec::<String>::new());
    let lists = vec![names(&["a"]), vec![], names(&["b", "c"])];
    assert_eq!(copy_lists(&lists), lists);
}

#[test]
fn subscriptions_are_the_named_cells_in_rising_order() {
    let cells = names(&["x", "y", "z"]);
    assert_eq!(
        subscriptions(&cells, &idents("{ let a = *z; let b = *x; a + b + *x }")),
        vec![0, 2]
    );
    assert_eq!(subscriptions(&cells, &idents("println!(\"{w}\")")), Vec::<usize>::new());
    assert_eq!(subscriptions(&cells, &idents("y")), vec![1]);
    assert_eq!(subscriptions(&cells, &names(&["z", "nothing", "y", "z"])), vec![1, 2]);
    assert_eq!(subscriptions(&cells, &vec![]), Vec::<usize>::new());
}

#[test]
fn a_shadowed_name_refers_to_the_first_cell() {
    let cells = names(&["x", "y", "x"]);
    assert_eq!(find_cell(&cells, "x"), 0);
    assert_eq!(find_cell(&cells, "y"), 1);
    assert_eq!(find_cell(&cells, "w"), 3);
    assert_eq!(subscriptions(&cells, &idents("x + x")), vec![0]);
}

#[test]
fn visitor_records_each_occurrence() {
    let cells = names(&["a", "b"]);
    let mut visitor = SubscriptionVisitor { states: &cells, subscribed: Vec::new() };
    visitor.visit_ident("b");
    visitor.visit_ident("nothing");
    visitor.visit_idents(&idents("a + b * a"));
    assert_eq!(visitor.subscribed, vec![1, 0, 1, 0]);
    assert!(contains_slot(&visitor.subscribed, 1));
    assert!(!contains_slot(&visitor.subscribed, 2));
    assert_eq!(visitor.into_slots(), vec![0, 1]);
}

#[test]
fn helpers_on_texts() {
    assert_eq!(trim("  a b  "), "a b");
    assert_eq!(trim("   "), "");
    assert_eq!(trim(""), "");
    assert_eq!(trim("x"), "x");
    assert_eq!(trim("\tx "), "\tx");
    assert!(starts_with("onclick", "on"));
    assert!(!starts_with("o", "on"));
    assert!(starts_with("on", ""));
    assert_eq!(tail("onclick", 2), "click");
    assert_eq!(tail("on", 2), "");
    assert!(same_text("héllo", "héllo"));
    assert!(!same_text("hello", "hellö"));
}

#[test]
fn a_list_of_slots_becomes_a_set() {
    let set = qk::component_visitor::to_set(&vec![3, 1, 3, 0]);
    assert_eq!(set, std::collections::HashSet::from([0, 1, 3]));
    assert!(qk::component_visitor::to_set(&vec![]).is_empty());
}
