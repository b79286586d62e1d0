use qk::component::Cell;
use qk::component_visitor::{ComponentBuilder, Item};
use qk::error::BuildError;
use qk::expr::Code;
use qk::memo::Updater;
use qk::rsx::{Node, NodeElement};
use quote::ToTokens;
use syn::visit::Visit;

fn source_of(tokens: &impl ToTokens) -> String {
    tokens.to_token_stream().to_string()
}

struct Names(Vec<String>);

impl<'ast> Visit<'ast> for Names {
    fn visit_ident(&mut self, ident: &'ast proc_macro2::Ident) {
        self.0.push(ident.to_string());
    }
}

/// The type of a state cell, if the statement declares one:
/// `let name: Rx<ty> = ...;`.
fn state_of(local: &syn::Local) -> Option<(String, String)> {
    let syn::Pat::Type(typed) = &local.pat else {
        return None;
    };
    let syn::Type::Path(path) = &*typed.ty else {
        return None;
    };
    let first = path.path.segments.first()?;
    let syn::PathArguments::AngleBracketed(arguments) = &first.arguments else {
        return None;
    };
    if path.path.segments.len() != 1 || first.ident != "Rx" {
        return None;
    }
    let syn::GenericArgument::Type(ty) = arguments.args.first()? else {
        return None;
    };
    let syn::Pat::Ident(name) = &*typed.pat else {
        return None;
    };
    Some((name.ident.to_string(), source_of(ty)))
}

/// Gathers the state cells and the reactive blocks of a body.
struct Collector(Vec<Item>);

impl<'ast> Visit<'ast> for Collector {
    fn visit_expr_call(&mut self, call: &'ast syn::ExprCall) {
        if let syn::Expr::Path(path) = &*call.func {
            if path.path.is_ident("rx") {
                if let Some(syn::Expr::Closure(closure)) = call.args.first() {
                    let mut names = Names(Vec::new());
                    names.visit_expr(&closure.body);
                    let mut nested = Collector(Vec::new());
                    syn::visit::visit_expr_call(&mut nested, call);
                    self.0.push(Item::Call {
                        closure: Code::new(source_of(&closure.body), names.0),
                        capture: closure.capture.is_some(),
                        inner: nested.0,
                    });
                    return;
                }
            }
        }
        syn::visit::visit_expr_call(self, call);
    }

    fn visit_local(&mut self, local: &'ast syn::Local) {
        if let Some((name, ty)) = state_of(local) {
            let init = local.init.as_ref().map(|(_, init)| source_of(init)).unwrap_or_default();
            let mut nested = Collector(Vec::new());
            syn::visit::visit_local(&mut nested, local);
            self.0.push(Item::Local { name, ty, init, inner: nested.0 });
            return;
        }
        syn::visit::visit_local(self, local);
    }
}

#[test]
fn data_parses() {
    let input = r#"fn Foo(cx: Scope) {
            let x: Rx<i32> = 0;
            let y: Rx<i32> = 0;
            rx(|| {
                let x = *x;
                println!("{x}");
            });
            rx(|| {
                let x = *x;
                let y = *y;
                println!("{x}");
            });
            *x = *x + 1;
        }"#;
    let function = syn::parse_str::<syn::ItemFn>(input).unwrap();
    let mut collector = Collector(Vec::new());
    collector.visit_block(&function.block);
    let items = collector.0;
    assert_eq!(items.len(), 4);

    let mut builder = ComponentBuilder::new(function.sig.ident.to_string());
    builder.visit_items(&items).unwrap();
    assert_eq!(builder.names, vec!["x", "y", "memo_2", "memo_3"]);
    println!("{:#?}", builder.cells);

    let mut bare = ComponentBuilder::new(function.sig.ident.to_string());
    bare.visit_items(&items).unwrap();
    assert!(matches!(bare.build::<u8>(), Err(BuildError::MissingMarkup)));

    let markup = Node::Element(NodeElement {
        name: "div".to_string(),
        attributes: vec![],
        children: vec![],
    });
    builder.visit_macro(&vec![markup]).unwrap();
    let comp = builder.build::<u8>().unwrap();
    println!("{comp:#?}");
    assert_eq!(comp.name, "Foo");
    assert_eq!(comp.cells.len(), 4);
    match (&comp.cells[0], &comp.cells[1]) {
        (Cell::State(x), Cell::State(y)) => {
            assert_eq!((x.id, x.name.as_str(), x.ty.as_str(), x.expr.as_str()), (0, "x", "i32", "0"));
            assert_eq!((y.id, y.name.as_str(), y.ty.as_str(), y.expr.as_str()), (1, "y", "i32", "0"));
            assert_eq!(x.subscribers, std::collections::HashSet::from([2, 3]));
            assert_eq!(y.subscribers, std::collections::HashSet::from([3]));
            assert_eq!(x.type_def(), "x: i32");
            assert_eq!(x.update_fn(), "update_x");
        }
        other => panic!("unexpected {:?}", other),
    }
    match (&comp.cells[2], &comp.cells[3]) {
        (Cell::Memo(first), Cell::Memo(second)) => {
            assert_eq!(first.subscriptions, std::collections::HashSet::from([0]));
            assert_eq!(second.subscriptions, std::collections::HashSet::from([0, 1]));
            assert!(first.subscribers.is_empty());
            assert!(second.subscribers.is_empty());
            assert!(!first.capture);
            assert!(matches!(first.update, Updater::Effect));
            assert_eq!(first.ident(), "memo_2");
            assert_eq!(second.ident(), "memo_3");
        }
        other => panic!("unexpected {:?}", other),
    }
}
