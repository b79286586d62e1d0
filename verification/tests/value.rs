use qk::decimal::{write_signed, write_unsigned};
use qk::value::Value;

fn shown(value: &Value) -> String {
    let mut text = String::from(">");
    value.write(&mut text);
    text
}

#[test]
fn unsigned_numbers_in_decimal() {
    for (n, expected) in [
        (0u64, "0"),
        (7, "7"),
        (10, "10"),
        (1234567890, "1234567890"),
        (u64::MAX, "18446744073709551615"),
    ] {
        let mut text = String::new();
        write_unsigned(n, &mut text);
        assert_eq!(text, expected);
    }
}

#[test]
fn signed_numbers_in_decimal() {
    for (n, expected) in [
        (0i64, "0"),
        (-1, "-1"),
        (42, "42"),
        (i64::MAX, "9223372036854775807"),
        (i64::MIN, "-9223372036854775808"),
    ] {
        let mut text = String::from("n=");
        write_signed(n, &mut text);
        assert_eq!(text, format!("n={expected}"));
    }
}

#[test]
fn values_are_shown_as_text() {
    assert_eq!(shown(&Value::Unit), ">()");
    assert_eq!(shown(&Value::U32(u32::MAX)), ">4294967295");
    assert_eq!(shown(&Value::I32(i32::MIN)), ">-2147483648");
    assert_eq!(shown(&Value::Bool(true)), ">true");
    assert_eq!(shown(&Value::Bool(false)), ">false");
    assert_eq!(shown(&Value::Str("hello world".to_string())), ">hello world");
    assert_eq!(shown(&Value::List(vec![])), ">[]");
    assert_eq!(shown(&Value::List(vec![1])), ">[1]");
    assert_eq!(shown(&Value::List(vec![1, -2, 3])), ">[1, -2, 3]");
}

#[test]
fn list_is_shown_as_the_standard_library_shows_it() {
    let items = vec![5, -17, 0, i32::MAX];
    assert_eq!(shown(&Value::List(items.clone())), format!(">{:?}", items));
}

#[test]
fn equality_of_values() {
    assert!(Value::Unit.same(&Value::Unit));
    assert!(Value::I32(3).same(&Value::I32(3)));
    assert!(!Value::I32(3).same(&Value::I32(4)));
    assert!(!Value::I32(3).same(&Value::U32(3)));
    assert!(Value::Str("a".to_string()).same(&Value::Str("a".to_string())));
    assert!(!Value::Str("a".to_string()).same(&Value::Str("ab".to_string())));
    assert!(Value::List(vec![1, 2]).same(&Value::List(vec![1, 2])));
    assert!(!Value::List(vec![1, 2]).same(&Value::List(vec![2, 1])));
    assert!(!Value::List(vec![]).same(&Value::Unit));
    assert!(Value::List(vec![4, 5]).duplicate().same(&Value::List(vec![4, 5])));
}

#[test]
fn push_then_clear_leaves_the_empty_list() {
    let mut list = Value::List(vec![]);
    let before = shown(&list);
    list.push(9);
    assert_eq!(shown(&list), ">[9]");
    list.clear();
    assert_eq!(shown(&list), before);

    let mut number = Value::I32(1);
    number.push(9);
    number.clear();
    assert!(number.same(&Value::I32(1)));
}

#[test]
fn debugging_form_differs_for_texts_only() {
    for value in [Value::Unit, Value::I32(-7), Value::Bool(true), Value::List(vec![1, 2])] {
        let mut plain = String::new();
        let mut debug = String::new();
        value.write(&mut plain);
        value.write_debug(&mut debug);
        assert_eq!(plain, debug);
    }
    let mut debug = String::from("=");
    Value::Str("tab\there".to_string()).write_debug(&mut debug);
    assert_eq!(debug, "=\"tab\\there\"");
}

#[test]
fn displays() {
    let mut builder = qk::component_visitor::ComponentBuilder::new("Hello".to_string());
    builder.state("name".to_string(), "&str".to_string(), "\"\"".to_string());
    builder.state("num".to_string(), "i32".to_string(), "0".to_string());
    let (segments, _) = qk::format::FormattedText::split("hello {name}, {num} welcome");
    assert_eq!(segments.len(), 5);
    let text = qk::rsx::Quoted::new(
        "hello {name}, {num} welcome".to_string(),
        vec![vec![], vec!["name".to_string()], vec![], vec!["num".to_string()], vec![]],
    );
    let markup = qk::rsx::Node::Element(qk::rsx::NodeElement {
        name: "div".to_string(),
        attributes: vec![],
        children: vec![qk::rsx::Node::Text(qk::rsx::NodeText {
            value: qk::rsx::NodeValue::Literal(text),
        })],
    });
    builder.visit_macro(&vec![markup]).unwrap();
    let component = builder.build::<u8>().unwrap();
    let mut ui = qk::renderer::CommandBuffer::default();
    let mut cache = qk::template::TemplateCache::default();
    let init = qk::mount::Props::new(vec![Value::Str("world".to_string()), Value::I32(-1)]);
    let mut instance: qk::runtime::Instance<u8> = component.create(&mut ui, &mut cache, &init);
    ui.take();
    for num in 0..10000 {
        instance.with_state(&component, &mut ui, 1, Value::I32(num));
        let mut string = String::new();
        instance.peek(2).write(&mut string);
        assert_eq!(string, format!("hello world, {num} welcome"));
        let calls = ui.take();
        assert_eq!(calls.len(), 1);
        assert!(matches!(&calls[0], qk::renderer::Command::SetText { text, .. } if *text == string));
    }
}
