use qk::format::{is_unreadable, parses, Ending, FormatError, FormattedText, Segment};

fn literal(segment: &Segment) -> &str {
    match segment {
        Segment::Literal(text) => text,
        Segment::Formatted(_) => panic!("expected a literal"),
    }
}

fn formatted(segment: &Segment) -> (&str, &str) {
    match segment {
        Segment::Formatted(f) => (&f.segment, &f.format_args),
        Segment::Literal(_) => panic!("expected a formatted segment"),
    }
}

#[test]
fn splits_literal_and_value() {
    let text = FormattedText::from_str("count: {count}").unwrap();
    assert_eq!(text.segments.len(), 2);
    assert_eq!(literal(&text.segments[0]), "count: ");
    assert_eq!(formatted(&text.segments[1]), ("count", ""));
    assert!(text.is_dynamic());
    assert!(text.source.is_none());
}

#[test]
fn keeps_format_arguments() {
    let text = FormattedText::from_str("nums={nums:?}").unwrap();
    assert_eq!(text.segments.len(), 2);
    assert_eq!(literal(&text.segments[0]), "nums=");
    assert_eq!(formatted(&text.segments[1]), ("nums", "?"));
}

#[test]
fn doubled_braces_are_literal() {
    let text = FormattedText::from_str("a{{b}}c").unwrap();
    assert_eq!(text.segments.len(), 1);
    assert_eq!(literal(&text.segments[0]), "a{b}c");
    assert!(!text.is_dynamic());
}

#[test]
fn plain_text_is_static() {
    let text = FormattedText::from_str("increase").unwrap();
    assert_eq!(text.segments.len(), 1);
    assert!(!text.is_dynamic());
    let empty = FormattedText::from_str("").unwrap();
    assert_eq!(empty.segments.len(), 0);
}

#[test]
fn lone_closing_brace_is_rejected() {
    match FormattedText::from_str("a } b") {
        Err(FormatError::UnmatchedClosingBrace) => {}
        other => panic!("unexpected {:?}", other),
    }
}

#[test]
fn malformed_expression_is_rejected() {
    match FormattedText::from_str("x = {1 +}") {
        Err(FormatError::Expression(source)) => assert_eq!(source, "1 +"),
        other => panic!("unexpected {:?}", other),
    }
}

#[test]
fn expression_error_comes_before_later_brace_error() {
    match FormattedText::from_str("{1 +} }") {
        Err(FormatError::Expression(source)) => assert_eq!(source, "1 +"),
        other => panic!("unexpected {:?}", other),
    }
}

#[test]
fn unclosed_segment_is_rejected() {
    for text in ["a {count", "x{abc", "{", "a {count:", "a {count:?", "{a} {b"] {
        match FormattedText::from_str(text) {
            Err(FormatError::UnclosedSegment) => {}
            other => panic!("unexpected {:?} for {:?}", other, text),
        }
    }
}

#[test]
fn expression_error_comes_before_the_unclosed_segment() {
    match FormattedText::from_str("{1 +} {x") {
        Err(FormatError::Expression(source)) => assert_eq!(source, "1 +"),
        other => panic!("unexpected {:?}", other),
    }
}

#[test]
fn split_reports_how_the_text_ends() {
    let (segments, ending) = FormattedText::split("{a}}");
    assert_eq!(ending, Ending::StrayBrace);
    assert_eq!(segments.len(), 1);
    assert_eq!(formatted(&segments[0]), ("a", ""));
    let (segments, ending) = FormattedText::split("x{abc");
    assert_eq!(ending, Ending::OpenSegment);
    assert_eq!(segments.len(), 1);
    assert_eq!(literal(&segments[0]), "x");
    let (segments, ending) = FormattedText::split("x{a:>5");
    assert_eq!(ending, Ending::OpenSegment);
    assert_eq!(segments.len(), 1);
    let (segments, ending) = FormattedText::split("x{a}y");
    assert_eq!(ending, Ending::Closed);
    assert_eq!(segments.len(), 3);
}

#[test]
fn literals_that_the_parser_does_not_know_are_no_expressions() {
    for source in [
        "c\"x\"",
        "f(c\"x\")",
        "cr\"x\"",
        "cr#\"x\"#",
        "1 + cr#",
        "(/*ERROR*/)",
        "a + (/*ERROR*/)",
        "\"a\" + c\"x\"",
        "x(\"a\", c\"b\")",
        "f('x', c\"b\")",
        "f(\"a\\\" \", c\"b\")",
        "f(r\"a\\\", c\"b\")",
        "f(br\"a\\\" + c\"b\")",
        "'a: loop { c\"x\" }",
    ] {
        assert!(is_unreadable(source), "{:?}", source);
        assert!(!parses(source), "{:?}", source);
    }
    // what stands inside a string or a character literal is left alone
    for source in [
        "abc",
        "a.c + 1",
        "f(\"a c\")",
        "m[\"c\"]",
        "\"c\"",
        "g(\"cr\", \"x c\")",
        "\"(c\"",
        "x.replace('-', \"c\")",
        "dir.join(\"src/c\")",
        "f('x', \"a c\")",
        "f('\"', \"a c\")",
        "f('\\'', \"a c\")",
        "f(\"a\\\" c\")",
        "f(\"# c\")",
        "f(\"// c\")",
        "f(\"(/*ERROR*/)\")",
        "f(r\"a\\\", \"c\")",
        "f(br\"c\", b\"c\", b'c')",
        "g(a / b, \"c\")",
        "'a: loop { break 'a }",
    ] {
        assert!(!is_unreadable(source), "{:?}", source);
        assert!(parses(source), "{:?}", source);
    }
    // a source that the parser refuses by itself
    for source in ["vec\"", "rc\"x\"", "1 +", "xr\"a\""] {
        assert!(!is_unreadable(source), "{:?}", source);
        assert!(!parses(source), "{:?}", source);
    }
    assert!(parses("c"));
    assert!(parses("cr"));
    assert!(parses("c + r"));
    // what the reading cannot follow is not given to the parser
    for source in [
        "f(/* */ \"a c\")",
        "a // b",
        "(/*ERROR*/",
        "f(r#\"a\"#)",
        "'\\x41'",
        "'\\u{41}'",
        "'''",
        "\"a\"x",
        "\"a\"c\"b\"",
        "'a'b",
        "f('r\"x\")",
        "f(#r\"x\")",
        "f(\u{e9}r\"x\")",
    ] {
        assert!(is_unreadable(source), "{:?}", source);
        assert!(!parses(source), "{:?}", source);
    }
    match FormattedText::from_str("n = {c\"x\"}") {
        Err(FormatError::Expression(source)) => assert_eq!(source, "c\"x\""),
        other => panic!("unexpected {:?}", other),
    }
    match FormattedText::from_str("n = {(/*ERROR*/)}") {
        Err(FormatError::Expression(source)) => assert_eq!(source, "(/*ERROR*/)"),
        other => panic!("unexpected {:?}", other),
    }
}

#[test]
fn check_asks_for_each_formatted_segment() {
    let (segments, _) = FormattedText::split("x{a}y{1 +}{c\"z\"}");
    assert_eq!(FormattedText::check(&segments), vec![true, true, true, false, false]);
}

#[test]
fn format_literal_escapes_braces_and_keeps_arguments() {
    let text = FormattedText::from_str("a{{b}} {x} and {y:>5}!").unwrap();
    assert_eq!(text.format_literal(), "a{{b}} {:} and {:>5}!");
    assert_eq!(text.arguments(), vec!["x".to_string(), "y".to_string()]);
    let plain = FormattedText::from_str("plain").unwrap();
    assert_eq!(plain.format_literal(), "plain");
    assert!(plain.arguments().is_empty());
}

#[test]
fn expressions_are_those_that_parse() {
    assert!(FormattedText::from_str("{a + b}").is_ok());
    assert!(FormattedText::from_str("{row.label}").is_ok());
    assert!(FormattedText::from_str("{f(1, 2)}").is_ok());
    assert!(matches!(FormattedText::from_str("{}"), Err(FormatError::Expression(_))));
    assert!(matches!(FormattedText::from_str("{let}"), Err(FormatError::Expression(_))));
}

#[test]
fn assemble_takes_the_outcomes_as_given() {
    let (segments, ending) = FormattedText::split("x{a}y{b}");
    assert_eq!(ending, Ending::Closed);
    match FormattedText::assemble(segments, ending, &vec![true, true, true, false], vec![]) {
        Err(FormatError::Expression(source)) => assert_eq!(source, "b"),
        other => panic!("unexpected {:?}", other),
    }
    let (segments, ending) = FormattedText::split("x{a}y{b}");
    match FormattedText::assemble(segments, ending, &vec![true, true], vec![]) {
        Err(FormatError::Expression(source)) => assert_eq!(source, "b"),
        other => panic!("unexpected {:?}", other),
    }
    let (segments, ending) = FormattedText::split("x{a}y{b}");
    let names = vec![vec![], vec!["a".to_string()], vec![], vec!["b".to_string()]];
    let text =
        FormattedText::assemble(segments, ending, &vec![false, true, false, true], names.clone())
            .unwrap();
    assert_eq!(text.segments.len(), 4);
    assert_eq!(text.idents, names);
    let (segments, _) = FormattedText::split("x{a}y{b}");
    assert!(matches!(
        FormattedText::assemble(segments, Ending::StrayBrace, &vec![true, true, true, true], vec![]),
        Err(FormatError::UnmatchedClosingBrace)
    ));
    let (segments, _) = FormattedText::split("x{a}y{b}");
    assert!(matches!(
        FormattedText::assemble(segments, Ending::OpenSegment, &vec![true, true, true, true], vec![]),
        Err(FormatError::UnclosedSegment)
    ));
    let (segments, _) = FormattedText::split("x{a}y{b}");
    assert!(matches!(
        FormattedText::assemble(segments, Ending::StrayBrace, &vec![true, false, true, true], vec![]),
        Err(FormatError::Expression(_))
    ));
}

/// Every text over `alphabet` of at most `longest` characters.
fn texts_over(alphabet: &[char], longest: usize) -> Vec<String> {
    let mut all = vec![String::new()];
    let mut last = vec![String::new()];
    for _ in 0..longest {
        let mut next = Vec::with_capacity(last.len() * alphabet.len());
        for text in &last {
            for c in alphabet {
                let mut longer = text.clone();
                longer.push(*c);
                next.push(longer);
            }
        }
        all.extend(next.iter().cloned());
        last = next;
    }
    all
}

#[test]
fn the_parser_returns_on_every_source_that_it_is_given() {
    let mut given = 0;
    for source in texts_over(&['c', 'r', 'b', '"', '\'', '\\', '#', '/', ' ', 'n'], 5) {
        if !is_unreadable(&source) {
            given += 1;
            parses(&source);
        }
    }
    assert!(given > 1000);
    for source in texts_over(&['c', 'r', '"', '\'', '\\', ' '], 6) {
        if !is_unreadable(&source) {
            parses(&source);
        }
    }
    for source in texts_over(&['c', '"', '\'', 'x', '*', '/', '1', '.', 'e'], 5) {
        if !is_unreadable(&source) {
            parses(&source);
        }
    }
}
