use vibesurfer::tokenize::{quote_label, quote_value, split_indent, strip_quotes, Tokenizer};

fn chars(s: &str) -> Vec<char> {
    s.chars().collect()
}

fn text(v: Vec<char>) -> String {
    v.into_iter().collect()
}

fn collect(input: &str) -> Vec<String> {
    let mut t = Tokenizer::new(input);
    let mut out = Vec::new();
    while let Some(tok) = t.next() {
        out.push(text(tok));
    }
    out
}

#[test]
fn basic_split() {
    assert_eq!(collect("a b c"), vec!["a", "b", "c"]);
}

#[test]
fn quoted_span_kept() {
    assert_eq!(
        collect(r#"1 doc "Example Domain""#),
        vec!["1", "doc", r#""Example Domain""#],
    );
}

#[test]
fn attribute_with_quoted_value() {
    assert_eq!(
        collect(r#"href=https://example.com title="Some title""#),
        vec!["href=https://example.com", r#"title="Some title""#],
    );
}

#[test]
fn leading_and_trailing_spaces_ignored() {
    assert_eq!(collect("   a  b   "), vec!["a", "b"]);
}

#[test]
fn empty_input() {
    assert_eq!(collect(""), Vec::<String>::new());
    assert_eq!(collect("    "), Vec::<String>::new());
}

#[test]
fn strip_quotes_basic() {
    assert_eq!(text(strip_quotes(&chars(r#""hi""#))), "hi");
    assert_eq!(text(strip_quotes(&chars("hi"))), "hi");
    assert_eq!(text(strip_quotes(&chars(r#""""#))), "");
}

#[test]
fn quote_label_basic() {
    assert_eq!(text(quote_label(&chars("hi"))), "hi");
    assert_eq!(text(quote_label(&chars("hi there"))), "\"hi there\"");
    assert_eq!(text(quote_label(&chars(""))), "\"\"");
}

#[test]
fn quote_label_replaces_inner_quote() {
    assert_eq!(text(quote_label(&chars(r#"He said "hi""#))), r#""He said 'hi'""#);
}

#[test]
fn quote_value_quotes_only_on_whitespace() {
    assert_eq!(text(quote_value(&chars("plain"))), "plain");
    assert_eq!(text(quote_value(&chars("with space"))), "\"with space\"");
    assert_eq!(text(quote_value(&chars(""))), "");
}

#[test]
fn split_indent_basic() {
    let (d, rest) = split_indent(&chars("foo"));
    assert_eq!((d, text(rest)), (0, "foo".to_string()));
    let (d, rest) = split_indent(&chars("  foo"));
    assert_eq!((d, text(rest)), (1, "foo".to_string()));
    let (d, rest) = split_indent(&chars("    foo"));
    assert_eq!((d, text(rest)), (2, "foo".to_string()));
}

#[test]
fn tokenizer_keeps_unterminated_quote_to_end() {
    assert_eq!(collect(r#"a "b c"#), vec!["a", r#""b c"#]);
}
