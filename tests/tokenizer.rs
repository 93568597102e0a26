use simple_ui::chars::{classify, CharClass};
use simple_ui::tokenizer::{tokenize, tokenize_classes, Token, TokenType};

fn kinds(ts: &[Token]) -> Vec<(String, TokenType)> {
    ts.iter().map(|t| (t.text.clone(), t.token_type)).collect()
}

fn expect(input: &str, want: &[(&str, TokenType)]) {
    let got = kinds(&tokenize(input));
    let want: Vec<(String, TokenType)> = want.iter().map(|(s, k)| (s.to_string(), *k)).collect();
    assert_eq!(got, want, "tokens of {:?}", input);
    let joined: String = tokenize(input).iter().map(|t| t.text.as_str()).collect();
    assert_eq!(joined, input);
}

use simple_ui::tokenizer::TokenType::{
    MarkdownBold, MarkdownHeader, MarkdownItalic, MarkdownOther, Newline, Punctuation, Space, Tab,
    Word,
};

#[test]
fn words_and_space() {
    expect("hello world", &[("hello", Word), (" ", Space), ("world", Word)]);
}

#[test]
fn header_line() {
    expect("# Title\n", &[("#", MarkdownHeader), (" ", Space), ("Title", Word), ("\n", Newline)]);
}

#[test]
fn bold_markers() {
    expect("**bold**", &[("**", MarkdownBold), ("bold", Word), ("**", MarkdownBold)]);
}

#[test]
fn italic_markers() {
    expect("*it*", &[("*", MarkdownItalic), ("it", Word), ("*", MarkdownItalic)]);
}

#[test]
fn star_between_words() {
    expect("a*b", &[("a", Word), ("*", MarkdownItalic), ("b", Word)]);
}

#[test]
fn tab_and_newline() {
    expect("foo\tbar\n", &[("foo", Word), ("\t", Tab), ("bar", Word), ("\n", Newline)]);
}

#[test]
fn header_after_indent() {
    expect("  #nope", &[("  ", Space), ("#", MarkdownHeader), ("nope", Word)]);
}

#[test]
fn header_suppressed_after_text() {
    expect("x #late", &[("x", Word), (" ", Space), ("#", Punctuation), ("late", Word)]);
}

#[test]
fn empty_input() {
    assert!(tokenize("").is_empty());
}

#[test]
fn star_runs() {
    expect("***", &[("**", MarkdownBold), ("*", MarkdownItalic)]);
    expect("****", &[("**", MarkdownBold), ("**", MarkdownBold)]);
}

#[test]
fn double_hash_is_header_then_punctuation() {
    expect("## H", &[("#", MarkdownHeader), ("#", Punctuation), (" ", Space), ("H", Word)]);
}

#[test]
fn header_after_tab_and_on_new_line() {
    expect("\t#a", &[("\t", Tab), ("#", MarkdownHeader), ("a", Word)]);
    expect("x\n#y", &[("x", Word), ("\n", Newline), ("#", MarkdownHeader), ("y", Word)]);
}

#[test]
fn punctuation_is_single() {
    expect("a,.b", &[("a", Word), (",", Punctuation), (".", Punctuation), ("b", Word)]);
}

#[test]
fn unicode_words_and_spaces() {
    expect("héllo_1\u{a0}\u{a0}日本", &[("héllo_1", Word), ("\u{a0}\u{a0}", Space), ("日本", Word)]);
    expect("a\r\nb", &[("a", Word), ("\r", Space), ("\n", Newline), ("b", Word)]);
}

#[test]
fn tabs_and_newlines_never_merge() {
    expect("\t\t\n\n", &[("\t", Tab), ("\t", Tab), ("\n", Newline), ("\n", Newline)]);
}

#[test]
fn round_trip_and_shape_of_mixed_text() {
    let input = "# Head *x* **y** z_1, 2\t\n  #h ## ***\n";
    let ts = tokenize(input);
    let joined: String = ts.iter().map(|t| t.text.as_str()).collect();
    assert_eq!(joined, input);
    for t in &ts {
        assert!(!t.text.is_empty());
        match t.token_type {
            Word => assert!(t.text.chars().all(|c| c.is_alphanumeric() || c == '_')),
            Space => assert!(t.text.chars().all(|c| c.is_whitespace() && c != '\n' && c != '\t')),
            Tab => assert_eq!(t.text, "\t"),
            Newline => assert_eq!(t.text, "\n"),
            MarkdownBold => assert_eq!(t.text, "**"),
            MarkdownItalic => assert_eq!(t.text, "*"),
            MarkdownHeader => assert_eq!(t.text, "#"),
            Punctuation => assert_eq!(t.text.chars().count(), 1),
            MarkdownOther => panic!("reserved kind produced"),
        }
    }
    for w in ts.windows(2) {
        assert!(!(w[0].token_type == Word && w[1].token_type == Word));
        assert!(!(w[0].token_type == Space && w[1].token_type == Space));
    }
}

#[test]
fn same_input_same_tokens() {
    let a = kinds(&tokenize("some *text* here\n"));
    let b = kinds(&tokenize("some *text* here\n"));
    assert_eq!(a, b);
}

#[test]
fn classify_reads_unicode_properties() {
    assert_eq!(classify('a'), CharClass { ch: 'a', alphanumeric: true, whitespace: false });
    assert_eq!(classify(' '), CharClass { ch: ' ', alphanumeric: false, whitespace: true });
    assert_eq!(classify('*'), CharClass { ch: '*', alphanumeric: false, whitespace: false });
    assert_eq!(classify('7'), CharClass { ch: '7', alphanumeric: true, whitespace: false });
}

#[test]
fn tokenize_given_classes() {
    let cs = vec![
        CharClass { ch: 'x', alphanumeric: true, whitespace: false },
        CharClass { ch: '~', alphanumeric: true, whitespace: false },
        CharClass { ch: '!', alphanumeric: false, whitespace: true },
        CharClass { ch: '#', alphanumeric: false, whitespace: false },
    ];
    let got = kinds(&tokenize_classes(&cs));
    assert_eq!(
        got,
        vec![
            ("x~".to_string(), Word),
            ("!".to_string(), Space),
            ("#".to_string(), Punctuation),
        ]
    );
}
