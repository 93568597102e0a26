use simple_ui::app::MyApp;
use simple_ui::loader::{content_or_default, DEFAULT_TEXT, READ_ERROR};
use simple_ui::text_viewer::TextViewer;

fn words(v: &TextViewer) -> Vec<Vec<&str>> {
    v.lines.iter().map(|l| l.iter().map(|w| w.as_str()).collect()).collect()
}

#[test]
fn new_viewer_is_empty() {
    let v = TextViewer::new();
    assert!(v.lines.is_empty());
    assert_eq!(v.highlight_count(), 0);
}

#[test]
fn load_splits_lines_and_words() {
    let mut v = TextViewer::new();
    v.load_text("a b\nc");
    assert_eq!(words(&v), vec![vec!["a", "b"], vec!["c"]]);
    v.load_text("  one\t two  \n\nthree\n");
    assert_eq!(words(&v), vec![vec!["one", "two"], vec![], vec!["three"]]);
    v.load_text("");
    assert!(v.lines.is_empty());
    v.load_text("x\r\ny");
    assert_eq!(words(&v), vec![vec!["x"], vec!["y"]]);
}

#[test]
fn toggle_twice_and_reload() {
    let mut v = TextViewer::new();
    v.load_text("a b\nc");
    v.toggle_highlight(0, 1);
    assert!(v.is_highlighted(0, 1));
    assert_eq!(v.highlight_count(), 1);
    assert!(!v.is_highlighted(0, 0));
    v.toggle_highlight(0, 1);
    assert!(!v.is_highlighted(0, 1));
    assert_eq!(v.highlight_count(), 0);
    v.toggle_highlight(0, 1);
    v.toggle_highlight(1, 0);
    assert_eq!(v.highlight_count(), 2);
    v.load_text("a b\nc");
    assert_eq!(v.highlight_count(), 0);
    assert!(!v.is_highlighted(0, 1));
    assert!(!v.is_highlighted(1, 0));
}

#[test]
fn toggle_out_of_range_does_nothing() {
    let mut v = TextViewer::new();
    v.load_text("a b\nc");
    v.toggle_highlight(1, 1);
    v.toggle_highlight(2, 0);
    assert_eq!(v.highlight_count(), 0);
    assert!(!v.is_highlighted(1, 1));
}

#[test]
fn placeholder_for_failed_or_empty_read() {
    assert_eq!(content_or_default(READ_ERROR.to_string()), DEFAULT_TEXT);
    assert_eq!(content_or_default(String::new()), DEFAULT_TEXT);
    assert_eq!(content_or_default("# doc".to_string()), "# doc");
    assert_eq!(READ_ERROR, "Error reading file");
}

#[test]
fn app_opens_text() {
    let mut app = MyApp::new();
    assert!(app.current_file.is_none());
    assert!(app.text_viewer.lines.is_empty());
    app.text_viewer.toggle_highlight(0, 0);
    assert_eq!(app.text_viewer.highlight_count(), 0);
    app.open_text("notes.md".to_string(), "hello there\nworld");
    assert_eq!(app.current_file.as_deref(), Some("notes.md"));
    assert_eq!(words(&app.text_viewer), vec![vec!["hello", "there"], vec!["world"]]);
    app.text_viewer.toggle_highlight(1, 0);
    assert!(app.text_viewer.is_highlighted(1, 0));
    app.open_text("other.md".to_string(), "z");
    assert!(!app.text_viewer.is_highlighted(1, 0));
}
