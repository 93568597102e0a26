use vstd::prelude::*;

verus! {

broadcast use vstd::string::to_string_from_display_ensures_for_str;

/// What a failed read hands back in place of a file's contents.
pub const READ_ERROR: &'static str = "Error reading file";

/// What is shown when there is no text to show.
pub const DEFAULT_TEXT: &'static str = "This is default text for testing.";

/// The text to show for what a read returned: the placeholder when the read
/// failed or the file was empty, else the contents themselves.
pub open spec fn shown_text(content: Seq<char>) -> Seq<char> {
    if content == READ_ERROR@ || content.len() == 0 {
        DEFAULT_TEXT@
    } else {
        content
    }
}

/// Picks the text to show for what a read returned.
pub fn content_or_default(content: String) -> (r: String)
    ensures
        r@ == shown_text(content@),
{
    let failed = READ_ERROR.to_string();
    if content == failed || content.as_str().is_empty() {
        DEFAULT_TEXT.to_string()
    } else {
        content
    }
}

} // verus!
