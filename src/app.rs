use vstd::prelude::*;
use crate::chars::classes_of;
use crate::text_viewer::{Key, TextViewer, document_of};

verus! {

/// The viewer application: a text viewer and the file it shows, if any.
pub struct MyApp {
    pub text_viewer: TextViewer,
    pub current_file: Option<String>,
}

impl MyApp {
    /// An application with nothing loaded.
    pub fn new() -> (r: Self)
        ensures
            r.text_viewer.wf(),
            r.text_viewer.doc() == Seq::<Seq<Seq<char>>>::empty(),
            r.text_viewer.highlights() == Set::<Key>::empty(),
            r.current_file is None,
    {
        MyApp { text_viewer: TextViewer::new(), current_file: None }
    }

    /// Shows `content`, read from the file at `path`, and remembers that file.
    pub fn open_text(&mut self, path: String, content: &str)
        ensures
            final(self).text_viewer.wf(),
            final(self).text_viewer.doc() == document_of(classes_of(content@)),
            final(self).text_viewer.highlights() == Set::<Key>::empty(),
            final(self).current_file == Some(path),
    {
        self.text_viewer.load_text(content);
        self.current_file = Some(path);
    }
}

} // verus!
