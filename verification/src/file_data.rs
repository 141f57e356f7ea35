//! The text box of the dialog.

use vstd::prelude::*;

verus! {

/// What can happen to the text box.
#[derive(Debug)]
pub enum FileEvent {
    /// The text was edited and now reads as given.
    SetText(String),
}

/// The text that the text box holds.
#[derive(Debug)]
pub struct FileData {
    text: String,
}

impl View for FileData {
    type V = Seq<char>;

    closed spec fn view(&self) -> Seq<char> {
        self.text@
    }
}

impl FileData {
    /// An empty text box.
    pub fn new() -> (data: Self)
        ensures
            data@ == Seq::<char>::empty(),
    {
        FileData { text: String::new() }
    }

    pub fn text(&self) -> (r: &String)
        ensures
            r@ == self@,
    {
        &self.text
    }

    /// Takes over the text that the event carries.
    pub fn event(&mut self, event: FileEvent)
        ensures
            event matches FileEvent::SetText(text) && final(self)@ == text@,
    {
        match event {
            FileEvent::SetText(text) => {
                self.text = text;
            },
        }
    }
}

} // verus!
