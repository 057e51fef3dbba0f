//! Access to a clipboard's text, and an in-memory clipboard.

use vstd::prelude::*;

use crate::sync::opt_view;

verus! {

/// A clipboard holding text. The system clipboard is one; `MemoryClipboard`
/// is another.
pub trait ClipboardProvider {
    /// The text on the clipboard, if it holds text.
    fn get_text(&mut self) -> Result<Option<String>, String>;

    /// Puts `text` on the clipboard.
    fn set_text(&mut self, text: &str) -> Result<(), String>;
}

/// A clipboard kept in memory. It is owned by one user: it is not `Clone`,
/// so no two handles can disagree about the text it holds.
#[derive(Debug)]
pub struct MemoryClipboard {
    text: Option<String>,
}

impl View for MemoryClipboard {
    type V = Option<Seq<char>>;

    closed spec fn view(&self) -> Option<Seq<char>> {
        opt_view(self.text)
    }
}

impl Default for MemoryClipboard {
    fn default() -> (c: Self)
        ensures
            c@ is None,
    {
        MemoryClipboard { text: None }
    }
}

/// What a memory clipboard holds after text is put on it.
pub open spec fn after_set(held: Option<Seq<char>>, text: Seq<char>) -> Option<Seq<char>> {
    Some(text)
}

/// What reading a memory clipboard gives.
pub open spec fn read_back(held: Option<Seq<char>>) -> Option<Seq<char>> {
    held
}

/// Reading a memory clipboard gives back the text last put on it.
pub proof fn lemma_memory_read_after_write(held: Option<Seq<char>>, text: Seq<char>)
    ensures
        read_back(after_set(held, text)) == Some(text),
{
}

impl MemoryClipboard {
    /// Puts `text` on the clipboard.
    pub fn set_memory_text(&mut self, text: String)
        ensures
            final(self)@ == after_set(old(self)@, text@),
    {
        self.text = Some(text);
    }

    /// The text on the clipboard, if any.
    pub fn memory_text(&self) -> (r: Option<String>)
        ensures
            opt_view(r) == read_back(self@),
    {
        match &self.text {
            Some(t) => Some(t.clone()),
            None => None,
        }
    }
}

impl ClipboardProvider for MemoryClipboard {
    fn get_text(&mut self) -> (r: Result<Option<String>, String>)
        ensures
            final(self)@ == old(self)@,
            r is Ok,
            opt_view(r->Ok_0) == read_back(old(self)@),
    {
        Ok(self.memory_text())
    }

    fn set_text(&mut self, text: &str) -> (r: Result<(), String>)
        ensures
            final(self)@ == after_set(old(self)@, text@),
            r is Ok,
    {
        self.set_memory_text(String::from_str(text));
        Ok(())
    }
}

} // verus!
