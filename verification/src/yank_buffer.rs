//! The register that holds what was last copied or deleted.

use vstd::prelude::*;

verus! {

/// How the held text goes back in: a line of its own, or inline at the cursor.
#[derive(Debug, Clone, Copy, PartialEq, Eq, Structural)]
pub enum YankType {
    Line,
    Word,
    Char,
}

/// A single-slot register.
#[derive(Debug)]
pub struct YankBuffer {
    pub content: String,
    pub yank_type: YankType,
}

impl Default for YankBuffer {
    fn default() -> (r: Self)
        ensures
            r.content@.len() == 0,
            r.yank_type == YankType::Line,
    {
        Self::new()
    }
}

impl YankBuffer {
    /// An empty register of kind `Line`.
    pub fn new() -> (r: Self)
        ensures
            r.content@.len() == 0,
            r.yank_type == YankType::Line,
    {
        Self { content: String::new(), yank_type: YankType::Line }
    }

    /// Empties the text and keeps the kind.
    pub fn clear(&mut self)
        ensures
            final(self).content@.len() == 0,
            final(self).yank_type == old(self).yank_type,
    {
        self.content = String::new();
    }

    pub fn set_yank_type(&mut self, yank_type: YankType)
        ensures
            final(self).yank_type == yank_type,
            final(self).content == old(self).content,
    {
        self.yank_type = yank_type;
    }

    pub fn get_yank_type(&self) -> (r: &YankType)
        ensures
            *r == self.yank_type,
    {
        &self.yank_type
    }

    pub fn set_content(&mut self, content: String)
        ensures
            final(self).content == content,
            final(self).yank_type == old(self).yank_type,
    {
        self.content = content;
    }
}

} // verus!
