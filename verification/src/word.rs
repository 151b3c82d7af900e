//! The word tokens of a parsed document and the descriptors of its files.

use vstd::prelude::*;

verus! {

/// The display style of a word token.
#[derive(Clone, Copy, Debug, PartialEq, Eq, Structural)]
pub enum WordType {
    Normal,
    Bold,
    Italic,
    BoldItalic,
    Strikethrough,
    Code,
    Link,
    White,
    ListMarker,
    /// Highlight state of a token that belongs to a search match.
    Selected,
}

/// One token of a document: its text and its display style.
#[derive(Clone, Debug, PartialEq, Eq)]
pub struct Word {
    content: String,
    word_type: WordType,
}

impl Word {
    /// The text of the token, as a sequence of code points.
    pub closed spec fn text(&self) -> Seq<char> {
        self.content@
    }

    /// The display style of the token.
    pub closed spec fn style(&self) -> WordType {
        self.word_type
    }

    pub fn new(content: String, word_type: WordType) -> (word: Word)
        ensures
            word.text() == content@,
            word.style() == word_type,
    {
        Word { content, word_type }
    }

    pub fn content(&self) -> (content: &str)
        ensures
            content@ == self.text(),
    {
        self.content.as_str()
    }

    pub fn kind(&self) -> (kind: WordType)
        ensures
            kind == self.style(),
    {
        self.word_type
    }

    pub fn set_kind(&mut self, kind: WordType)
        ensures
            final(self).text() == old(self).text(),
            final(self).style() == kind,
    {
        self.word_type = kind;
    }
}

} // verus!
