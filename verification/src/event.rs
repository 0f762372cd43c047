//! The structural events a document is built from.

use vstd::prelude::*;

verus! {

/// The six levels of a header.
#[derive(Clone, Copy, Debug, PartialEq, Eq, Structural)]
pub enum HeaderLevel {
    H1,
    H2,
    H3,
    H4,
    H5,
    H6,
}

impl HeaderLevel {
    /// The level as a number from 1 to 6.
    pub open spec fn number(self) -> u8 {
        match self {
            HeaderLevel::H1 => 1,
            HeaderLevel::H2 => 2,
            HeaderLevel::H3 => 3,
            HeaderLevel::H4 => 4,
            HeaderLevel::H5 => 5,
            HeaderLevel::H6 => 6,
        }
    }

    /// The level as a number from 1 to 6.
    pub fn to_number(self) -> (n: u8)
        ensures
            n == self.number(),
    {
        match self {
            HeaderLevel::H1 => 1,
            HeaderLevel::H2 => 2,
            HeaderLevel::H3 => 3,
            HeaderLevel::H4 => 4,
            HeaderLevel::H5 => 5,
            HeaderLevel::H6 => 6,
        }
    }
}

/// A construct of the document that events open and close.
#[derive(Debug, PartialEq, Eq)]
pub enum Tag {
    Paragraph,
    Rule,
    Header(HeaderLevel),
    Table,
    TableHead,
    TableRow,
    TableCell,
    BlockQuote,
    /// A block of code with a hint at its language.
    CodeBlock(String),
    /// A list, numbered from a first number or not at all.
    List(Option<u64>),
    Item,
    Emphasis,
    Strong,
    Code,
    /// A link with its destination and its title.
    Link(String, String),
    /// An image with its destination and its title.
    Image(String, String),
    /// The definition of a footnote with its name.
    FootnoteDefinition(String),
}

/// One event of the stream a document is built from.
#[derive(Debug, PartialEq, Eq)]
pub enum Event {
    Start(Tag),
    End(Tag),
    Text(String),
    Html(String),
    InlineHtml(String),
    SoftBreak,
    HardBreak,
    FootnoteReference(String),
}

impl Clone for Tag {
    fn clone(&self) -> (tag: Tag)
        ensures
            tag == *self,
    {
        match self {
            Tag::Paragraph => Tag::Paragraph,
            Tag::Rule => Tag::Rule,
            Tag::Header(level) => Tag::Header(*level),
            Tag::Table => Tag::Table,
            Tag::TableHead => Tag::TableHead,
            Tag::TableRow => Tag::TableRow,
            Tag::TableCell => Tag::TableCell,
            Tag::BlockQuote => Tag::BlockQuote,
            Tag::CodeBlock(info) => Tag::CodeBlock(info.clone()),
            Tag::List(start) => Tag::List(*start),
            Tag::Item => Tag::Item,
            Tag::Emphasis => Tag::Emphasis,
            Tag::Strong => Tag::Strong,
            Tag::Code => Tag::Code,
            Tag::Link(dest, title) => Tag::Link(dest.clone(), title.clone()),
            Tag::Image(dest, title) => Tag::Image(dest.clone(), title.clone()),
            Tag::FootnoteDefinition(name) => Tag::FootnoteDefinition(name.clone()),
        }
    }
}

impl Clone for Event {
    fn clone(&self) -> (event: Event)
        ensures
            event == *self,
    {
        match self {
            Event::Start(tag) => Event::Start(tag.clone()),
            Event::End(tag) => Event::End(tag.clone()),
            Event::Text(text) => Event::Text(text.clone()),
            Event::Html(html) => Event::Html(html.clone()),
            Event::InlineHtml(html) => Event::InlineHtml(html.clone()),
            Event::SoftBreak => Event::SoftBreak,
            Event::HardBreak => Event::HardBreak,
            Event::FootnoteReference(name) => Event::FootnoteReference(name.clone()),
        }
    }
}

} // verus!
