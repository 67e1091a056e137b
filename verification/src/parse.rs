//! The Markdown parse: `pulldown_cmark`'s event stream, read into `MdEvent`s.
//!
//! `pulldown_cmark` parses; the events it reports are opaque here and are
//! read one at a time, each reader recognising one family of events.

use vstd::prelude::*;
use pulldown_cmark::{Alignment, BlockQuoteKind, CodeBlockKind, Event, Options, Parser, Tag, TagEnd};
use crate::render::{AlertKind, HeadingLevel, MdEvent};
use crate::table::Align;

verus! {

#[verifier::external_type_specification]
#[verifier::external_body]
pub struct ExEvent<'a>(Event<'a>);

/// The events `pulldown_cmark` reports for a document (all extensions on),
/// each read as an `MdEvent` (those the renderer does not read as `Other`).
pub uninterp spec fn markdown_events(markdown: Seq<char>) -> Seq<MdEvent>;

/// A parsed document: its text and the events `pulldown_cmark` reported for
/// it, in order. Only `parse_document` builds one.
pub struct ParsedDocument<'a> {
    text: &'a str,
    events: Vec<Event<'a>>,
}

impl<'a> ParsedDocument<'a> {
    pub closed spec fn source(&self) -> Seq<char> {
        self.text@
    }

    pub closed spec fn len(&self) -> nat {
        self.events@.len()
    }
}

/// `pulldown_cmark::Parser::new_ext(markdown, Options::all())`, its events
/// collected. Claimed: as many events as `markdown_events` has, kept beside
/// the text they came from.
#[verifier::external_body]
fn parse_document<'a>(markdown: &'a str) -> (d: ParsedDocument<'a>)
    ensures
        d.source() == markdown@,
        d.len() == markdown_events(markdown@).len(),
{
    ParsedDocument { text: markdown, events: Parser::new_ext(markdown, Options::all()).collect() }
}

/// The event if it opens a heading, a table part, an item, a paragraph or an
/// emphasis.
pub open spec fn plain_start(e: MdEvent) -> Option<MdEvent> {
    if e is StartHeading || e is StartTableHead || e is StartTableRow || e is StartTableCell
        || e is StartItem || e is StartParagraph || e is StartEmphasis || e is StartStrong
        || e is StartStrikethrough {
        Some(e)
    } else {
        None
    }
}

/// The event if it opens a list, a link or a code block.
pub open spec fn data_start(e: MdEvent) -> Option<MdEvent> {
    if e is StartList || e is StartLink || e is StartCodeBlock {
        Some(e)
    } else {
        None
    }
}

/// The event if it opens a block quote or a table.
pub open spec fn block_start(e: MdEvent) -> Option<MdEvent> {
    if e is StartBlockQuote || e is StartTable {
        Some(e)
    } else {
        None
    }
}

/// The event if it closes a code block, a block quote, a table part or a list.
pub open spec fn block_end(e: MdEvent) -> Option<MdEvent> {
    if e is EndCodeBlock || e is EndBlockQuote || e is EndTable || e is EndTableHead
        || e is EndTableRow || e is EndTableCell || e is EndList {
        Some(e)
    } else {
        None
    }
}

/// The event if it closes an item, a link, a paragraph or an emphasis.
pub open spec fn inline_end(e: MdEvent) -> Option<MdEvent> {
    if e is EndItem || e is EndLink || e is EndParagraph || e is EndEmphasis || e is EndStrong
        || e is EndStrikethrough {
        Some(e)
    } else {
        None
    }
}

/// The event if it closes a heading.
pub open spec fn heading_end(e: MdEvent) -> Option<MdEvent> {
    if e is EndHeading {
        Some(e)
    } else {
        None
    }
}

/// The event if it is a rule, a task marker, code, text or a break.
pub open spec fn leaf_event(e: MdEvent) -> Option<MdEvent> {
    if e is Rule || e is TaskListMarker || e is Code || e is Text || e is SoftBreak
        || e is HardBreak {
        Some(e)
    } else {
        None
    }
}

/// Reads the event at `i` if it is `Start` of a heading, table head, row or
/// cell, item, paragraph, emphasis, strong or strikethrough.
#[verifier::external_body]
fn read_plain_start(d: &ParsedDocument, i: usize) -> (e: Option<MdEvent>)
    requires
        i < d.len(),
    ensures
        e == plain_start(markdown_events(d.source())[i as int]),
{
    match &d.events[i] {
        Event::Start(t) => match t {
            Tag::Heading { .. } => Some(MdEvent::StartHeading), Tag::TableHead => Some(MdEvent::StartTableHead),
            Tag::TableRow => Some(MdEvent::StartTableRow),
            Tag::TableCell => Some(MdEvent::StartTableCell),
            Tag::Item => Some(MdEvent::StartItem),
            Tag::Paragraph => Some(MdEvent::StartParagraph),
            Tag::Emphasis => Some(MdEvent::StartEmphasis), Tag::Strong => Some(MdEvent::StartStrong),
            Tag::Strikethrough => Some(MdEvent::StartStrikethrough),
            _ => None,
        },
        _ => None,
    }
}

/// Reads the event at `i` if it is `Start` of a list (its first number), a
/// link (its destination) or a code block (the fence info, empty when
/// indented).
#[verifier::external_body]
fn read_data_start(d: &ParsedDocument, i: usize) -> (e: Option<MdEvent>)
    requires
        i < d.len(),
    ensures
        e == data_start(markdown_events(d.source())[i as int]),
{
    match &d.events[i] {
        Event::Start(Tag::List(n)) => Some(MdEvent::StartList(*n)),
        Event::Start(Tag::Link { dest_url, .. }) => Some(MdEvent::StartLink(dest_url.to_string())),
        Event::Start(Tag::CodeBlock(CodeBlockKind::Fenced(l))) => Some(MdEvent::StartCodeBlock(l.to_string())),
        Event::Start(Tag::CodeBlock(CodeBlockKind::Indented)) => Some(MdEvent::StartCodeBlock(String::new())),
        _ => None,
    }
}

/// Reads the event at `i` if it is `Start` of a block quote (with its alert
/// kind) or of a table (with its column alignments).
#[verifier::external_body]
fn read_block_start(d: &ParsedDocument, i: usize) -> (e: Option<MdEvent>)
    requires
        i < d.len(),
    ensures
        e == block_start(markdown_events(d.source())[i as int]),
{
    let al = |a: &Alignment| match a {
        Alignment::None => Align::Unspecified, Alignment::Left => Align::Left,
        Alignment::Center => Align::Center, Alignment::Right => Align::Right,
    };
    let kind = |k: &BlockQuoteKind| match k {
        BlockQuoteKind::Note => AlertKind::Note, BlockQuoteKind::Tip => AlertKind::Tip,
        BlockQuoteKind::Important => AlertKind::Important,
        BlockQuoteKind::Warning => AlertKind::Warning, BlockQuoteKind::Caution => AlertKind::Caution,
    };
    match &d.events[i] {
        Event::Start(Tag::BlockQuote(k)) => Some(MdEvent::StartBlockQuote(k.as_ref().map(kind))),
        Event::Start(Tag::Table(a)) => Some(MdEvent::StartTable(a.iter().map(al).collect())),
        _ => None,
    }
}

/// Reads the event at `i` if it is `End` of a code block, block quote,
/// table, table head, row or cell, or list.
#[verifier::external_body]
fn read_block_end(d: &ParsedDocument, i: usize) -> (e: Option<MdEvent>)
    requires
        i < d.len(),
    ensures
        e == block_end(markdown_events(d.source())[i as int]),
{
    match &d.events[i] {
        Event::End(t) => match t {
            TagEnd::CodeBlock => Some(MdEvent::EndCodeBlock),
            TagEnd::BlockQuote(_) => Some(MdEvent::EndBlockQuote),
            TagEnd::Table => Some(MdEvent::EndTable),
            TagEnd::TableHead => Some(MdEvent::EndTableHead),
            TagEnd::TableRow => Some(MdEvent::EndTableRow),
            TagEnd::TableCell => Some(MdEvent::EndTableCell),
            TagEnd::List(_) => Some(MdEvent::EndList),
            _ => None,
        },
        _ => None,
    }
}

/// Reads the event at `i` if it is `End` of an item, link, paragraph,
/// emphasis, strong or strikethrough.
#[verifier::external_body]
fn read_inline_end(d: &ParsedDocument, i: usize) -> (e: Option<MdEvent>)
    requires
        i < d.len(),
    ensures
        e == inline_end(markdown_events(d.source())[i as int]),
{
    match &d.events[i] {
        Event::End(t) => match t {
            TagEnd::Item => Some(MdEvent::EndItem),
            TagEnd::Link => Some(MdEvent::EndLink),
            TagEnd::Paragraph => Some(MdEvent::EndParagraph),
            TagEnd::Emphasis => Some(MdEvent::EndEmphasis),
            TagEnd::Strong => Some(MdEvent::EndStrong),
            TagEnd::Strikethrough => Some(MdEvent::EndStrikethrough),
            _ => None,
        },
        _ => None,
    }
}

/// Reads the event at `i` if it is `End` of a heading, with its level.
#[verifier::external_body]
fn read_heading_end(d: &ParsedDocument, i: usize) -> (e: Option<MdEvent>)
    requires
        i < d.len(),
    ensures
        e == heading_end(markdown_events(d.source())[i as int]),
{
    match &d.events[i] {
        Event::End(TagEnd::Heading(l)) => Some(MdEvent::EndHeading(match l {
            pulldown_cmark::HeadingLevel::H1 => HeadingLevel::H1,
            pulldown_cmark::HeadingLevel::H2 => HeadingLevel::H2,
            pulldown_cmark::HeadingLevel::H3 => HeadingLevel::H3,
            pulldown_cmark::HeadingLevel::H4 => HeadingLevel::H4,
            pulldown_cmark::HeadingLevel::H5 => HeadingLevel::H5,
            pulldown_cmark::HeadingLevel::H6 => HeadingLevel::H6,
        })),
        _ => None,
    }
}

/// Reads the event at `i` if it is a rule, a task marker, inline code,
/// text, or a soft or hard break.
#[verifier::external_body]
fn read_leaf(d: &ParsedDocument, i: usize) -> (e: Option<MdEvent>)
    requires
        i < d.len(),
    ensures
        e == leaf_event(markdown_events(d.source())[i as int]),
{
    match &d.events[i] {
        Event::Rule => Some(MdEvent::Rule),
        Event::TaskListMarker(c) => Some(MdEvent::TaskListMarker(*c)),
        Event::Code(c) => Some(MdEvent::Code(c.to_string())),
        Event::Text(t) => Some(MdEvent::Text(t.to_string())),
        Event::SoftBreak => Some(MdEvent::SoftBreak),
        Event::HardBreak => Some(MdEvent::HardBreak),
        _ => None,
    }
}

/// The event at `i`: the one family that recognises it, else `Other`.
fn read_event(d: &ParsedDocument, i: usize) -> (e: MdEvent)
    requires
        i < d.len(),
    ensures
        e == markdown_events(d.source())[i as int],
{
    if let Some(e) = read_plain_start(d, i) {
        return e;
    }
    if let Some(e) = read_data_start(d, i) {
        return e;
    }
    if let Some(e) = read_block_start(d, i) {
        return e;
    }
    if let Some(e) = read_block_end(d, i) {
        return e;
    }
    if let Some(e) = read_inline_end(d, i) {
        return e;
    }
    if let Some(e) = read_heading_end(d, i) {
        return e;
    }
    if let Some(e) = read_leaf(d, i) {
        return e;
    }
    MdEvent::Other
}

/// Parses a Markdown document into the events the renderer reads.
pub fn parse_markdown(markdown: &str) -> (events: Vec<MdEvent>)
    ensures
        events@ == markdown_events(markdown@),
{
    let d = parse_document(markdown);
    let n = d.events.len();
    let mut events: Vec<MdEvent> = Vec::new();
    let mut i: usize = 0;
    while i < n
        invariant
            n == d.len(),
            d.source() == markdown@,
            n == markdown_events(markdown@).len(),
            i <= n,
            events@ == markdown_events(markdown@).take(i as int),
        decreases n - i,
    {
        let e = read_event(&d, i);
        events.push(e);
        i += 1;
        assert(events@ =~= markdown_events(markdown@).take(i as int));
    }
    assert(markdown_events(markdown@).take(n as int) =~= markdown_events(markdown@));
    events
}

} // verus!
