//! The markdown events of a task file, as pulldown-cmark reads them, reduced
//! to what the task parser looks at.

use vstd::prelude::*;
use pulldown_cmark::Event::{Code, End, InlineHtml, Start, Text};
use pulldown_cmark::Tag::{BlockQuote, CodeBlock, Header, List};
use pulldown_cmark::{Options, Parser};

verus! {

/// A markdown event, reduced to what the task parser looks at.
#[derive(Debug)]
pub enum MdEvent {
    /// A heading of the given level opens.
    StartHeading(i32),
    /// A list opens.
    StartList,
    /// Another block or span opens.
    StartOther,
    /// A heading of the given level closes.
    EndHeading(i32),
    EndBlockQuote,
    /// A code block closes; it holds the language written after its fence.
    EndCodeBlock(String),
    EndList,
    Text(String),
    /// Inline code, without its backquotes.
    Code(String),
    InlineHtml(String),
    /// Any other event.
    Other,
}

/// The value of an `MdEvent`.
pub enum MdEventView {
    StartHeading(i32),
    StartList,
    StartOther,
    EndHeading(i32),
    EndBlockQuote,
    EndCodeBlock(Seq<char>),
    EndList,
    Text(Seq<char>),
    Code(Seq<char>),
    InlineHtml(Seq<char>),
    Other,
}

impl View for MdEvent {
    type V = MdEventView;

    open spec fn view(&self) -> MdEventView {
        match self {
            MdEvent::StartHeading(l) => MdEventView::StartHeading(*l),
            MdEvent::StartList => MdEventView::StartList,
            MdEvent::StartOther => MdEventView::StartOther,
            MdEvent::EndHeading(l) => MdEventView::EndHeading(*l),
            MdEvent::EndBlockQuote => MdEventView::EndBlockQuote,
            MdEvent::EndCodeBlock(s) => MdEventView::EndCodeBlock(s@),
            MdEvent::EndList => MdEventView::EndList,
            MdEvent::Text(s) => MdEventView::Text(s@),
            MdEvent::Code(s) => MdEventView::Code(s@),
            MdEvent::InlineHtml(s) => MdEventView::InlineHtml(s@),
            MdEvent::Other => MdEventView::Other,
        }
    }
}

/// The values of a sequence of events.
pub open spec fn event_views(s: Seq<MdEvent>) -> Seq<MdEventView> {
    s.map_values(|e: MdEvent| e@)
}

/// Whether every heading of `evs` has a level from 1 to 6.
pub open spec fn heading_levels_valid(evs: Seq<MdEventView>) -> bool {
    forall|i: int|
        0 <= i < evs.len() ==> match #[trigger] evs[i] {
            MdEventView::StartHeading(l) => 1 <= l <= 6,
            MdEventView::EndHeading(l) => 1 <= l <= 6,
            _ => true,
        }
}

/// The events that pulldown-cmark's parser gives for a text, with
/// strikethrough enabled.
pub uninterp spec fn markdown_events(contents: Seq<char>) -> Seq<MdEventView>;

/// Runs `pulldown_cmark::Parser::new_ext` with strikethrough enabled and
/// collects its events, each reduced to an `MdEvent`: the openings of
/// headings and lists, the closings of headings, block quotes, code blocks and
/// lists, text, inline code and inline HTML keep their kind and their content;
/// other openings become `StartOther`, all else `Other`. The sequence is named
/// `markdown_events`; of it, only that every heading level is from 1 to 6 is
/// stated (ATX headings have 1 to 6 `#`, setext headings are of level 1 or 2).
#[verifier::external_body]
pub fn markdown_events_of(contents: &str) -> (events: Vec<MdEvent>)
    ensures
        event_views(events@) == markdown_events(contents@),
        heading_levels_valid(event_views(events@)),
{
    Parser::new_ext(contents, Options::ENABLE_STRIKETHROUGH).map(|event| match event {
        Start(Header(level)) => MdEvent::StartHeading(level),
        Start(List(_)) => MdEvent::StartList,
        Start(_) => MdEvent::StartOther,
        End(Header(level)) => MdEvent::EndHeading(level),
        End(BlockQuote) => MdEvent::EndBlockQuote,
        End(CodeBlock(lang)) => MdEvent::EndCodeBlock(lang.to_string()),
        End(List(_)) => MdEvent::EndList,
        Text(s) => MdEvent::Text(s.to_string()),
        Code(s) => MdEvent::Code(s.to_string()),
        InlineHtml(s) => MdEvent::InlineHtml(s.to_string()),
        _ => MdEvent::Other,
    }).collect()
}

} // verus!
