use vstd::prelude::*;
use crate::events::{events_view, fence_events, FenceEvent, FenceKind};
use crate::rewrite::lossy_chars;
use vstd::utf8::{decode_utf8, valid_utf8};
use pulldown_cmark::{CodeBlockKind, Event, Options, Parser, Tag};

verus! {

/// Relies on pulldown_cmark's `Parser::new_ext` and `into_offset_iter`:
/// one structural event per tokenizer event, in the tokenizer's order, each
/// with the byte span of source text it corresponds to; a fenced code
/// block's start and end events carry the block's info-string.
#[verifier::external_body]
pub fn scan_fences(content: &str) -> (r: Vec<FenceEvent>)
    ensures
        events_view(r@) == fence_events(content@),
{
    let opts = Options::ENABLE_TABLES | Options::ENABLE_FOOTNOTES | Options::ENABLE_STRIKETHROUGH
        | Options::ENABLE_TASKLISTS;
    Parser::new_ext(content, opts).into_offset_iter().map(|(ev, sp)| match ev {
        Event::Start(Tag::CodeBlock(CodeBlockKind::Fenced(info))) => FenceEvent {
            kind: FenceKind::Start, info: info.into_string(), lo: sp.start, hi: sp.end,
        },
        Event::End(Tag::CodeBlock(CodeBlockKind::Fenced(info))) => FenceEvent {
            kind: FenceKind::End, info: info.into_string(), lo: sp.start, hi: sp.end,
        },
        _ => FenceEvent { kind: FenceKind::Other, info: String::new(), lo: sp.start, hi: sp.end },
    }).collect()
}

/// Relies on `String::from_utf8_lossy`: the result depends on the bytes
/// alone, and valid UTF-8 input decodes to the corresponding text.
#[verifier::external_body]
pub fn bytes_to_string(bytes: &Vec<u8>) -> (r: String)
    ensures
        r@ == lossy_chars(bytes@),
        valid_utf8(bytes@) ==> r@ == decode_utf8(bytes@),
{
    String::from_utf8_lossy(bytes).into_owned()
}

/// Relies on str's `PartialEq`: two string slices are equal exactly when
/// their character sequences are.
#[verifier::external_body]
pub fn str_eq(a: &str, b: &str) -> (r: bool)
    ensures
        r == (a@ == b@),
{
    a == b
}

/// Relies on `str::ends_with`: a string-slice pattern matches a suffix
/// exactly when its character sequence is a suffix of the text's.
#[verifier::external_body]
pub fn str_ends_with(s: &str, suffix: &str) -> (r: bool)
    ensures
        r == (suffix@.len() <= s@.len() && s@.skip(s@.len() - suffix@.len()) == suffix@),
{
    s.ends_with(suffix)
}

} // verus!
