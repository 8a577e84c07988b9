use vstd::prelude::*;
use crate::events::{events_view, fence_events, is_wavedrom_start, FenceEvent};
use crate::scan::{bytes_to_string, scan_fences, str_eq};
use crate::spans::{
    apply_all, apply_rewrites, collect_rewrites, lemma_no_match_identity, lemma_target_spans_wf,
    target_spans,
};
use vstd::string::StrSliceExecFns;
use vstd::utf8::{decode_utf8, encode_utf8, valid_utf8};

verus! {

/// What lossy UTF-8 decoding makes of a byte sequence: a function of the
/// bytes alone.
pub uninterp spec fn lossy_chars(bytes: Seq<u8>) -> Seq<char>;

/// The rewritten document, as bytes: every block that the tokenizer
/// reports as a fenced code block tagged `wavedrom` is replaced by the
/// embedding template holding its escaped payload, and every other byte
/// of the source is kept.
pub open spec fn rewritten_bytes(s: Seq<char>) -> Seq<u8> {
    apply_rewrites(encode_utf8(s), target_spans(encode_utf8(s), fence_events(s)))
}

/// Rewrite a document against a given event stream: the exact span
/// collection and reverse-order splice, with nothing trusted.
pub fn rewrite_with_events(bytes: &Vec<u8>, events: &Vec<FenceEvent>) -> (r: Vec<u8>)
    ensures
        r@ == apply_rewrites(bytes@, target_spans(bytes@, events_view(events@))),
{
    let spans = collect_rewrites(bytes, events);
    proof {
        lemma_target_spans_wf(bytes@, events_view(events@));
    }
    apply_all(bytes, &spans)
}

/// Replace every fenced code block tagged `wavedrom` in the document by
/// the embedding template holding its HTML-escaped payload, leaving all
/// other content unchanged. A document without a matching block comes
/// back equal to the input, so a second run returns the same text.
pub fn add_wavedrom(content: &str) -> (r: String)
    ensures
        r@ == lossy_chars(rewritten_bytes(content@)),
        valid_utf8(rewritten_bytes(content@)) ==> r@ == decode_utf8(rewritten_bytes(content@)),
        target_spans(encode_utf8(content@), fence_events(content@)).len() == 0 ==> r@
            == content@,
{
    let bytes = content.as_bytes_vec();
    let events = scan_fences(content);
    let out = rewrite_with_events(&bytes, &events);
    proof {
        broadcast use vstd::utf8::encode_utf8_valid_utf8, vstd::utf8::encode_utf8_decode_utf8;

        if target_spans(encode_utf8(content@), fence_events(content@)).len() == 0 {
            assert(out@ == encode_utf8(content@));
        }
    }
    bytes_to_string(&out)
}

/// A document whose event stream holds no fenced-block start tagged
/// `wavedrom` is rewritten to itself: the transform is the identity there,
/// and running it twice on such a document gives the text of one run.
pub proof fn lemma_rewrite_identity_without_match(s: Seq<char>)
    requires
        forall|i: int|
            0 <= i < fence_events(s).len() ==> !is_wavedrom_start(#[trigger] fence_events(s)[i]),
    ensures
        rewritten_bytes(s) == encode_utf8(s),
{
    lemma_no_match_identity(encode_utf8(s), fence_events(s));
}

/// The preprocessor itself: one stateless value whose work is
/// `add_wavedrom` on each chapter's text.
pub struct Wavedrom;

impl Wavedrom {
    /// The name under which the host pipeline addresses this preprocessor.
    pub fn name(&self) -> (r: &'static str)
        ensures
            r@ == "wavedrom"@,
    {
        "wavedrom"
    }

    /// The only renderer whose output the embedding template suits.
    pub fn supports_renderer(&self, renderer: &str) -> (r: bool)
        ensures
            r == (renderer@ == "html"@),
    {
        str_eq(renderer, "html")
    }

    /// Rewrite one chapter's text.
    pub fn add_wavedrom(content: &str) -> (r: String)
        ensures
            r@ == lossy_chars(rewritten_bytes(content@)),
            valid_utf8(rewritten_bytes(content@)) ==> r@ == decode_utf8(
                rewritten_bytes(content@),
            ),
            target_spans(encode_utf8(content@), fence_events(content@)).len() == 0 ==> r@
                == content@,
    {
        add_wavedrom(content)
    }
}

} // verus!
