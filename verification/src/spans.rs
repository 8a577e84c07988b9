use vstd::prelude::*;
use crate::escape::{escape_bytes, escape_html_bytes};
use crate::events::{events_view, is_fence_end, is_wavedrom_start, FenceEvent, FenceKind};
use vstd::string::StrSliceExecFns;
use vstd::utf8::encode_utf8;

verus! {

/// Byte length of the opening fence line of a matched block:
/// the three backticks, the tag `wavedrom`, and the newline.
pub const OPEN_FENCE_LEN: usize = 12;

/// Byte length of the closing fence delimiter: three backticks.
pub const CLOSE_FENCE_LEN: usize = 3;

/// The fixed text that precedes the escaped payload in a replacement:
/// the auto-invoking loader opening tag and the typed script-open tag.
pub open spec fn script_open() -> Seq<u8> {
    encode_utf8("<body onload=\"WaveDrom.ProcessAll()\">\n\n<script type=\"WaveDrom\">"@)
}

/// The fixed text that follows the escaped payload in a replacement:
/// the script-close tag and two trailing newlines.
pub open spec fn script_close() -> Seq<u8> {
    encode_utf8("</script>\n\n"@)
}

/// The full replacement text for a matched block with the given raw payload.
pub open spec fn replacement_of(payload: Seq<u8>) -> Seq<u8> {
    script_open() + escape_bytes(payload) + script_close()
}

/// One pass of the scanner state machine over the event stream, starting at
/// event `i` with the given "inside target block" flag, pending span start,
/// and end of the last recorded span. Yields the target spans, in document
/// order, each paired with its replacement text. A span is recorded only
/// when it lies beyond the previous one, is long enough to contain both
/// fence delimiters, and ends within the document; the tokenizer's event
/// streams always satisfy this, and anything else is silently dropped.
pub open spec fn target_spans_rec(
    bytes: Seq<u8>,
    evs: Seq<(int, Seq<char>, int, int)>,
    i: int,
    in_block: bool,
    pending: int,
    last_end: int,
) -> Seq<(int, int, Seq<u8>)>
    decreases evs.len() - i,
{
    if i < 0 || i >= evs.len() {
        Seq::empty()
    } else {
        let e = evs[i];
        if is_wavedrom_start(e) {
            target_spans_rec(bytes, evs, i + 1, true, e.2, last_end)
        } else if in_block && is_fence_end(e) {
            if last_end <= pending && pending + OPEN_FENCE_LEN + CLOSE_FENCE_LEN <= e.3 && e.3
                <= bytes.len() {
                seq![
                    (
                        pending,
                        e.3,
                        replacement_of(
                            bytes.subrange(pending + OPEN_FENCE_LEN, e.3 - CLOSE_FENCE_LEN),
                        ),
                    ),
                ] + target_spans_rec(bytes, evs, i + 1, false, pending, e.3)
            } else {
                target_spans_rec(bytes, evs, i + 1, false, pending, last_end)
            }
        } else {
            target_spans_rec(bytes, evs, i + 1, in_block, pending, last_end)
        }
    }
}

/// The target spans of a document: what one scan over the tokenizer's
/// events records, starting outside any block.
pub open spec fn target_spans(
    bytes: Seq<u8>,
    evs: Seq<(int, Seq<char>, int, int)>,
) -> Seq<(int, int, Seq<u8>)> {
    target_spans_rec(bytes, evs, 0, false, 0, 0)
}

/// Replacing one span: the text before it, the replacement, the text after.
pub open spec fn replace_span(bytes: Seq<u8>, sp: (int, int, Seq<u8>)) -> Seq<u8> {
    bytes.take(sp.0) + sp.2 + bytes.skip(sp.1)
}

/// Applying the spans from index `k` on, in reverse span order: the last
/// span is applied to the original text first, and span `k` last, so that
/// replacing a later span never invalidates an earlier span's offsets.
pub open spec fn apply_from(
    bytes: Seq<u8>,
    spans: Seq<(int, int, Seq<u8>)>,
    k: int,
) -> Seq<u8>
    decreases spans.len() - k,
{
    if k < 0 || k >= spans.len() {
        bytes
    } else {
        replace_span(apply_from(bytes, spans, k + 1), spans[k])
    }
}

/// The rewritten document: every recorded span replaced, all other text kept.
pub open spec fn apply_rewrites(bytes: Seq<u8>, spans: Seq<(int, int, Seq<u8>)>) -> Seq<u8> {
    apply_from(bytes, spans, 0)
}

/// Well-formed span lists: each span lies within the document, holds at
/// least the two fence delimiters, and the spans are strictly ordered and
/// non-overlapping.
pub open spec fn spans_wf(bytes: Seq<u8>, spans: Seq<(int, int, Seq<u8>)>) -> bool {
    &&& (forall|k: int|
        0 <= k < spans.len() ==> 0 <= (#[trigger] spans[k]).0 && spans[k].0 + OPEN_FENCE_LEN
            + CLOSE_FENCE_LEN <= spans[k].1 && spans[k].1 <= bytes.len())
    &&& (forall|k: int|
        0 <= k < spans.len() - 1 ==> (#[trigger] spans[k]).1 <= spans[k + 1].0)
}

proof fn lemma_target_spans_rec_wf(
    bytes: Seq<u8>,
    evs: Seq<(int, Seq<char>, int, int)>,
    i: int,
    in_block: bool,
    pending: int,
    last_end: int,
)
    requires
        0 <= last_end,
    ensures
        spans_wf(bytes, target_spans_rec(bytes, evs, i, in_block, pending, last_end)),
        forall|k: int|
            0 <= k < target_spans_rec(bytes, evs, i, in_block, pending, last_end).len()
                ==> last_end <= (#[trigger] target_spans_rec(
                bytes,
                evs,
                i,
                in_block,
                pending,
                last_end,
            )[k]).0,
    decreases evs.len() - i,
{
    if i < 0 || i >= evs.len() {
    } else {
        let e = evs[i];
        if is_wavedrom_start(e) {
            lemma_target_spans_rec_wf(bytes, evs, i + 1, true, e.2, last_end);
        } else if in_block && is_fence_end(e) {
            if last_end <= pending && pending + OPEN_FENCE_LEN + CLOSE_FENCE_LEN <= e.3 && e.3
                <= bytes.len() {
                lemma_target_spans_rec_wf(bytes, evs, i + 1, false, pending, e.3);
            } else {
                lemma_target_spans_rec_wf(bytes, evs, i + 1, false, pending, last_end);
            }
        } else {
            lemma_target_spans_rec_wf(bytes, evs, i + 1, in_block, pending, last_end);
        }
    }
}

/// The invariant of the span list: what the scanner records is strictly
/// ordered, non-overlapping, and contained in the document.
pub proof fn lemma_target_spans_wf(bytes: Seq<u8>, evs: Seq<(int, Seq<char>, int, int)>)
    ensures
        spans_wf(bytes, target_spans(bytes, evs)),
{
    lemma_target_spans_rec_wf(bytes, evs, 0, false, 0, 0);
}

/// A document whose event stream holds no block start tagged with the
/// target tag gets no target span, so the rewrite leaves it unchanged.
pub proof fn lemma_no_match_identity(bytes: Seq<u8>, evs: Seq<(int, Seq<char>, int, int)>)
    requires
        forall|i: int| 0 <= i < evs.len() ==> !is_wavedrom_start(#[trigger] evs[i]),
    ensures
        target_spans(bytes, evs).len() == 0,
        apply_rewrites(bytes, target_spans(bytes, evs)) == bytes,
{
    lemma_no_match_rec(bytes, evs, 0, 0, 0);
}

proof fn lemma_no_match_rec(
    bytes: Seq<u8>,
    evs: Seq<(int, Seq<char>, int, int)>,
    i: int,
    pending: int,
    last_end: int,
)
    requires
        forall|j: int| 0 <= j < evs.len() ==> !is_wavedrom_start(#[trigger] evs[j]),
    ensures
        target_spans_rec(bytes, evs, i, false, pending, last_end).len() == 0,
    decreases evs.len() - i,
{
    if i < 0 || i >= evs.len() {
    } else {
        lemma_no_match_rec(bytes, evs, i + 1, pending, last_end);
    }
}

/// The mathematical value of an executable span list.
pub open spec fn spans_view(sp: Seq<(usize, usize, Vec<u8>)>) -> Seq<(int, int, Seq<u8>)> {
    sp.map_values(|t: (usize, usize, Vec<u8>)| (t.0 as int, t.1 as int, t.2@))
}

fn kind_code(k: FenceKind) -> (r: u8)
    ensures
        r as int == crate::events::fence_kind_code(k),
{
    match k {
        FenceKind::Start => 0,
        FenceKind::End => 1,
        FenceKind::Other => 2,
    }
}

/// One scan over the event stream: record every matched target span
/// together with its replacement text, in document order.
pub fn collect_rewrites(bytes: &Vec<u8>, events: &Vec<FenceEvent>) -> (r: Vec<
    (usize, usize, Vec<u8>),
>)
    ensures
        spans_view(r@) == target_spans(bytes@, events_view(events@)),
{
    let ghost evw = events_view(events@);
    let mut out: Vec<(usize, usize, Vec<u8>)> = Vec::new();
    let mut in_block: bool = false;
    let mut pending: usize = 0;
    let mut last_end: usize = 0;
    let mut i: usize = 0;
    proof {
        assert(spans_view(out@) =~= Seq::<(int, int, Seq<u8>)>::empty());
    }
    while i < events.len()
        invariant
            0 <= i <= events@.len(),
            evw == events_view(events@),
            evw.len() == events@.len(),
            target_spans(bytes@, evw) == spans_view(out@) + target_spans_rec(
                bytes@,
                evw,
                i as int,
                in_block,
                pending as int,
                last_end as int,
            ),
        decreases events@.len() - i,
    {
        let e = &events[i];
        proof {
            assert(evw[i as int] == events@[i as int]@);
        }
        let code = kind_code(e.kind);
        if code == 0 && crate::scan::str_eq(e.info.as_str(), "wavedrom") {
            pending = e.lo;
            in_block = true;
        } else if in_block && code == 1 {
            let fences: usize = OPEN_FENCE_LEN + CLOSE_FENCE_LEN;
            if last_end <= pending && e.hi >= fences && pending <= e.hi - fences && e.hi
                <= bytes.len() {
                let payload = vstd::slice::slice_subrange(
                    bytes.as_slice(),
                    pending + OPEN_FENCE_LEN,
                    e.hi - CLOSE_FENCE_LEN,
                );
                let mut repl: Vec<u8> =
                    "<body onload=\"WaveDrom.ProcessAll()\">\n\n<script type=\"WaveDrom\">".as_bytes_vec();
                let mut esc = escape_html_bytes(payload);
                repl.append(&mut esc);
                let mut close = "</script>\n\n".as_bytes_vec();
                repl.append(&mut close);
                proof {
                    assert(repl@ == replacement_of(
                        bytes@.subrange(
                            pending as int + OPEN_FENCE_LEN,
                            e.hi as int - CLOSE_FENCE_LEN,
                        ),
                    ));
                }
                let ghost old_out = out@;
                out.push((pending, e.hi, repl));
                proof {
                    assert(spans_view(out@) =~= spans_view(old_out) + spans_view(
                        seq![out@[old_out.len() as int]],
                    ));
                    assert(spans_view(seq![out@[old_out.len() as int]]) =~= seq![
                        (
                            pending as int,
                            e.hi as int,
                            replacement_of(
                                bytes@.subrange(
                                    pending as int + OPEN_FENCE_LEN,
                                    e.hi as int - CLOSE_FENCE_LEN,
                                ),
                            ),
                        ),
                    ]);
                }
                last_end = e.hi;
                in_block = false;
            } else {
                in_block = false;
            }
        }
        i = i + 1;
    }
    out
}

/// One matched block: the rewritten document is the text before the span,
/// the replacement, and the text after, concatenated, with nothing else
/// changed.
pub proof fn lemma_single_replacement(bytes: Seq<u8>, sp: (int, int, Seq<u8>))
    requires
        0 <= sp.0 <= sp.1 <= bytes.len(),
    ensures
        apply_rewrites(bytes, seq![sp]) == bytes.take(sp.0) + sp.2 + bytes.skip(sp.1),
{
    let l = seq![sp];
    assert(apply_from(bytes, l, 1) == bytes);
    assert(apply_rewrites(bytes, l) == replace_span(bytes, sp));
}

/// Two matched blocks in document order: both are replaced, each in its
/// original relative position, and the text before, between and after
/// them is kept exactly.
pub proof fn lemma_pair_replacement(
    bytes: Seq<u8>,
    sp1: (int, int, Seq<u8>),
    sp2: (int, int, Seq<u8>),
)
    requires
        0 <= sp1.0 <= sp1.1 <= sp2.0 <= sp2.1 <= bytes.len(),
    ensures
        apply_rewrites(bytes, seq![sp1, sp2]) == bytes.take(sp1.0) + sp1.2 + bytes.subrange(
            sp1.1,
            sp2.0,
        ) + sp2.2 + bytes.skip(sp2.1),
{
    let l = seq![sp1, sp2];
    assert(apply_from(bytes, l, 2) == bytes);
    assert(l[1] == sp2 && l[0] == sp1);
    let a = replace_span(bytes, sp2);
    assert(apply_from(bytes, l, 1) == a);
    assert(apply_rewrites(bytes, l) == replace_span(a, sp1));
    assert(a.take(sp1.0) =~= bytes.take(sp1.0));
    assert(a.skip(sp1.1) =~= bytes.subrange(sp1.1, sp2.0) + sp2.2 + bytes.skip(sp2.1));
    assert(replace_span(a, sp1) =~= bytes.take(sp1.0) + sp1.2 + bytes.subrange(sp1.1, sp2.0)
        + sp2.2 + bytes.skip(sp2.1));
}

proof fn lemma_apply_from_agrees(bytes: Seq<u8>, spans: Seq<(int, int, Seq<u8>)>, j: int)
    requires
        spans_wf(bytes, spans),
        0 <= j <= spans.len(),
    ensures
        ({
            let lim = if j < spans.len() {
                spans[j].0
            } else {
                bytes.len() as int
            };
            apply_from(bytes, spans, j).len() >= lim && apply_from(bytes, spans, j).take(lim)
                == bytes.take(lim)
        }),
    decreases spans.len() - j,
{
    if j >= spans.len() {
        assert(apply_from(bytes, spans, j) == bytes);
    } else {
        lemma_apply_from_agrees(bytes, spans, j + 1);
        let a = apply_from(bytes, spans, j + 1);
        let lim2 = if j + 1 < spans.len() {
            spans[j + 1].0
        } else {
            bytes.len() as int
        };
        let sp = spans[j];
        assert(sp.1 <= lim2);
        assert(a.len() >= lim2);
        assert(a.take(lim2) == bytes.take(lim2));
        assert(a.take(sp.0) =~= bytes.take(sp.0)) by {
            assert(forall|x: int|
                0 <= x < sp.0 ==> a.take(sp.0)[x] == a.take(lim2)[x] && bytes.take(sp.0)[x]
                    == bytes.take(lim2)[x]);
        }
        assert(apply_from(bytes, spans, j) == replace_span(a, sp));
        assert(replace_span(a, sp).take(sp.0) =~= bytes.take(sp.0));
    }
}

/// Apply the recorded replacements to the original document, highest span
/// first, so that earlier offsets stay valid while later spans are spliced.
pub fn apply_all(bytes: &Vec<u8>, spans: &Vec<(usize, usize, Vec<u8>)>) -> (r: Vec<u8>)
    requires
        spans_wf(bytes@, spans_view(spans@)),
    ensures
        r@ == apply_rewrites(bytes@, spans_view(spans@)),
{
    let ghost sv = spans_view(spans@);
    let mut cur: Vec<u8> = vstd::slice::slice_to_vec(bytes.as_slice());
    let mut k: usize = spans.len();
    while k > 0
        invariant
            0 <= k <= spans@.len(),
            sv == spans_view(spans@),
            sv.len() == spans@.len(),
            spans_wf(bytes@, sv),
            cur@ == apply_from(bytes@, sv, k as int),
        decreases k,
    {
        k = k - 1;
        proof {
            assert(sv[k as int] == (spans@[k as int].0 as int, spans@[k as int].1 as int, spans@[k as int].2@));
            lemma_apply_from_agrees(bytes@, sv, k as int + 1);
        }
        let s: usize = spans[k].0;
        let e: usize = spans[k].1;
        let mut next: Vec<u8> = vstd::slice::slice_to_vec(
            vstd::slice::slice_subrange(cur.as_slice(), 0, s),
        );
        next.extend_from_slice(spans[k].2.as_slice());
        next.extend_from_slice(vstd::slice::slice_subrange(cur.as_slice(), e, cur.len()));
        proof {
            assert(cur@.subrange(0, s as int) =~= cur@.take(s as int));
            assert(cur@.subrange(e as int, cur@.len() as int) =~= cur@.skip(e as int));
            assert(next@ == replace_span(cur@, sv[k as int]));
        }
        cur = next;
    }
    cur
}

} // verus!
