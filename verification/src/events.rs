use vstd::prelude::*;

verus! {

/// What a structural event from the markdown tokenizer can be, reduced to
/// the three shapes the rewriter reacts to: a fenced-block start carrying
/// its info-string, a fenced-block end, and anything else.
#[derive(Clone, Copy, PartialEq, Eq, Structural)]
pub enum FenceKind {
    Start,
    End,
    Other,
}

/// One structural event of the tokenizer, with the byte span `[lo, hi)` of
/// the source text it corresponds to. For a fenced code block, both the
/// start and the end event carry the span of the whole block.
pub struct FenceEvent {
    pub kind: FenceKind,
    pub info: String,
    pub lo: usize,
    pub hi: usize,
}

pub open spec fn fence_kind_code(k: FenceKind) -> int {
    match k {
        FenceKind::Start => 0,
        FenceKind::End => 1,
        FenceKind::Other => 2,
    }
}

impl View for FenceEvent {
    type V = (int, Seq<char>, int, int);

    open spec fn view(&self) -> (int, Seq<char>, int, int) {
        (fence_kind_code(self.kind), self.info@, self.lo as int, self.hi as int)
    }
}

/// The mathematical value of a whole event stream.
pub open spec fn events_view(evs: Seq<FenceEvent>) -> Seq<(int, Seq<char>, int, int)> {
    evs.map_values(|e: FenceEvent| e@)
}

/// The structural events that the markdown tokenizer yields for a document,
/// with the documentation-table, footnote, strikethrough and task-list
/// extensions enabled, reduced to the values of `FenceEvent`: the event
/// stream is a function of the source text alone.
pub uninterp spec fn fence_events(s: Seq<char>) -> Seq<(int, Seq<char>, int, int)>;

/// A block-start event whose declared info-string is exactly the target tag.
pub open spec fn is_wavedrom_start(e: (int, Seq<char>, int, int)) -> bool {
    e.0 == 0 && e.1 == "wavedrom"@
}

/// A fenced-block end event.
pub open spec fn is_fence_end(e: (int, Seq<char>, int, int)) -> bool {
    e.0 == 1
}

} // verus!
