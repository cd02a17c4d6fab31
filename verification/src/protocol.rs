//! Notebook protocol: per-cell output truncation, token estimation, and the
//! notebook of executed cells that is replayed to the model.

use vstd::prelude::*;
use vstd::string::StringSliceAdditionalSpecFns;
use vstd::utf8::*;

use crate::text::{decimal, push_decimal};

verus! {

broadcast use vstd::utf8::group_utf8_lib;

// ---------------------------------------------------------------------------
// Truncation policy
// ---------------------------------------------------------------------------

/// How to shorten a cell output that exceeds `max_bytes`.
#[derive(Debug, Clone, PartialEq, Eq, Structural)]
pub enum TruncationStrategy {
    /// Keep the first `max_bytes`, append a marker.
    TailDrop,
    /// Keep the last `max_bytes`, prepend a marker.
    HeadDrop,
    /// Keep the first and last halves, replace the middle with a marker.
    Middle,
}

/// Controls whether and how cell outputs are shortened before being stored.
#[derive(Debug, Clone)]
pub struct TruncationPolicy {
    /// Maximum byte length of a stored cell output. `0` means unlimited.
    pub max_bytes: usize,
    pub strategy: TruncationStrategy,
}

impl TruncationPolicy {
    /// Default: 8 KiB cap, TailDrop.
    pub fn default_policy() -> (p: Self)
        ensures
            p.max_bytes == 8192,
            p.strategy == TruncationStrategy::TailDrop,
    {
        TruncationPolicy { max_bytes: 8192, strategy: TruncationStrategy::TailDrop }
    }

    /// No truncation — stores output verbatim.
    pub fn none() -> (p: Self)
        ensures
            p.max_bytes == 0,
            p.strategy == TruncationStrategy::TailDrop,
    {
        TruncationPolicy { max_bytes: 0, strategy: TruncationStrategy::TailDrop }
    }
}

impl Default for TruncationPolicy {
    fn default() -> (p: Self)
        ensures
            p.max_bytes == 8192,
            p.strategy == TruncationStrategy::TailDrop,
    {
        Self::default_policy()
    }
}

// ---------------------------------------------------------------------------
// Char boundaries
// ---------------------------------------------------------------------------

/// Walks down from `i` to the nearest char boundary of `bytes`.
pub open spec fn floor_from(bytes: Seq<u8>, i: int) -> int
    decreases i,
{
    if i <= 0 {
        0
    } else if is_char_boundary(bytes, i) {
        i
    } else {
        floor_from(bytes, i - 1)
    }
}

/// Walks up from `i` to the nearest char boundary of `bytes` (the end of
/// `bytes` at the latest).
pub open spec fn ceil_from(bytes: Seq<u8>, i: int) -> int
    decreases bytes.len() - i,
{
    if i >= bytes.len() {
        bytes.len() as int
    } else if is_char_boundary(bytes, i) {
        i
    } else {
        ceil_from(bytes, i + 1)
    }
}

/// `index` clamped to the length of `bytes`.
pub open spec fn clamp(bytes: Seq<u8>, index: int) -> int {
    if index < bytes.len() {
        index
    } else {
        bytes.len() as int
    }
}

/// Largest char boundary of `bytes` that is at most `index`.
pub open spec fn floor_boundary(bytes: Seq<u8>, index: int) -> int {
    floor_from(bytes, clamp(bytes, index))
}

/// Smallest char boundary of `bytes` that is at least `index` (clamped to the length).
pub open spec fn ceil_boundary(bytes: Seq<u8>, index: int) -> int {
    ceil_from(bytes, clamp(bytes, index))
}

/// `floor_from` gives the largest boundary at or below `i`.
pub proof fn lemma_floor_from(bytes: Seq<u8>, i: int)
    requires
        valid_utf8(bytes),
        0 <= i <= bytes.len(),
    ensures
        0 <= floor_from(bytes, i) <= i,
        is_char_boundary(bytes, floor_from(bytes, i)),
        forall|j: int| floor_from(bytes, i) < j <= i ==> !is_char_boundary(bytes, j),
    decreases i,
{
    if i > 0 && !is_char_boundary(bytes, i) {
        lemma_floor_from(bytes, i - 1);
    }
}

/// `ceil_from` gives the smallest boundary at or above `i`.
pub proof fn lemma_ceil_from(bytes: Seq<u8>, i: int)
    requires
        valid_utf8(bytes),
        0 <= i <= bytes.len(),
    ensures
        i <= ceil_from(bytes, i) <= bytes.len(),
        is_char_boundary(bytes, ceil_from(bytes, i)),
        forall|j: int| i <= j < ceil_from(bytes, i) ==> !is_char_boundary(bytes, j),
    decreases bytes.len() - i,
{
    if i < bytes.len() && !is_char_boundary(bytes, i) {
        lemma_ceil_from(bytes, i + 1);
    }
}

/// Largest index ≤ `index` that is a valid UTF-8 char boundary of `s`.
pub fn floor_char_boundary(s: &str, index: usize) -> (r: usize)
    ensures
        r == floor_boundary(s.spec_bytes(), index as int),
        r <= index,
        r <= s.spec_bytes().len(),
        is_char_boundary(s.spec_bytes(), r as int),
        forall|j: int|
            r < j <= index && j <= s.spec_bytes().len() ==> !is_char_boundary(s.spec_bytes(), j),
{
    let ghost b = s.spec_bytes();
    let len = s.as_bytes().len();
    let mut i = if index < len {
        index
    } else {
        len
    };
    while i > 0 && !s.is_char_boundary(i)
        invariant
            len == b.len(),
            b == s.spec_bytes(),
            i <= len,
            floor_from(b, i as int) == floor_boundary(b, index as int),
        decreases i,
    {
        i = i - 1;
    }
    proof {
        lemma_floor_from(b, clamp(b, index as int));
    }
    i
}

/// Smallest index ≥ `index` that is a valid UTF-8 char boundary of `s`
/// (the length of `s` when `index` lies beyond it).
pub fn ceil_char_boundary(s: &str, index: usize) -> (r: usize)
    ensures
        r == ceil_boundary(s.spec_bytes(), index as int),
        r <= s.spec_bytes().len(),
        index <= s.spec_bytes().len() ==> index <= r,
        is_char_boundary(s.spec_bytes(), r as int),
        forall|j: int| index <= j < r ==> !is_char_boundary(s.spec_bytes(), j),
{
    let ghost b = s.spec_bytes();
    let len = s.as_bytes().len();
    let mut i = if index < len {
        index
    } else {
        len
    };
    while i < len && !s.is_char_boundary(i)
        invariant
            len == b.len(),
            b == s.spec_bytes(),
            i <= len,
            ceil_from(b, i as int) == ceil_boundary(b, index as int),
        decreases len - i,
    {
        i = i + 1;
    }
    proof {
        lemma_ceil_from(b, clamp(b, index as int));
    }
    i
}

// ---------------------------------------------------------------------------
// Truncation
// ---------------------------------------------------------------------------

/// The text of `bytes[from..to]`.
pub open spec fn bytes_text(bytes: Seq<u8>, from: int, to: int) -> Seq<char> {
    decode_utf8(bytes.subrange(from, to))
}

/// What `truncate_output` stores for `text` under `policy`.
pub open spec fn spec_truncate_output(text: Seq<char>, policy: TruncationPolicy) -> Seq<char> {
    let b = encode_utf8(text);
    let len = b.len() as int;
    let limit = policy.max_bytes as int;
    if limit == 0 || len <= limit {
        text
    } else {
        let omitted = (len - limit) as nat;
        match policy.strategy {
            TruncationStrategy::TailDrop => {
                let cut = floor_boundary(b, limit);
                bytes_text(b, 0, cut) + "\n["@ + decimal(omitted) + " bytes truncated]"@
            },
            TruncationStrategy::HeadDrop => {
                let cut = ceil_boundary(b, len - limit);
                "["@ + decimal(omitted) + " bytes truncated]\n"@ + bytes_text(b, cut, len)
            },
            TruncationStrategy::Middle => {
                let half = limit / 2;
                let head_cut = floor_boundary(b, half);
                let tail_start = ceil_boundary(b, len - half);
                bytes_text(b, 0, head_cut) + "\n["@ + decimal((tail_start - head_cut) as nat)
                    + " bytes omitted]\n"@ + bytes_text(b, tail_start, len)
            },
        }
    }
}

/// The text of `s` up to the char boundary `mid`, and the text after it.
pub fn split_text(s: &str, mid: usize) -> (parts: (&str, &str))
    requires
        is_char_boundary(s.spec_bytes(), mid as int),
    ensures
        parts.0@ == bytes_text(s.spec_bytes(), 0, mid as int),
        parts.1@ == bytes_text(s.spec_bytes(), mid as int, s.spec_bytes().len() as int),
{
    let parts = s.split_at(mid);
    proof {
        assert(decode_utf8(encode_utf8(parts.0@)) == parts.0@);
        assert(decode_utf8(encode_utf8(parts.1@)) == parts.1@);
    }
    parts
}

/// Truncate `text` according to `policy`. Returns `text` itself,
/// unchanged, if it fits within the limit or if `max_bytes == 0`.
pub fn truncate_output(text: &str, policy: &TruncationPolicy) -> (out: String)
    ensures
        out@ == spec_truncate_output(text@, *policy),
        policy.max_bytes == 0 || text.spec_bytes().len() <= policy.max_bytes ==> out@ == text@,
{
    let ghost b = text.spec_bytes();
    let len = text.as_bytes().len();
    let limit = policy.max_bytes;
    if limit == 0 || len <= limit {
        return String::from_str(text);
    }
    let omitted = len - limit;
    match policy.strategy {
        TruncationStrategy::TailDrop => {
            // Find a valid UTF-8 boundary at or before `limit`.
            let cut = floor_char_boundary(text, limit);
            let (head, _) = split_text(text, cut);
            let mut out = String::from_str(head);
            out.append("\n[");
            push_decimal(&mut out, omitted);
            out.append(" bytes truncated]");
            proof {
                assert(out@ =~= spec_truncate_output(text@, *policy));
            }
            out
        },
        TruncationStrategy::HeadDrop => {
            let start = len - limit;
            let cut = ceil_char_boundary(text, start);
            let (_, tail) = split_text(text, cut);
            let mut out = String::from_str("[");
            push_decimal(&mut out, omitted);
            out.append(" bytes truncated]\n");
            out.append(tail);
            proof {
                assert(out@ =~= spec_truncate_output(text@, *policy));
            }
            out
        },
        TruncationStrategy::Middle => {
            let half = limit / 2;
            let head_cut = floor_char_boundary(text, half);
            let tail_start = ceil_char_boundary(text, len - half);
            let mid_bytes = tail_start - head_cut;
            let (head, _) = split_text(text, head_cut);
            let (_, tail) = split_text(text, tail_start);
            let mut out = String::from_str(head);
            out.append("\n[");
            push_decimal(&mut out, mid_bytes);
            out.append(" bytes omitted]\n");
            out.append(tail);
            proof {
                assert(out@ =~= spec_truncate_output(text@, *policy));
            }
            out
        },
    }
}


/// Within valid UTF-8, the char boundaries of a suffix `bytes[from..]`
/// are exactly the boundaries of `bytes` at or after `from`, shifted.
pub proof fn lemma_suffix_boundary(bytes: Seq<u8>, from: int, k: int)
    requires
        valid_utf8(bytes),
        is_char_boundary(bytes, from),
        0 <= from <= bytes.len(),
        0 <= k <= bytes.len() - from,
    ensures
        is_char_boundary(bytes.subrange(from, bytes.len() as int), k) == is_char_boundary(
            bytes,
            from + k,
        ),
{
    let suffix = bytes.subrange(from, bytes.len() as int);
    assert(valid_utf8(suffix));
    if k == 0 {
    } else if k == suffix.len() {
        is_char_boundary_start_end_of_seq(suffix);
        is_char_boundary_start_end_of_seq(bytes);
    } else {
        is_char_boundary_iff_not_is_continuation_byte(suffix, k);
        is_char_boundary_iff_not_is_continuation_byte(bytes, from + k);
    }
}

/// Splitting valid UTF-8 at a char boundary splits its text and its bytes.
pub proof fn lemma_split_text(bytes: Seq<u8>, cut: int)
    requires
        valid_utf8(bytes),
        is_char_boundary(bytes, cut),
        0 <= cut <= bytes.len(),
    ensures
        decode_utf8(bytes) == bytes_text(bytes, 0, cut) + bytes_text(bytes, cut, bytes.len() as int),
        encode_utf8(bytes_text(bytes, 0, cut)).len() == cut,
        encode_utf8(bytes_text(bytes, cut, bytes.len() as int)).len() == bytes.len() - cut,
{
    decode_utf8_split(bytes, cut);
    valid_utf8_split(bytes, cut);
    decode_utf8_encode_utf8(bytes.subrange(0, cut));
    decode_utf8_encode_utf8(bytes.subrange(cut, bytes.len() as int));
}

/// Law: what a truncated output keeps is taken whole from the text, cut only
/// at char boundaries, and never more than the limit allows.
///
/// * When the text fits (or the limit is 0) it is stored unchanged.
/// * `TailDrop` keeps a prefix of at most `max_bytes` bytes — the longest
///   one that ends on a char boundary — and appends a marker naming
///   `len - max_bytes`.
/// * `HeadDrop` keeps a suffix of at most `max_bytes` bytes — the longest one
///   that starts on a char boundary — and prepends the marker; on ASCII text
///   exactly `max_bytes` bytes are kept.
/// * `Middle` keeps a prefix and a suffix of at most `max_bytes / 2` bytes
///   each, each the longest that a char boundary allows, and replaces what
///   lies between with a marker naming its exact byte count.
pub proof fn lemma_truncation_keeps_text_pieces(text: Seq<char>, policy: TruncationPolicy)
    ensures
        ({
            let out = spec_truncate_output(text, policy);
            let b = encode_utf8(text);
            let len = b.len() as int;
            let limit = policy.max_bytes as int;
            let omitted = (len - limit) as nat;
            &&& (limit == 0 || len <= limit) ==> out == text
            &&& (limit != 0 && len > limit && policy.strategy == TruncationStrategy::TailDrop)
                ==> exists|kept: Seq<char>, rest: Seq<char>|
                {
                    &&& text == #[trigger] (kept + rest)
                    &&& encode_utf8(kept).len() <= limit
                    &&& forall|j: int|
                        encode_utf8(kept).len() < j <= limit ==> !is_char_boundary(b, j)
                    &&& out == kept + "\n["@ + decimal(omitted) + " bytes truncated]"@
                }
            &&& (limit != 0 && len > limit && policy.strategy == TruncationStrategy::HeadDrop)
                ==> exists|dropped: Seq<char>, kept: Seq<char>|
                {
                    &&& text == #[trigger] (dropped + kept)
                    &&& encode_utf8(kept).len() <= limit
                    &&& forall|j: int|
                        len - limit <= j < len - encode_utf8(kept).len() ==> !is_char_boundary(b, j)
                    &&& out == "["@ + decimal(omitted) + " bytes truncated]\n"@ + kept
                }
            &&& (limit != 0 && len > limit && policy.strategy == TruncationStrategy::Middle)
                ==> exists|head: Seq<char>, middle: Seq<char>, tail: Seq<char>|
                {
                    &&& text == #[trigger] (head + middle + tail)
                    &&& encode_utf8(head).len() <= limit / 2
                    &&& encode_utf8(tail).len() <= limit / 2
                    &&& forall|j: int|
                        encode_utf8(head).len() < j <= limit / 2 ==> !is_char_boundary(b, j)
                    &&& forall|j: int|
                        len - limit / 2 <= j < len - encode_utf8(tail).len() ==> !is_char_boundary(
                            b,
                            j,
                        )
                    &&& out == head + "\n["@ + decimal(encode_utf8(middle).len()) + " bytes omitted]\n"@
                        + tail
                }
        }),
{
    let out = spec_truncate_output(text, policy);
    let b = encode_utf8(text);
    let len = b.len() as int;
    let limit = policy.max_bytes as int;
    assert(decode_utf8(b) == text);
    if limit != 0 && len > limit {
        match policy.strategy {
            TruncationStrategy::TailDrop => {
                let cut = floor_boundary(b, limit);
                lemma_floor_from(b, clamp(b, limit));
                lemma_split_text(b, cut);
                let kept = bytes_text(b, 0, cut);
                let rest = bytes_text(b, cut, len);
                assert(text == kept + rest);
                assert(out == kept + "\n["@ + decimal((len - limit) as nat) + " bytes truncated]"@);
            },
            TruncationStrategy::HeadDrop => {
                let cut = ceil_boundary(b, len - limit);
                lemma_ceil_from(b, clamp(b, len - limit));
                lemma_split_text(b, cut);
                let dropped = bytes_text(b, 0, cut);
                let kept = bytes_text(b, cut, len);
                assert(text == dropped + kept);
            },
            TruncationStrategy::Middle => {
                let half = limit / 2;
                let h = floor_boundary(b, half);
                let t = ceil_boundary(b, len - half);
                lemma_floor_from(b, clamp(b, half));
                lemma_ceil_from(b, clamp(b, len - half));
                lemma_split_text(b, h);
                lemma_split_text(b, t);
                let suffix = b.subrange(h, len);
                assert(valid_utf8(suffix));
                lemma_suffix_boundary(b, h, t - h);
                lemma_split_text(suffix, t - h);
                assert(suffix.subrange(0, t - h) =~= b.subrange(h, t));
                assert(suffix.subrange(t - h, suffix.len() as int) =~= b.subrange(t, len));
                let head = bytes_text(b, 0, h);
                let middle = decode_utf8(b.subrange(h, t));
                let tail = bytes_text(b, t, len);
                assert(text == head + middle + tail);
                assert(out == head + "\n["@ + decimal(encode_utf8(middle).len()) + " bytes omitted]\n"@
                    + tail);
            },
        }
    }
}

// ---------------------------------------------------------------------------
// Token estimation
// ---------------------------------------------------------------------------

/// `ceil(n / 4)`: the token estimate for `n` bytes of text.
pub open spec fn tokens_for_bytes(n: nat) -> nat {
    (n + 3) / 4
}

/// Token estimate of a text: its UTF-8 byte length divided by 4, rounded up.
pub open spec fn token_count(text: Seq<char>) -> nat {
    tokens_for_bytes(encode_utf8(text).len())
}

/// Character-based token estimate (~4 bytes per token, rounded up).
///
/// Deliberately crude: it only needs to be accurate enough to trigger
/// notebook compaction well before the provider's context window overflows,
/// without pulling in a tokenizer dependency.
pub fn approx_token_count(text: &str) -> (n: usize)
    ensures
        n == token_count(text@),
        n <= usize::MAX / 4 + 1,
{
    let len = text.as_bytes().len();
    let rest = if len % 4 == 0 {
        0
    } else {
        1
    };
    len / 4 + rest
}

/// The result of executing one Rhai cell in the RLM loop.
#[derive(Debug, Clone)]
pub enum StepResult {
    /// Script ran, produced output — loop continues with this output appended to the notebook.
    Continue(String),
    /// Model called `done(answer)` — loop exits, answer is returned to caller.
    Final(String),
}

/// A `StepResult` with its text taken by view.
pub enum StepResultView {
    Continue(Seq<char>),
    Final(Seq<char>),
}

impl View for StepResult {
    type V = StepResultView;

    open spec fn view(&self) -> StepResultView {
        match self {
            StepResult::Continue(o) => StepResultView::Continue(o@),
            StepResult::Final(a) => StepResultView::Final(a@),
        }
    }
}

// ---------------------------------------------------------------------------
// Notebook
// ---------------------------------------------------------------------------

/// A single executed cell: the script the model wrote and its output.
#[derive(Debug, Clone)]
pub struct Cell {
    pub script: String,
    pub output: String,
}

/// The text of a cell.
pub struct CellView {
    pub script: Seq<char>,
    pub output: Seq<char>,
}

impl View for Cell {
    type V = CellView;

    open spec fn view(&self) -> CellView {
        CellView { script: self.script@, output: self.output@ }
    }
}

/// Accumulated history of all cells executed in one RLM run.
#[derive(Debug, Clone)]
pub struct Notebook {
    pub cells: Vec<Cell>,
}

impl View for Notebook {
    type V = Seq<CellView>;

    open spec fn view(&self) -> Seq<CellView> {
        self.cells@.map_values(|c: Cell| c@)
    }
}

impl Default for Notebook {
    fn default() -> (nb: Self)
        ensures
            nb@ == Seq::<CellView>::empty(),
    {
        let nb = Notebook { cells: Vec::new() };
        assert(nb@ =~= Seq::<CellView>::empty());
        nb
    }
}

/// Token estimate of one cell: script plus output.
pub open spec fn cell_tokens(c: CellView) -> nat {
    token_count(c.script) + token_count(c.output)
}

/// Token estimate of a sequence of cells: the sum over its cells.
pub open spec fn notebook_tokens(cells: Seq<CellView>) -> nat
    decreases cells.len(),
{
    if cells.len() == 0 {
        0
    } else {
        notebook_tokens(cells.drop_last()) + cell_tokens(cells.last())
    }
}

/// The token estimate of a prefix never exceeds that of the whole.
pub proof fn lemma_tokens_prefix(cells: Seq<CellView>, i: int)
    requires
        0 <= i <= cells.len(),
    ensures
        notebook_tokens(cells.take(i)) <= notebook_tokens(cells),
    decreases cells.len(),
{
    if i < cells.len() {
        assert(cells.drop_last().take(i) =~= cells.take(i));
        lemma_tokens_prefix(cells.drop_last(), i);
    } else {
        assert(cells.take(i) =~= cells);
    }
}

/// How cell `i` is rendered in the history shown to the model.
pub open spec fn render_cell(i: nat, c: CellView) -> Seq<char> {
    "# Cell "@ + decimal(i) + "\n```\n"@ + c.script + "\n```\nOutput:\n"@ + c.output
}

/// The rendered cells, in order, separated by blank lines.
pub open spec fn history(cells: Seq<CellView>) -> Seq<char>
    decreases cells.len(),
{
    if cells.len() == 0 {
        Seq::empty()
    } else if cells.len() == 1 {
        render_cell(0, cells[0])
    } else {
        history(cells.drop_last()) + "\n\n"@ + render_cell((cells.len() - 1) as nat, cells.last())
    }
}

/// Whether `part` stands somewhere in `whole` as a contiguous run.
pub open spec fn occurs_in(part: Seq<char>, whole: Seq<char>) -> bool {
    exists|a: int|
        0 <= a && a + part.len() <= whole.len() && #[trigger] whole.subrange(a, a + part.len())
            == part
}

/// Law: the history shows every cell: the rendering of cell `i`, with its
/// number, script and output, stands in the history of the cells for every
/// `i`, the last cell included.
pub proof fn lemma_history_shows_every_cell(cells: Seq<CellView>)
    ensures
        forall|i: int|
            0 <= i < cells.len() ==> occurs_in(
                #[trigger] render_cell(i as nat, cells[i]),
                history(cells),
            ),
    decreases cells.len(),
{
    let h = history(cells);
    if cells.len() == 1 {
        let r = render_cell(0, cells[0]);
        assert(h.subrange(0, 0 + r.len() as int) =~= r);
        assert(occurs_in(r, h));
    } else if cells.len() > 1 {
        let prev = cells.drop_last();
        let hp = history(prev);
        let n = cells.len() - 1;
        let last = render_cell(n as nat, cells.last());
        lemma_history_shows_every_cell(prev);
        reveal_strlit("\n\n");
        assert(h == hp + "\n\n"@ + last);
        assert forall|i: int| 0 <= i < cells.len() implies occurs_in(
            #[trigger] render_cell(i as nat, cells[i]),
            h,
        ) by {
            let r = render_cell(i as nat, cells[i]);
            if i < n {
                assert(cells[i] == prev[i]);
                assert(occurs_in(render_cell(i as nat, prev[i]), hp));
                let a = choose|a: int|
                    0 <= a && a + r.len() <= hp.len() && #[trigger] hp.subrange(a, a + r.len()) == r;
                assert(h.subrange(a, a + r.len()) =~= hp.subrange(a, a + r.len()));
            } else {
                let a = hp.len() as int + 2;
                assert(h.subrange(a, a + r.len()) =~= last);
            }
        }
    }
}

/// Law: the history lists the cells in notebook order. A one-cell notebook
/// renders as cell 0 alone, and a cell added to a notebook is rendered after
/// everything before it, with the next number, after a blank line.
pub proof fn lemma_history_appends_cell(cells: Seq<CellView>, c: CellView)
    ensures
        history(seq![c]) == render_cell(0, c),
        cells.len() > 0 ==> history(cells.push(c)) == history(cells) + "\n\n"@ + render_cell(
            cells.len(),
            c,
        ),
{
    assert(cells.push(c).drop_last() =~= cells);
}

/// Law: pushing a cell adds exactly that cell's script and output
/// estimates to the notebook's token estimate.
pub proof fn lemma_push_adds_cell_tokens(cells: Seq<CellView>, c: CellView)
    ensures
        notebook_tokens(cells.push(c)) == notebook_tokens(cells) + token_count(c.script)
            + token_count(c.output),
{
    assert(cells.push(c).drop_last() =~= cells);
}

/// Law: the rendered history is empty exactly when the notebook has no cells.
pub proof fn lemma_history_empty_iff_no_cells(cells: Seq<CellView>)
    ensures
        (history(cells).len() == 0) == (cells.len() == 0),
    decreases cells.len(),
{
    if cells.len() == 1 {
        assert(decimal(0).len() == 1);
    } else if cells.len() > 1 {
        lemma_history_empty_iff_no_cells(cells.drop_last());
    }
}

impl Notebook {
    /// Appends a cell.
    pub fn push(&mut self, script: String, output: String)
        ensures
            final(self)@ == old(self)@.push(CellView { script: script@, output: output@ }),
    {
        let ghost before = self@;
        self.cells.push(Cell { script, output });
        assert(self@ =~= before.push(CellView { script: script@, output: output@ }));
    }

    /// Estimated token footprint of the whole notebook (scripts + outputs).
    pub fn token_estimate(&self) -> (n: usize)
        requires
            notebook_tokens(self@) <= usize::MAX,
        ensures
            n == notebook_tokens(self@),
    {
        let mut acc: usize = 0;
        let mut i: usize = 0;
        while i < self.cells.len()
            invariant
                i <= self.cells.len(),
                notebook_tokens(self@) <= usize::MAX,
                acc == notebook_tokens(self@.take(i as int)),
            decreases self.cells.len() - i,
        {
            let c = &self.cells[i];
            let t = approx_token_count(c.script.as_str()) + approx_token_count(c.output.as_str());
            proof {
                assert(self@.take(i + 1).drop_last() =~= self@.take(i as int));
                lemma_tokens_prefix(self@, i + 1);
            }
            acc = acc + t;
            i = i + 1;
        }
        assert(self@.take(i as int) =~= self@);
        acc
    }

    /// Whether the token estimate is above `threshold`; never overflows.
    pub fn token_estimate_exceeds(&self, threshold: usize) -> (r: bool)
        ensures
            r == (notebook_tokens(self@) > threshold),
    {
        let mut acc: usize = 0;
        let mut i: usize = 0;
        while i < self.cells.len()
            invariant
                i <= self.cells.len(),
                acc <= threshold,
                acc == notebook_tokens(self@.take(i as int)),
            decreases self.cells.len() - i,
        {
            let c = &self.cells[i];
            let t = approx_token_count(c.script.as_str()) + approx_token_count(c.output.as_str());
            proof {
                assert(self@.take(i + 1).drop_last() =~= self@.take(i as int));
                lemma_tokens_prefix(self@, i + 1);
            }
            if t > threshold - acc {
                return true;
            }
            acc = acc + t;
            i = i + 1;
        }
        assert(self@.take(i as int) =~= self@);
        false
    }

    /// The token estimate, or `usize::MAX` where it would not fit.
    pub fn token_estimate_capped(&self) -> (n: usize)
        ensures
            n == (if notebook_tokens(self@) <= usize::MAX {
                notebook_tokens(self@)
            } else {
                usize::MAX as nat
            }),
    {
        let mut acc: usize = 0;
        let mut i: usize = 0;
        while i < self.cells.len()
            invariant
                i <= self.cells.len(),
                acc == notebook_tokens(self@.take(i as int)),
            decreases self.cells.len() - i,
        {
            let c = &self.cells[i];
            let t = approx_token_count(c.script.as_str()) + approx_token_count(c.output.as_str());
            proof {
                assert(self@.take(i + 1).drop_last() =~= self@.take(i as int));
                lemma_tokens_prefix(self@, i + 1);
            }
            if t > usize::MAX - acc {
                return usize::MAX;
            }
            acc = acc + t;
            i = i + 1;
        }
        assert(self@.take(i as int) =~= self@);
        acc
    }

    /// Render cells as a message history string for the LLM.
    pub fn as_history(&self) -> (h: String)
        ensures
            h@ == history(self@),
    {
        let mut out = String::new();
        let mut i: usize = 0;
        while i < self.cells.len()
            invariant
                i <= self.cells.len(),
                out@ == history(self@.take(i as int)),
            decreases self.cells.len() - i,
        {
            let ghost before = out@;
            let c = &self.cells[i];
            if i > 0 {
                out.append("\n\n");
            }
            out.append("# Cell ");
            push_decimal(&mut out, i);
            out.append("\n```\n");
            out.append(c.script.as_str());
            out.append("\n```\nOutput:\n");
            out.append(c.output.as_str());
            proof {
                let t = self@.take(i + 1);
                assert(t.drop_last() =~= self@.take(i as int));
                assert(t.last() == self@[i as int]);
                if i == 0 {
                    assert(before =~= Seq::<char>::empty());
                    assert(out@ =~= history(t));
                } else {
                    assert(out@ =~= history(t));
                }
            }
            i = i + 1;
        }
        assert(self@.take(i as int) =~= self@);
        out
    }
}

} // verus!
