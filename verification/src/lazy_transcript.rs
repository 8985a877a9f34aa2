//! Lazy transcript documents for large tool outputs.
//!
//! Header metadata is kept as ordinary already-wrapped rows; large bodies are
//! kept as plain text and wrapped only for the requested row window. The
//! document can answer its height and paint a window without building a row
//! for every line of a multi-megabyte body.

use vstd::prelude::*;

use crate::wrap::body_rows;
use crate::wrap::body_rows_count;
use crate::wrap::body_rows_prefix;
use crate::wrap::chars_of;
use crate::wrap::min;
use crate::wrap::prefix;
use crate::wrap::rows_view;
use crate::wrap::wrap_rows;
use crate::wrap::wrap_source_rows;
use crate::wrap::RowModel;
use crate::wrap::RowStyle;
use crate::wrap::TranscriptRow;

verus! {

broadcast use vstd::string::group_string_axioms;

/// Largest number of rows a transcript document reports.
pub const TRANSCRIPT_MAX_ROWS: usize = 65535;

/// Largest number of content rows; rows past it are replaced by a notice.
pub const TRANSCRIPT_CONTENT_MAX_ROWS: usize = 65407;

pub const TRANSCRIPT_ROW_LIMIT_MARKER: &'static str =
    "⚠ Transcript row limit reached; more output is hidden.";

/// One piece of a document.
pub enum LazyPart {
    /// Small already-wrapped rows (titles, banners, short metadata).
    Lines(Vec<TranscriptRow>),
    /// A large body kept as text and wrapped on demand under `indent`.
    Text { chars: Vec<char>, indent: String },
}

/// Width-aware transcript that answers row counts and windows without
/// keeping all rows.
pub struct LazyTranscript {
    parts: Vec<LazyPart>,
}

pub open spec fn part_rows(p: LazyPart, w: int) -> Seq<RowModel> {
    match p {
        LazyPart::Lines(rows) => rows_view(rows@),
        LazyPart::Text { chars, indent } => body_rows(chars@, indent@, w),
    }
}

/// All content rows of the parts at width `w`, in order.
pub open spec fn all_rows(parts: Seq<LazyPart>, w: int) -> Seq<RowModel>
    decreases parts.len(),
{
    if parts.len() == 0 {
        Seq::empty()
    } else {
        all_rows(parts.drop_last(), w) + part_rows(parts.last(), w)
    }
}

/// Rows of the row-limit notice at width `w`.
pub open spec fn marker_rows(w: int) -> Seq<RowModel> {
    wrap_rows(TRANSCRIPT_ROW_LIMIT_MARKER@, RowStyle::BoldRed, w, Seq::empty(), Seq::empty())
}

/// Content rows as shown at width `w`: cut at the content budget and
/// followed by the row-limit notice when they overflow it.
pub open spec fn capped(content: Seq<RowModel>, w: int) -> Seq<RowModel> {
    if content.len() > TRANSCRIPT_CONTENT_MAX_ROWS {
        content.take(TRANSCRIPT_CONTENT_MAX_ROWS as int) + marker_rows(w)
    } else {
        content
    }
}

/// The rows a document shows at width `w`: its content rows, capped.
pub open spec fn shown_rows(parts: Seq<LazyPart>, w: int) -> Seq<RowModel> {
    capped(all_rows(parts, w), w)
}

/// The width used for a requested width: at least one column.
pub open spec fn effective_width(width: u16) -> int {
    if width == 0 {
        1
    } else {
        width as int
    }
}

/// Strips one trailing line break.
pub open spec fn strip_trailing_newline(t: Seq<char>) -> Seq<char> {
    if t.len() > 0 && t.last() == '\n' {
        t.drop_last()
    } else {
        t
    }
}

proof fn lemma_marker_rows_len(w: int)
    ensures
        1 <= marker_rows(w).len() <= 54,
{
    reveal_strlit("⚠ Transcript row limit reached; more output is hidden.");
    crate::wrap::lemma_wrap_rows_len(
        TRANSCRIPT_ROW_LIMIT_MARKER@,
        RowStyle::BoldRed,
        w,
        Seq::empty(),
        Seq::empty(),
    );
}

proof fn lemma_all_rows_push(parts: Seq<LazyPart>, p: LazyPart, w: int)
    ensures
        all_rows(parts.push(p), w) == all_rows(parts, w) + part_rows(p, w),
{
    assert(parts.push(p).drop_last() =~= parts);
}

fn marker_rows_exec(width: usize) -> (r: Vec<TranscriptRow>)
    requires
        width >= 1,
    ensures
        rows_view(r@) == marker_rows(width as int),
        r@.len() <= 54,
{
    let chars = chars_of(TRANSCRIPT_ROW_LIMIT_MARKER);
    proof {
        reveal_strlit("");
        assert(""@ =~= Seq::<char>::empty());
        lemma_marker_rows_len(width as int);
        assert(chars@.subrange(0, chars@.len() as int) =~= chars@);
    }
    let r = wrap_source_rows(
        &chars,
        0,
        chars.len(),
        RowStyle::BoldRed,
        width,
        "",
        "",
        usize::MAX,
    );
    r
}

impl LazyTranscript {
    /// The parts of the document, in order.
    pub closed spec fn parts(&self) -> Seq<LazyPart> {
        self.parts@
    }

    /// The rows this document shows at `width` (see [`shown_rows`]).
    pub open spec fn shown(&self, width: u16) -> Seq<RowModel> {
        shown_rows(self.parts(), effective_width(width))
    }

    pub fn new() -> (r: Self)
        ensures
            r.parts() == Seq::<LazyPart>::empty(),
    {
        LazyTranscript { parts: Vec::new() }
    }

    /// Appends one already-wrapped row.
    pub fn push_row(&mut self, row: TranscriptRow)
        ensures
            forall|w: int|
                #[trigger] all_rows(final(self).parts(), w) == all_rows(old(self).parts(), w).push(
                    row@,
                ),
    {
        let ghost old_parts = self.parts@;
        let n = self.parts.len();
        let last_is_lines = n > 0 && match &self.parts[n - 1] {
            LazyPart::Lines(_) => true,
            _ => false,
        };
        if last_is_lines {
            let last = self.parts.pop().unwrap();
            match last {
                LazyPart::Lines(mut rows) => {
                    let ghost before = rows@;
                    rows.push(row);
                    self.parts.push(LazyPart::Lines(rows));
                    assert forall|w: int| #[trigger]
                        all_rows(self.parts@, w) == all_rows(old_parts, w).push(row@) by {
                        assert(self.parts@.drop_last() =~= old_parts.drop_last());
                        assert(rows_view(rows@) =~= rows_view(before).push(row@));
                        assert(all_rows(old_parts, w) == all_rows(old_parts.drop_last(), w)
                            + rows_view(before));
                    }
                },
                LazyPart::Text { chars, indent } => {
                    self.parts.push(LazyPart::Text { chars, indent });
                },
            }
        } else {
            let mut rows: Vec<TranscriptRow> = Vec::new();
            rows.push(row);
            let part = LazyPart::Lines(rows);
            self.parts.push(part);
            assert forall|w: int| #[trigger]
                all_rows(self.parts@, w) == all_rows(old_parts, w).push(row@) by {
                lemma_all_rows_push(old_parts, part, w);
                assert(rows_view(rows@) =~= seq![row@]);
            }
        }
    }

    /// Wraps `text` at `width` now and appends its rows.
    pub fn push_wrapped_line(
        &mut self,
        text: &str,
        style: RowStyle,
        width: usize,
        initial_indent: &str,
        subsequent_indent: &str,
    )
        ensures
            forall|w: int|
                #[trigger] all_rows(final(self).parts(), w) == all_rows(old(self).parts(), w)
                    + wrap_rows(
                    text@,
                    style,
                    if width == 0 {
                        1
                    } else {
                        width as int
                    },
                    initial_indent@,
                    subsequent_indent@,
                ),
    {
        let width = if width == 0 {
            1
        } else {
            width
        };
        let chars = chars_of(text);
        let ghost wrapped = wrap_rows(
            text@,
            style,
            width as int,
            initial_indent@,
            subsequent_indent@,
        );
        proof {
            assert(chars@.subrange(0, chars@.len() as int) =~= chars@);
            crate::wrap::lemma_wrap_rows_len(
                text@,
                style,
                width as int,
                initial_indent@,
                subsequent_indent@,
            );
        }
        let rows = wrap_source_rows(
            &chars,
            0,
            chars.len(),
            style,
            width,
            initial_indent,
            subsequent_indent,
            usize::MAX,
        );
        assert(rows_view(rows@) == wrapped);
        let ghost start = self.parts@;
        let mut rows = rows;
        let ghost mut j: int = 0;
        assert(wrapped.skip(0) =~= wrapped);
        assert forall|w: int| #[trigger] all_rows(self.parts@, w) == all_rows(start, w)
            + wrapped.take(0) by {
            assert(all_rows(start, w) + wrapped.take(0) =~= all_rows(start, w));
        }
        while rows.len() > 0
            invariant
                0 <= j <= wrapped.len(),
                rows@.len() == wrapped.len() - j,
                rows_view(rows@) == wrapped.skip(j),
                forall|w: int|
                    #[trigger] all_rows(self.parts@, w) == all_rows(start, w) + wrapped.take(j),
            decreases rows@.len(),
        {
            let ghost before_rows = rows@;
            let row = rows.remove(0);
            assert(row@ == wrapped[j]) by {
                assert(rows_view(before_rows)[0] == before_rows[0]@);
                assert(wrapped.skip(j)[0] == wrapped[j]);
            }
            let ghost parts_before = self.parts();
            let ghost rv = row@;
            self.push_row(row);
            proof {
                assert forall|w: int| #[trigger] all_rows(self.parts@, w) == all_rows(start, w)
                    + wrapped.take(j + 1) by {
                    assert(all_rows(parts_before, w) == all_rows(start, w) + wrapped.take(j));
                    assert(all_rows(self.parts(), w) == all_rows(parts_before, w).push(rv));
                    assert(wrapped.take(j + 1) =~= wrapped.take(j).push(wrapped[j]));
                    assert(all_rows(start, w) + wrapped.take(j + 1) =~= (all_rows(start, w)
                        + wrapped.take(j)).push(wrapped[j]));
                }
                assert forall|i: int| 0 <= i < rows@.len() implies rows_view(rows@)[i]
                    == wrapped.skip(j + 1)[i] by {
                    assert(rows@[i] == before_rows[i + 1]);
                    assert(rows_view(before_rows)[i + 1] == before_rows[i + 1]@);
                }
                assert(rows_view(rows@) =~= wrapped.skip(j + 1));
                j = j + 1;
            }
        }
        assert(wrapped.take(j) =~= wrapped);
    }

    /// Appends `label` as one bold row and `content` as a lazily wrapped body
    /// indented by two columns.
    pub fn push_text_block(&mut self, label: &str, content: &str, width: usize)
        ensures
            forall|w: int|
                #[trigger] all_rows(final(self).parts(), w) == all_rows(old(self).parts(), w)
                    + wrap_rows(
                    label@,
                    RowStyle::Bold,
                    if width == 0 {
                        1
                    } else {
                        width as int
                    },
                    Seq::empty(),
                    Seq::empty(),
                ) + if strip_trailing_newline(content@).len() == 0 {
                    Seq::<RowModel>::empty()
                } else {
                    body_rows(strip_trailing_newline(content@), "  "@, w)
                },
    {
        let ghost start = self.parts();
        self.push_wrapped_line(label, RowStyle::Bold, width, "", "");
        proof {
            reveal_strlit("");
            assert(""@ =~= Seq::<char>::empty());
        }
        let ghost mid = self.parts();
        self.push_lazy_body(content, "  ");
        assert forall|w: int| #[trigger] all_rows(self.parts(), w) == all_rows(start, w) + wrap_rows(
            label@,
            RowStyle::Bold,
            if width == 0 {
                1
            } else {
                width as int
            },
            Seq::empty(),
            Seq::empty(),
        ) + if strip_trailing_newline(content@).len() == 0 {
            Seq::<RowModel>::empty()
        } else {
            body_rows(strip_trailing_newline(content@), "  "@, w)
        } by {
            assert(all_rows(mid, w) == all_rows(start, w) + wrap_rows(
                label@,
                RowStyle::Bold,
                if width == 0 {
                    1
                } else {
                    width as int
                },
                ""@,
                ""@,
            ));
            assert(all_rows(self.parts(), w) == all_rows(mid, w) + if strip_trailing_newline(
                content@,
            ).len() == 0 {
                Seq::<RowModel>::empty()
            } else {
                body_rows(strip_trailing_newline(content@), "  "@, w)
            });
        }
    }

    /// Keeps `content` (without one trailing line break) as a body wrapped on
    /// demand under `indent`; an empty body adds nothing.
    pub fn push_lazy_body(&mut self, content: &str, indent: &str)
        ensures
            forall|w: int|
                #[trigger] all_rows(final(self).parts(), w) == all_rows(old(self).parts(), w)
                    + if strip_trailing_newline(content@).len() == 0 {
                    Seq::<RowModel>::empty()
                } else {
                    body_rows(strip_trailing_newline(content@), indent@, w)
                },
    {
        let ghost start = self.parts@;
        let mut chars = chars_of(content);
        let n = chars.len();
        if n > 0 && chars[n - 1] == '\n' {
            chars.pop();
        }
        assert(chars@ =~= strip_trailing_newline(content@));
        if chars.len() == 0 {
            assert forall|w: int| #[trigger] all_rows(self.parts@, w) == all_rows(start, w)
                + Seq::<RowModel>::empty() by {
                assert(all_rows(start, w) + Seq::<RowModel>::empty() =~= all_rows(start, w));
            }
            return;
        }
        let part = LazyPart::Text { chars, indent: indent.to_string() };
        self.parts.push(part);
        assert forall|w: int| #[trigger] all_rows(self.parts@, w) == all_rows(start, w) + body_rows(
            strip_trailing_newline(content@),
            indent@,
            w,
        ) by {
            lemma_all_rows_push(start, part, w);
        }
    }

    /// `min(content rows, limit)` at width `w`.
    fn content_row_count(&self, w: usize, limit: usize) -> (r: usize)
        requires
            w >= 1,
        ensures
            r == min(all_rows(self.parts@, w as int).len() as int, limit as int),
    {
        let mut count: usize = 0;
        let mut i: usize = 0;
        assert(self.parts@.take(0) =~= Seq::<LazyPart>::empty());
        while i < self.parts.len() && count < limit
            invariant
                w >= 1,
                i <= self.parts@.len(),
                count <= limit,
                count < limit ==> count == all_rows(self.parts@.take(i as int), w as int).len(),
                count == limit ==> all_rows(self.parts@.take(i as int), w as int).len() >= limit,
            decreases self.parts@.len() - i,
        {
            let ghost prev = self.parts@.take(i as int);
            assert(self.parts@.take(i + 1).drop_last() =~= prev);
            let room = limit - count;
            let n = match &self.parts[i] {
                LazyPart::Lines(rows) => if rows.len() < room {
                    rows.len()
                } else {
                    room
                },
                LazyPart::Text { chars, indent } => {
                    let indent_len = crate::wrap::chars_of(indent.as_str()).len();
                    body_rows_count(chars, indent_len, w, room)
                },
            };
            assert(n == min(part_rows(self.parts@[i as int], w as int).len() as int, room as int));
            count = count + n;
            i = i + 1;
        }
        proof {
            if count < limit {
                assert(self.parts@.take(i as int) =~= self.parts@);
            } else {
                lemma_all_rows_prefix_len(self.parts@, i as int, w as int);
            }
        }
        count
    }

    /// The first `limit` content rows at width `w`.
    fn content_prefix(&self, w: usize, limit: usize) -> (r: Vec<TranscriptRow>)
        requires
            w >= 1,
        ensures
            rows_view(r@) == prefix(all_rows(self.parts@, w as int), limit as int),
    {
        let mut out: Vec<TranscriptRow> = Vec::new();
        let mut i: usize = 0;
        assert(self.parts@.take(0) =~= Seq::<LazyPart>::empty());
        while i < self.parts.len() && out.len() < limit
            invariant
                w >= 1,
                i <= self.parts@.len(),
                out@.len() <= limit,
                rows_view(out@) == prefix(
                    all_rows(self.parts@.take(i as int), w as int),
                    limit as int,
                ),
            decreases self.parts@.len() - i,
        {
            let ghost prev = self.parts@.take(i as int);
            let ghost prev_rows = all_rows(prev, w as int);
            let ghost pr = part_rows(self.parts@[i as int], w as int);
            assert(self.parts@.take(i + 1).drop_last() =~= prev);
            assert(all_rows(self.parts@.take(i + 1), w as int) == prev_rows + pr);
            let room = limit - out.len();
            assert(prev_rows.len() == out@.len()) by {
                if prev_rows.len() > limit {
                    assert(prefix(prev_rows, limit as int).len() == limit);
                }
            }
            let mut rows = match &self.parts[i] {
                LazyPart::Lines(rows) => {
                    let mut taken: Vec<TranscriptRow> = Vec::new();
                    let mut k: usize = 0;
                    while k < rows.len() && k < room
                        invariant
                            k <= rows@.len(),
                            k <= room,
                            taken@.len() == k,
                            forall|j: int|
                                0 <= j < k ==> #[trigger] taken@[j] == rows@[j],
                        decreases rows@.len() - k,
                    {
                        taken.push(rows[k].duplicate());
                        k = k + 1;
                    }
                    assert(rows_view(taken@) =~= prefix(rows_view(rows@), room as int));
                    taken
                },
                LazyPart::Text { chars, indent } => body_rows_prefix(
                    chars,
                    indent.as_str(),
                    w,
                    room,
                ),
            };
            assert(rows_view(rows@) == prefix(pr, room as int));
            let ghost before = rows_view(out@);
            let ghost added = rows_view(rows@);
            out.append(&mut rows);
            assert(rows_view(out@) =~= before + added);
            proof {
                crate::wrap::lemma_prefix_concat(prev_rows, pr, limit as int);
            }
            i = i + 1;
        }
        proof {
            if out@.len() < limit {
                assert(self.parts@.take(i as int) =~= self.parts@);
            } else {
                lemma_all_rows_prefix_stable(self.parts@, i as int, w as int, limit as int);
            }
        }
        out
    }

    /// Number of rows shown at `width`.
    pub fn row_count(&self, width: u16) -> (r: usize)
        ensures
            r == self.shown(width).len(),
            r <= TRANSCRIPT_MAX_ROWS,
    {
        let w: usize = if width == 0 {
            1
        } else {
            width as usize
        };
        let count = self.content_row_count(w, TRANSCRIPT_CONTENT_MAX_ROWS + 1);
        proof {
            lemma_marker_rows_len(w as int);
        }
        if count > TRANSCRIPT_CONTENT_MAX_ROWS {
            let marker = marker_rows_exec(w);
            TRANSCRIPT_CONTENT_MAX_ROWS + marker.len()
        } else {
            count
        }
    }

    /// Rows `start_row .. start_row + max_rows` of what is shown at `width`
    /// (clamped to the rows that exist): exactly the same slice of
    /// [`LazyTranscript::materialize`].
    pub fn lines_window(&self, width: u16, start_row: usize, max_rows: usize) -> (r: Vec<
        TranscriptRow,
    >)
        ensures
            rows_view(r@) == self.shown(width).subrange(
                min(start_row as int, self.shown(width).len() as int),
                min(start_row + max_rows, self.shown(width).len() as int),
            ),
            r@.len() <= max_rows,
    {
        let w: usize = if width == 0 {
            1
        } else {
            width as usize
        };
        let ghost content = all_rows(self.parts@, w as int);
        let ghost shown = self.shown(width);
        let count = self.content_row_count(w, TRANSCRIPT_CONTENT_MAX_ROWS + 1);
        let truncated = count > TRANSCRIPT_CONTENT_MAX_ROWS;
        let content_rows = if truncated {
            TRANSCRIPT_CONTENT_MAX_ROWS
        } else {
            count
        };
        let end_row = if start_row > usize::MAX - max_rows {
            usize::MAX
        } else {
            start_row + max_rows
        };
        let mut out: Vec<TranscriptRow> = Vec::new();
        if max_rows == 0 {
            assert(rows_view(out@) =~= shown.subrange(
                min(start_row as int, shown.len() as int),
                min(start_row + max_rows, shown.len() as int),
            ));
            return out;
        }
        if start_row < content_rows {
            let upto = if end_row < content_rows {
                end_row
            } else {
                content_rows
            };
            let mut rows = self.content_prefix(w, upto);
            assert(prefix(content, upto as int).len() == upto);
            let tail = rows.split_off(start_row);
            out = tail;
            assert(rows_view(out@) =~= prefix(content, upto as int).subrange(
                start_row as int,
                upto as int,
            ));
        }
        let ghost content_part = rows_view(out@);
        if truncated && out.len() < max_rows {
            let marker = marker_rows_exec(w);
            let marker_start = content_rows;
            let marker_end = marker_start + marker.len();
            let from = if start_row > marker_start {
                start_row
            } else {
                marker_start
            };
            let to = if end_row < marker_end {
                end_row
            } else {
                marker_end
            };
            if from < to {
                let mut k = from;
                assert(rows_view(marker@).subrange(from - marker_start, from - marker_start)
                    =~= Seq::<RowModel>::empty());
                assert(content_part + Seq::<RowModel>::empty() =~= content_part);
                while k < to
                    invariant
                        marker_start <= from <= k <= to <= marker_end,
                        marker_end == marker_start + marker@.len(),
                        rows_view(out@) == content_part + rows_view(marker@).subrange(
                            from - marker_start,
                            k - marker_start,
                        ),
                    decreases to - k,
                {
                    let ghost before = rows_view(out@);
                    out.push(marker[k - marker_start].duplicate());
                    assert(rows_view(out@) =~= before.push(marker@[k - marker_start]@));
                    assert(rows_view(marker@).subrange(from - marker_start, k + 1 - marker_start)
                        =~= rows_view(marker@).subrange(from - marker_start, k - marker_start).push(
                        marker@[k - marker_start]@,
                    ));
                    k = k + 1;
                }
            }
        }
        proof {
            lemma_marker_rows_len(w as int);
            let l = shown.len() as int;
            let s = min(start_row as int, l);
            let e = min(start_row + max_rows, l);
            if truncated {
                assert(shown =~= content.take(TRANSCRIPT_CONTENT_MAX_ROWS as int) + marker_rows(
                    w as int,
                ));
            } else {
                assert(shown == content);
            }
            assert(rows_view(out@) =~= shown.subrange(s, e));
        }
        out
    }

    /// Every row shown at `width`.
    pub fn materialize(&self, width: u16) -> (r: Vec<TranscriptRow>)
        ensures
            rows_view(r@) == self.shown(width),
    {
        let r = self.lines_window(width, 0, TRANSCRIPT_MAX_ROWS);
        proof {
            lemma_shown_len(self.parts@, effective_width(width));
            assert(self.shown(width).subrange(0, self.shown(width).len() as int) =~= self.shown(
                width,
            ));
        }
        r
    }
}

proof fn lemma_shown_len(parts: Seq<LazyPart>, w: int)
    ensures
        shown_rows(parts, w).len() <= TRANSCRIPT_MAX_ROWS,
{
    lemma_marker_rows_len(w);
}

proof fn lemma_all_rows_prefix_len(parts: Seq<LazyPart>, i: int, w: int)
    requires
        0 <= i <= parts.len(),
    ensures
        all_rows(parts.take(i), w).len() <= all_rows(parts, w).len(),
    decreases parts.len() - i,
{
    if i < parts.len() {
        lemma_all_rows_prefix_len(parts, i + 1, w);
        assert(parts.take(i + 1).drop_last() =~= parts.take(i));
    } else {
        assert(parts.take(i) =~= parts);
    }
}

proof fn lemma_all_rows_prefix_stable(parts: Seq<LazyPart>, i: int, w: int, limit: int)
    requires
        0 <= i <= parts.len(),
        all_rows(parts.take(i), w).len() >= limit,
        0 <= limit,
    ensures
        prefix(all_rows(parts.take(i), w), limit) == prefix(all_rows(parts, w), limit),
    decreases parts.len() - i,
{
    if i < parts.len() {
        let a = all_rows(parts.take(i), w);
        let b = all_rows(parts.take(i + 1), w);
        assert(parts.take(i + 1).drop_last() =~= parts.take(i));
        assert(b == a + part_rows(parts[i], w));
        assert(prefix(a, limit) =~= prefix(b, limit));
        lemma_all_rows_prefix_stable(parts, i + 1, w, limit);
    } else {
        assert(parts.take(i) =~= parts);
    }
}

} // verus!
