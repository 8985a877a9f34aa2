//! An eager transcript: rows are wrapped as they are pushed, up to the
//! content budget. Rows past the budget are dropped and the finished
//! transcript ends with the row-limit notice instead.

use vstd::prelude::*;

use crate::lazy_transcript::all_rows;
use crate::lazy_transcript::capped;
use crate::lazy_transcript::marker_rows;
use crate::lazy_transcript::shown_rows;
use crate::lazy_transcript::LazyPart;
use crate::lazy_transcript::strip_trailing_newline;
use crate::lazy_transcript::TRANSCRIPT_CONTENT_MAX_ROWS;
use crate::lazy_transcript::TRANSCRIPT_ROW_LIMIT_MARKER;
use crate::wrap::body_rows;
use crate::wrap::body_rows_count;
use crate::wrap::body_rows_prefix;
use crate::wrap::chars_of;
use crate::wrap::count_source_rows;
use crate::wrap::lemma_prefix_concat;
use crate::wrap::prefix;
use crate::wrap::rows_view;
use crate::wrap::wrap_rows;
use crate::wrap::wrap_source_rows;
use crate::wrap::RowModel;
use crate::wrap::RowStyle;
use crate::wrap::TranscriptRow;

verus! {

broadcast use vstd::string::group_string_axioms;

/// What a builder holds: the kept rows, whether rows were dropped, and the width.
pub struct BuilderModel {
    pub rows: Seq<RowModel>,
    pub truncated: bool,
    pub width: int,
}

/// A builder model is well formed when it keeps at most the content budget
/// and only drops rows once the budget is full.
pub open spec fn builder_wf(m: BuilderModel) -> bool {
    &&& m.width >= 1
    &&& m.rows.len() <= TRANSCRIPT_CONTENT_MAX_ROWS
    &&& m.truncated ==> m.rows.len() == TRANSCRIPT_CONTENT_MAX_ROWS
}

/// The builder after `rows` are pushed: they are kept up to the budget, and
/// the builder is truncated once any row had to be dropped.
pub open spec fn appended(m: BuilderModel, rows: Seq<RowModel>) -> BuilderModel {
    BuilderModel {
        rows: prefix(m.rows + rows, TRANSCRIPT_CONTENT_MAX_ROWS as int),
        truncated: m.truncated || m.rows.len() + rows.len() > TRANSCRIPT_CONTENT_MAX_ROWS,
        width: m.width,
    }
}

/// A fresh builder for width `w`.
pub open spec fn fresh(w: int) -> BuilderModel {
    BuilderModel { rows: Seq::empty(), truncated: false, width: w }
}

/// The rows a finished builder shows.
pub open spec fn finished(m: BuilderModel) -> Seq<RowModel> {
    if m.truncated {
        m.rows + marker_rows(m.width)
    } else {
        m.rows
    }
}

/// The rows of a labelled block: the bold label, then every source line of
/// `content` (without one trailing line break) under a two-column indent;
/// an empty `content` adds no body.
pub open spec fn block_rows(label: Seq<char>, content: Seq<char>, w: int) -> Seq<RowModel> {
    wrap_rows(label, RowStyle::Bold, w, Seq::empty(), Seq::empty()) + if content.len() == 0 {
        Seq::<RowModel>::empty()
    } else {
        body_rows(strip_trailing_newline(content), "  "@, w)
    }
}

/// Rows of one source line under the two-column indent.
pub open spec fn source_line_rows(line: Seq<char>, w: int) -> Seq<RowModel> {
    wrap_rows(line, RowStyle::Plain, w, "  "@, "  "@)
}

/// Pushing keeps the model well formed.
pub proof fn lemma_appended_wf(m: BuilderModel, a: Seq<RowModel>)
    requires
        builder_wf(m),
    ensures
        builder_wf(appended(m, a)),
{
    let n = TRANSCRIPT_CONTENT_MAX_ROWS as int;
    if m.rows.len() + a.len() > n {
        assert(prefix(m.rows + a, n).len() == n);
    }
}

/// Pushing `a` and then `b` is pushing `a + b`.
pub proof fn lemma_appended_assoc(m: BuilderModel, a: Seq<RowModel>, b: Seq<RowModel>)
    requires
        builder_wf(m),
    ensures
        appended(appended(m, a), b) == appended(m, a + b),
{
    let n = TRANSCRIPT_CONTENT_MAX_ROWS as int;
    let x = m.rows + a;
    assert(m.rows + (a + b) =~= x + b);
    let p = prefix(x, n);
    if x.len() >= n {
        assert(p =~= x.take(n));
        if b.len() == 0 {
            assert(x + b =~= x);
        } else {
            assert(prefix(p + b, n) =~= prefix(x + b, n));
        }
    } else {
        assert(p == x);
    }
}

/// A fresh builder that is handed `rows` finishes with the rows cut at the
/// content budget, followed by the row-limit notice when they overflow it.
pub proof fn lemma_fresh_finished(w: int, rows: Seq<RowModel>)
    ensures
        finished(appended(fresh(w), rows)) == capped(rows, w),
{
    assert(Seq::<RowModel>::empty() + rows =~= rows);
}

/// Building eagerly shows what the lazy document shows: a fresh builder
/// handed the content rows of `parts` finishes with exactly the rows the
/// lazy document of `parts` shows at the same width.
pub proof fn lemma_builder_matches_lazy(parts: Seq<LazyPart>, w: int)
    ensures
        finished(appended(fresh(w), all_rows(parts, w))) == shown_rows(parts, w),
{
    lemma_fresh_finished(w, all_rows(parts, w));
}

/// Rows wrapped at a fixed width, cut at the content budget.
pub struct TranscriptBuilder {
    lines: Vec<TranscriptRow>,
    width: usize,
    truncated: bool,
}

impl View for TranscriptBuilder {
    type V = BuilderModel;

    closed spec fn view(&self) -> BuilderModel {
        BuilderModel { rows: rows_view(self.lines@), truncated: self.truncated, width: self.width as int }
    }
}

impl TranscriptBuilder {
    /// An empty builder for `width` columns (at least one).
    pub fn new(width: u16) -> (r: Self)
        ensures
            r@ == fresh(if width == 0 { 1 } else { width as int }),
            builder_wf(r@),
    {
        let w: usize = if width == 0 {
            1
        } else {
            width as usize
        };
        let r = TranscriptBuilder { lines: Vec::new(), width: w, truncated: false };
        assert(r@.rows =~= Seq::<RowModel>::empty());
        r
    }

    /// `true` once rows have been dropped.
    pub fn is_truncated(&self) -> (r: bool)
        ensures
            r == self@.truncated,
    {
        self.truncated
    }

    /// Rows that can still be kept.
    pub fn remaining_content_rows(&self) -> (r: usize)
        requires
            builder_wf(self@),
        ensures
            r == TRANSCRIPT_CONTENT_MAX_ROWS - self@.rows.len(),
    {
        TRANSCRIPT_CONTENT_MAX_ROWS - self.lines.len()
    }

    /// Appends `rows`, of which `total` would be pushed if nothing were cut:
    /// `rows` is their prefix that fits the budget.
    fn push_rows(&mut self, rows: Vec<TranscriptRow>, total: usize, Ghost(all): Ghost<Seq<RowModel>>)
        requires
            builder_wf(old(self)@),
            rows_view(rows@) == prefix(all, TRANSCRIPT_CONTENT_MAX_ROWS - old(self)@.rows.len()),
            total == if all.len() > TRANSCRIPT_CONTENT_MAX_ROWS - old(self)@.rows.len() {
                TRANSCRIPT_CONTENT_MAX_ROWS - old(self)@.rows.len() + 1
            } else {
                all.len() as int
            },
        ensures
            final(self)@ == appended(old(self)@, all),
            builder_wf(final(self)@),
    {
        let ghost m = self@;
        let room = TRANSCRIPT_CONTENT_MAX_ROWS - self.lines.len();
        let mut rows = rows;
        if total > room {
            self.truncated = true;
        }
        self.lines.append(&mut rows);
        proof {
            lemma_prefix_concat(m.rows, all, TRANSCRIPT_CONTENT_MAX_ROWS as int);
            assert(rows_view(self.lines@) =~= m.rows + prefix(all, room as int));
            lemma_appended_wf(m, all);
        }
    }

    /// Appends one row when the budget allows it.
    pub fn push(&mut self, row: TranscriptRow)
        requires
            builder_wf(old(self)@),
        ensures
            final(self)@ == appended(old(self)@, seq![row@]),
            builder_wf(final(self)@),
    {
        let ghost m = self@;
        if self.lines.len() < TRANSCRIPT_CONTENT_MAX_ROWS {
            self.lines.push(row);
            assert(rows_view(self.lines@) =~= m.rows + seq![row@]);
        } else {
            self.truncated = true;
            assert(prefix(m.rows + seq![row@], TRANSCRIPT_CONTENT_MAX_ROWS as int) =~= m.rows);
        }
    }

    /// Wraps `text` under the given indents and appends its rows.
    pub fn push_wrapped_line(
        &mut self,
        text: &str,
        style: RowStyle,
        initial_indent: &str,
        subsequent_indent: &str,
    )
        requires
            builder_wf(old(self)@),
        ensures
            final(self)@ == appended(
                old(self)@,
                wrap_rows(text@, style, old(self)@.width, initial_indent@, subsequent_indent@),
            ),
            builder_wf(final(self)@),
    {
        let ghost all = wrap_rows(text@, style, self.width as int, initial_indent@, subsequent_indent@);
        let chars = chars_of(text);
        let room = TRANSCRIPT_CONTENT_MAX_ROWS - self.lines.len();
        proof {
            assert(chars@.subrange(0, chars@.len() as int) =~= chars@);
        }
        let rows = wrap_source_rows(
            &chars,
            0,
            chars.len(),
            style,
            self.width,
            initial_indent,
            subsequent_indent,
            room,
        );
        let total = count_source_rows(
            &chars,
            0,
            chars.len(),
            self.width,
            initial_indent.unicode_len(),
            subsequent_indent.unicode_len(),
            room + 1,
        );
        assert(total == crate::wrap::min(all.len() as int, room + 1));
        self.push_rows(rows, total, Ghost(all));
    }

    /// Appends one source line under the two-column indent.
    pub fn push_indented_source_line(&mut self, source_line: &str)
        requires
            builder_wf(old(self)@),
        ensures
            final(self)@ == appended(old(self)@, source_line_rows(source_line@, old(self)@.width)),
            builder_wf(final(self)@),
    {
        self.push_wrapped_line(source_line, RowStyle::Plain, "  ", "  ");
    }

    /// Appends a bold `label` and, unless `content` is empty, its source
    /// lines (without one trailing line break) under a two-column indent.
    pub fn push_block(&mut self, label: &str, content: &str)
        requires
            builder_wf(old(self)@),
        ensures
            final(self)@ == appended(old(self)@, block_rows(label@, content@, old(self)@.width)),
            builder_wf(final(self)@),
    {
        let ghost m = self@;
        let ghost w = self.width as int;
        let ghost lrows = wrap_rows(label@, RowStyle::Bold, w, Seq::empty(), Seq::empty());
        proof {
            reveal_strlit("");
            assert(""@ =~= Seq::<char>::empty());
        }
        self.push_wrapped_line(label, RowStyle::Bold, "", "");
        if content.is_empty() {
            assert(lrows + Seq::<RowModel>::empty() =~= lrows);
            return;
        }
        let ghost mid = self@;
        self.push_source_lines(content);
        proof {
            lemma_appended_assoc(m, lrows, body_rows(strip_trailing_newline(content@), "  "@, w));
        }
    }

    /// Appends every source line of `content` (without one trailing line
    /// break) under the two-column indent; an empty `content` is one empty row.
    pub fn push_source_lines(&mut self, content: &str)
        requires
            builder_wf(old(self)@),
        ensures
            final(self)@ == appended(
                old(self)@,
                body_rows(strip_trailing_newline(content@), "  "@, old(self)@.width),
            ),
            builder_wf(final(self)@),
    {
        let mut chars = chars_of(content);
        let n = chars.len();
        if n > 0 && chars[n - 1] == '\n' {
            chars.pop();
        }
        assert(chars@ =~= strip_trailing_newline(content@));
        let ghost brows = body_rows(chars@, "  "@, self.width as int);
        let room = TRANSCRIPT_CONTENT_MAX_ROWS - self.lines.len();
        let rows = body_rows_prefix(&chars, "  ", self.width, room);
        proof {
            reveal_strlit("  ");
        }
        let total = body_rows_count(&chars, 2, self.width, room + 1);
        assert(total == crate::wrap::min(brows.len() as int, room + 1));
        self.push_rows(rows, total, Ghost(brows));
    }

    /// Records that rows were dropped, once the budget is full: the builder
    /// is then what pushing any non-empty run of rows would leave.
    pub(crate) fn mark_truncated(&mut self)
        requires
            builder_wf(old(self)@),
            old(self)@.rows.len() == TRANSCRIPT_CONTENT_MAX_ROWS,
        ensures
            forall|s: Seq<RowModel>| s.len() > 0 ==> final(self)@ == #[trigger] appended(old(self)@, s),
            builder_wf(final(self)@),
    {
        let ghost m = self@;
        self.truncated = true;
        assert forall|s: Seq<RowModel>| s.len() > 0 implies self@ == #[trigger] appended(m, s) by {
            assert(prefix(m.rows + s, TRANSCRIPT_CONTENT_MAX_ROWS as int) =~= m.rows);
        }
    }

    /// The kept rows, followed by the row-limit notice when rows were dropped.
    pub fn finish(self) -> (r: Vec<TranscriptRow>)
        requires
            builder_wf(self@),
        ensures
            rows_view(r@) == finished(self@),
    {
        let mut lines = self.lines;
        if self.truncated {
            let chars = chars_of(TRANSCRIPT_ROW_LIMIT_MARKER);
            proof {
                reveal_strlit("");
                assert(""@ =~= Seq::<char>::empty());
                assert(chars@.subrange(0, chars@.len() as int) =~= chars@);
            }
            let mut marker = wrap_source_rows(
                &chars,
                0,
                chars.len(),
                RowStyle::BoldRed,
                self.width,
                "",
                "",
                usize::MAX,
            );
            let ghost before = rows_view(lines@);
            proof {
                crate::wrap::lemma_wrap_rows_len(
                    TRANSCRIPT_ROW_LIMIT_MARKER@,
                    RowStyle::BoldRed,
                    self.width as int,
                    Seq::empty(),
                    Seq::empty(),
                );
            }
            lines.append(&mut marker);
            assert(rows_view(lines@) =~= before + marker_rows(self.width as int));
        }
        lines
    }
}

} // verus!
