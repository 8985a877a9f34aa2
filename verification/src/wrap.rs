//! Rows of a transcript and the wrapping of source text into rows.
//!
//! A row holds at most `width` columns; every character takes one column.
//! Wrapping is greedy and breaks between words: the first row of a source
//! line starts with the initial indent, later rows with the subsequent
//! indent. Each row takes the rest of the line when it fits beside its indent;
//! otherwise it ends at the last space that still fits (the spaces there
//! start no row), or, for a word longer than the row, after as many
//! characters as fit (at least one). Indents are dropped when the width is
//! below three columns. An empty source line is one empty row.

use vstd::prelude::*;

use crate::text::push_char;

verus! {

broadcast use vstd::string::group_string_axioms;

/// How a row is emphasized when it is painted.
#[derive(Debug, Clone, Copy, PartialEq, Eq, Structural)]
pub enum RowStyle {
    Plain,
    Bold,
    Dim,
    BoldRed,
}

/// One painted row of a transcript.
#[derive(Debug, Clone, PartialEq, Eq)]
pub struct TranscriptRow {
    pub text: String,
    pub style: RowStyle,
}

impl TranscriptRow {
    /// A copy of this row.
    pub fn duplicate(&self) -> (r: Self)
        ensures
            r == *self,
    {
        TranscriptRow { text: self.text.clone(), style: self.style }
    }
}

pub struct RowModel {
    pub text: Seq<char>,
    pub style: RowStyle,
}

impl View for TranscriptRow {
    type V = RowModel;

    open spec fn view(&self) -> RowModel {
        RowModel { text: self.text@, style: self.style }
    }
}

pub open spec fn rows_view(v: Seq<TranscriptRow>) -> Seq<RowModel> {
    v.map_values(|r: TranscriptRow| r@)
}

pub open spec fn min(a: int, b: int) -> int {
    if a <= b {
        a
    } else {
        b
    }
}

/// The first `n` elements of `s`, or all of `s` when it is shorter.
pub open spec fn prefix<A>(s: Seq<A>, n: int) -> Seq<A> {
    if n >= s.len() {
        s
    } else if n <= 0 {
        Seq::empty()
    } else {
        s.take(n)
    }
}

/// The indent actually used at width `w`.
pub open spec fn effective_indent(w: int, indent: Seq<char>) -> Seq<char> {
    if w >= 3 {
        indent
    } else {
        Seq::empty()
    }
}

/// Characters of source text that fit on a row beside an indent of `k` columns.
pub open spec fn row_capacity(w: int, k: int) -> int {
    if w > k {
        w - k
    } else {
        1
    }
}

/// The last space among `t[lo + 1 ..= s]`, or `-1` when there is none.
pub open spec fn last_space(t: Seq<char>, lo: int, s: int) -> int
    decreases s - lo,
{
    if s <= lo {
        -1
    } else if 0 <= s < t.len() && t[s] == ' ' {
        s
    } else {
        last_space(t, lo, s - 1)
    }
}

/// The first position at or after `p` that is not a space.
pub open spec fn skip_spaces(t: Seq<char>, p: int) -> int
    decreases t.len() - p,
{
    if 0 <= p < t.len() && t[p] == ' ' {
        skip_spaces(t, p + 1)
    } else {
        p
    }
}

/// Where a row that starts at `pos` and holds `cap` characters ends: the end
/// of the line when the rest fits, else the last space that fits, else after
/// `cap` characters.
pub open spec fn row_end(t: Seq<char>, pos: int, cap: int) -> int {
    if t.len() - pos <= cap {
        t.len() as int
    } else {
        let ls = last_space(t, pos, pos + cap);
        if ls > pos {
            ls
        } else {
            pos + cap
        }
    }
}

pub proof fn lemma_last_space(t: Seq<char>, lo: int, s: int)
    ensures
        last_space(t, lo, s) == -1 || (lo < last_space(t, lo, s) <= s && 0 <= last_space(t, lo, s)
            < t.len() && t[last_space(t, lo, s)] == ' '),
        forall|j: int|
            last_space(t, lo, s) < j <= s && lo < j && 0 <= j < t.len() ==> t[j] != ' ',
    decreases s - lo,
{
    if s > lo && !(0 <= s < t.len() && t[s] == ' ') {
        lemma_last_space(t, lo, s - 1);
    }
}

pub proof fn lemma_skip_spaces(t: Seq<char>, p: int)
    requires
        0 <= p <= t.len(),
    ensures
        p <= skip_spaces(t, p) <= t.len(),
    decreases t.len() - p,
{
    if p < t.len() && t[p] == ' ' {
        lemma_skip_spaces(t, p + 1);
    }
}

pub proof fn lemma_row_end(t: Seq<char>, pos: int, cap: int)
    requires
        0 <= pos < t.len(),
        cap >= 1,
    ensures
        pos < row_end(t, pos, cap) <= t.len(),
        row_end(t, pos, cap) <= pos + cap,
{
    if t.len() - pos > cap {
        lemma_last_space(t, pos, pos + cap);
    }
}

/// Rows for `text[pos..]`; the first of them uses `first` as indent.
pub open spec fn wrap_from(
    text: Seq<char>,
    pos: int,
    first: Seq<char>,
    rest: Seq<char>,
    style: RowStyle,
    w: int,
) -> Seq<RowModel>
    decreases text.len() - pos,
{
    if pos < 0 || pos >= text.len() {
        Seq::empty()
    } else {
        let end = row_end(text, pos, row_capacity(w, first.len() as int));
        let next = skip_spaces(text, end);
        proof {
            lemma_row_end(text, pos, row_capacity(w, first.len() as int));
            lemma_skip_spaces(text, end);
        }
        seq![RowModel { text: first + text.subrange(pos, end), style }] + wrap_from(
            text,
            next,
            rest,
            rest,
            style,
            w,
        )
    }
}

/// Rows of one source line (which holds no line break) at width `w`.
pub open spec fn wrap_rows(
    text: Seq<char>,
    style: RowStyle,
    w: int,
    first: Seq<char>,
    rest: Seq<char>,
) -> Seq<RowModel> {
    if text.len() == 0 {
        seq![RowModel { text: Seq::empty(), style }]
    } else {
        wrap_from(text, 0, effective_indent(w, first), effective_indent(w, rest), style, w)
    }
}

pub proof fn lemma_wrap_from_len(
    text: Seq<char>,
    pos: int,
    first: Seq<char>,
    rest: Seq<char>,
    style: RowStyle,
    w: int,
)
    requires
        0 <= pos <= text.len(),
    ensures
        wrap_from(text, pos, first, rest, style, w).len() <= text.len() - pos,
        pos < text.len() ==> wrap_from(text, pos, first, rest, style, w).len() >= 1,
    decreases text.len() - pos,
{
    if pos < text.len() {
        let end = row_end(text, pos, row_capacity(w, first.len() as int));
        lemma_row_end(text, pos, row_capacity(w, first.len() as int));
        lemma_skip_spaces(text, end);
        lemma_wrap_from_len(text, skip_spaces(text, end), rest, rest, style, w);
    }
}

/// A source line always yields at least one row, and never more rows than it
/// has characters (or one, when it is empty).
pub proof fn lemma_wrap_rows_len(
    text: Seq<char>,
    style: RowStyle,
    w: int,
    first: Seq<char>,
    rest: Seq<char>,
)
    ensures
        1 <= wrap_rows(text, style, w, first, rest).len(),
        wrap_rows(text, style, w, first, rest).len() <= if text.len() == 0 {
            1
        } else {
            text.len() as int
        },
{
    if text.len() > 0 {
        lemma_wrap_from_len(
            text,
            0,
            effective_indent(w, first),
            effective_indent(w, rest),
            style,
            w,
        );
    }
}

pub proof fn lemma_prefix_concat<A>(a: Seq<A>, b: Seq<A>, n: int)
    requires
        a.len() <= n,
    ensures
        prefix(a + b, n) == a + prefix(b, n - a.len()),
{
    if n - a.len() >= b.len() {
    } else if n - a.len() <= 0 {
        assert(prefix(a + b, n) =~= a + prefix(b, n - a.len()));
    } else {
        assert(prefix(a + b, n) =~= a + prefix(b, n - a.len()));
    }
}

/// Builds the row `indent ++ chars[from..to]`.
pub fn make_row(indent: &str, chars: &Vec<char>, from: usize, to: usize, style: RowStyle) -> (r:
    TranscriptRow)
    requires
        from <= to <= chars@.len(),
    ensures
        r@ == (RowModel { text: indent@ + chars@.subrange(from as int, to as int), style }),
{
    let mut text = indent.to_string();
    let mut k = from;
    while k < to
        invariant
            from <= k <= to <= chars@.len(),
            text@ == indent@ + chars@.subrange(from as int, k as int),
        decreases to - k,
    {
        push_char(&mut text, chars[k]);
        assert(indent@ + chars@.subrange(from as int, k + 1) =~= (indent@ + chars@.subrange(
            from as int,
            k as int,
        )).push(chars@[k as int]));
        k = k + 1;
    }
    TranscriptRow { text, style }
}

pub fn str_char_len(s: &str) -> (r: usize)
    ensures
        r == s@.len(),
{
    let raw = s.as_bytes();
    let bytes = raw.len();
    proof {
        crate::text::lemma_encode_utf8_len(s@);
    }
    let mut n: usize = 0;
    for c in it: s.chars()
        invariant
            n == it.index(),
            it.seq() == s@,
            s@.len() <= bytes,
    {
        n = n + 1;
    }
    n
}

/// The characters of `s`.
pub fn chars_of(s: &str) -> (r: Vec<char>)
    ensures
        r@ == s@,
{
    let mut out: Vec<char> = Vec::new();
    for c in it: s.chars()
        invariant
            out@ == it.seq().take(it.index()),
            it.seq() == s@,
    {
        out.push(c);
        assert(it.seq().take(it.index() + 1) =~= it.seq().take(it.index()).push(c));
    }
    assert(s@.take(s@.len() as int) =~= s@);
    out
}

/// End of the row that starts at `pos` and holds `cap` characters, and the
/// start of the next row, in `chars[from..to]`.
fn row_bounds(chars: &Vec<char>, from: usize, to: usize, pos: usize, cap: usize) -> (r: (
    usize,
    usize,
))
    requires
        from <= pos < to <= chars@.len(),
        cap >= 1,
    ensures
        r.0 - from == row_end(chars@.subrange(from as int, to as int), pos - from, cap as int),
        r.1 - from == skip_spaces(chars@.subrange(from as int, to as int), r.0 - from),
        pos < r.0 <= r.1 <= to,
{
    let ghost t = chars@.subrange(from as int, to as int);
    let ghost p = pos - from;
    let end: usize = if to - pos <= cap {
        to
    } else {
        let mut s = pos + cap;
        while s > pos && chars[s] != ' '
            invariant
                from <= pos <= s <= pos + cap < to <= chars@.len(),
                t == chars@.subrange(from as int, to as int),
                p == pos - from,
                last_space(t, p, p + cap) == last_space(t, p, s - from),
            decreases s - pos,
        {
            s = s - 1;
        }
        if s > pos {
            s
        } else {
            pos + cap
        }
    };
    proof {
        lemma_row_end(t, p, cap as int);
    }
    let mut next = end;
    while next < to && chars[next] == ' '
        invariant
            from <= end <= next <= to <= chars@.len(),
            t == chars@.subrange(from as int, to as int),
            skip_spaces(t, end - from) == skip_spaces(t, next - from),
        decreases to - next,
    {
        next = next + 1;
    }
    (end, next)
}

/// The first `limit` rows of source line `chars[from..to]`.
pub fn wrap_source_rows(
    chars: &Vec<char>,
    from: usize,
    to: usize,
    style: RowStyle,
    width: usize,
    first: &str,
    rest: &str,
    limit: usize,
) -> (r: Vec<TranscriptRow>)
    requires
        from <= to <= chars@.len(),
        width >= 1,
    ensures
        rows_view(r@) == prefix(wrap_rows(
            chars@.subrange(from as int, to as int),
            style,
            width as int,
            first@,
            rest@,
        ),
        limit as int),
{
    let ghost text = chars@.subrange(from as int, to as int);
    let mut out: Vec<TranscriptRow> = Vec::new();
    if limit == 0 {
        assert(rows_view(out@) =~= Seq::<RowModel>::empty());
        return out;
    }
    if from == to {
        out.push(TranscriptRow { text: String::new(), style });
        assert(rows_view(out@) =~= seq![RowModel { text: Seq::empty(), style }]);
        return out;
    }
    let ghost f = effective_indent(width as int, first@);
    let ghost rs = effective_indent(width as int, rest@);
    let (fi, ri) = if width >= 3 {
        (first, rest)
    } else {
        ("", "")
    };
    proof {
        reveal_strlit("");
    }
    assert(f =~= fi@ && rs =~= ri@);
    let first_len = str_char_len(fi);
    let rest_len = str_char_len(ri);
    let ghost all = wrap_from(text, 0, f, rs, style, width as int);
    let mut pos = from;
    let mut at_first = true;
    while pos < to && out.len() < limit
        invariant
            from <= pos <= to <= chars@.len(),
            text == chars@.subrange(from as int, to as int),
            width >= 1,
            first_len == fi@.len(),
            rest_len == ri@.len(),
            f == fi@,
            rs == ri@,
            out@.len() <= limit,
            pos == from ==> at_first,
            all == rows_view(out@) + wrap_from(
                text,
                pos - from,
                if at_first {
                    f
                } else {
                    rs
                },
                rs,
                style,
                width as int,
            ),
        decreases to - pos,
    {
        let k = if at_first {
            first_len
        } else {
            rest_len
        };
        let cap = if width > k {
            width - k
        } else {
            1
        };
        let (end, next) = row_bounds(chars, from, to, pos, cap);
        let row = if at_first {
            make_row(fi, chars, pos, end, style)
        } else {
            make_row(ri, chars, pos, end, style)
        };
        proof {
            let ind = if at_first {
                f
            } else {
                rs
            };
            let p = pos - from;
            assert(text.subrange(p, end - from) =~= chars@.subrange(pos as int, end as int));
            assert(wrap_from(text, p, ind, rs, style, width as int) == seq![
                RowModel { text: ind + text.subrange(p, end - from), style },
            ] + wrap_from(text, next - from, rs, rs, style, width as int));
        }
        let ghost before = rows_view(out@);
        out.push(row);
        assert(rows_view(out@) =~= before.push(row@));
        assert(before + (seq![row@] + wrap_from(text, next - from, rs, rs, style, width as int))
            =~= before.push(row@) + wrap_from(text, next - from, rs, rs, style, width as int));
        pos = next;
        at_first = false;
    }
    proof {
        if out@.len() >= limit {
            lemma_prefix_concat(
                rows_view(out@),
                wrap_from(
                    text,
                    pos - from,
                    if at_first {
                        f
                    } else {
                        rs
                    },
                    rs,
                    style,
                    width as int,
                ),
                limit as int,
            );
            assert(rows_view(out@).len() == limit);
        } else {
            assert(pos == to);
        }
        assert(prefix(all, limit as int) =~= rows_view(out@));
    }
    out
}

/// `min(rows, limit)` for source line `chars[from..to]`, without building rows.
pub fn count_source_rows(
    chars: &Vec<char>,
    from: usize,
    to: usize,
    width: usize,
    first_len: usize,
    rest_len: usize,
    limit: usize,
) -> (r: usize)
    requires
        from <= to <= chars@.len(),
        width >= 1,
    ensures
        forall|first: Seq<char>, rest: Seq<char>, style: RowStyle|
            first.len() == first_len && rest.len() == rest_len ==> r == min(
                #[trigger] wrap_rows(
                    chars@.subrange(from as int, to as int),
                    style,
                    width as int,
                    first,
                    rest,
                ).len() as int,
                limit as int,
            ),
{
    if limit == 0 {
        return 0;
    }
    if from == to {
        return 1;
    }
    let (fl, rl) = if width >= 3 {
        (first_len, rest_len)
    } else {
        (0, 0)
    };
    let ghost text = chars@.subrange(from as int, to as int);
    let mut count: usize = 0;
    let mut pos = from;
    let mut at_first = true;
    while pos < to && count < limit
        invariant
            from <= pos <= to <= chars@.len(),
            text == chars@.subrange(from as int, to as int),
            width >= 1,
            count <= limit,
            pos == from ==> at_first,
            forall|f: Seq<char>, rs: Seq<char>, style: RowStyle|
                f.len() == fl && rs.len() == rl ==> #[trigger] wrap_from(
                    text,
                    0,
                    f,
                    rs,
                    style,
                    width as int,
                ).len() == count + wrap_from(
                    text,
                    pos - from,
                    if at_first {
                        f
                    } else {
                        rs
                    },
                    rs,
                    style,
                    width as int,
                ).len(),
        decreases to - pos,
    {
        let k = if at_first {
            fl
        } else {
            rl
        };
        let cap = if width > k {
            width - k
        } else {
            1
        };
        let (end, next) = row_bounds(chars, from, to, pos, cap);
        assert forall|f: Seq<char>, rs: Seq<char>, style: RowStyle|
            f.len() == fl && rs.len() == rl implies #[trigger] wrap_from(
            text,
            0,
            f,
            rs,
            style,
            width as int,
        ).len() == (count + 1) + wrap_from(text, next - from, rs, rs, style, width as int).len() by {
            let ind = if at_first {
                f
            } else {
                rs
            };
            let p = pos - from;
            assert(wrap_from(text, p, ind, rs, style, width as int) == seq![
                RowModel { text: ind + text.subrange(p, end - from), style },
            ] + wrap_from(text, next - from, rs, rs, style, width as int));
        }
        count = count + 1;
        pos = next;
        at_first = false;
    }
    assert forall|first: Seq<char>, rest: Seq<char>, style: RowStyle|
        first.len() == first_len && rest.len() == rest_len implies count == min(
        #[trigger] wrap_rows(text, style, width as int, first, rest).len() as int,
        limit as int,
    ) by {
        let f = effective_indent(width as int, first);
        let rs = effective_indent(width as int, rest);
        assert(f.len() == fl && rs.len() == rl);
        if count < limit {
            assert(pos == to);
        }
        lemma_wrap_from_len(
            text,
            pos - from,
            if at_first {
                f
            } else {
                rs
            },
            rs,
            style,
            width as int,
        );
    }
    count
}

/// Index of the first line break at or after `pos`, or the length of `t`.
pub open spec fn line_end(t: Seq<char>, pos: int) -> int
    decreases t.len() - pos,
{
    if pos < 0 || pos >= t.len() {
        t.len() as int
    } else if t[pos] == '\n' {
        pos
    } else {
        line_end(t, pos + 1)
    }
}

pub proof fn lemma_line_end(t: Seq<char>, pos: int)
    requires
        0 <= pos <= t.len(),
    ensures
        pos <= line_end(t, pos) <= t.len(),
        line_end(t, pos) < t.len() ==> t[line_end(t, pos)] == '\n',
        forall|j: int| pos <= j < line_end(t, pos) ==> t[j] != '\n',
    decreases t.len() - pos,
{
    if pos < t.len() && t[pos] != '\n' {
        lemma_line_end(t, pos + 1);
    }
}

/// Rows of the source lines of `t` starting at `pos`, each line wrapped under
/// `indent`; the text is split at every line break.
pub open spec fn body_rows_from(t: Seq<char>, pos: int, indent: Seq<char>, w: int) -> Seq<RowModel>
    decreases t.len() - pos,
{
    if pos < 0 || pos > t.len() {
        Seq::empty()
    } else {
        let e = line_end(t, pos);
        let rows = wrap_rows(t.subrange(pos, e), RowStyle::Plain, w, indent, indent);
        if e >= t.len() {
            rows
        } else {
            proof {
                lemma_line_end(t, pos);
            }
            rows + body_rows_from(t, e + 1, indent, w)
        }
    }
}

/// Rows of a text body: every source line (split at line breaks) wrapped under `indent`.
pub open spec fn body_rows(t: Seq<char>, indent: Seq<char>, w: int) -> Seq<RowModel> {
    body_rows_from(t, 0, indent, w)
}

pub proof fn lemma_prefix_full<A>(a: Seq<A>, b: Seq<A>)
    ensures
        prefix(a + b, a.len() as int) == a,
{
    assert(prefix(a + b, a.len() as int) =~= a);
}

pub fn find_line_end(chars: &Vec<char>, pos: usize) -> (r: usize)
    requires
        pos <= chars@.len(),
    ensures
        r == line_end(chars@, pos as int),
{
    let mut e = pos;
    while e < chars.len() && chars[e] != '\n'
        invariant
            pos <= e <= chars@.len(),
            line_end(chars@, pos as int) == line_end(chars@, e as int),
        decreases chars@.len() - e,
    {
        e = e + 1;
    }
    e
}

/// The first `limit` rows of the body `chars` wrapped under `indent`.
pub fn body_rows_prefix(chars: &Vec<char>, indent: &str, width: usize, limit: usize) -> (r: Vec<
    TranscriptRow,
>)
    requires
        width >= 1,
    ensures
        rows_view(r@) == prefix(body_rows(chars@, indent@, width as int), limit as int),
{
    let ghost t = chars@;
    let ghost total = body_rows(t, indent@, width as int);
    let mut out: Vec<TranscriptRow> = Vec::new();
    let mut pos: usize = 0;
    let mut done = false;
    assert(rows_view(out@) + body_rows_from(t, 0, indent@, width as int) =~= total);
    while !done && out.len() < limit
        invariant
            t == chars@,
            width >= 1,
            pos <= t.len(),
            out@.len() <= limit,
            prefix(total, limit as int) == prefix(
                rows_view(out@) + if done {
                    Seq::<RowModel>::empty()
                } else {
                    body_rows_from(t, pos as int, indent@, width as int)
                },
                limit as int,
            ),
        decreases t.len() - pos + if done {
            0int
        } else {
            1int
        },
    {
        let e = find_line_end(chars, pos);
        proof {
            lemma_line_end(t, pos as int);
        }
        let room = limit - out.len();
        let ghost line_rows = wrap_rows(
            t.subrange(pos as int, e as int),
            RowStyle::Plain,
            width as int,
            indent@,
            indent@,
        );
        let ghost rest = if e >= t.len() {
            Seq::<RowModel>::empty()
        } else {
            body_rows_from(t, e + 1, indent@, width as int)
        };
        assert(body_rows_from(t, pos as int, indent@, width as int) =~= line_rows + rest);
        let mut rows = wrap_source_rows(
            chars,
            pos,
            e,
            RowStyle::Plain,
            width,
            indent,
            indent,
            room,
        );
        let ghost before = rows_view(out@);
        let ghost added = rows_view(rows@);
        out.append(&mut rows);
        assert(rows_view(out@) =~= before + added);
        proof {
            let x = before + (line_rows + rest);
            assert(x =~= before + line_rows + rest);
            if line_rows.len() <= room {
                assert(added =~= line_rows);
            } else {
                lemma_prefix_concat(before, line_rows + rest, limit as int);
                assert(prefix(line_rows + rest, room as int) =~= prefix(line_rows, room as int));
                lemma_prefix_full(before + added, rest);
                assert(prefix(before + added + rest, limit as int) =~= before + added);
                assert(prefix(x, limit as int) =~= before + added);
            }
        }
        if e >= chars.len() {
            done = true;
            assert(rows_view(out@) + Seq::<RowModel>::empty() =~= rows_view(out@));
        } else {
            pos = e + 1;
        }
    }
    proof {
        let rem = if done {
            Seq::<RowModel>::empty()
        } else {
            body_rows_from(t, pos as int, indent@, width as int)
        };
        if out@.len() >= limit {
            lemma_prefix_full(rows_view(out@), rem);
        } else {
            assert(rows_view(out@) + rem =~= rows_view(out@));
        }
    }
    out
}

/// `min(rows of the body, limit)`, without building rows.
pub fn body_rows_count(chars: &Vec<char>, indent_len: usize, width: usize, limit: usize) -> (r:
    usize)
    requires
        width >= 1,
    ensures
        forall|indent: Seq<char>|
            indent.len() == indent_len ==> r == min(
                #[trigger] body_rows(chars@, indent, width as int).len() as int,
                limit as int,
            ),
{
    let ghost t = chars@;
    let mut count: usize = 0;
    let mut pos: usize = 0;
    let mut done = false;
    while !done && count < limit
        invariant
            t == chars@,
            width >= 1,
            pos <= t.len(),
            count <= limit,
            forall|indent: Seq<char>|
                indent.len() == indent_len ==> #[trigger] body_rows(t, indent, width as int).len()
                    == count + if done {
                    0int
                } else {
                    body_rows_from(t, pos as int, indent, width as int).len() as int
                },
        decreases t.len() - pos + if done {
            0int
        } else {
            1int
        },
    {
        let e = find_line_end(chars, pos);
        proof {
            lemma_line_end(t, pos as int);
        }
        let room = limit - count;
        let n = count_source_rows(chars, pos, e, width, indent_len, indent_len, room);
        assert forall|indent: Seq<char>| indent.len() == indent_len implies #[trigger] body_rows(
            t,
            indent,
            width as int,
        ).len() == count + wrap_rows(
            t.subrange(pos as int, e as int),
            RowStyle::Plain,
            width as int,
            indent,
            indent,
        ).len() + if e >= t.len() {
            0int
        } else {
            body_rows_from(t, e + 1, indent, width as int).len() as int
        } by {
            assert(n == min(
                wrap_rows(
                    t.subrange(pos as int, e as int),
                    RowStyle::Plain,
                    width as int,
                    indent,
                    indent,
                ).len() as int,
                room as int,
            ));
        }
        if n >= room {
            count = limit;
            assert forall|indent: Seq<char>| indent.len() == indent_len implies count == min(
                #[trigger] body_rows(t, indent, width as int).len() as int,
                limit as int,
            ) by {
                assert(n == min(
                    wrap_rows(
                        t.subrange(pos as int, e as int),
                        RowStyle::Plain,
                        width as int,
                        indent,
                        indent,
                    ).len() as int,
                    room as int,
                ));
            }
            return count;
        }
        assert forall|indent: Seq<char>| indent.len() == indent_len implies n == wrap_rows(
            t.subrange(pos as int, e as int),
            RowStyle::Plain,
            width as int,
            indent,
            indent,
        ).len() by {
            assert(n == min(
                #[trigger] wrap_rows(
                    t.subrange(pos as int, e as int),
                    RowStyle::Plain,
                    width as int,
                    indent,
                    indent,
                ).len() as int,
                room as int,
            ));
        }
        count = count + n;
        if e >= chars.len() {
            done = true;
        } else {
            pos = e + 1;
        }
    }
    count
}

proof fn lemma_wrap_from_fit(
    text: Seq<char>,
    pos: int,
    first: Seq<char>,
    rest: Seq<char>,
    style: RowStyle,
    w: int,
)
    requires
        0 <= pos <= text.len(),
        first.len() < w,
        rest.len() < w,
    ensures
        forall|i: int|
            0 <= i < wrap_from(text, pos, first, rest, style, w).len() ==> (#[trigger] wrap_from(
                text,
                pos,
                first,
                rest,
                style,
                w,
            )[i]).text.len() <= w,
    decreases text.len() - pos,
{
    if pos < text.len() {
        let cap = row_capacity(w, first.len() as int);
        let end = row_end(text, pos, cap);
        lemma_row_end(text, pos, cap);
        lemma_skip_spaces(text, end);
        let next = skip_spaces(text, end);
        lemma_wrap_from_fit(text, next, rest, rest, style, w);
        let tail = wrap_from(text, next, rest, rest, style, w);
        let row = RowModel { text: first + text.subrange(pos, end), style };
        assert(wrap_from(text, pos, first, rest, style, w) == seq![row] + tail);
        assert forall|i: int|
            0 <= i < wrap_from(text, pos, first, rest, style, w).len() implies (#[trigger] wrap_from(
            text,
            pos,
            first,
            rest,
            style,
            w,
        )[i]).text.len() <= w by {
            if i > 0 {
                assert(wrap_from(text, pos, first, rest, style, w)[i] == tail[i - 1]);
            }
        }
    }
}

/// No wrapped row is wider than the width, as long as the indents are
/// narrower than it (indents are dropped below three columns).
pub proof fn lemma_rows_fit(
    text: Seq<char>,
    style: RowStyle,
    w: int,
    first: Seq<char>,
    rest: Seq<char>,
)
    requires
        w >= 1,
        w < 3 || (first.len() < w && rest.len() < w),
    ensures
        forall|i: int|
            0 <= i < wrap_rows(text, style, w, first, rest).len() ==> (#[trigger] wrap_rows(
                text,
                style,
                w,
                first,
                rest,
            )[i]).text.len() <= w,
{
    if text.len() > 0 {
        lemma_wrap_from_fit(
            text,
            0,
            effective_indent(w, first),
            effective_indent(w, rest),
            style,
            w,
        );
    }
}

/// No row of a wrapped body is wider than the width, as long as the indent
/// is narrower than it.
pub proof fn lemma_body_rows_fit(t: Seq<char>, pos: int, indent: Seq<char>, w: int)
    requires
        w >= 1,
        w < 3 || indent.len() < w,
        0 <= pos,
    ensures
        forall|i: int|
            0 <= i < body_rows_from(t, pos, indent, w).len() ==> (#[trigger] body_rows_from(
                t,
                pos,
                indent,
                w,
            )[i]).text.len() <= w,
    decreases t.len() - pos,
{
    if pos <= t.len() {
        let e = line_end(t, pos);
        lemma_line_end(t, pos);
        let rows = wrap_rows(t.subrange(pos, e), RowStyle::Plain, w, indent, indent);
        lemma_rows_fit(t.subrange(pos, e), RowStyle::Plain, w, indent, indent);
        if e < t.len() {
            lemma_body_rows_fit(t, e + 1, indent, w);
            let tail = body_rows_from(t, e + 1, indent, w);
            assert(body_rows_from(t, pos, indent, w) == rows + tail);
            assert forall|i: int|
                0 <= i < body_rows_from(t, pos, indent, w).len() implies (#[trigger] body_rows_from(
                t,
                pos,
                indent,
                w,
            )[i]).text.len() <= w by {
                if i >= rows.len() {
                    assert(body_rows_from(t, pos, indent, w)[i] == tail[i - rows.len()]);
                } else {
                    assert(body_rows_from(t, pos, indent, w)[i] == rows[i]);
                }
            }
        }
    }
}

/// Rows of the pieces of `t` between line breaks, from `pos` on: each piece
/// wrapped on its own under `first` and `rest`, with `style`.
pub open spec fn segment_rows_from(
    t: Seq<char>,
    pos: int,
    style: RowStyle,
    first: Seq<char>,
    rest: Seq<char>,
    w: int,
) -> Seq<RowModel>
    decreases t.len() - pos,
{
    if pos < 0 || pos > t.len() {
        Seq::empty()
    } else {
        let e = line_end(t, pos);
        let rows = wrap_rows(t.subrange(pos, e), style, w, first, rest);
        if e >= t.len() {
            rows
        } else {
            proof {
                lemma_line_end(t, pos);
            }
            rows + segment_rows_from(t, e + 1, style, first, rest, w)
        }
    }
}

/// The first `limit` rows of the pieces of `chars` between line breaks,
/// each wrapped under `first` and `rest`.
pub fn segment_rows_prefix(
    chars: &Vec<char>,
    style: RowStyle,
    first: &str,
    rest: &str,
    width: usize,
    limit: usize,
) -> (r: Vec<TranscriptRow>)
    requires
        width >= 1,
    ensures
        rows_view(r@) == prefix(
            segment_rows_from(chars@, 0, style, first@, rest@, width as int),
            limit as int,
        ),
{
    let ghost t = chars@;
    let ghost total = segment_rows_from(t, 0, style, first@, rest@, width as int);
    let mut out: Vec<TranscriptRow> = Vec::new();
    let mut pos: usize = 0;
    let mut done = false;
    assert(rows_view(out@) + total =~= total);
    while !done && out.len() < limit
        invariant
            t == chars@,
            width >= 1,
            pos <= t.len(),
            out@.len() <= limit,
            total == segment_rows_from(t, 0, style, first@, rest@, width as int),
            prefix(total, limit as int) == prefix(
                rows_view(out@) + if done {
                    Seq::<RowModel>::empty()
                } else {
                    segment_rows_from(t, pos as int, style, first@, rest@, width as int)
                },
                limit as int,
            ),
        decreases t.len() - pos + if done {
            0int
        } else {
            1int
        },
    {
        let e = find_line_end(chars, pos);
        proof {
            lemma_line_end(t, pos as int);
        }
        let room = limit - out.len();
        let ghost line_rows = wrap_rows(
            t.subrange(pos as int, e as int),
            style,
            width as int,
            first@,
            rest@,
        );
        let ghost tail = if e >= t.len() {
            Seq::<RowModel>::empty()
        } else {
            segment_rows_from(t, e + 1, style, first@, rest@, width as int)
        };
        assert(segment_rows_from(t, pos as int, style, first@, rest@, width as int) =~= line_rows
            + tail);
        let mut rows = wrap_source_rows(chars, pos, e, style, width, first, rest, room);
        let ghost before = rows_view(out@);
        let ghost added = rows_view(rows@);
        out.append(&mut rows);
        assert(rows_view(out@) =~= before + added);
        proof {
            let x = before + (line_rows + tail);
            assert(x =~= before + line_rows + tail);
            if line_rows.len() <= room {
                assert(added =~= line_rows);
            } else {
                lemma_prefix_concat(before, line_rows + tail, limit as int);
                assert(prefix(line_rows + tail, room as int) =~= prefix(line_rows, room as int));
                lemma_prefix_full(before + added, tail);
                assert(prefix(before + added + tail, limit as int) =~= before + added);
                assert(prefix(x, limit as int) =~= before + added);
            }
        }
        if e >= chars.len() {
            done = true;
            assert(rows_view(out@) + Seq::<RowModel>::empty() =~= rows_view(out@));
        } else {
            pos = e + 1;
        }
    }
    proof {
        let rem = if done {
            Seq::<RowModel>::empty()
        } else {
            segment_rows_from(t, pos as int, style, first@, rest@, width as int)
        };
        if out@.len() >= limit {
            lemma_prefix_full(rows_view(out@), rem);
        } else {
            assert(rows_view(out@) + rem =~= rows_view(out@));
        }
    }
    out
}

} // verus!
