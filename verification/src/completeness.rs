//! Detect whether a persisted tool payload already lost content upstream.
//!
//! Writers inject distinctive markers when they discard tool or exec output
//! before the payload reaches a session rollout. This module recognizes those
//! markers so viewers can show an honest completeness signal.
//!
//! Absence of a known marker means the *stored* text does not advertise
//! truncation. It does not prove the original tool output was smaller than
//! every possible limit, and it can false-positive when a payload merely quotes
//! one of these marker strings.
//!
//! All positions are byte offsets into the UTF-8 encoding of the scanned text.

use vstd::prelude::*;
use vstd::string::StringSliceAdditionalSpecFns;
use vstd::utf8::*;

use crate::text::lemma_encode_ascii_byte;
use crate::text::lemma_encode_utf8_concat;
use crate::text::lemma_encode_utf8_len;
use crate::text::push_char;

verus! {

broadcast use vstd::string::group_string_axioms;

/// Families of markers writers inject when discarding content.
#[derive(Debug, Clone, Copy, PartialEq, Eq, Structural)]
pub enum TruncationMarkerKind {
    /// `Warning: truncated output (original token count: N)`
    WarningTruncatedOutput,
    /// `…N tokens truncated…`
    TokensTruncated,
    /// `…N chars truncated…`
    CharsTruncated,
    /// Legacy `…N bytes truncated…` spelling that older sessions may contain.
    BytesTruncated,
    /// `... N bytes omitted ...` from the unified-exec head/tail buffer.
    BytesOmitted,
    /// `[omitted N text items ...]`
    OmittedTextItems,
    /// `[omitted N audio items ...]`
    OmittedAudioItems,
    /// Compaction replacement for oversized function outputs.
    ContextWindowTruncated,
    /// Realtime handoff marker `…output truncated…`.
    OutputTruncatedEllipsis,
}

/// One match of a known truncation marker inside persisted text.
#[derive(Debug, Clone, PartialEq, Eq)]
pub struct TruncationMarker {
    pub kind: TruncationMarkerKind,
    pub matched_text: String,
    pub byte_offset: usize,
    pub count: Option<u64>,
}

/// Whether a persisted tool result still contains everything that was written.
#[derive(Debug, Clone, PartialEq, Eq)]
pub enum Completeness {
    /// No known truncation marker was found in scannable text.
    Complete,
    /// At least one known truncation marker was found.
    Truncated { markers: Vec<TruncationMarker> },
    /// Completeness cannot be assessed (no persisted result).
    Unknown,
}

/// Mathematical picture of a marker: its family, the exact bytes it spans in
/// the scanned text, the byte offset where it starts and its parsed count.
pub struct MarkerModel {
    pub kind: TruncationMarkerKind,
    pub bytes: Seq<u8>,
    pub offset: int,
    pub count: Option<u64>,
}

impl View for TruncationMarker {
    type V = MarkerModel;

    open spec fn view(&self) -> MarkerModel {
        MarkerModel {
            kind: self.kind,
            bytes: encode_utf8(self.matched_text@),
            offset: self.byte_offset as int,
            count: self.count,
        }
    }
}

pub open spec fn markers_view(v: Seq<TruncationMarker>) -> Seq<MarkerModel> {
    v.map_values(|m: TruncationMarker| m@)
}

impl Completeness {
    /// `true` exactly for the `Truncated` variant.
    pub fn is_truncated(&self) -> (r: bool)
        ensures
            r == (self is Truncated),
    {
        match self {
            Completeness::Truncated { .. } => true,
            _ => false,
        }
    }
}

pub const WARNING_PREFIX: &'static str = "Warning: truncated output (original token count: ";
pub const WARNING_SUFFIX: &'static str = ")";
pub const ELLIPSIS: &'static str = "…";
pub const TOKENS_SUFFIX: &'static str = " tokens truncated…";
pub const CHARS_SUFFIX: &'static str = " chars truncated…";
pub const BYTES_TRUNCATED_SUFFIX: &'static str = " bytes truncated…";
pub const OMITTED_PREFIX: &'static str = "... ";
pub const OMITTED_SUFFIX: &'static str = " bytes omitted ...";
pub const ITEMS_PREFIX: &'static str = "[omitted ";
pub const TEXT_ITEMS_SUFFIX: &'static str = " text items ...]";
pub const AUDIO_ITEMS_SUFFIX: &'static str = " audio items ...]";
pub const CONTEXT_WINDOW_NEEDLE: &'static str = "Output exceeded the available model context and was truncated";
pub const OUTPUT_TRUNCATED_NEEDLE: &'static str = "…output truncated…";

/// `true` when `b[at..at + p.len()]` equals `p`.
pub open spec fn occurs_at(b: Seq<u8>, p: Seq<u8>, at: int) -> bool {
    0 <= at && at + p.len() <= b.len() && b.subrange(at, at + p.len()) == p
}

/// First occurrence of `p` in `b` that starts at or after `from`.
pub open spec fn find_from(b: Seq<u8>, p: Seq<u8>, from: int) -> Option<int>
    decreases b.len() - from,
{
    if from < 0 || from + p.len() > b.len() {
        None
    } else if p.len() == 0 || occurs_at(b, p, from) {
        Some(from)
    } else {
        find_from(b, p, from + 1)
    }
}

pub open spec fn is_ascii_digit(x: u8) -> bool {
    48 <= x <= 57
}

/// Number of consecutive ASCII digits in `b` starting at `from`.
pub open spec fn digit_run(b: Seq<u8>, from: int) -> nat
    decreases b.len() - from,
{
    if 0 <= from < b.len() && is_ascii_digit(b[from]) {
        1 + digit_run(b, from + 1)
    } else {
        0
    }
}

/// Decimal value of a sequence of ASCII digits.
pub open spec fn digits_value(d: Seq<u8>) -> nat
    decreases d.len(),
{
    if d.len() == 0 {
        0
    } else {
        digits_value(d.drop_last()) * 10 + (d.last() - 48) as nat
    }
}

pub proof fn lemma_find_from_bounds(b: Seq<u8>, p: Seq<u8>, from: int)
    requires
        0 <= from,
        p.len() > 0,
    ensures
        find_from(b, p, from) matches Some(i) ==> from <= i && occurs_at(b, p, i),
        find_from(b, p, from) is None ==> forall|i: int|
            from <= i && #[trigger] occurs_at(b, p, i) ==> false,
    decreases b.len() - from,
{
    if from < 0 || from + p.len() > b.len() {
    } else if occurs_at(b, p, from) {
    } else {
        lemma_find_from_bounds(b, p, from + 1);
        assert forall|i: int| from <= i && #[trigger] occurs_at(b, p, i) implies find_from(
            b,
            p,
            from,
        ) is Some by {
            if i > from {
            }
        }
    }
}

pub proof fn lemma_digit_run_bounds(b: Seq<u8>, from: int)
    requires
        0 <= from,
    ensures
        from + digit_run(b, from) <= b.len() || digit_run(b, from) == 0,
        forall|j: int| from <= j < from + digit_run(b, from) ==> is_ascii_digit(#[trigger] b[j]),
        0 <= from + digit_run(b, from) < b.len() ==> !is_ascii_digit(b[from + digit_run(b, from)]),
    decreases b.len() - from,
{
    if 0 <= from < b.len() && is_ascii_digit(b[from]) {
        lemma_digit_run_bounds(b, from + 1);
    }
}

/// Markers of one counted family: `prefix`, a run of ASCII digits whose value
/// fits in `u64`, then `suffix`, scanned left to right from `from`. After a
/// match the scan resumes at its end; after a rejected candidate it resumes
/// just past that candidate's prefix.
pub open spec fn scan_counted(
    b: Seq<u8>,
    prefix: Seq<u8>,
    suffix: Seq<u8>,
    kind: TruncationMarkerKind,
    from: int,
) -> Seq<MarkerModel>
    decreases b.len() - from,
{
    if prefix.len() == 0 || from < 0 {
        Seq::empty()
    } else {
        match find_from(b, prefix, from) {
        None => Seq::empty(),
        Some(start) => {
            proof {
                lemma_find_from_bounds(b, prefix, from);
            }
            let after_prefix = start + prefix.len();
            let d = digit_run(b, after_prefix);
            let after_digits = after_prefix + d;
            let value = digits_value(b.subrange(after_prefix, after_digits));
            if d > 0 && value <= u64::MAX && occurs_at(b, suffix, after_digits) {
                let end = after_digits + suffix.len();
                proof {
                    lemma_digit_run_bounds(b, after_prefix);
                }
                seq![
                    MarkerModel {
                        kind,
                        bytes: b.subrange(start, end),
                        offset: start,
                        count: Some(value as u64),
                    },
                ] + scan_counted(b, prefix, suffix, kind, end)
            } else {
                scan_counted(b, prefix, suffix, kind, after_prefix)
            }
        },
        }
    }
}

/// Non-overlapping occurrences of a fixed `needle`, scanned left to right.
pub open spec fn scan_fixed(b: Seq<u8>, needle: Seq<u8>, kind: TruncationMarkerKind, from: int) -> Seq<
    MarkerModel,
>
    decreases b.len() - from,
{
    if needle.len() == 0 || from < 0 {
        Seq::empty()
    } else {
        match find_from(b, needle, from) {
        None => Seq::empty(),
        Some(start) => {
            proof {
                lemma_find_from_bounds(b, needle, from);
            }
            let end = start + needle.len();
            seq![MarkerModel { kind, bytes: needle, offset: start, count: None }] + scan_fixed(
                b,
                needle,
                kind,
                end,
            )
        },
        }
    }
}

/// All families, in the order they are scanned, before ordering by offset.
pub open spec fn family_markers(b: Seq<u8>) -> Seq<MarkerModel> {
    scan_counted(
        b,
        WARNING_PREFIX.spec_bytes(),
        WARNING_SUFFIX.spec_bytes(),
        TruncationMarkerKind::WarningTruncatedOutput,
        0,
    ) + scan_counted(
        b,
        ELLIPSIS.spec_bytes(),
        TOKENS_SUFFIX.spec_bytes(),
        TruncationMarkerKind::TokensTruncated,
        0,
    ) + scan_counted(
        b,
        ELLIPSIS.spec_bytes(),
        CHARS_SUFFIX.spec_bytes(),
        TruncationMarkerKind::CharsTruncated,
        0,
    ) + scan_counted(
        b,
        ELLIPSIS.spec_bytes(),
        BYTES_TRUNCATED_SUFFIX.spec_bytes(),
        TruncationMarkerKind::BytesTruncated,
        0,
    ) + scan_counted(
        b,
        OMITTED_PREFIX.spec_bytes(),
        OMITTED_SUFFIX.spec_bytes(),
        TruncationMarkerKind::BytesOmitted,
        0,
    ) + scan_counted(
        b,
        ITEMS_PREFIX.spec_bytes(),
        TEXT_ITEMS_SUFFIX.spec_bytes(),
        TruncationMarkerKind::OmittedTextItems,
        0,
    ) + scan_counted(
        b,
        ITEMS_PREFIX.spec_bytes(),
        AUDIO_ITEMS_SUFFIX.spec_bytes(),
        TruncationMarkerKind::OmittedAudioItems,
        0,
    ) + scan_fixed(
        b,
        CONTEXT_WINDOW_NEEDLE.spec_bytes(),
        TruncationMarkerKind::ContextWindowTruncated,
        0,
    ) + scan_fixed(
        b,
        OUTPUT_TRUNCATED_NEEDLE.spec_bytes(),
        TruncationMarkerKind::OutputTruncatedEllipsis,
        0,
    )
}

/// Inserts `x` after every element whose offset is not larger than its own
/// (the step of a stable insertion sort by offset).
pub open spec fn insert_by_offset(s: Seq<MarkerModel>, x: MarkerModel) -> Seq<MarkerModel>
    decreases s.len(),
{
    if s.len() == 0 {
        seq![x]
    } else if s.last().offset <= x.offset {
        s.push(x)
    } else {
        insert_by_offset(s.drop_last(), x).push(s.last())
    }
}

/// Stable sort by byte offset.
pub open spec fn sort_by_offset(s: Seq<MarkerModel>) -> Seq<MarkerModel>
    decreases s.len(),
{
    if s.len() == 0 {
        Seq::empty()
    } else {
        insert_by_offset(sort_by_offset(s.drop_last()), s.last())
    }
}

/// The markers of `b`: every family's markers, stably ordered by byte offset.
#[verifier::opaque]
pub open spec fn spec_detect(b: Seq<u8>) -> Seq<MarkerModel> {
    sort_by_offset(family_markers(b))
}

/// Offsets never decrease along the sequence.
pub open spec fn offsets_sorted(s: Seq<MarkerModel>) -> bool {
    forall|i: int, j: int| 0 <= i <= j < s.len() ==> #[trigger] s[i].offset <= #[trigger] s[j].offset
}


/// The marker really occurs in `b`: its bytes are the bytes of `b` at its offset.
pub open spec fn marker_occurs_in(b: Seq<u8>, m: MarkerModel) -> bool {
    0 <= m.offset && m.offset + m.bytes.len() <= b.len() && b.subrange(
        m.offset,
        m.offset + m.bytes.len(),
    ) == m.bytes
}

pub open spec fn all_occur_in(b: Seq<u8>, s: Seq<MarkerModel>) -> bool {
    forall|i: int| 0 <= i < s.len() ==> marker_occurs_in(b, #[trigger] s[i])
}

proof fn lemma_scan_counted_sound(
    b: Seq<u8>,
    prefix: Seq<u8>,
    suffix: Seq<u8>,
    kind: TruncationMarkerKind,
    from: int,
)
    ensures
        all_occur_in(b, scan_counted(b, prefix, suffix, kind, from)),
    decreases b.len() - from,
{
    if prefix.len() == 0 || from < 0 {
    } else {
        lemma_find_from_bounds(b, prefix, from);
        match find_from(b, prefix, from) {
            None => {},
            Some(start) => {
                let after_prefix = start + prefix.len();
                let d = digit_run(b, after_prefix);
                let after_digits = after_prefix + d;
                let value = digits_value(b.subrange(after_prefix, after_digits));
                lemma_digit_run_bounds(b, after_prefix);
                if d > 0 && value <= u64::MAX && occurs_at(b, suffix, after_digits) {
                    let end = after_digits + suffix.len();
                    lemma_scan_counted_sound(b, prefix, suffix, kind, end);
                    let rest = scan_counted(b, prefix, suffix, kind, end);
                    let m = MarkerModel {
                        kind,
                        bytes: b.subrange(start, end),
                        offset: start,
                        count: Some(value as u64),
                    };
                    assert(marker_occurs_in(b, m));
                    assert forall|i: int| 0 <= i < 1 + rest.len() implies marker_occurs_in(
                        b,
                        #[trigger] (seq![m] + rest)[i],
                    ) by {
                        if i > 0 {
                            assert((seq![m] + rest)[i] == rest[i - 1]);
                        }
                    }
                } else {
                    lemma_scan_counted_sound(b, prefix, suffix, kind, after_prefix);
                }
            },
        }
    }
}

proof fn lemma_scan_fixed_sound(b: Seq<u8>, needle: Seq<u8>, kind: TruncationMarkerKind, from: int)
    ensures
        all_occur_in(b, scan_fixed(b, needle, kind, from)),
    decreases b.len() - from,
{
    if needle.len() == 0 || from < 0 {
    } else {
        lemma_find_from_bounds(b, needle, from);
        match find_from(b, needle, from) {
            None => {},
            Some(start) => {
                let end = start + needle.len();
                lemma_scan_fixed_sound(b, needle, kind, end);
                let rest = scan_fixed(b, needle, kind, end);
                let m = MarkerModel { kind, bytes: needle, offset: start, count: None };
                assert(marker_occurs_in(b, m));
                assert forall|i: int| 0 <= i < 1 + rest.len() implies marker_occurs_in(
                    b,
                    #[trigger] (seq![m] + rest)[i],
                ) by {
                    if i > 0 {
                        assert((seq![m] + rest)[i] == rest[i - 1]);
                    }
                }
            },
        }
    }
}

proof fn lemma_all_occur_concat(b: Seq<u8>, s: Seq<MarkerModel>, t: Seq<MarkerModel>)
    requires
        all_occur_in(b, s),
        all_occur_in(b, t),
    ensures
        all_occur_in(b, s + t),
{
    assert forall|i: int| 0 <= i < (s + t).len() implies marker_occurs_in(b, #[trigger] (s + t)[i]) by {
        if i < s.len() {
            assert((s + t)[i] == s[i]);
        } else {
            assert((s + t)[i] == t[i - s.len()]);
        }
    }
}

proof fn lemma_family_markers_sound(b: Seq<u8>)
    ensures
        all_occur_in(b, family_markers(b)),
{
    let w = WARNING_PREFIX.spec_bytes();
    let e = ELLIPSIS.spec_bytes();
    let o = OMITTED_PREFIX.spec_bytes();
    let it = ITEMS_PREFIX.spec_bytes();
    let k = TruncationMarkerKind::WarningTruncatedOutput;
    let s1 = scan_counted(b, w, WARNING_SUFFIX.spec_bytes(), k, 0);
    let s2 = scan_counted(b, e, TOKENS_SUFFIX.spec_bytes(), TruncationMarkerKind::TokensTruncated, 0);
    let s3 = scan_counted(b, e, CHARS_SUFFIX.spec_bytes(), TruncationMarkerKind::CharsTruncated, 0);
    let s4 = scan_counted(
        b,
        e,
        BYTES_TRUNCATED_SUFFIX.spec_bytes(),
        TruncationMarkerKind::BytesTruncated,
        0,
    );
    let s5 = scan_counted(b, o, OMITTED_SUFFIX.spec_bytes(), TruncationMarkerKind::BytesOmitted, 0);
    let s6 = scan_counted(
        b,
        it,
        TEXT_ITEMS_SUFFIX.spec_bytes(),
        TruncationMarkerKind::OmittedTextItems,
        0,
    );
    let s7 = scan_counted(
        b,
        it,
        AUDIO_ITEMS_SUFFIX.spec_bytes(),
        TruncationMarkerKind::OmittedAudioItems,
        0,
    );
    let s8 = scan_fixed(
        b,
        CONTEXT_WINDOW_NEEDLE.spec_bytes(),
        TruncationMarkerKind::ContextWindowTruncated,
        0,
    );
    let s9 = scan_fixed(
        b,
        OUTPUT_TRUNCATED_NEEDLE.spec_bytes(),
        TruncationMarkerKind::OutputTruncatedEllipsis,
        0,
    );
    lemma_scan_counted_sound(b, w, WARNING_SUFFIX.spec_bytes(), k, 0);
    lemma_scan_counted_sound(b, e, TOKENS_SUFFIX.spec_bytes(), TruncationMarkerKind::TokensTruncated, 0);
    lemma_scan_counted_sound(b, e, CHARS_SUFFIX.spec_bytes(), TruncationMarkerKind::CharsTruncated, 0);
    lemma_scan_counted_sound(
        b,
        e,
        BYTES_TRUNCATED_SUFFIX.spec_bytes(),
        TruncationMarkerKind::BytesTruncated,
        0,
    );
    lemma_scan_counted_sound(b, o, OMITTED_SUFFIX.spec_bytes(), TruncationMarkerKind::BytesOmitted, 0);
    lemma_scan_counted_sound(
        b,
        it,
        TEXT_ITEMS_SUFFIX.spec_bytes(),
        TruncationMarkerKind::OmittedTextItems,
        0,
    );
    lemma_scan_counted_sound(
        b,
        it,
        AUDIO_ITEMS_SUFFIX.spec_bytes(),
        TruncationMarkerKind::OmittedAudioItems,
        0,
    );
    lemma_scan_fixed_sound(
        b,
        CONTEXT_WINDOW_NEEDLE.spec_bytes(),
        TruncationMarkerKind::ContextWindowTruncated,
        0,
    );
    lemma_scan_fixed_sound(
        b,
        OUTPUT_TRUNCATED_NEEDLE.spec_bytes(),
        TruncationMarkerKind::OutputTruncatedEllipsis,
        0,
    );
    lemma_all_occur_concat(b, s1, s2);
    lemma_all_occur_concat(b, s1 + s2, s3);
    lemma_all_occur_concat(b, s1 + s2 + s3, s4);
    lemma_all_occur_concat(b, s1 + s2 + s3 + s4, s5);
    lemma_all_occur_concat(b, s1 + s2 + s3 + s4 + s5, s6);
    lemma_all_occur_concat(b, s1 + s2 + s3 + s4 + s5 + s6, s7);
    lemma_all_occur_concat(b, s1 + s2 + s3 + s4 + s5 + s6 + s7, s8);
    lemma_all_occur_concat(b, s1 + s2 + s3 + s4 + s5 + s6 + s7 + s8, s9);
}

proof fn lemma_insert_by_offset_multiset(s: Seq<MarkerModel>, x: MarkerModel)
    ensures
        insert_by_offset(s, x).to_multiset() == s.to_multiset().insert(x),
    decreases s.len(),
{
    broadcast use vstd::seq_lib::to_multiset_build;
    broadcast use vstd::multiset::group_multiset_axioms;

    if s.len() == 0 {
        assert(seq![x] =~= s.push(x));
    } else if s.last().offset <= x.offset {
    } else {
        lemma_insert_by_offset_multiset(s.drop_last(), x);
        assert(s.drop_last().push(s.last()) =~= s);
        assert(insert_by_offset(s, x).to_multiset() =~= s.to_multiset().insert(x));
    }
}

proof fn lemma_insert_by_offset_bounded(s: Seq<MarkerModel>, x: MarkerModel, bound: int)
    requires
        forall|i: int| 0 <= i < s.len() ==> #[trigger] s[i].offset <= bound,
        x.offset <= bound,
    ensures
        forall|i: int|
            0 <= i < insert_by_offset(s, x).len() ==> #[trigger] insert_by_offset(s, x)[i].offset
                <= bound,
        insert_by_offset(s, x).len() == s.len() + 1,
    decreases s.len(),
{
    if s.len() == 0 {
    } else if s.last().offset <= x.offset {
    } else {
        lemma_insert_by_offset_bounded(s.drop_last(), x, bound);
    }
}

proof fn lemma_insert_by_offset_sorted(s: Seq<MarkerModel>, x: MarkerModel)
    requires
        offsets_sorted(s),
    ensures
        offsets_sorted(insert_by_offset(s, x)),
    decreases s.len(),
{
    if s.len() == 0 {
    } else if s.last().offset <= x.offset {
        let r = s.push(x);
        assert forall|i: int, j: int| 0 <= i <= j < r.len() implies #[trigger] r[i].offset
            <= #[trigger] r[j].offset by {
            if j == s.len() {
                if i < s.len() {
                    assert(s[i].offset <= s[s.len() - 1].offset);
                }
            }
        }
    } else {
        let t = s.drop_last();
        assert(offsets_sorted(t)) by {
            assert forall|i: int, j: int| 0 <= i <= j < t.len() implies #[trigger] t[i].offset
                <= #[trigger] t[j].offset by {
                assert(t[i] == s[i] && t[j] == s[j]);
            }
        }
        lemma_insert_by_offset_sorted(t, x);
        assert forall|i: int| 0 <= i < t.len() implies #[trigger] t[i].offset <= s.last().offset by {
            assert(t[i] == s[i]);
        }
        lemma_insert_by_offset_bounded(t, x, s.last().offset);
        let r0 = insert_by_offset(t, x);
        let r = r0.push(s.last());
        assert forall|i: int, j: int| 0 <= i <= j < r.len() implies #[trigger] r[i].offset
            <= #[trigger] r[j].offset by {
            if j == r0.len() {
                if i < r0.len() {
                    assert(r[i] == r0[i]);
                }
            } else {
                assert(r[i] == r0[i] && r[j] == r0[j]);
            }
        }
    }
}

proof fn lemma_sort_by_offset(s: Seq<MarkerModel>)
    ensures
        offsets_sorted(sort_by_offset(s)),
        sort_by_offset(s).to_multiset() == s.to_multiset(),
    decreases s.len(),
{
    broadcast use vstd::seq_lib::to_multiset_build;

    if s.len() == 0 {
        assert(s =~= Seq::<MarkerModel>::empty());
    } else {
        lemma_sort_by_offset(s.drop_last());
        lemma_insert_by_offset_sorted(sort_by_offset(s.drop_last()), s.last());
        lemma_insert_by_offset_multiset(sort_by_offset(s.drop_last()), s.last());
        assert(s.drop_last().push(s.last()) =~= s);
    }
}

/// Detected markers come out ordered by byte offset, and ordering neither
/// drops nor invents a marker: as a multiset they are exactly the markers the
/// individual families found.
pub proof fn lemma_detect_sorted_permutation(b: Seq<u8>)
    ensures
        offsets_sorted(spec_detect(b)),
        spec_detect(b).to_multiset() == family_markers(b).to_multiset(),
{
    reveal(spec_detect);
    lemma_sort_by_offset(family_markers(b));
}

/// Every detected marker really occurs in the scanned bytes: its matched bytes
/// are the bytes of the text at its offset.
pub proof fn lemma_detect_sound(b: Seq<u8>)
    ensures
        all_occur_in(b, spec_detect(b)),
{
    broadcast use vstd::seq_lib::to_multiset_contains;

    reveal(spec_detect);
    lemma_family_markers_sound(b);
    lemma_sort_by_offset(family_markers(b));
    let d = spec_detect(b);
    let f = family_markers(b);
    assert forall|i: int| 0 <= i < d.len() implies marker_occurs_in(b, #[trigger] d[i]) by {
        assert(d.contains(d[i]));
        assert(d.to_multiset().count(d[i]) > 0);
        assert(f.contains(d[i]));
        let j = choose|j: int| 0 <= j < f.len() && f[j] == d[i];
        assert(marker_occurs_in(b, f[j]));
    }
}

fn matches_at(b: &[u8], p: &[u8], at: usize) -> (r: bool)
    requires
        at + p@.len() <= b@.len(),
    ensures
        r == occurs_at(b@, p@, at as int),
{
    let n = b.len();
    let mut k: usize = 0;
    while k < p.len()
        invariant
            n == b@.len(),
            at + p@.len() <= b@.len(),
            k <= p@.len(),
            forall|j: int| 0 <= j < k ==> b@[at + j] == p@[j],
        decreases p@.len() - k,
    {
        if b[at + k] != p[k] {
            assert(b@.subrange(at as int, at + p@.len())[k as int] != p@[k as int]);
            return false;
        }
        k = k + 1;
    }
    assert(b@.subrange(at as int, at + p@.len()) =~= p@);
    true
}

fn find_bytes(b: &[u8], p: &[u8], from: usize) -> (r: Option<usize>)
    requires
        from <= b@.len(),
        p@.len() > 0,
    ensures
        match r {
            None => find_from(b@, p@, from as int) is None,
            Some(i) => find_from(b@, p@, from as int) == Some(i as int),
        },
{
    let mut i = from;
    while i <= b.len() && p.len() <= b.len() - i
        invariant
            from <= i <= b@.len(),
            p@.len() > 0,
            find_from(b@, p@, from as int) == find_from(b@, p@, i as int),
        decreases b@.len() - i,
    {
        if matches_at(b, p, i) {
            return Some(i);
        }
        i = i + 1;
    }
    None
}

fn count_digits(b: &[u8], from: usize) -> (r: usize)
    requires
        from <= b@.len(),
    ensures
        r == digit_run(b@, from as int),
        from + r <= b@.len(),
{
    let mut j = from;
    while j < b.len() && 48 <= b[j] && b[j] <= 57
        invariant
            from <= j <= b@.len(),
            digit_run(b@, from as int) == (j - from) + digit_run(b@, j as int),
        decreases b@.len() - j,
    {
        j = j + 1;
    }
    j - from
}

proof fn lemma_digits_value_prefix(d: Seq<u8>, k: int)
    requires
        0 <= k <= d.len(),
    ensures
        digits_value(d.take(k)) <= digits_value(d),
    decreases d.len() - k,
{
    if k < d.len() {
        lemma_digits_value_prefix(d, k + 1);
        assert(d.take(k + 1).drop_last() =~= d.take(k));
    } else {
        assert(d.take(k) =~= d);
    }
}

/// Decimal value of the digits `b[from..to]`, or `None` when it exceeds `u64`.
fn parse_digits(b: &[u8], from: usize, to: usize) -> (r: Option<u64>)
    requires
        from <= to <= b@.len(),
        forall|j: int| from <= j < to ==> is_ascii_digit(#[trigger] b@[j]),
    ensures
        match r {
            Some(v) => v == digits_value(b@.subrange(from as int, to as int)),
            None => digits_value(b@.subrange(from as int, to as int)) > u64::MAX,
        },
{
    let ghost d = b@.subrange(from as int, to as int);
    let mut acc: u64 = 0;
    let mut j = from;
    assert(d.take(0) =~= Seq::<u8>::empty());
    while j < to
        invariant
            from <= j <= to <= b@.len(),
            d == b@.subrange(from as int, to as int),
            forall|k: int| from <= k < to ==> is_ascii_digit(#[trigger] b@[k]),
            acc == digits_value(d.take(j - from)),
        decreases to - j,
    {
        let digit = b[j] - 48;
        let next: u128 = (acc as u128) * 10 + (digit as u128);
        assert(d.take(j - from + 1).drop_last() =~= d.take(j - from));
        assert(d.take(j - from + 1).last() == b@[j as int]);
        if next > 0xffff_ffff_ffff_ffffu128 {
            proof {
                lemma_digits_value_prefix(d, j - from + 1);
            }
            return None;
        }
        acc = next as u64;
        j = j + 1;
    }
    assert(d.take(to - from) =~= d);
    Some(acc)
}

proof fn lemma_scan_counted_step(
    b: Seq<u8>,
    prefix: Seq<u8>,
    suffix: Seq<u8>,
    kind: TruncationMarkerKind,
    from: int,
)
    requires
        prefix.len() > 0,
        0 <= from,
    ensures
        scan_counted(b, prefix, suffix, kind, from) == match find_from(b, prefix, from) {
            None => Seq::<MarkerModel>::empty(),
            Some(start) => {
                let after_prefix = start + prefix.len();
                let d = digit_run(b, after_prefix);
                let after_digits = after_prefix + d;
                let value = digits_value(b.subrange(after_prefix, after_digits));
                if d > 0 && value <= u64::MAX && occurs_at(b, suffix, after_digits) {
                    let end = after_digits + suffix.len();
                    seq![
                        MarkerModel {
                            kind,
                            bytes: b.subrange(start, end),
                            offset: start,
                            count: Some(value as u64),
                        },
                    ] + scan_counted(b, prefix, suffix, kind, end)
                } else {
                    scan_counted(b, prefix, suffix, kind, after_prefix)
                }
            },
        },
{
}

/// Appends the markers of one counted family to `out`.
fn scan_counted_into(
    text: &str,
    prefix: &str,
    suffix: &str,
    kind: TruncationMarkerKind,
    out: &mut Vec<TruncationMarker>,
)
    requires
        prefix.spec_bytes().len() > 0,
    ensures
        markers_view(final(out)@) == markers_view(old(out)@) + scan_counted(
            text.spec_bytes(),
            prefix.spec_bytes(),
            suffix.spec_bytes(),
            kind,
            0,
        ),
{
    let b = text.as_bytes();
    let p = prefix.as_bytes();
    let s = suffix.as_bytes();
    let ghost start_view = markers_view(old(out)@);
    let mut search_from: usize = 0;
    while search_from <= b.len()
        invariant
            b@ == text.spec_bytes(),
            p@ == prefix.spec_bytes(),
            s@ == suffix.spec_bytes(),
            p@.len() > 0,
            search_from <= b@.len(),
            start_view == markers_view(old(out)@),
            markers_view(out@) + scan_counted(b@, p@, s@, kind, search_from as int) == start_view
                + scan_counted(b@, p@, s@, kind, 0),
        decreases b@.len() - search_from,
    {
        proof {
            lemma_scan_counted_step(b@, p@, s@, kind, search_from as int);
            lemma_find_from_bounds(b@, p@, search_from as int);
        }
        let found = find_bytes(b, p, search_from);
        match found {
            None => {
                assert(markers_view(out@) + Seq::<MarkerModel>::empty() =~= markers_view(out@));
                return;
            },
            Some(start) => {
                let after_prefix = start + p.len();
                let d = count_digits(b, after_prefix);
                proof {
                    lemma_digit_run_bounds(b@, after_prefix as int);
                }
                let after_digits = after_prefix + d;
                if d == 0 {
                    search_from = after_prefix;
                    continue;
                }
                let parsed = parse_digits(b, after_prefix, after_digits);
                match parsed {
                    None => {
                        search_from = after_prefix;
                        continue;
                    },
                    Some(count) => {
                        if after_digits <= b.len() && s.len() <= b.len() - after_digits
                            && matches_at(b, s, after_digits) {
                            let end = after_digits + s.len();
                            let mut matched = prefix.to_string();
                            let mut k = after_prefix;
                            proof {
                                assert(b@.subrange(start as int, after_prefix as int) =~= p@);
                            }
                            while k < after_digits
                                invariant
                                    start < after_prefix <= k <= after_digits <= b@.len(),
                                    forall|j: int|
                                        after_prefix <= j < after_digits ==> is_ascii_digit(
                                            #[trigger] b@[j],
                                        ),
                                    encode_utf8(matched@) == b@.subrange(start as int, k as int),
                                decreases after_digits - k,
                            {
                                let byte = b[k];
                                let c = byte as char;
                                proof {
                                    lemma_encode_ascii_byte(byte);
                                    lemma_encode_utf8_concat(matched@, seq![c]);
                                    assert(matched@.push(c) =~= matched@ + seq![c]);
                                    assert(b@.subrange(start as int, k + 1) =~= b@.subrange(
                                        start as int,
                                        k as int,
                                    ) + seq![byte]);
                                }
                                push_char(&mut matched, c);
                                k = k + 1;
                            }
                            let ghost before = matched@;
                            matched.append(suffix);
                            proof {
                                lemma_encode_utf8_concat(before, suffix@);
                                assert(b@.subrange(after_digits as int, end as int) =~= s@);
                                assert(b@.subrange(start as int, end as int) =~= b@.subrange(
                                    start as int,
                                    after_digits as int,
                                ) + b@.subrange(after_digits as int, end as int));
                            }
                            let marker = TruncationMarker {
                                kind,
                                matched_text: matched,
                                byte_offset: start,
                                count: Some(count),
                            };
                            let ghost old_out = out@;
                            out.push(marker);
                            proof {
                                assert(markers_view(out@) =~= markers_view(old_out) + seq![
                                    marker@,
                                ]);
                            }
                            search_from = end;
                        } else {
                            search_from = after_prefix;
                        }
                    },
                }
            },
        }
    }
    proof {
        lemma_find_from_bounds(b@, p@, search_from as int);
    }
}

proof fn lemma_scan_fixed_step(b: Seq<u8>, needle: Seq<u8>, kind: TruncationMarkerKind, from: int)
    requires
        needle.len() > 0,
        0 <= from,
    ensures
        scan_fixed(b, needle, kind, from) == match find_from(b, needle, from) {
            None => Seq::<MarkerModel>::empty(),
            Some(start) => seq![
                MarkerModel { kind, bytes: needle, offset: start, count: None },
            ] + scan_fixed(b, needle, kind, start + needle.len()),
        },
{
}

/// Appends every non-overlapping occurrence of `needle` to `out`.
fn scan_fixed_into(
    text: &str,
    needle: &str,
    kind: TruncationMarkerKind,
    out: &mut Vec<TruncationMarker>,
)
    requires
        needle.spec_bytes().len() > 0,
    ensures
        markers_view(final(out)@) == markers_view(old(out)@) + scan_fixed(
            text.spec_bytes(),
            needle.spec_bytes(),
            kind,
            0,
        ),
{
    let b = text.as_bytes();
    let p = needle.as_bytes();
    let ghost start_view = markers_view(old(out)@);
    let mut search_from: usize = 0;
    while search_from <= b.len()
        invariant
            b@ == text.spec_bytes(),
            p@ == needle.spec_bytes(),
            p@.len() > 0,
            search_from <= b@.len(),
            start_view == markers_view(old(out)@),
            markers_view(out@) + scan_fixed(b@, p@, kind, search_from as int) == start_view
                + scan_fixed(b@, p@, kind, 0),
        decreases b@.len() - search_from,
    {
        proof {
            lemma_scan_fixed_step(b@, p@, kind, search_from as int);
            lemma_find_from_bounds(b@, p@, search_from as int);
        }
        match find_bytes(b, p, search_from) {
            None => {
                assert(markers_view(out@) + Seq::<MarkerModel>::empty() =~= markers_view(out@));
                return;
            },
            Some(start) => {
                let end = start + p.len();
                let marker = TruncationMarker {
                    kind,
                    matched_text: needle.to_string(),
                    byte_offset: start,
                    count: None,
                };
                let ghost old_out = out@;
                out.push(marker);
                proof {
                    assert(markers_view(out@) =~= markers_view(old_out) + seq![marker@]);
                }
                search_from = end;
            },
        }
    }
    proof {
        lemma_find_from_bounds(b@, p@, search_from as int);
    }
}

proof fn lemma_insert_by_offset_at(s: Seq<MarkerModel>, x: MarkerModel, k: int)
    requires
        0 <= k <= s.len(),
        forall|j: int| k <= j < s.len() ==> #[trigger] s[j].offset > x.offset,
        k > 0 ==> s[k - 1].offset <= x.offset,
    ensures
        insert_by_offset(s, x) == s.insert(k, x),
    decreases s.len(),
{
    if s.len() == 0 {
        assert(s.insert(k, x) =~= seq![x]);
    } else if k == s.len() {
        assert(s.insert(k, x) =~= s.push(x));
    } else {
        lemma_insert_by_offset_at(s.drop_last(), x, k);
        assert(s.insert(k, x) =~= s.drop_last().insert(k, x).push(s.last()));
    }
}

fn insert_marker(v: &mut Vec<TruncationMarker>, m: TruncationMarker)
    ensures
        markers_view(final(v)@) == insert_by_offset(markers_view(old(v)@), m@),
{
    let mut k = v.len();
    while k > 0 && v[k - 1].byte_offset > m.byte_offset
        invariant
            k <= v@.len(),
            forall|j: int| k <= j < v@.len() ==> #[trigger] v@[j].byte_offset > m.byte_offset,
        decreases k,
    {
        k = k - 1;
    }
    let ghost before = v@;
    proof {
        lemma_insert_by_offset_at(markers_view(before), m@, k as int);
    }
    v.insert(k, m);
    assert(markers_view(v@) =~= markers_view(before).insert(k as int, m@));
}

/// Stable sort of `all` by byte offset.
fn sort_markers(all: Vec<TruncationMarker>) -> (r: Vec<TruncationMarker>)
    ensures
        markers_view(r@) == sort_by_offset(markers_view(all@)),
{
    let ghost orig = markers_view(all@);
    let mut rest = all;
    let mut sorted: Vec<TruncationMarker> = Vec::new();
    let ghost mut i: int = 0;
    assert(orig.take(0) =~= Seq::<MarkerModel>::empty());
    while rest.len() > 0
        invariant
            0 <= i <= orig.len(),
            markers_view(rest@) == orig.skip(i),
            markers_view(sorted@) == sort_by_offset(orig.take(i)),
        decreases rest@.len(),
    {
        let ghost old_rest = rest@;
        assert(markers_view(old_rest).len() == old_rest.len());
        let m = rest.remove(0);
        proof {
            assert(markers_view(old_rest)[0] == m@);
            assert(orig.skip(i)[0] == m@);
            assert(orig.take(i + 1).drop_last() =~= orig.take(i));
            assert(orig.take(i + 1).last() == m@);
            assert(rest@ =~= old_rest.subrange(1, old_rest.len() as int));
            assert forall|j: int| 0 <= j < rest@.len() implies markers_view(rest@)[j] == orig.skip(
                i + 1,
            )[j] by {
                assert(markers_view(rest@)[j] == rest@[j]@);
                assert(markers_view(old_rest)[j + 1] == old_rest[j + 1]@);
                assert(orig.skip(i)[j + 1] == orig.skip(i + 1)[j]);
            }
            assert(markers_view(rest@) =~= orig.skip(i + 1));
        }
        insert_marker(&mut sorted, m);
        proof {
            i = i + 1;
        }
    }
    assert(orig.take(i) =~= orig);
    sorted
}

proof fn lemma_needles_nonempty()
    ensures
        WARNING_PREFIX.spec_bytes().len() > 0,
        ELLIPSIS.spec_bytes().len() > 0,
        OMITTED_PREFIX.spec_bytes().len() > 0,
        ITEMS_PREFIX.spec_bytes().len() > 0,
        CONTEXT_WINDOW_NEEDLE.spec_bytes().len() > 0,
        OUTPUT_TRUNCATED_NEEDLE.spec_bytes().len() > 0,
{
    reveal_strlit("Warning: truncated output (original token count: ");
    reveal_strlit("…");
    reveal_strlit("... ");
    reveal_strlit("[omitted ");
    reveal_strlit("Output exceeded the available model context and was truncated");
    reveal_strlit("…output truncated…");
    lemma_encode_utf8_len(WARNING_PREFIX@);
    lemma_encode_utf8_len(ELLIPSIS@);
    lemma_encode_utf8_len(OMITTED_PREFIX@);
    lemma_encode_utf8_len(ITEMS_PREFIX@);
    lemma_encode_utf8_len(CONTEXT_WINDOW_NEEDLE@);
    lemma_encode_utf8_len(OUTPUT_TRUNCATED_NEEDLE@);
}

/// Scan `text` for known truncation markers, ordered by byte offset.
pub fn detect_truncation_markers(text: &str) -> (r: Vec<TruncationMarker>)
    ensures
        markers_view(r@) == spec_detect(text.spec_bytes()),
{
    proof {
        lemma_needles_nonempty();
    }
    let ghost b = text.spec_bytes();
    let mut markers: Vec<TruncationMarker> = Vec::new();
    scan_counted_into(
        text,
        WARNING_PREFIX,
        WARNING_SUFFIX,
        TruncationMarkerKind::WarningTruncatedOutput,
        &mut markers,
    );
    scan_counted_into(
        text,
        ELLIPSIS,
        TOKENS_SUFFIX,
        TruncationMarkerKind::TokensTruncated,
        &mut markers,
    );
    scan_counted_into(
        text,
        ELLIPSIS,
        CHARS_SUFFIX,
        TruncationMarkerKind::CharsTruncated,
        &mut markers,
    );
    scan_counted_into(
        text,
        ELLIPSIS,
        BYTES_TRUNCATED_SUFFIX,
        TruncationMarkerKind::BytesTruncated,
        &mut markers,
    );
    scan_counted_into(
        text,
        OMITTED_PREFIX,
        OMITTED_SUFFIX,
        TruncationMarkerKind::BytesOmitted,
        &mut markers,
    );
    scan_counted_into(
        text,
        ITEMS_PREFIX,
        TEXT_ITEMS_SUFFIX,
        TruncationMarkerKind::OmittedTextItems,
        &mut markers,
    );
    scan_counted_into(
        text,
        ITEMS_PREFIX,
        AUDIO_ITEMS_SUFFIX,
        TruncationMarkerKind::OmittedAudioItems,
        &mut markers,
    );
    scan_fixed_into(
        text,
        CONTEXT_WINDOW_NEEDLE,
        TruncationMarkerKind::ContextWindowTruncated,
        &mut markers,
    );
    scan_fixed_into(
        text,
        OUTPUT_TRUNCATED_NEEDLE,
        TruncationMarkerKind::OutputTruncatedEllipsis,
        &mut markers,
    );
    assert(markers_view(markers@) =~= family_markers(b));
    reveal(spec_detect);
    sort_markers(markers)
}

/// Returns `true` when `text` contains at least one known truncation marker.
pub fn text_contains_truncation_marker(text: &str) -> (r: bool)
    ensures
        r == (spec_detect(text.spec_bytes()).len() > 0),
{
    let markers = detect_truncation_markers(text);
    markers.len() > 0
}

/// Completeness of one text payload: `Truncated` with its markers when any
/// marker is present, `Complete` otherwise.
pub fn assess_text(text: &str) -> (r: Completeness)
    ensures
        r matches Completeness::Truncated { markers } ==> markers_view(markers@) == spec_detect(
            text.spec_bytes(),
        ) && markers@.len() > 0,
        r is Complete <==> spec_detect(text.spec_bytes()).len() == 0,
        !(r is Unknown),
{
    let markers = detect_truncation_markers(text);
    if markers.len() == 0 {
        Completeness::Complete
    } else {
        Completeness::Truncated { markers }
    }
}

// ---------------------------------------------------------------------------
// Surrounding text never hides a marker
// ---------------------------------------------------------------------------

proof fn lemma_ellipsis_bytes()
    ensures
        ELLIPSIS.spec_bytes() == seq![0xE2u8, 0x80u8, 0xA6u8],
{
    reveal_strlit("…");
    assert(ELLIPSIS@ =~= seq!['\u{2026}']);
    let v: u32 = 0x2026;
    assert((0xE0 | ((v >> 12) & 0x0F) as u8) == 0xE2u8) by (bit_vector)
        requires
            v == 0x2026u32,
    ;
    assert((0x80 | ((v >> 6) & 0x3F) as u8) == 0x80u8) by (bit_vector)
        requires
            v == 0x2026u32,
    ;
    assert((0x80 | (v & 0x3F) as u8) == 0xA6u8) by (bit_vector)
        requires
            v == 0x2026u32,
    ;
    assert(has_width_3_encoding(v));
    assert(encode_scalar(v) =~= seq![0xE2u8, 0x80u8, 0xA6u8]);
    assert(('\u{2026}' as u32) == v);
    assert(ELLIPSIS@.drop_first() =~= Seq::<char>::empty());
    assert(encode_utf8(ELLIPSIS@) =~= encode_scalar(0x2026u32) + encode_utf8(Seq::<char>::empty()));
}

/// A counted marker of the family `(p, sfx)` starts at `s` in `b`.
pub open spec fn counted_at(b: Seq<u8>, p: Seq<u8>, sfx: Seq<u8>, s: int) -> bool {
    let ap = s + p.len();
    let d = digit_run(b, ap);
    &&& occurs_at(b, p, s)
    &&& d > 0
    &&& digits_value(b.subrange(ap, ap + d)) <= u64::MAX
    &&& occurs_at(b, sfx, ap + d)
}

/// No two occurrences of `p` overlap.
pub open spec fn no_self_overlap(p: Seq<u8>) -> bool {
    forall|k: int| 0 < k < p.len() ==> p.subrange(k, p.len() as int) != p.subrange(0, p.len() - k)
}

proof fn lemma_first_unique_no_overlap(p: Seq<u8>)
    requires
        forall|i: int| 0 < i < p.len() ==> #[trigger] p[i] != p[0],
    ensures
        no_self_overlap(p),
{
    assert forall|k: int| 0 < k < p.len() implies p.subrange(k, p.len() as int) != p.subrange(
        0,
        p.len() - k,
    ) by {
        assert(p.subrange(k, p.len() as int)[0] == p[k]);
        assert(p.subrange(0, p.len() - k)[0] == p[0]);
    }
}

proof fn lemma_last_unique_no_overlap(p: Seq<u8>)
    requires
        p.len() > 0,
        forall|i: int| 0 <= i < p.len() - 1 ==> #[trigger] p[i] != p[p.len() - 1],
    ensures
        no_self_overlap(p),
{
    assert forall|k: int| 0 < k < p.len() implies p.subrange(k, p.len() as int) != p.subrange(
        0,
        p.len() - k,
    ) by {
        let j = p.len() - 1 - k;
        assert(p.subrange(k, p.len() as int)[j] == p[p.len() - 1]);
        assert(p.subrange(0, p.len() - k)[j] == p[j]);
    }
}

proof fn lemma_occurrences_apart(b: Seq<u8>, p: Seq<u8>, s: int, t: int)
    requires
        no_self_overlap(p),
        occurs_at(b, p, s),
        occurs_at(b, p, t),
        s < t,
    ensures
        t >= s + p.len(),
{
    if t < s + p.len() {
        let k = t - s;
        assert forall|i: int| 0 <= i < p.len() - k implies p.subrange(k, p.len() as int)[i]
            == p.subrange(0, p.len() - k)[i] by {
            assert(b.subrange(s, s + p.len())[k + i] == b[t + i]);
            assert(b.subrange(t, t + p.len())[i] == b[t + i]);
        }
        assert(p.subrange(k, p.len() as int) =~= p.subrange(0, p.len() - k));
    }
}

proof fn lemma_find_from_first(b: Seq<u8>, p: Seq<u8>, from: int, s: int)
    requires
        0 <= from <= s,
        p.len() > 0,
        occurs_at(b, p, s),
    ensures
        find_from(b, p, from) matches Some(start) && from <= start <= s && occurs_at(b, p, start),
    decreases s - from,
{
    if !occurs_at(b, p, from) {
        lemma_find_from_first(b, p, from + 1, s);
    }
}

proof fn lemma_scan_counted_complete(
    b: Seq<u8>,
    p: Seq<u8>,
    sfx: Seq<u8>,
    kind: TruncationMarkerKind,
    from: int,
    s: int,
)
    requires
        p.len() > 0,
        no_self_overlap(p),
        0 <= from <= s,
        counted_at(b, p, sfx, s),
    ensures
        scan_counted(b, p, sfx, kind, from).len() > 0,
    decreases b.len() - from,
{
    lemma_find_from_first(b, p, from, s);
    let start = find_from(b, p, from)->0;
    if !counted_at(b, p, sfx, start) {
        lemma_occurrences_apart(b, p, start, s);
        lemma_scan_counted_complete(b, p, sfx, kind, start + p.len(), s);
    }
}

proof fn lemma_scan_counted_witness(
    b: Seq<u8>,
    p: Seq<u8>,
    sfx: Seq<u8>,
    kind: TruncationMarkerKind,
    from: int,
)
    requires
        scan_counted(b, p, sfx, kind, from).len() > 0,
    ensures
        exists|s: int| from <= s && counted_at(b, p, sfx, s),
    decreases b.len() - from,
{
    lemma_find_from_bounds(b, p, from);
    let start = find_from(b, p, from)->0;
    if !counted_at(b, p, sfx, start) {
        lemma_scan_counted_witness(b, p, sfx, kind, start + p.len());
    }
}

proof fn lemma_scan_fixed_complete(b: Seq<u8>, n: Seq<u8>, kind: TruncationMarkerKind, s: int)
    requires
        n.len() > 0,
        0 <= s,
        occurs_at(b, n, s),
    ensures
        scan_fixed(b, n, kind, 0).len() > 0,
{
    lemma_find_from_first(b, n, 0, s);
}

proof fn lemma_scan_fixed_witness(b: Seq<u8>, n: Seq<u8>, kind: TruncationMarkerKind)
    requires
        scan_fixed(b, n, kind, 0).len() > 0,
    ensures
        exists|s: int| 0 <= s && occurs_at(b, n, s),
{
    lemma_find_from_bounds(b, n, 0);
}

proof fn lemma_occurs_surrounded(a: Seq<u8>, c: Seq<u8>, p: Seq<u8>, s: int)
    requires
        occurs_at(a, p, s),
    ensures
        occurs_at(a + c, p, s),
        occurs_at(c + a, p, s + c.len()),
{
    assert((a + c).subrange(s, s + p.len()) =~= a.subrange(s, s + p.len()));
    assert((c + a).subrange(s + c.len(), s + c.len() + p.len()) =~= a.subrange(s, s + p.len()));
}

proof fn lemma_digit_run_append(a: Seq<u8>, c: Seq<u8>, x: int)
    requires
        0 <= x,
        x + digit_run(a, x) < a.len(),
    ensures
        digit_run(a + c, x) == digit_run(a, x),
    decreases a.len() - x,
{
    if 0 <= x < a.len() && is_ascii_digit(a[x]) {
        lemma_digit_run_append(a, c, x + 1);
    }
}

proof fn lemma_digit_run_prepend(a: Seq<u8>, c: Seq<u8>, x: int)
    requires
        0 <= x,
    ensures
        digit_run(c + a, x + c.len()) == digit_run(a, x),
    decreases a.len() - x,
{
    if 0 <= x < a.len() && is_ascii_digit(a[x]) {
        lemma_digit_run_prepend(a, c, x + 1);
    }
}

proof fn lemma_counted_surrounded(a: Seq<u8>, c: Seq<u8>, p: Seq<u8>, sfx: Seq<u8>, s: int)
    requires
        counted_at(a, p, sfx, s),
        sfx.len() > 0,
    ensures
        counted_at(a + c, p, sfx, s),
        counted_at(c + a, p, sfx, s + c.len()),
{
    let ap = s + p.len();
    let d = digit_run(a, ap);
    lemma_occurs_surrounded(a, c, p, s);
    lemma_occurs_surrounded(a, c, sfx, ap + d);
    lemma_digit_run_append(a, c, ap);
    lemma_digit_run_prepend(a, c, ap);
    assert((a + c).subrange(ap, ap + d) =~= a.subrange(ap, ap + d));
    assert((c + a).subrange(ap + c.len(), ap + c.len() + d) =~= a.subrange(ap, ap + d));
}

/// Some family of markers matches somewhere in `b`.
pub open spec fn some_family_matches(b: Seq<u8>) -> bool {
    ||| exists|s: int|
        0 <= s && counted_at(b, WARNING_PREFIX.spec_bytes(), WARNING_SUFFIX.spec_bytes(), s)
    ||| exists|s: int| 0 <= s && counted_at(b, ELLIPSIS.spec_bytes(), TOKENS_SUFFIX.spec_bytes(), s)
    ||| exists|s: int| 0 <= s && counted_at(b, ELLIPSIS.spec_bytes(), CHARS_SUFFIX.spec_bytes(), s)
    ||| exists|s: int|
        0 <= s && counted_at(b, ELLIPSIS.spec_bytes(), BYTES_TRUNCATED_SUFFIX.spec_bytes(), s)
    ||| exists|s: int|
        0 <= s && counted_at(b, OMITTED_PREFIX.spec_bytes(), OMITTED_SUFFIX.spec_bytes(), s)
    ||| exists|s: int|
        0 <= s && counted_at(b, ITEMS_PREFIX.spec_bytes(), TEXT_ITEMS_SUFFIX.spec_bytes(), s)
    ||| exists|s: int|
        0 <= s && counted_at(b, ITEMS_PREFIX.spec_bytes(), AUDIO_ITEMS_SUFFIX.spec_bytes(), s)
    ||| exists|s: int| 0 <= s && occurs_at(b, CONTEXT_WINDOW_NEEDLE.spec_bytes(), s)
    ||| exists|s: int| 0 <= s && occurs_at(b, OUTPUT_TRUNCATED_NEEDLE.spec_bytes(), s)
}

proof fn lemma_prefixes_apart()
    ensures
        no_self_overlap(WARNING_PREFIX.spec_bytes()),
        no_self_overlap(ELLIPSIS.spec_bytes()),
        no_self_overlap(OMITTED_PREFIX.spec_bytes()),
        no_self_overlap(ITEMS_PREFIX.spec_bytes()),
{
    reveal_strlit("Warning: truncated output (original token count: ");
    reveal_strlit("... ");
    reveal_strlit("[omitted ");
    let w = WARNING_PREFIX@;
    assert(is_ascii_chars(w));
    is_ascii_chars_encode_utf8(w);
    let wb = WARNING_PREFIX.spec_bytes();
    assert forall|i: int| 0 < i < wb.len() implies #[trigger] wb[i] != wb[0] by {
        assert(wb[i] == w[i] as u8);
        assert(wb[0] == w[0] as u8);
    }
    lemma_first_unique_no_overlap(wb);
    lemma_ellipsis_bytes();
    lemma_first_unique_no_overlap(ELLIPSIS.spec_bytes());
    let o = OMITTED_PREFIX@;
    assert(is_ascii_chars(o));
    is_ascii_chars_encode_utf8(o);
    let ob = OMITTED_PREFIX.spec_bytes();
    assert forall|i: int| 0 <= i < ob.len() - 1 implies #[trigger] ob[i] != ob[ob.len() - 1] by {
        assert(ob[i] == o[i] as u8);
        assert(ob[3] == o[3] as u8);
    }
    lemma_last_unique_no_overlap(ob);
    let t = ITEMS_PREFIX@;
    assert(is_ascii_chars(t));
    is_ascii_chars_encode_utf8(t);
    let tb = ITEMS_PREFIX.spec_bytes();
    assert forall|i: int| 0 < i < tb.len() implies #[trigger] tb[i] != tb[0] by {
        assert(tb[i] == t[i] as u8);
        assert(tb[0] == t[0] as u8);
    }
    lemma_first_unique_no_overlap(tb);
}

proof fn lemma_suffixes_nonempty()
    ensures
        WARNING_SUFFIX.spec_bytes().len() > 0,
        TOKENS_SUFFIX.spec_bytes().len() > 0,
        CHARS_SUFFIX.spec_bytes().len() > 0,
        BYTES_TRUNCATED_SUFFIX.spec_bytes().len() > 0,
        OMITTED_SUFFIX.spec_bytes().len() > 0,
        TEXT_ITEMS_SUFFIX.spec_bytes().len() > 0,
        AUDIO_ITEMS_SUFFIX.spec_bytes().len() > 0,
{
    reveal_strlit(")");
    reveal_strlit(" tokens truncated…");
    reveal_strlit(" chars truncated…");
    reveal_strlit(" bytes truncated…");
    reveal_strlit(" bytes omitted ...");
    reveal_strlit(" text items ...]");
    reveal_strlit(" audio items ...]");
    lemma_encode_utf8_len(WARNING_SUFFIX@);
    lemma_encode_utf8_len(TOKENS_SUFFIX@);
    lemma_encode_utf8_len(CHARS_SUFFIX@);
    lemma_encode_utf8_len(BYTES_TRUNCATED_SUFFIX@);
    lemma_encode_utf8_len(OMITTED_SUFFIX@);
    lemma_encode_utf8_len(TEXT_ITEMS_SUFFIX@);
    lemma_encode_utf8_len(AUDIO_ITEMS_SUFFIX@);
}

proof fn lemma_family_complete(b: Seq<u8>)
    requires
        some_family_matches(b),
    ensures
        family_markers(b).len() > 0,
{
    lemma_prefixes_apart();
    lemma_needles_nonempty();
    if exists|s: int| 0 <= s && counted_at(b, WARNING_PREFIX.spec_bytes(), WARNING_SUFFIX.spec_bytes(), s) {
        let s = choose|s: int| 0 <= s && counted_at(b, WARNING_PREFIX.spec_bytes(), WARNING_SUFFIX.spec_bytes(), s);
        lemma_scan_counted_complete(b, WARNING_PREFIX.spec_bytes(), WARNING_SUFFIX.spec_bytes(), TruncationMarkerKind::WarningTruncatedOutput, 0, s);
    }
    if exists|s: int| 0 <= s && counted_at(b, ELLIPSIS.spec_bytes(), TOKENS_SUFFIX.spec_bytes(), s) {
        let s = choose|s: int| 0 <= s && counted_at(b, ELLIPSIS.spec_bytes(), TOKENS_SUFFIX.spec_bytes(), s);
        lemma_scan_counted_complete(b, ELLIPSIS.spec_bytes(), TOKENS_SUFFIX.spec_bytes(), TruncationMarkerKind::TokensTruncated, 0, s);
    }
    if exists|s: int| 0 <= s && counted_at(b, ELLIPSIS.spec_bytes(), CHARS_SUFFIX.spec_bytes(), s) {
        let s = choose|s: int| 0 <= s && counted_at(b, ELLIPSIS.spec_bytes(), CHARS_SUFFIX.spec_bytes(), s);
        lemma_scan_counted_complete(b, ELLIPSIS.spec_bytes(), CHARS_SUFFIX.spec_bytes(), TruncationMarkerKind::CharsTruncated, 0, s);
    }
    if exists|s: int| 0 <= s && counted_at(b, ELLIPSIS.spec_bytes(), BYTES_TRUNCATED_SUFFIX.spec_bytes(), s) {
        let s = choose|s: int| 0 <= s && counted_at(b, ELLIPSIS.spec_bytes(), BYTES_TRUNCATED_SUFFIX.spec_bytes(), s);
        lemma_scan_counted_complete(b, ELLIPSIS.spec_bytes(), BYTES_TRUNCATED_SUFFIX.spec_bytes(), TruncationMarkerKind::BytesTruncated, 0, s);
    }
    if exists|s: int| 0 <= s && counted_at(b, OMITTED_PREFIX.spec_bytes(), OMITTED_SUFFIX.spec_bytes(), s) {
        let s = choose|s: int| 0 <= s && counted_at(b, OMITTED_PREFIX.spec_bytes(), OMITTED_SUFFIX.spec_bytes(), s);
        lemma_scan_counted_complete(b, OMITTED_PREFIX.spec_bytes(), OMITTED_SUFFIX.spec_bytes(), TruncationMarkerKind::BytesOmitted, 0, s);
    }
    if exists|s: int| 0 <= s && counted_at(b, ITEMS_PREFIX.spec_bytes(), TEXT_ITEMS_SUFFIX.spec_bytes(), s) {
        let s = choose|s: int| 0 <= s && counted_at(b, ITEMS_PREFIX.spec_bytes(), TEXT_ITEMS_SUFFIX.spec_bytes(), s);
        lemma_scan_counted_complete(b, ITEMS_PREFIX.spec_bytes(), TEXT_ITEMS_SUFFIX.spec_bytes(), TruncationMarkerKind::OmittedTextItems, 0, s);
    }
    if exists|s: int| 0 <= s && counted_at(b, ITEMS_PREFIX.spec_bytes(), AUDIO_ITEMS_SUFFIX.spec_bytes(), s) {
        let s = choose|s: int| 0 <= s && counted_at(b, ITEMS_PREFIX.spec_bytes(), AUDIO_ITEMS_SUFFIX.spec_bytes(), s);
        lemma_scan_counted_complete(b, ITEMS_PREFIX.spec_bytes(), AUDIO_ITEMS_SUFFIX.spec_bytes(), TruncationMarkerKind::OmittedAudioItems, 0, s);
    }
    if exists|s: int| 0 <= s && occurs_at(b, CONTEXT_WINDOW_NEEDLE.spec_bytes(), s) {
        let s = choose|s: int| 0 <= s && occurs_at(b, CONTEXT_WINDOW_NEEDLE.spec_bytes(), s);
        lemma_scan_fixed_complete(b, CONTEXT_WINDOW_NEEDLE.spec_bytes(), TruncationMarkerKind::ContextWindowTruncated, s);
    }
    if exists|s: int| 0 <= s && occurs_at(b, OUTPUT_TRUNCATED_NEEDLE.spec_bytes(), s) {
        let s = choose|s: int| 0 <= s && occurs_at(b, OUTPUT_TRUNCATED_NEEDLE.spec_bytes(), s);
        lemma_scan_fixed_complete(b, OUTPUT_TRUNCATED_NEEDLE.spec_bytes(), TruncationMarkerKind::OutputTruncatedEllipsis, s);
    }
}

proof fn lemma_family_witness(b: Seq<u8>)
    requires
        family_markers(b).len() > 0,
    ensures
        some_family_matches(b),
{
    if scan_counted(b, WARNING_PREFIX.spec_bytes(), WARNING_SUFFIX.spec_bytes(), TruncationMarkerKind::WarningTruncatedOutput, 0).len() > 0 {
        lemma_scan_counted_witness(b, WARNING_PREFIX.spec_bytes(), WARNING_SUFFIX.spec_bytes(), TruncationMarkerKind::WarningTruncatedOutput, 0);
    }
    if scan_counted(b, ELLIPSIS.spec_bytes(), TOKENS_SUFFIX.spec_bytes(), TruncationMarkerKind::TokensTruncated, 0).len() > 0 {
        lemma_scan_counted_witness(b, ELLIPSIS.spec_bytes(), TOKENS_SUFFIX.spec_bytes(), TruncationMarkerKind::TokensTruncated, 0);
    }
    if scan_counted(b, ELLIPSIS.spec_bytes(), CHARS_SUFFIX.spec_bytes(), TruncationMarkerKind::CharsTruncated, 0).len() > 0 {
        lemma_scan_counted_witness(b, ELLIPSIS.spec_bytes(), CHARS_SUFFIX.spec_bytes(), TruncationMarkerKind::CharsTruncated, 0);
    }
    if scan_counted(b, ELLIPSIS.spec_bytes(), BYTES_TRUNCATED_SUFFIX.spec_bytes(), TruncationMarkerKind::BytesTruncated, 0).len() > 0 {
        lemma_scan_counted_witness(b, ELLIPSIS.spec_bytes(), BYTES_TRUNCATED_SUFFIX.spec_bytes(), TruncationMarkerKind::BytesTruncated, 0);
    }
    if scan_counted(b, OMITTED_PREFIX.spec_bytes(), OMITTED_SUFFIX.spec_bytes(), TruncationMarkerKind::BytesOmitted, 0).len() > 0 {
        lemma_scan_counted_witness(b, OMITTED_PREFIX.spec_bytes(), OMITTED_SUFFIX.spec_bytes(), TruncationMarkerKind::BytesOmitted, 0);
    }
    if scan_counted(b, ITEMS_PREFIX.spec_bytes(), TEXT_ITEMS_SUFFIX.spec_bytes(), TruncationMarkerKind::OmittedTextItems, 0).len() > 0 {
        lemma_scan_counted_witness(b, ITEMS_PREFIX.spec_bytes(), TEXT_ITEMS_SUFFIX.spec_bytes(), TruncationMarkerKind::OmittedTextItems, 0);
    }
    if scan_counted(b, ITEMS_PREFIX.spec_bytes(), AUDIO_ITEMS_SUFFIX.spec_bytes(), TruncationMarkerKind::OmittedAudioItems, 0).len() > 0 {
        lemma_scan_counted_witness(b, ITEMS_PREFIX.spec_bytes(), AUDIO_ITEMS_SUFFIX.spec_bytes(), TruncationMarkerKind::OmittedAudioItems, 0);
    }
    if scan_fixed(b, CONTEXT_WINDOW_NEEDLE.spec_bytes(), TruncationMarkerKind::ContextWindowTruncated, 0).len() > 0 {
        lemma_scan_fixed_witness(b, CONTEXT_WINDOW_NEEDLE.spec_bytes(), TruncationMarkerKind::ContextWindowTruncated);
    }
    if scan_fixed(b, OUTPUT_TRUNCATED_NEEDLE.spec_bytes(), TruncationMarkerKind::OutputTruncatedEllipsis, 0).len() > 0 {
        lemma_scan_fixed_witness(b, OUTPUT_TRUNCATED_NEEDLE.spec_bytes(), TruncationMarkerKind::OutputTruncatedEllipsis);
    }
}

proof fn lemma_family_surrounded(a: Seq<u8>, c: Seq<u8>)
    requires
        some_family_matches(a),
    ensures
        some_family_matches(a + c),
        some_family_matches(c + a),
{
    lemma_suffixes_nonempty();
    if exists|s: int| 0 <= s && counted_at(a, WARNING_PREFIX.spec_bytes(), WARNING_SUFFIX.spec_bytes(), s) {
        let s = choose|s: int| 0 <= s && counted_at(a, WARNING_PREFIX.spec_bytes(), WARNING_SUFFIX.spec_bytes(), s);
        lemma_counted_surrounded(a, c, WARNING_PREFIX.spec_bytes(), WARNING_SUFFIX.spec_bytes(), s);
        assert(counted_at(c + a, WARNING_PREFIX.spec_bytes(), WARNING_SUFFIX.spec_bytes(), s + c.len()));
        assert(counted_at(a + c, WARNING_PREFIX.spec_bytes(), WARNING_SUFFIX.spec_bytes(), s));
    }
    if exists|s: int| 0 <= s && counted_at(a, ELLIPSIS.spec_bytes(), TOKENS_SUFFIX.spec_bytes(), s) {
        let s = choose|s: int| 0 <= s && counted_at(a, ELLIPSIS.spec_bytes(), TOKENS_SUFFIX.spec_bytes(), s);
        lemma_counted_surrounded(a, c, ELLIPSIS.spec_bytes(), TOKENS_SUFFIX.spec_bytes(), s);
        assert(counted_at(c + a, ELLIPSIS.spec_bytes(), TOKENS_SUFFIX.spec_bytes(), s + c.len()));
        assert(counted_at(a + c, ELLIPSIS.spec_bytes(), TOKENS_SUFFIX.spec_bytes(), s));
    }
    if exists|s: int| 0 <= s && counted_at(a, ELLIPSIS.spec_bytes(), CHARS_SUFFIX.spec_bytes(), s) {
        let s = choose|s: int| 0 <= s && counted_at(a, ELLIPSIS.spec_bytes(), CHARS_SUFFIX.spec_bytes(), s);
        lemma_counted_surrounded(a, c, ELLIPSIS.spec_bytes(), CHARS_SUFFIX.spec_bytes(), s);
        assert(counted_at(c + a, ELLIPSIS.spec_bytes(), CHARS_SUFFIX.spec_bytes(), s + c.len()));
        assert(counted_at(a + c, ELLIPSIS.spec_bytes(), CHARS_SUFFIX.spec_bytes(), s));
    }
    if exists|s: int| 0 <= s && counted_at(a, ELLIPSIS.spec_bytes(), BYTES_TRUNCATED_SUFFIX.spec_bytes(), s) {
        let s = choose|s: int| 0 <= s && counted_at(a, ELLIPSIS.spec_bytes(), BYTES_TRUNCATED_SUFFIX.spec_bytes(), s);
        lemma_counted_surrounded(a, c, ELLIPSIS.spec_bytes(), BYTES_TRUNCATED_SUFFIX.spec_bytes(), s);
        assert(counted_at(c + a, ELLIPSIS.spec_bytes(), BYTES_TRUNCATED_SUFFIX.spec_bytes(), s + c.len()));
        assert(counted_at(a + c, ELLIPSIS.spec_bytes(), BYTES_TRUNCATED_SUFFIX.spec_bytes(), s));
    }
    if exists|s: int| 0 <= s && counted_at(a, OMITTED_PREFIX.spec_bytes(), OMITTED_SUFFIX.spec_bytes(), s) {
        let s = choose|s: int| 0 <= s && counted_at(a, OMITTED_PREFIX.spec_bytes(), OMITTED_SUFFIX.spec_bytes(), s);
        lemma_counted_surrounded(a, c, OMITTED_PREFIX.spec_bytes(), OMITTED_SUFFIX.spec_bytes(), s);
        assert(counted_at(c + a, OMITTED_PREFIX.spec_bytes(), OMITTED_SUFFIX.spec_bytes(), s + c.len()));
        assert(counted_at(a + c, OMITTED_PREFIX.spec_bytes(), OMITTED_SUFFIX.spec_bytes(), s));
    }
    if exists|s: int| 0 <= s && counted_at(a, ITEMS_PREFIX.spec_bytes(), TEXT_ITEMS_SUFFIX.spec_bytes(), s) {
        let s = choose|s: int| 0 <= s && counted_at(a, ITEMS_PREFIX.spec_bytes(), TEXT_ITEMS_SUFFIX.spec_bytes(), s);
        lemma_counted_surrounded(a, c, ITEMS_PREFIX.spec_bytes(), TEXT_ITEMS_SUFFIX.spec_bytes(), s);
        assert(counted_at(c + a, ITEMS_PREFIX.spec_bytes(), TEXT_ITEMS_SUFFIX.spec_bytes(), s + c.len()));
        assert(counted_at(a + c, ITEMS_PREFIX.spec_bytes(), TEXT_ITEMS_SUFFIX.spec_bytes(), s));
    }
    if exists|s: int| 0 <= s && counted_at(a, ITEMS_PREFIX.spec_bytes(), AUDIO_ITEMS_SUFFIX.spec_bytes(), s) {
        let s = choose|s: int| 0 <= s && counted_at(a, ITEMS_PREFIX.spec_bytes(), AUDIO_ITEMS_SUFFIX.spec_bytes(), s);
        lemma_counted_surrounded(a, c, ITEMS_PREFIX.spec_bytes(), AUDIO_ITEMS_SUFFIX.spec_bytes(), s);
        assert(counted_at(c + a, ITEMS_PREFIX.spec_bytes(), AUDIO_ITEMS_SUFFIX.spec_bytes(), s + c.len()));
        assert(counted_at(a + c, ITEMS_PREFIX.spec_bytes(), AUDIO_ITEMS_SUFFIX.spec_bytes(), s));
    }
    if exists|s: int| 0 <= s && occurs_at(a, CONTEXT_WINDOW_NEEDLE.spec_bytes(), s) {
        let s = choose|s: int| 0 <= s && occurs_at(a, CONTEXT_WINDOW_NEEDLE.spec_bytes(), s);
        lemma_occurs_surrounded(a, c, CONTEXT_WINDOW_NEEDLE.spec_bytes(), s);
        assert(occurs_at(c + a, CONTEXT_WINDOW_NEEDLE.spec_bytes(), s + c.len()));
        assert(occurs_at(a + c, CONTEXT_WINDOW_NEEDLE.spec_bytes(), s));
    }
    if exists|s: int| 0 <= s && occurs_at(a, OUTPUT_TRUNCATED_NEEDLE.spec_bytes(), s) {
        let s = choose|s: int| 0 <= s && occurs_at(a, OUTPUT_TRUNCATED_NEEDLE.spec_bytes(), s);
        lemma_occurs_surrounded(a, c, OUTPUT_TRUNCATED_NEEDLE.spec_bytes(), s);
        assert(occurs_at(c + a, OUTPUT_TRUNCATED_NEEDLE.spec_bytes(), s + c.len()));
        assert(occurs_at(a + c, OUTPUT_TRUNCATED_NEEDLE.spec_bytes(), s));
    }
}

proof fn lemma_insert_len(s: Seq<MarkerModel>, x: MarkerModel)
    ensures
        insert_by_offset(s, x).len() == s.len() + 1,
    decreases s.len(),
{
    if s.len() > 0 && s.last().offset > x.offset {
        lemma_insert_len(s.drop_last(), x);
    }
}

proof fn lemma_sort_len(s: Seq<MarkerModel>)
    ensures
        sort_by_offset(s).len() == s.len(),
    decreases s.len(),
{
    if s.len() > 0 {
        lemma_sort_len(s.drop_last());
        lemma_insert_len(sort_by_offset(s.drop_last()), s.last());
    }
}

/// Text around a marked payload never hides its truncation signal: when
/// `a` or `b` holds a marker, so does `a` followed by `b`.
pub proof fn lemma_marker_survives_concatenation(a: Seq<char>, b: Seq<char>)
    ensures
        spec_detect(encode_utf8(a)).len() > 0 || spec_detect(encode_utf8(b)).len() > 0
            ==> spec_detect(encode_utf8(a + b)).len() > 0,
{
    reveal(spec_detect);
    let x = encode_utf8(a);
    let y = encode_utf8(b);
    lemma_encode_utf8_concat(a, b);
    lemma_sort_len(family_markers(x));
    lemma_sort_len(family_markers(y));
    lemma_sort_len(family_markers(x + y));
    if spec_detect(x).len() > 0 {
        lemma_family_witness(x);
        lemma_family_surrounded(x, y);
        lemma_family_complete(x + y);
    } else if spec_detect(y).len() > 0 {
        lemma_family_witness(y);
        lemma_family_surrounded(y, x);
        lemma_family_complete(x + y);
    }
}

} // verus!
