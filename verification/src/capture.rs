//! Splitting a matched line into literal and captured segments.
//!
//! The segmenter turns a line and the spans of its participating capture
//! groups into an ordered, gapless list of segments: unmatched stretches
//! become [`MatchType::Normal`] and captured stretches become
//! [`MatchType::Group`].  Concatenating the segment texts in order always
//! reproduces the line exactly.

use crate::offsets::char_pos_of_byte;
use crate::offsets::is_char_pos;
use crate::offsets::lemma_char_pos_unique;
use crate::pattern::capture_spans;
use crate::pattern::group_spans;
use crate::pattern::participating;
use crate::pattern::regex_match;
use crate::pattern::Pattern;
use vstd::prelude::*;
use vstd::string::StrSliceExecFns;

verus! {

/// A half-open interval `[start, end)` of codepoint offsets within a line,
/// marking the span of one participating capture group.
#[derive(Clone, Copy, Debug, PartialEq, Eq, Structural)]
pub struct CaptureRange {
    pub start: usize,
    pub end: usize,
}

/// The ranges are in bounds for a line of `len` codepoints, ordered, and
/// non-overlapping: each range starts no earlier than the previous one ends.
pub open spec fn ranges_wf(rs: Seq<CaptureRange>, len: nat) -> bool {
    &&& forall|i: int| 0 <= i < rs.len() ==> (#[trigger] rs[i]).start <= rs[i].end <= len
    &&& forall|i: int| 0 < i < rs.len() ==> (#[trigger] rs[i]).start >= rs[i - 1].end
}

/// One segment of a matched line: literal text between captures, or the
/// text of a capture group.
#[derive(Clone, Debug, PartialEq)]
pub enum MatchType {
    Normal(String),
    Group(String),
}

/// A fully segmented line: the ordered segments and the original text.
#[derive(Clone, Debug, PartialEq)]
pub struct MatchSet {
    pub items: Vec<MatchType>,
    pub full_text: String,
}

/// Whether a segment is a captured group.
pub open spec fn seg_is_group(m: MatchType) -> bool {
    m matches MatchType::Group(_)
}

/// The text a segment carries.
pub open spec fn seg_text(m: MatchType) -> Seq<char> {
    match m {
        MatchType::Normal(s) => s@,
        MatchType::Group(s) => s@,
    }
}

/// The mathematical shape of a segment list: a tag (captured or not) and
/// the text, for each segment in order.
pub open spec fn segs_view(items: Seq<MatchType>) -> Seq<(bool, Seq<char>)> {
    items.map_values(|m: MatchType| (seg_is_group(m), seg_text(m)))
}

/// The segments of `text` from cursor position `cur` on, for the remaining
/// ranges `rs`: a literal for any gap before the next range, the captured
/// stretch itself, and finally a literal for any tail after the last range.
/// Adjacent ranges produce no empty literal between them.
pub open spec fn segs_from(text: Seq<char>, rs: Seq<CaptureRange>, cur: int) -> Seq<(bool, Seq<char>)>
    decreases rs.len(),
{
    if rs.len() == 0 {
        if cur < text.len() {
            seq![(false, text.subrange(cur, text.len() as int))]
        } else {
            Seq::empty()
        }
    } else {
        let r = rs[0];
        let tail = seq![(true, text.subrange(r.start as int, r.end as int))] + segs_from(
            text,
            rs.skip(1),
            r.end as int,
        );
        if cur < r.start {
            seq![(false, text.subrange(cur, r.start as int))] + tail
        } else {
            tail
        }
    }
}

/// The segments of a whole line.  With no participating ranges the entire
/// line is a single literal, even when it is empty; this covers both a
/// pattern without capture groups and the empty pattern.
pub open spec fn segments_of(text: Seq<char>, rs: Seq<CaptureRange>) -> Seq<(bool, Seq<char>)> {
    if rs.len() == 0 {
        seq![(false, text)]
    } else {
        segs_from(text, rs, 0)
    }
}

/// The concatenation of the texts of a segment list, in order.
pub open spec fn concat_texts(segs: Seq<(bool, Seq<char>)>) -> Seq<char>
    decreases segs.len(),
{
    if segs.len() == 0 {
        Seq::empty()
    } else {
        segs[0].1 + concat_texts(segs.skip(1))
    }
}

proof fn lemma_concat_texts_cons(x: (bool, Seq<char>), segs: Seq<(bool, Seq<char>)>)
    ensures
        concat_texts(seq![x] + segs) == x.1 + concat_texts(segs),
{
    let whole = seq![x] + segs;
    assert(whole.skip(1) =~= segs);
    assert(whole[0] == x);
}

proof fn lemma_segs_from_concat(text: Seq<char>, rs: Seq<CaptureRange>, cur: int)
    requires
        ranges_wf(rs, text.len()),
        0 <= cur <= text.len(),
        rs.len() > 0 ==> cur <= rs[0].start,
    ensures
        concat_texts(segs_from(text, rs, cur)) == text.subrange(cur, text.len() as int),
    decreases rs.len(),
{
    if rs.len() == 0 {
        if cur < text.len() {
            let s = seq![(false, text.subrange(cur, text.len() as int))];
            assert(s.skip(1) =~= Seq::<(bool, Seq<char>)>::empty());
            assert(concat_texts(Seq::<(bool, Seq<char>)>::empty()) == Seq::<char>::empty());
            assert(concat_texts(s) == s[0].1 + Seq::<char>::empty());
            assert(concat_texts(s) =~= text.subrange(cur, text.len() as int));
        } else {
            assert(text.subrange(cur, text.len() as int) =~= Seq::<char>::empty());
        }
    } else {
        let r = rs[0];
        let rest = rs.skip(1);
        assert(ranges_wf(rest, text.len())) by {
            assert forall|i: int| 0 <= i < rest.len() implies (#[trigger] rest[i]).start
                <= rest[i].end <= text.len() by {
                assert(rest[i] == rs[i + 1]);
            }
            assert forall|i: int| 0 < i < rest.len() implies (#[trigger] rest[i]).start >= rest[i
                - 1].end by {
                assert(rest[i] == rs[i + 1]);
                assert(rest[i - 1] == rs[i]);
            }
        }
        if rest.len() > 0 {
            assert(rest[0] == rs[1]);
        }
        lemma_segs_from_concat(text, rest, r.end as int);
        let tail = seq![(true, text.subrange(r.start as int, r.end as int))] + segs_from(
            text,
            rest,
            r.end as int,
        );
        lemma_concat_texts_cons(
            (true, text.subrange(r.start as int, r.end as int)),
            segs_from(text, rest, r.end as int),
        );
        assert(concat_texts(tail) == text.subrange(r.start as int, r.end as int) + text.subrange(
            r.end as int,
            text.len() as int,
        ));
        assert(text.subrange(r.start as int, r.end as int) + text.subrange(
            r.end as int,
            text.len() as int,
        ) =~= text.subrange(r.start as int, text.len() as int));
        if cur < r.start {
            lemma_concat_texts_cons((false, text.subrange(cur, r.start as int)), tail);
            assert(text.subrange(cur, r.start as int) + text.subrange(
                r.start as int,
                text.len() as int,
            ) =~= text.subrange(cur, text.len() as int));
        } else {
            assert(text.subrange(r.start as int, text.len() as int) =~= text.subrange(
                cur,
                text.len() as int,
            ));
        }
    }
}

/// Lossless round trip: for any line and any well-formed set of capture
/// ranges, concatenating the texts of all segments in order reproduces the
/// line exactly.
pub proof fn lemma_segments_round_trip(text: Seq<char>, rs: Seq<CaptureRange>)
    requires
        ranges_wf(rs, text.len()),
    ensures
        concat_texts(segments_of(text, rs)) == text,
{
    if rs.len() == 0 {
        lemma_concat_texts_cons((false, text), Seq::empty());
        assert(seq![(false, text)] + Seq::<(bool, Seq<char>)>::empty() =~= seq![(false, text)]);
        assert(text + Seq::<char>::empty() =~= text);
    } else {
        lemma_segs_from_concat(text, rs, 0);
        assert(text.subrange(0, text.len() as int) =~= text);
    }
}

/// The segmenter is deterministic: any two results that the contract of
/// [`into_matchset`] admits for the same line and ranges agree, segment by
/// segment, in tag and text.
pub proof fn lemma_segmenter_deterministic(
    text: Seq<char>,
    rs: Seq<CaptureRange>,
    a: MatchSet,
    b: MatchSet,
)
    requires
        a.full_text@ == text && segs_view(a.items@) == segments_of(text, rs),
        b.full_text@ == text && segs_view(b.items@) == segments_of(text, rs),
    ensures
        a.full_text@ == b.full_text@,
        segs_view(a.items@) == segs_view(b.items@),
{
}

proof fn lemma_segs_view_push(items: Seq<MatchType>, m: MatchType)
    ensures
        segs_view(items.push(m)) == segs_view(items).push((seg_is_group(m), seg_text(m))),
{
    assert(segs_view(items.push(m)) =~= segs_view(items).push((seg_is_group(m), seg_text(m))));
}

/// The texts of the captured segments only, in order: what a structured
/// export row contains.
pub open spec fn group_texts(items: Seq<MatchType>) -> Seq<Seq<char>> {
    items.filter(|m: MatchType| seg_is_group(m)).map_values(|m: MatchType| seg_text(m))
}

/// `parts` joined by `sep`: no separator around a single part, one between
/// each adjacent pair.
pub open spec fn join_with(parts: Seq<Seq<char>>, sep: Seq<char>) -> Seq<char>
    decreases parts.len(),
{
    if parts.len() == 0 {
        Seq::empty()
    } else if parts.len() == 1 {
        parts[0]
    } else {
        parts[0] + sep + join_with(parts.skip(1), sep)
    }
}

proof fn lemma_group_texts_push(items: Seq<MatchType>, m: MatchType)
    ensures
        group_texts(items.push(m)) == if seg_is_group(m) {
            group_texts(items).push(seg_text(m))
        } else {
            group_texts(items)
        },
{
    reveal(Seq::filter);
    let pred = |x: MatchType| seg_is_group(x);
    assert(items.push(m).drop_last() =~= items);
    assert(items.push(m).last() == m);
    if seg_is_group(m) {
        assert(items.push(m).filter(pred) == items.filter(pred).push(m));
        assert(items.filter(pred).push(m).map_values(|x: MatchType| seg_text(x)) =~= items.filter(
            pred,
        ).map_values(|x: MatchType| seg_text(x)).push(seg_text(m)));
    }
}

proof fn lemma_join_with_push(parts: Seq<Seq<char>>, x: Seq<char>, sep: Seq<char>)
    ensures
        join_with(parts.push(x), sep) == if parts.len() == 0 {
            x
        } else {
            join_with(parts, sep) + sep + x
        },
    decreases parts.len(),
{
    let whole = parts.push(x);
    if parts.len() == 0 {
        assert(whole.len() == 1);
        assert(whole[0] == x);
    } else if parts.len() == 1 {
        assert(whole.skip(1) =~= Seq::<Seq<char>>::empty().push(x));
        lemma_join_with_push(Seq::empty(), x, sep);
        assert(whole[0] == parts[0]);
    } else {
        assert(whole.skip(1) =~= parts.skip(1).push(x));
        lemma_join_with_push(parts.skip(1), x, sep);
        assert(whole[0] == parts[0]);
        assert(parts[0] + sep + (join_with(parts.skip(1), sep) + sep + x) =~= (parts[0] + sep
            + join_with(parts.skip(1), sep)) + sep + x);
    }
}

fn join_strings(parts: &Vec<String>, sep: &str) -> (r: String)
    ensures
        r@ == join_with(parts.deep_view(), sep@),
{
    let mut out = String::new();
    let mut i: usize = 0;
    proof {
        assert(parts.deep_view().take(0) =~= Seq::<Seq<char>>::empty());
    }
    while i < parts.len()
        invariant
            i <= parts@.len(),
            parts.deep_view().len() == parts@.len(),
            forall|j: int| 0 <= j < parts@.len() ==> parts.deep_view()[j] == parts@[j]@,
            out@ == join_with(parts.deep_view().take(i as int), sep@),
        decreases parts@.len() - i,
    {
        proof {
            assert(parts.deep_view().take(i + 1) =~= parts.deep_view().take(i as int).push(
                parts.deep_view()[i as int],
            ));
            lemma_join_with_push(parts.deep_view().take(i as int), parts.deep_view()[i as int], sep@);
        }
        if i > 0 {
            out.append(sep);
        }
        out.append(parts[i].as_str());
        i = i + 1;
    }
    proof {
        assert(parts.deep_view().take(parts@.len() as int) =~= parts.deep_view());
    }
    out
}

impl MatchSet {
    /// The captured texts of this line, in order, dropping the literal
    /// segments: the contents of one structured export row.
    pub fn to_strings(&self) -> (r: Vec<String>)
        ensures
            r.deep_view() == group_texts(self.items@),
    {
        let mut res: Vec<String> = Vec::new();
        let mut i: usize = 0;
        proof {
            assert(self.items@.take(0) =~= Seq::<MatchType>::empty());
            reveal(Seq::filter);
            assert(res.deep_view() =~= group_texts(self.items@.take(0)));
        }
        while i < self.items.len()
            invariant
                i <= self.items@.len(),
                res.deep_view() == group_texts(self.items@.take(i as int)),
            decreases self.items@.len() - i,
        {
            let ghost prev = res.deep_view();
            proof {
                assert(self.items@.take(i + 1) =~= self.items@.take(i as int).push(
                    self.items@[i as int],
                ));
                lemma_group_texts_push(self.items@.take(i as int), self.items@[i as int]);
            }
            match &self.items[i] {
                MatchType::Group(s) => {
                    res.push(s.clone());
                    proof {
                        assert(res.deep_view() =~= prev.push(self.items@[i as int]->Group_0@));
                    }
                },
                MatchType::Normal(_) => {},
            }
            i = i + 1;
        }
        proof {
            assert(self.items@.take(self.items@.len() as int) =~= self.items@);
        }
        res
    }

    /// The captured texts joined by commas.
    pub fn to_csv_row(&self) -> (r: String)
        ensures
            r@ == join_with(group_texts(self.items@), ","@),
    {
        join_strings(&self.to_strings(), ",")
    }

    /// The captured texts joined by tabs.
    pub fn to_tsv_row(&self) -> (r: String)
        ensures
            r@ == join_with(group_texts(self.items@), "\t"@),
    {
        join_strings(&self.to_strings(), "\t")
    }
}

impl Default for MatchSet {
    /// An empty segment list over the empty line.
    fn default() -> (r: MatchSet)
        ensures
            r.items@ == Seq::<MatchType>::empty(),
            r.full_text@ == Seq::<char>::empty(),
    {
        MatchSet { items: Vec::new(), full_text: String::new() }
    }
}

/// Split a line into segments, one [`MatchType::Group`] per participating
/// capture range in order, with literals filling every gap.  The result is
/// exactly [`segments_of`] applied to the line and the ranges, and its
/// segment texts concatenate back to the line.
pub fn into_matchset(full_text: &str, ranges: &Vec<CaptureRange>) -> (r: MatchSet)
    requires
        ranges_wf(ranges@, full_text@.len()),
    ensures
        r.full_text@ == full_text@,
        segs_view(r.items@) == segments_of(full_text@, ranges@),
        concat_texts(segs_view(r.items@)) == full_text@,
{
    proof {
        lemma_segments_round_trip(full_text@, ranges@);
    }
    let text_len: usize = full_text.unicode_len();
    let mut items: Vec<MatchType> = Vec::new();
    if ranges.len() == 0 {
        let whole = MatchType::Normal(full_text.to_owned());
        proof {
            lemma_segs_view_push(items@, whole);
        }
        items.push(whole);
        proof {
            assert(segs_view(Seq::<MatchType>::empty()) =~= Seq::<(bool, Seq<char>)>::empty());
            assert(segs_view(items@) =~= segments_of(full_text@, ranges@));
        }
    } else {
        let mut cur: usize = 0;
        let mut i: usize = 0;
        proof {
            assert(ranges@.skip(0) =~= ranges@);
            assert(segs_view(items@) =~= Seq::<(bool, Seq<char>)>::empty());
            assert(Seq::<(bool, Seq<char>)>::empty() + segs_from(full_text@, ranges@, 0)
                =~= segs_from(full_text@, ranges@, 0));
        }
        while i < ranges.len()
            invariant
                ranges_wf(ranges@, full_text@.len()),
                text_len == full_text@.len(),
                0 < ranges@.len(),
                i <= ranges@.len(),
                cur <= full_text@.len(),
                i < ranges@.len() ==> cur <= ranges@[i as int].start,
                segs_view(items@) + segs_from(full_text@, ranges@.skip(i as int), cur as int)
                    == segments_of(full_text@, ranges@),
            decreases ranges@.len() - i,
        {
            let ghost prev_items = items@;
            let ghost prev_cur = cur as int;
            let ghost rem = ranges@.skip(i as int);
            proof {
                assert(rem[0] == ranges@[i as int]);
                assert(rem.skip(1) =~= ranges@.skip(i + 1));
                if i + 1 < ranges@.len() {
                    assert(ranges@.skip(i + 1)[0] == ranges@[i + 1]);
                }
            }
            let r = ranges[i];
            if cur < r.start {
                let s = full_text.substring_char(cur, r.start);
                let lit_seg = MatchType::Normal(s.to_owned());
                proof {
                    lemma_segs_view_push(items@, lit_seg);
                }
                items.push(lit_seg);
            }
            let c = full_text.substring_char(r.start, r.end);
            let cap_seg = MatchType::Group(c.to_owned());
            proof {
                lemma_segs_view_push(items@, cap_seg);
            }
            items.push(cap_seg);
            proof {
                let lit = seq![(false, full_text@.subrange(prev_cur, r.start as int))];
                let cap = seq![(true, full_text@.subrange(r.start as int, r.end as int))];
                let rest = segs_from(full_text@, ranges@.skip(i + 1), r.end as int);
                assert(segs_from(full_text@, rem, prev_cur) == if prev_cur < r.start {
                    lit + (cap + rest)
                } else {
                    cap + rest
                });
                if prev_cur < r.start {
                    assert(segs_view(items@) =~= segs_view(prev_items) + lit + cap);
                    assert(segs_view(items@) + rest =~= segs_view(prev_items) + (lit + (cap
                        + rest)));
                } else {
                    assert(segs_view(items@) =~= segs_view(prev_items) + cap);
                    assert(segs_view(items@) + rest =~= segs_view(prev_items) + (cap + rest));
                }
            }
            cur = r.end;
            i = i + 1;
        }
        if cur < text_len {
            let s = full_text.substring_char(cur, text_len);
            let tail_seg = MatchType::Normal(s.to_owned());
            let ghost prev_items = items@;
            proof {
                lemma_segs_view_push(items@, tail_seg);
            }
            items.push(tail_seg);
            proof {
                assert(segs_view(items@) =~= segs_view(prev_items) + seq![
                    (false, full_text@.subrange(cur as int, full_text@.len() as int)),
                ]);
            }
        } else {
            proof {
                assert(segs_from(full_text@, ranges@.skip(ranges@.len() as int), cur as int)
                    =~= Seq::<(bool, Seq<char>)>::empty());
                assert(segs_view(items@) =~= segs_view(items@) + Seq::<(
                    bool,
                    Seq<char>,
                )>::empty());
            }
        }
    }
    MatchSet { items, full_text: full_text.to_owned() }
}

/// `cr` is the codepoint form of the byte-offset span `sp`.
pub open spec fn span_converted(t: Seq<char>, sp: (usize, usize), cr: CaptureRange) -> bool {
    is_char_pos(t, sp.0 as int, cr.start as int) && is_char_pos(t, sp.1 as int, cr.end as int)
}

/// `rs` is the codepoint form of the byte-offset spans `spans`, element
/// by element.
pub open spec fn spans_to_ranges_ok(
    t: Seq<char>,
    spans: Seq<(usize, usize)>,
    rs: Seq<CaptureRange>,
) -> bool {
    &&& rs.len() == spans.len()
    &&& forall|i: int| 0 <= i < spans.len() ==> span_converted(t, #[trigger] spans[i], rs[i])
}

/// At most one range list is the codepoint form of a given span list.
pub proof fn lemma_spans_to_ranges_unique(
    t: Seq<char>,
    spans: Seq<(usize, usize)>,
    rs1: Seq<CaptureRange>,
    rs2: Seq<CaptureRange>,
)
    requires
        spans_to_ranges_ok(t, spans, rs1),
        spans_to_ranges_ok(t, spans, rs2),
    ensures
        rs1 == rs2,
{
    assert forall|i: int| 0 <= i < rs1.len() implies rs1[i] == rs2[i] by {
        assert(span_converted(t, spans[i], rs1[i]));
        assert(span_converted(t, spans[i], rs2[i]));
        lemma_char_pos_unique(t, spans[i].0 as int, rs1[i].start as int, rs2[i].start as int);
        lemma_char_pos_unique(t, spans[i].1 as int, rs1[i].end as int, rs2[i].end as int);
    }
    assert(rs1 =~= rs2);
}

/// Convert byte-offset spans into codepoint ranges, or `None` when some
/// offset does not fall on a codepoint boundary of the line.
pub fn spans_to_ranges(line: &str, spans: &Vec<(usize, usize)>) -> (r: Option<Vec<CaptureRange>>)
    ensures
        match r {
            Some(rs) => spans_to_ranges_ok(line@, spans@, rs@),
            None => forall|rs: Seq<CaptureRange>| !spans_to_ranges_ok(line@, spans@, rs),
        },
{
    let mut out: Vec<CaptureRange> = Vec::new();
    let mut i: usize = 0;
    while i < spans.len()
        invariant
            i <= spans@.len(),
            out@.len() == i,
            forall|j: int| 0 <= j < i ==> span_converted(line@, #[trigger] spans@[j], out@[j]),
        decreases spans@.len() - i,
    {
        let sp = spans[i];
        let s = char_pos_of_byte(line, sp.0);
        let e = char_pos_of_byte(line, sp.1);
        match (s, e) {
            (Some(cs), Some(ce)) => {
                out.push(CaptureRange { start: cs, end: ce });
            },
            _ => {
                proof {
                    assert forall|rs: Seq<CaptureRange>| !spans_to_ranges_ok(
                        line@,
                        spans@,
                        rs,
                    ) by {
                        if spans_to_ranges_ok(line@, spans@, rs) {
                            assert(span_converted(line@, spans@[i as int], rs[i as int]));
                        }
                    }
                }
                return None;
            },
        }
        i = i + 1;
    }
    Some(out)
}

/// Check at run time that a range list is well formed for a line of
/// `len` codepoints.
pub fn ranges_wf_check(rs: &Vec<CaptureRange>, len: usize) -> (r: bool)
    ensures
        r == ranges_wf(rs@, len as nat),
{
    let mut i: usize = 0;
    while i < rs.len()
        invariant
            i <= rs@.len(),
            forall|j: int| 0 <= j < i ==> (#[trigger] rs@[j]).start <= rs@[j].end <= len,
            forall|j: int| 0 < j < i ==> (#[trigger] rs@[j]).start >= rs@[j - 1].end,
        decreases rs@.len() - i,
    {
        let cr = rs[i];
        if cr.start > cr.end || cr.end > len {
            return false;
        }
        if i > 0 && cr.start < rs[i - 1].end {
            return false;
        }
        i = i + 1;
    }
    true
}

/// What the segments of one matching line must be.  The byte-offset group
/// spans of the first match have at most one codepoint form; when that
/// form exists and is well ordered, the segments are exactly the
/// segmenter's output on it, and otherwise the whole line stands as one
/// literal segment.
pub open spec fn line_segments_ok(pat: Seq<char>, line: Seq<char>, segs: Seq<(bool, Seq<char>)>) -> bool {
    let spans = participating(capture_spans(pat, line));
    &&& forall|rs: Seq<CaptureRange>|
        (#[trigger] spans_to_ranges_ok(line, spans, rs)) && ranges_wf(rs, line.len()) ==> segs
            == segments_of(line, rs)
    &&& !(exists|rs: Seq<CaptureRange>|
        (#[trigger] spans_to_ranges_ok(line, spans, rs)) && ranges_wf(rs, line.len())) ==> segs
        == seq![(false, line)]
}

/// Segment one line against a pattern: `None` when the pattern does not
/// match the line, otherwise the line's [`MatchSet`].
fn segment_line(re: &Pattern, line: &str) -> (r: Option<MatchSet>)
    ensures
        r is Some <==> regex_match(re@, line@),
        r is Some ==> r->Some_0.full_text@ == line@,
        r is Some ==> line_segments_ok(re@, line@, segs_view(r->Some_0.items@)),
{
    let ghost spans_spec = participating(capture_spans(re@, line@));
    match re.captures(line) {
        None => None,
        Some(caps) => {
            let spans = group_spans(&caps);
            let empty_ranges: Vec<CaptureRange> = Vec::new();
            match spans_to_ranges(line, &spans) {
                Some(rs) => {
                    if ranges_wf_check(&rs, line.unicode_len()) {
                        let ms = into_matchset(line, &rs);
                        proof {
                            assert forall|rs2: Seq<CaptureRange>|
                                (#[trigger] spans_to_ranges_ok(line@, spans_spec, rs2))
                                    && ranges_wf(rs2, line@.len()) implies segs_view(ms.items@)
                                == segments_of(line@, rs2) by {
                                lemma_spans_to_ranges_unique(line@, spans_spec, rs2, rs@);
                            }
                        }
                        Some(ms)
                    } else {
                        let ms = into_matchset(line, &empty_ranges);
                        proof {
                            assert forall|rs2: Seq<CaptureRange>| !((
                            #[trigger] spans_to_ranges_ok(line@, spans_spec, rs2)) && ranges_wf(
                                rs2,
                                line@.len(),
                            )) by {
                                if spans_to_ranges_ok(line@, spans_spec, rs2) {
                                    lemma_spans_to_ranges_unique(line@, spans_spec, rs2, rs@);
                                }
                            }
                            assert(segments_of(line@, empty_ranges@) =~= seq![(false, line@)]);
                        }
                        Some(ms)
                    }
                },
                None => {
                    let ms = into_matchset(line, &empty_ranges);
                    proof {
                        assert(segments_of(line@, empty_ranges@) =~= seq![(false, line@)]);
                    }
                    Some(ms)
                },
            }
        },
    }
}

/// The lines of the corpus that the pattern matches, in corpus order.
pub open spec fn matching_lines(pat: Seq<char>, lines: Seq<Seq<char>>) -> Seq<Seq<char>> {
    lines.filter(|l: Seq<char>| regex_match(pat, l))
}

/// Appending one line extends the matching lines by that line exactly
/// when the pattern matches it.
pub proof fn lemma_matching_lines_push(pat: Seq<char>, lines: Seq<Seq<char>>, x: Seq<char>)
    ensures
        matching_lines(pat, lines.push(x)) == if regex_match(pat, x) {
            matching_lines(pat, lines).push(x)
        } else {
            matching_lines(pat, lines)
        },
{
    reveal(Seq::filter);
    assert(lines.push(x).drop_last() =~= lines);
    assert(lines.push(x).last() == x);
}

/// `sets` is the filtered, segmented view of the corpus under the
/// pattern: one entry per matching line, in corpus order, each carrying
/// that line as its full text and segmented as [`line_segments_ok`]
/// demands.
pub open spec fn preview_ok(pat: Seq<char>, corpus: Seq<Seq<char>>, sets: Seq<MatchSet>) -> bool {
    &&& sets.len() == matching_lines(pat, corpus).len()
    &&& forall|i: int| 0 <= i < sets.len() ==> (#[trigger] sets[i]).full_text@ == matching_lines(
        pat,
        corpus,
    )[i]
    &&& forall|i: int| 0 <= i < sets.len() ==> line_segments_ok(
        pat,
        matching_lines(pat, corpus)[i],
        segs_view((#[trigger] sets[i]).items@),
    )
}

/// Order and uniqueness of filtering: there is a strictly increasing
/// list of corpus positions, one per filtered line, each holding an
/// equal line that the pattern matches — so the filtered output is an
/// order-preserving subsequence of the corpus in which no corpus line is
/// used twice — and every corpus position whose line matches appears in
/// the list, so no matching line is dropped.
pub proof fn lemma_filter_order_uniqueness(pat: Seq<char>, lines: Seq<Seq<char>>) -> (idxs: Seq<
    int,
>)
    ensures
        idxs.len() == matching_lines(pat, lines).len(),
        forall|k: int| 0 <= k < idxs.len() ==> 0 <= #[trigger] idxs[k] < lines.len(),
        forall|k: int| 0 < k < idxs.len() ==> idxs[k - 1] < #[trigger] idxs[k],
        forall|k: int| 0 <= k < idxs.len() ==> matching_lines(pat, lines)[k] == lines[#[trigger] idxs[k]],
        forall|k: int| 0 <= k < idxs.len() ==> regex_match(pat, lines[#[trigger] idxs[k]]),
        forall|j: int| 0 <= j < lines.len() && regex_match(pat, #[trigger] lines[j])
            ==> idxs.contains(j),
    decreases lines.len(),
{
    reveal(Seq::filter);
    if lines.len() == 0 {
        Seq::empty()
    } else {
        let front = lines.drop_last();
        let last = lines.last();
        let sub = lemma_filter_order_uniqueness(pat, front);
        if regex_match(pat, last) {
            let idxs = sub.push(lines.len() - 1);
            assert forall|j: int| 0 <= j < lines.len() && regex_match(
                pat,
                #[trigger] lines[j],
            ) implies idxs.contains(j) by {
                if j < lines.len() - 1 {
                    assert(front[j] == lines[j]);
                    assert(sub.contains(j));
                    let k = choose|k: int| 0 <= k < sub.len() && sub[k] == j;
                    assert(idxs[k] == j);
                } else {
                    assert(idxs[idxs.len() - 1] == j);
                }
            }
            assert forall|k: int| 0 <= k < idxs.len() implies matching_lines(pat, lines)[k]
                == lines[#[trigger] idxs[k]] && regex_match(pat, lines[idxs[k]]) by {
                if k < idxs.len() - 1 {
                    assert(matching_lines(pat, front)[k] == front[sub[k]]);
                }
            }
            idxs
        } else {
            assert forall|j: int| 0 <= j < lines.len() && regex_match(
                pat,
                #[trigger] lines[j],
            ) implies sub.contains(j) by {
                assert(j < lines.len() - 1);
                assert(front[j] == lines[j]);
            }
            assert forall|k: int| 0 <= k < sub.len() implies matching_lines(pat, lines)[k]
                == lines[#[trigger] sub[k]] && regex_match(pat, lines[sub[k]]) by {
                assert(matching_lines(pat, front)[k] == front[sub[k]]);
            }
            sub
        }
    }
}

/// Filter the corpus by the pattern and segment each matching line: one
/// [`MatchSet`] per matching line, in corpus order, each line segmented
/// as [`line_segments_ok`] demands.
pub fn into_matchsets(contents: &Vec<String>, re: &Pattern) -> (r: Vec<MatchSet>)
    ensures
        preview_ok(re@, contents.deep_view(), r@),
{
    let ghost dv = contents.deep_view();
    let mut out: Vec<MatchSet> = Vec::new();
    let mut i: usize = 0;
    proof {
        reveal(Seq::filter);
        assert(dv.take(0) =~= Seq::<Seq<char>>::empty());
        assert(matching_lines(re@, dv.take(0)).len() == 0);
    }
    while i < contents.len()
        invariant
            i <= contents@.len(),
            dv == contents.deep_view(),
            dv.len() == contents@.len(),
            forall|j: int| 0 <= j < dv.len() ==> dv[j] == #[trigger] contents@[j]@,
            out@.len() == matching_lines(re@, dv.take(i as int)).len(),
            forall|j: int| 0 <= j < out@.len() ==> (#[trigger] out@[j]).full_text@
                == matching_lines(re@, dv.take(i as int))[j],
            forall|j: int| 0 <= j < out@.len() ==> line_segments_ok(
                re@,
                matching_lines(re@, dv.take(i as int))[j],
                segs_view((#[trigger] out@[j]).items@),
            ),
        decreases contents@.len() - i,
    {
        proof {
            assert(dv.take(i + 1) =~= dv.take(i as int).push(dv[i as int]));
            lemma_matching_lines_push(re@, dv.take(i as int), dv[i as int]);
        }
        match segment_line(re, contents[i].as_str()) {
            Some(ms) => {
                out.push(ms);
            },
            None => {},
        }
        i = i + 1;
    }
    proof {
        assert(dv.take(contents@.len() as int) =~= dv);
    }
    out
}

} // verus!
