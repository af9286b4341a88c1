//! Highlight styling of matched lines for display.
//!
//! The same segmentation as [`crate::capture`], tagged for display: plain
//! stretches are [`ColorStyle::Normal`], captured stretches are
//! [`ColorStyle::Highlight`].  Rendering a highlight is delegated to the
//! `colored` crate, whose output depends on the environment; nothing more
//! than its around-the-text shape is assumed of it.

use crate::capture::into_matchset;
use crate::capture::line_segments_ok;
use crate::capture::matching_lines;
use crate::capture::ranges_wf;
use crate::capture::segments_of;
use crate::capture::segs_view;
use crate::capture::CaptureRange;
use crate::capture::MatchSet;
use crate::capture::MatchType;
use crate::pattern::Pattern;
use colored::Colorize;
use vstd::prelude::*;
use vstd::string::StringExecFns;

verus! {

/// One displayed segment of a matched line: plain text or a highlighted
/// capture.
#[derive(Clone, Debug, PartialEq, Eq)]
pub enum ColorStyle {
    Normal(String),
    Highlight(String),
}

/// Whether a displayed segment is highlighted.
pub open spec fn cs_is_highlight(c: ColorStyle) -> bool {
    c matches ColorStyle::Highlight(_)
}

/// The text a displayed segment carries.
pub open spec fn cs_text(c: ColorStyle) -> Seq<char> {
    match c {
        ColorStyle::Normal(s) => s@,
        ColorStyle::Highlight(s) => s@,
    }
}

/// The mathematical shape of a displayed segment list: highlight tag and
/// text, in order.
pub open spec fn cs_view(items: Seq<ColorStyle>) -> Seq<(bool, Seq<char>)> {
    items.map_values(|c: ColorStyle| (cs_is_highlight(c), cs_text(c)))
}

/// Relies on colored's `Colorize::red` and its rendering: when the input
/// holds no escape character the output is the input with some prefix
/// and suffix around it — the style codes, or nothing when colouring is
/// off for this environment.  Which of the two appears depends on the
/// environment, so nothing more is claimed.
#[verifier::external_body]
fn red_string(s: &str) -> (r: String)
    ensures
        !s@.contains('\u{1b}') ==> exists|a: Seq<char>, b: Seq<char>|
            r@ == #[trigger] (a + s@ + b),
{
    s.red().to_string()
}

/// `p` is a faithful display form of the one segment `c`: a literal's
/// text stands verbatim, and an escape-free highlight's text stands with
/// some prefix and suffix around it — the style codes, or nothing.
pub open spec fn rendered_one(c: ColorStyle, p: Seq<char>) -> bool {
    match c {
        ColorStyle::Normal(s) => p == s@,
        ColorStyle::Highlight(s) => !s@.contains('\u{1b}') ==> exists|a: Seq<char>, b: Seq<char>|
            p == #[trigger] (a + s@ + b),
    }
}

/// `parts` is a faithful display form of the segments, piece by piece.
pub open spec fn rendered_parts(items: Seq<ColorStyle>, parts: Seq<Seq<char>>) -> bool {
    &&& parts.len() == items.len()
    &&& forall|i: int| 0 <= i < items.len() ==> rendered_one(#[trigger] items[i], parts[i])
}

/// The concatenation of a list of texts, in order.
pub open spec fn concat_all(parts: Seq<Seq<char>>) -> Seq<char>
    decreases parts.len(),
{
    if parts.len() == 0 {
        Seq::empty()
    } else {
        parts[0] + concat_all(parts.skip(1))
    }
}

proof fn lemma_concat_all_push(parts: Seq<Seq<char>>, x: Seq<char>)
    ensures
        concat_all(parts.push(x)) == concat_all(parts) + x,
    decreases parts.len(),
{
    let whole = parts.push(x);
    if parts.len() == 0 {
        assert(whole.skip(1) =~= Seq::<Seq<char>>::empty());
        assert(whole[0] == x);
        assert(concat_all(Seq::<Seq<char>>::empty()) == Seq::<char>::empty());
        assert(concat_all(whole) == x + Seq::<char>::empty());
        assert(x + Seq::<char>::empty() =~= x);
        assert(concat_all(parts) + x =~= x);
    } else {
        assert(whole.skip(1) =~= parts.skip(1).push(x));
        assert(whole[0] == parts[0]);
        lemma_concat_all_push(parts.skip(1), x);
        assert(parts[0] + (concat_all(parts.skip(1)) + x) =~= (parts[0] + concat_all(
            parts.skip(1),
        )) + x);
    }
}

impl ColorStyle {
    /// The display form of one segment: literal text stands as itself, a
    /// highlight is wrapped in whatever styling the environment calls
    /// for.
    pub fn render(&self) -> (r: String)
        ensures
            rendered_one(*self, r@),
    {
        match self {
            ColorStyle::Normal(s) => s.clone(),
            ColorStyle::Highlight(s) => red_string(s.as_str()),
        }
    }
}

/// Rendering a whole segmented line as one string.
pub trait Colorized {
    /// The concatenated display forms of the segments.
    fn highlight(&self) -> String;
}

impl Colorized for Vec<ColorStyle> {
    /// The concatenation, in order, of a faithful display form of each
    /// segment: literal texts verbatim, escape-free highlight texts with
    /// some prefix and suffix around them.  The exact styling depends on
    /// the environment, so no more is stated.
    fn highlight(&self) -> (r: String)
        ensures
            exists|parts: Seq<Seq<char>>| #[trigger] rendered_parts(self@, parts) && r@
                == concat_all(parts),
    {
        let mut out = String::new();
        let mut i: usize = 0;
        let ghost mut parts: Seq<Seq<char>> = Seq::empty();
        proof {
            assert(self@.take(0) =~= Seq::<ColorStyle>::empty());
        }
        while i < self.len()
            invariant
                i <= self@.len(),
                parts.len() == i,
                rendered_parts(self@.take(i as int), parts),
                out@ == concat_all(parts),
            decreases self@.len() - i,
        {
            let part = self[i].render();
            proof {
                lemma_concat_all_push(parts, part@);
            }
            out.append(part.as_str());
            proof {
                let ghost prev = parts;
                parts = parts.push(part@);
                assert(self@.take(i + 1) =~= self@.take(i as int).push(self@[i as int]));
                assert forall|j: int| 0 <= j < i + 1 implies rendered_one(
                    #[trigger] self@.take(i + 1)[j],
                    parts[j],
                ) by {
                    if j < i {
                        assert(self@.take(i + 1)[j] == self@.take(i as int)[j]);
                        assert(parts[j] == prev[j]);
                    }
                }
            }
            i = i + 1;
        }
        proof {
            assert(self@.take(self@.len() as int) =~= self@);
        }
        out
    }
}

proof fn lemma_cs_view_push(items: Seq<ColorStyle>, c: ColorStyle)
    ensures
        cs_view(items.push(c)) == cs_view(items).push((cs_is_highlight(c), cs_text(c))),
{
    assert(cs_view(items.push(c)) =~= cs_view(items).push((cs_is_highlight(c), cs_text(c))));
}

/// The display form of a segmented line: the same segments, tagged for
/// highlighting.
fn styles_of(ms: &MatchSet) -> (r: Vec<ColorStyle>)
    ensures
        cs_view(r@) == segs_view(ms.items@),
{
    let mut out: Vec<ColorStyle> = Vec::new();
    let mut i: usize = 0;
    proof {
        assert(ms.items@.take(0) =~= Seq::<MatchType>::empty());
        assert(cs_view(out@) =~= segs_view(ms.items@.take(0)));
    }
    while i < ms.items.len()
        invariant
            i <= ms.items@.len(),
            cs_view(out@) == segs_view(ms.items@.take(i as int)),
        decreases ms.items@.len() - i,
    {
        proof {
            assert(ms.items@.take(i + 1) =~= ms.items@.take(i as int).push(ms.items@[i as int]));
            assert(segs_view(ms.items@.take(i + 1)) =~= segs_view(ms.items@.take(i as int)).push(
                (
                    crate::capture::seg_is_group(ms.items@[i as int]),
                    crate::capture::seg_text(ms.items@[i as int]),
                ),
            ));
        }
        let ghost prev = out@;
        match &ms.items[i] {
            MatchType::Normal(s) => {
                let c = ColorStyle::Normal(s.clone());
                proof {
                    lemma_cs_view_push(prev, c);
                }
                out.push(c);
            },
            MatchType::Group(s) => {
                let c = ColorStyle::Highlight(s.clone());
                proof {
                    lemma_cs_view_push(prev, c);
                }
                out.push(c);
            },
        }
        i = i + 1;
    }
    proof {
        assert(ms.items@.take(ms.items@.len() as int) =~= ms.items@);
    }
    out
}

/// Split a line on its capture ranges and tag the segments for display:
/// exactly the segmenter's segments, as [`ColorStyle`] values.
pub fn split_on_matches(full_text: &str, ranges: &Vec<CaptureRange>) -> (r: Vec<ColorStyle>)
    requires
        ranges_wf(ranges@, full_text@.len()),
    ensures
        cs_view(r@) == segments_of(full_text@, ranges@),
{
    let ms = into_matchset(full_text, ranges);
    styles_of(&ms)
}

/// The lines of the corpus that the pattern matches, in corpus order,
/// duplicates kept as the corpus has them.
pub fn filter_matches(contents: &Vec<String>, re: &Pattern) -> (r: Vec<String>)
    ensures
        r.deep_view() == matching_lines(re@, contents.deep_view()),
{
    let ghost dv = contents.deep_view();
    let mut out: Vec<String> = Vec::new();
    let mut i: usize = 0;
    proof {
        assert(dv.take(0) =~= Seq::<Seq<char>>::empty());
        reveal(Seq::filter);
        assert(out.deep_view() =~= matching_lines(re@, dv.take(0)));
    }
    while i < contents.len()
        invariant
            i <= contents@.len(),
            dv == contents.deep_view(),
            dv.len() == contents@.len(),
            forall|j: int| 0 <= j < dv.len() ==> dv[j] == #[trigger] contents@[j]@,
            out.deep_view() == matching_lines(re@, dv.take(i as int)),
        decreases contents@.len() - i,
    {
        proof {
            assert(dv.take(i + 1) =~= dv.take(i as int).push(dv[i as int]));
            crate::capture::lemma_matching_lines_push(re@, dv.take(i as int), dv[i as int]);
        }
        let ghost prev = out.deep_view();
        if re.is_match(contents[i].as_str()) {
            out.push(contents[i].clone());
            proof {
                assert(out.deep_view() =~= prev.push(dv[i as int]));
            }
        }
        i = i + 1;
    }
    proof {
        assert(dv.take(contents@.len() as int) =~= dv);
    }
    out
}

/// Filter the corpus by the pattern and tag each matching line's
/// segments for display, in corpus order.
pub fn collect_matches(contents: &Vec<String>, re: &Pattern) -> (r: Vec<Vec<ColorStyle>>)
    ensures
        r@.len() == matching_lines(re@, contents.deep_view()).len(),
        forall|i: int| 0 <= i < r@.len() ==> line_segments_ok(
            re@,
            matching_lines(re@, contents.deep_view())[i],
            cs_view((#[trigger] r@[i])@),
        ),
{
    let sets = crate::capture::into_matchsets(contents, re);
    let mut out: Vec<Vec<ColorStyle>> = Vec::new();
    let mut i: usize = 0;
    while i < sets.len()
        invariant
            i <= sets@.len(),
            out@.len() == i,
            sets@.len() == matching_lines(re@, contents.deep_view()).len(),
            forall|j: int| 0 <= j < sets@.len() ==> line_segments_ok(
                re@,
                matching_lines(re@, contents.deep_view())[j],
                segs_view((#[trigger] sets@[j]).items@),
            ),
            forall|j: int| 0 <= j < i ==> cs_view((#[trigger] out@[j])@) == segs_view(
                sets@[j].items@,
            ),
        decreases sets@.len() - i,
    {
        let styles = styles_of(&sets[i]);
        out.push(styles);
        i = i + 1;
    }
    out
}

} // verus!
