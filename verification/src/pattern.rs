//! The compiled pattern and the trusted boundary to the regex engine.
//!
//! A [`Pattern`] pairs a compiled `regex::Regex` with the text it was
//! compiled from; it is only ever built here, so everything the engine
//! computes can be described as a function of that text.  The engine's
//! answers are named by uninterpreted spec functions: what they are on
//! given inputs is never stated, only that they depend on the pattern
//! text and the haystack alone.

use vstd::prelude::*;

verus! {

#[verifier::external_type_specification]
#[verifier::external_body]
pub struct ExRegex(regex::Regex);

#[verifier::external_type_specification]
#[verifier::external_body]
pub struct ExCaptures<'h>(regex::Captures<'h>);

/// Whether a pattern text is valid regular-expression syntax.
pub uninterp spec fn pattern_ok(pat: Seq<char>) -> bool;

/// Whether the pattern matches somewhere in the line.
pub uninterp spec fn regex_match(pat: Seq<char>, line: Seq<char>) -> bool;

/// The group spans of the first (leftmost) match of the pattern in the
/// line, one entry per capture group of the pattern with the whole match
/// first, `None` for a group that did not participate; spans are byte
/// offsets into the line's UTF-8 form.
pub uninterp spec fn capture_spans(pat: Seq<char>, line: Seq<char>) -> Seq<Option<(usize, usize)>>;

/// The group spans a `regex::Captures` value holds, in group order with
/// the whole match first.
pub uninterp spec fn caps_spans(caps: regex::Captures) -> Seq<Option<(usize, usize)>>;

/// A compiled pattern, remembering the text it was compiled from.  Its
/// view is that text.
pub struct Pattern {
    re: regex::Regex,
    text: String,
}

impl View for Pattern {
    type V = Seq<char>;

    closed spec fn view(&self) -> Seq<char> {
        self.text@
    }
}

impl Pattern {
    /// Relies on `Regex::new`: compilation succeeds exactly on valid
    /// pattern syntax, and deterministically in the pattern text.
    #[verifier::external_body]
    pub fn compile(text: &str) -> (r: Option<Pattern>)
        ensures
            r is Some <==> pattern_ok(text@),
            r is Some ==> r->Some_0@ == text@,
    {
        match regex::Regex::new(text) {
            Ok(re) => Some(Pattern { re, text: text.to_string() }),
            Err(_) => None,
        }
    }

    /// Relies on `Regex::new`: the empty pattern is valid syntax, so this
    /// never fails.
    #[verifier::external_body]
    pub fn empty() -> (r: Pattern)
        ensures
            r@ == Seq::<char>::empty(),
    {
        Pattern { re: regex::Regex::new("").unwrap(), text: String::new() }
    }

    /// The text this pattern was compiled from.
    pub fn as_str(&self) -> (r: &str)
        ensures
            r@ == self@,
    {
        self.text.as_str()
    }

    /// Relies on `Regex::is_match`: true exactly when the pattern matches
    /// somewhere in the line, deterministically in pattern text and line.
    #[verifier::external_body]
    pub fn is_match(&self, line: &str) -> (r: bool)
        ensures
            r == regex_match(self@, line@),
    {
        self.re.is_match(line)
    }

    /// Relies on `Regex::captures`: the result is `Some` exactly when the
    /// pattern matches, and then holds the group spans of the first
    /// (leftmost) match, a function of pattern text and line alone; the
    /// span list is never empty, since the whole match is its first entry.
    #[verifier::external_body]
    pub fn captures<'h>(&self, line: &'h str) -> (r: Option<regex::Captures<'h>>)
        ensures
            r is Some <==> regex_match(self@, line@),
            r is Some ==> caps_spans(r->Some_0) == capture_spans(self@, line@),
            r is Some ==> caps_spans(r->Some_0).len() >= 1,
    {
        self.re.captures(line)
    }
}

/// Relies on `Captures::len`: the number of capture groups of the
/// pattern plus one for the whole match, participating or not.
#[verifier::external_body]
pub fn caps_len(caps: &regex::Captures) -> (r: usize)
    ensures
        r as int == caps_spans(*caps).len(),
{
    caps.len()
}

/// Relies on `Captures::get`: the byte-offset span of group `i` of the
/// match, or `None` when the group is out of range or did not
/// participate in the match.
#[verifier::external_body]
pub fn caps_get(caps: &regex::Captures, i: usize) -> (r: Option<(usize, usize)>)
    ensures
        i < caps_spans(*caps).len() ==> r == caps_spans(*caps)[i as int],
        i >= caps_spans(*caps).len() ==> r is None,
{
    caps.get(i).map(|m| (m.start(), m.end()))
}

/// The spans of the participating capture groups, in group order, the
/// whole-match span dropped.
pub open spec fn participating(spans: Seq<Option<(usize, usize)>>) -> Seq<(usize, usize)> {
    spans.skip(1).filter(|o: Option<(usize, usize)>| o is Some).map_values(
        |o: Option<(usize, usize)>| o->Some_0,
    )
}

proof fn lemma_participating_push(s: Seq<Option<(usize, usize)>>, x: Option<(usize, usize)>)
    requires
        s.len() >= 1,
    ensures
        participating(s.push(x)) == if x is Some {
            participating(s).push(x->Some_0)
        } else {
            participating(s)
        },
{
    reveal(Seq::filter);
    let pred = |o: Option<(usize, usize)>| o is Some;
    let lift = |o: Option<(usize, usize)>| o->Some_0;
    let tail = s.skip(1);
    assert(s.push(x).skip(1) =~= tail.push(x));
    assert(tail.push(x).drop_last() =~= tail);
    assert(tail.push(x).last() == x);
    if x is Some {
        assert(tail.push(x).filter(pred) == tail.filter(pred).push(x));
        assert(tail.filter(pred).push(x).map_values(lift) =~= tail.filter(pred).map_values(
            lift,
        ).push(x->Some_0));
    }
}

/// The byte-offset spans of the participating capture groups held by a
/// `Captures` value, in group order.
pub fn group_spans(caps: &regex::Captures) -> (r: Vec<(usize, usize)>)
    requires
        caps_spans(*caps).len() >= 1,
    ensures
        r@ == participating(caps_spans(*caps)),
{
    let n: usize = caps_len(caps);
    let mut out: Vec<(usize, usize)> = Vec::new();
    let ghost spans = caps_spans(*caps);
    let mut i: usize = 1;
    proof {
        reveal(Seq::filter);
        assert(spans.take(1).skip(1) =~= Seq::<Option<(usize, usize)>>::empty());
        assert(out@ =~= participating(spans.take(1)));
    }
    while i < n
        invariant
            1 <= i <= n,
            n as int == spans.len(),
            spans == caps_spans(*caps),
            out@ == participating(spans.take(i as int)),
        decreases n - i,
    {
        proof {
            assert(spans.take(i + 1) =~= spans.take(i as int).push(spans[i as int]));
            lemma_participating_push(spans.take(i as int), spans[i as int]);
        }
        match caps_get(caps, i) {
            Some(sp) => {
                out.push(sp);
            },
            None => {},
        }
        i = i + 1;
    }
    proof {
        assert(spans.take(n as int) =~= spans);
    }
    out
}

} // verus!
