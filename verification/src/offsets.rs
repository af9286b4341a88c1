//! Codepoint offsets from byte offsets.
//!
//! The regex engine reports spans as byte offsets into the UTF-8 encoding
//! of a line, while the segmenter and the editor count in codepoints.
//! This module locates the codepoint position of a byte offset, and shows
//! that such a position is unique when it exists.

use vstd::prelude::*;
use vstd::string::StrSliceExecFns;

verus! {

/// The number of bytes in the UTF-8 encoding of one character.
pub open spec fn char_width(c: char) -> int {
    if (c as u32) < 0x80 {
        1
    } else if (c as u32) < 0x800 {
        2
    } else if (c as u32) < 0x10000 {
        3
    } else {
        4
    }
}

/// The number of bytes in the UTF-8 encoding of a text.
pub open spec fn byte_len(t: Seq<char>) -> int
    decreases t.len(),
{
    if t.len() == 0 {
        0
    } else {
        byte_len(t.drop_last()) + char_width(t.last())
    }
}

/// `c` is the codepoint position in `t` whose byte offset is `b`.
pub open spec fn is_char_pos(t: Seq<char>, b: int, c: int) -> bool {
    0 <= c <= t.len() && byte_len(t.take(c)) == b
}

proof fn lemma_byte_len_take_succ(t: Seq<char>, c: int)
    requires
        0 <= c < t.len(),
    ensures
        byte_len(t.take(c + 1)) == byte_len(t.take(c)) + char_width(t[c]),
{
    assert(t.take(c + 1).drop_last() =~= t.take(c));
    assert(t.take(c + 1).last() == t[c]);
}

proof fn lemma_byte_len_mono(t: Seq<char>, c1: int, c2: int)
    requires
        0 <= c1 <= c2 <= t.len(),
    ensures
        byte_len(t.take(c1)) <= byte_len(t.take(c2)),
        c1 < c2 ==> byte_len(t.take(c1)) < byte_len(t.take(c2)),
    decreases c2 - c1,
{
    if c1 < c2 {
        lemma_byte_len_take_succ(t, c2 - 1);
        lemma_byte_len_mono(t, c1, c2 - 1);
    }
}

/// A byte offset falls on at most one codepoint position.
pub proof fn lemma_char_pos_unique(t: Seq<char>, b: int, c1: int, c2: int)
    requires
        is_char_pos(t, b, c1),
        is_char_pos(t, b, c2),
    ensures
        c1 == c2,
{
    if c1 < c2 {
        lemma_byte_len_mono(t, c1, c2);
    }
    if c2 < c1 {
        lemma_byte_len_mono(t, c2, c1);
    }
}

fn char_width_exec(c: char) -> (n: usize)
    ensures
        n as int == char_width(c),
{
    let u = c as u32;
    if u < 0x80 {
        1
    } else if u < 0x800 {
        2
    } else if u < 0x10000 {
        3
    } else {
        4
    }
}

/// The codepoint position in `line` of byte offset `b`, or `None` when
/// `b` does not fall on a codepoint boundary of the line.
pub fn char_pos_of_byte(line: &str, b: usize) -> (r: Option<usize>)
    ensures
        match r {
            Some(c) => is_char_pos(line@, b as int, c as int),
            None => forall|c: int| !is_char_pos(line@, b as int, c),
        },
{
    let len_chars: usize = line.unicode_len();
    let mut c: usize = 0;
    let mut rem: usize = b;
    proof {
        assert(line@.take(0) =~= Seq::<char>::empty());
    }
    loop
        invariant
            c <= len_chars,
            len_chars == line@.len(),
            rem <= b,
            byte_len(line@.take(c as int)) == b - rem,
        decreases len_chars - c, rem,
    {
        if rem == 0 {
            return Some(c);
        }
        if c >= len_chars {
            proof {
                assert forall|cc: int| !is_char_pos(line@, b as int, cc) by {
                    if 0 <= cc <= line@.len() {
                        lemma_byte_len_mono(line@, cc, line@.len() as int);
                        assert(line@.take(line@.len() as int) =~= line@);
                    }
                }
            }
            return None;
        }
        let w = char_width_exec(line.get_char(c));
        proof {
            lemma_byte_len_take_succ(line@, c as int);
        }
        if rem < w {
            proof {
                assert forall|cc: int| !is_char_pos(line@, b as int, cc) by {
                    if 0 <= cc <= c {
                        lemma_byte_len_mono(line@, cc, c as int);
                    } else if c < cc <= line@.len() {
                        lemma_byte_len_mono(line@, c + 1, cc);
                    }
                }
            }
            return None;
        }
        rem = rem - w;
        c = c + 1;
    }
}

} // verus!
