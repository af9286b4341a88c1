//! The editable pattern buffer: text, cursor and mode.
//!
//! The cursor is measured in codepoints and always satisfies
//! `0 <= cursor <= length(text)`, so no operation can split a multi-byte
//! character or run past either end of the buffer.

use vstd::prelude::*;
use vstd::string::StrSliceExecFns;
use vstd::string::StringExecFns;

verus! {

/// Whether the session is navigating (`Normal`) or mutating the pattern
/// buffer (`Editing`).
pub enum InputMode {
    Normal,
    Editing,
}

/// The editable input line: its text, the session mode, and the cursor
/// index in codepoints.
pub struct Input {
    pub text: String,
    pub mode: InputMode,
    pub idx: usize,
}

/// Whether a character is whitespace: the Unicode `White_Space` set,
/// from the ASCII spaces up to the ideographic space.
pub open spec fn is_space_char(c: char) -> bool {
    let u = c as u32;
    ||| u == 0x20
    ||| 0x09 <= u <= 0x0d
    ||| u == 0x85
    ||| u == 0xa0
    ||| u == 0x1680
    ||| 0x2000 <= u <= 0x200a
    ||| u == 0x2028
    ||| u == 0x2029
    ||| u == 0x202f
    ||| u == 0x205f
    ||| u == 0x3000
}

fn is_space(c: char) -> (r: bool)
    ensures
        r == is_space_char(c),
{
    let u = c as u32;
    u == 0x20 || (0x09 <= u && u <= 0x0d) || u == 0x85 || u == 0xa0 || u == 0x1680 || (0x2000 <= u
        && u <= 0x200a) || u == 0x2028 || u == 0x2029 || u == 0x202f || u == 0x205f || u == 0x3000
}

/// The position of the first whitespace character at or after `j`, or
/// the text length when there is none.
pub open spec fn scan_forward(t: Seq<char>, j: int) -> int
    decreases t.len() - j,
{
    if j >= t.len() {
        t.len() as int
    } else if is_space_char(t[j]) {
        j
    } else {
        scan_forward(t, j + 1)
    }
}

/// Where a forward word-boundary jump from cursor `c` lands: the first
/// whitespace character strictly after `c`, or the end of the text.
pub open spec fn next_boundary_pos(t: Seq<char>, c: int) -> int {
    scan_forward(t, c + 1)
}

/// The position of the last whitespace character at or before `j`, or
/// `0` when there is none.
pub open spec fn scan_backward(t: Seq<char>, j: int) -> int
    decreases j,
{
    if j <= 0 {
        0
    } else if is_space_char(t[j]) {
        j
    } else {
        scan_backward(t, j - 1)
    }
}

/// Where a backward word-boundary jump from cursor `c` lands: the
/// nearest whitespace character strictly before `c`, or the start of the
/// text.
pub open spec fn prev_boundary_pos(t: Seq<char>, c: int) -> int {
    if c <= 0 {
        0
    } else {
        scan_backward(t, c - 1)
    }
}

/// Relies on `String::push`: appends exactly the one character.
#[verifier::external_body]
fn push_char(s: &mut String, c: char)
    ensures
        final(s)@ == old(s)@.push(c),
{
    s.push(c);
}

/// The operations of a cursor-based text editor.  Every operation keeps
/// the cursor inside the text, saturates instead of running past an end,
/// and leaves the mode alone; only `esc` changes the mode, and only
/// `add` and `delete` change the text.
pub trait Editable {
    /// The buffer text.
    spec fn buf(&self) -> Seq<char>;

    /// The cursor position, in codepoints.
    spec fn pos(&self) -> int;

    /// The current mode.
    spec fn mode_of(&self) -> InputMode;

    /// The cursor lies within the text.
    spec fn inv(&self) -> bool;

    /// Move the cursor one position left, saturating at the start.
    fn left(&mut self)
        requires
            old(self).inv(),
        ensures
            final(self).inv(),
            final(self).buf() == old(self).buf(),
            final(self).mode_of() == old(self).mode_of(),
            final(self).pos() == if old(self).pos() > 0 {
                old(self).pos() - 1
            } else {
                0
            },
    ;

    /// Move the cursor one position right, saturating at the end.
    fn right(&mut self)
        requires
            old(self).inv(),
        ensures
            final(self).inv(),
            final(self).buf() == old(self).buf(),
            final(self).mode_of() == old(self).mode_of(),
            final(self).pos() == if old(self).pos() < old(self).buf().len() {
                old(self).pos() + 1
            } else {
                old(self).buf().len() as int
            },
    ;

    /// Remove the character before the cursor, if any, and move the
    /// cursor back onto the gap it leaves.
    fn delete(&mut self)
        requires
            old(self).inv(),
        ensures
            final(self).inv(),
            final(self).mode_of() == old(self).mode_of(),
            old(self).pos() > 0 ==> {
                &&& final(self).buf() == old(self).buf().subrange(0, old(self).pos() - 1)
                    + old(self).buf().subrange(old(self).pos(), old(self).buf().len() as int)
                &&& final(self).pos() == old(self).pos() - 1
            },
            old(self).pos() == 0 ==> {
                &&& final(self).buf() == old(self).buf()
                &&& final(self).pos() == 0
            },
    ;

    /// Commit is handled by the session; the editor itself is unchanged.
    fn enter(&mut self)
        requires
            old(self).inv(),
        ensures
            final(self).inv(),
            final(self).buf() == old(self).buf(),
            final(self).mode_of() == old(self).mode_of(),
            final(self).pos() == old(self).pos(),
    ;

    /// Leave editing: the mode returns to `Normal`, the buffer and cursor
    /// stay as they are.
    fn esc(&mut self)
        requires
            old(self).inv(),
        ensures
            final(self).inv(),
            final(self).buf() == old(self).buf(),
            final(self).mode_of() == InputMode::Normal,
            final(self).pos() == old(self).pos(),
    ;

    /// Insert a character at the cursor and step over it.
    fn add(&mut self, c: char)
        requires
            old(self).inv(),
            old(self).buf().len() < usize::MAX,
        ensures
            final(self).inv(),
            final(self).mode_of() == old(self).mode_of(),
            final(self).buf() == old(self).buf().subrange(0, old(self).pos()) + seq![c] + old(
                self,
            ).buf().subrange(old(self).pos(), old(self).buf().len() as int),
            final(self).pos() == old(self).pos() + 1,
    ;

    /// Jump to the start of the text.
    fn home(&mut self)
        requires
            old(self).inv(),
        ensures
            final(self).inv(),
            final(self).buf() == old(self).buf(),
            final(self).mode_of() == old(self).mode_of(),
            final(self).pos() == 0,
    ;

    /// Jump to the end of the text.
    fn end(&mut self)
        requires
            old(self).inv(),
        ensures
            final(self).inv(),
            final(self).buf() == old(self).buf(),
            final(self).mode_of() == old(self).mode_of(),
            final(self).pos() == old(self).buf().len() as int,
    ;

    /// Jump forward to the next word boundary: the first whitespace
    /// character strictly after the cursor, or the end of the text when
    /// there is none.
    fn next_boundary(&mut self)
        requires
            old(self).inv(),
        ensures
            final(self).inv(),
            final(self).buf() == old(self).buf(),
            final(self).mode_of() == old(self).mode_of(),
            final(self).pos() == next_boundary_pos(old(self).buf(), old(self).pos()),
    ;

    /// Jump backward to the previous word boundary: the nearest
    /// whitespace character strictly before the cursor, or the start of
    /// the text when there is none.
    fn previous_boundary(&mut self)
        requires
            old(self).inv(),
        ensures
            final(self).inv(),
            final(self).buf() == old(self).buf(),
            final(self).mode_of() == old(self).mode_of(),
            final(self).pos() == prev_boundary_pos(old(self).buf(), old(self).pos()),
    ;
}

impl Input {
    /// The cursor position, in codepoints.
    pub open spec fn cursor(&self) -> int {
        self.idx as int
    }

    /// The cursor lies within the text.
    pub open spec fn wf(&self) -> bool {
        0 <= self.cursor() <= self.text@.len()
    }

    /// The current cursor index.
    pub fn idx(&self) -> (r: &usize)
        ensures
            *r as int == self.cursor(),
    {
        &self.idx
    }
}

impl Default for Input {
    /// An empty buffer in `Normal` mode with the cursor at the start.
    fn default() -> (r: Input)
        ensures
            r.text@ == Seq::<char>::empty(),
            r.mode_of() == InputMode::Normal,
            r.cursor() == 0,
            r.wf(),
    {
        Input { text: String::new(), mode: InputMode::Normal, idx: 0 }
    }
}

impl Editable for Input {
    open spec fn buf(&self) -> Seq<char> {
        self.text@
    }

    open spec fn pos(&self) -> int {
        self.cursor()
    }

    open spec fn mode_of(&self) -> InputMode {
        self.mode
    }

    open spec fn inv(&self) -> bool {
        self.wf()
    }

    fn left(&mut self) {
        if self.idx > 0 {
            self.idx = self.idx - 1;
        }
    }

    fn right(&mut self) {
        let len: usize = self.text.as_str().unicode_len();
        if self.idx < len {
            self.idx = self.idx + 1;
        }
    }

    fn delete(&mut self) {
        if self.idx > 0 {
            let len: usize = self.text.as_str().unicode_len();
            let pre = self.text.as_str().substring_char(0, self.idx - 1);
            let suf = self.text.as_str().substring_char(self.idx, len);
            let mut out = pre.to_owned();
            out.append(suf);
            self.text = out;
            self.idx = self.idx - 1;
        }
    }

    fn enter(&mut self) {
    }

    fn esc(&mut self) {
        self.mode = InputMode::Normal;
    }

    fn add(&mut self, c: char) {
        let len: usize = self.text.as_str().unicode_len();
        let pre = self.text.as_str().substring_char(0, self.idx);
        let suf = self.text.as_str().substring_char(self.idx, len);
        let mut out = pre.to_owned();
        push_char(&mut out, c);
        out.append(suf);
        proof {
            assert(old(self).text@.subrange(0, old(self).cursor()).push(c) =~= old(
                self,
            ).text@.subrange(0, old(self).cursor()) + seq![c]);
        }
        self.text = out;
        self.idx = self.idx + 1;
    }

    fn home(&mut self) {
        self.idx = 0;
    }

    fn end(&mut self) {
        self.idx = self.text.as_str().unicode_len();
    }

    fn next_boundary(&mut self) {
        let len: usize = self.text.as_str().unicode_len();
        if self.idx >= len {
            self.idx = len;
            return ;
        }
        let mut j: usize = self.idx + 1;
        while j < len
            invariant
                self.idx + 1 <= j <= len,
                len == self.text@.len(),
                self == old(self),
                forall|k: int| self.idx + 1 <= k < j ==> !is_space_char(self.text@[k]),
                scan_forward(self.text@, self.idx + 1) == scan_forward(self.text@, j as int),
            decreases len - j,
        {
            let c = self.text.as_str().get_char(j);
            if is_space(c) {
                self.idx = j;
                return ;
            }
            j = j + 1;
        }
        self.idx = len;
    }

    fn previous_boundary(&mut self) {
        if self.idx == 0 {
            return ;
        }
        let mut j: usize = self.idx - 1;
        loop
            invariant
                old(self).inv(),
                self == old(self),
                0 < old(self).cursor() <= self.text@.len(),
                0 <= j <= old(self).cursor() - 1,
                scan_backward(self.text@, old(self).cursor() - 1) == scan_backward(
                    self.text@,
                    j as int,
                ),
            decreases j,
        {
            let c = self.text.as_str().get_char(j);
            if is_space(c) {
                self.idx = j;
                return ;
            }
            if j == 0 {
                self.idx = 0;
                return ;
            }
            j = j - 1;
        }
    }
}

} // verus!
