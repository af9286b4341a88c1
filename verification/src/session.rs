//! The interactive session state machine.
//!
//! One key event at a time, the session either mutates the input editor,
//! quits, or commits.  After every text mutation it tries to recompile
//! the editor text: on success the new pattern becomes the sticky
//! pattern and the preview is recomputed over the whole corpus; on
//! failure the previous pattern and preview are kept untouched, so an
//! incomplete expression never blanks the view.

use crate::capture::into_matchsets;
use crate::capture::preview_ok;
use crate::capture::MatchSet;
use crate::input::next_boundary_pos;
use crate::input::prev_boundary_pos;
use crate::input::Editable;
use crate::input::Input;
use crate::input::InputMode;
use crate::pattern::pattern_ok;
use crate::pattern::Pattern;
use vstd::pervasive::unreached;
use vstd::prelude::*;

verus! {

/// One discrete key event handed in by the terminal collaborator.
#[derive(Clone, Copy, Debug, PartialEq, Eq, Structural)]
pub enum KeyEvent {
    Char(char),
    Alt(char),
    Backspace,
    Esc,
    Left,
    Right,
    Home,
    End,
}

/// The committed outcome of a session: the adopted pattern and the full
/// filtered, segmented view of the corpus under it.
pub struct SessionResult {
    pub pattern: Pattern,
    pub matches: Vec<MatchSet>,
}

/// What the session does after one key event: carry on, end without any
/// output, or end with a committed result.
pub enum SessionOutcome {
    Continue,
    Quit,
    Commit(SessionResult),
}

/// The state the session owns: the editable input, the preview under
/// the sticky pattern, and the sticky pattern itself.
pub struct App {
    pub input: Input,
    pub pattern_matches: Vec<MatchSet>,
    pub re: Pattern,
}

impl App {
    /// The editor cursor lies within its text.
    pub open spec fn wf(&self) -> bool {
        self.input.wf()
    }
}

impl Default for App {
    /// An empty editor in `Normal` mode, the empty sticky pattern, and
    /// no preview yet.
    fn default() -> (r: App)
        ensures
            r.wf(),
            r.input.text@ == Seq::<char>::empty(),
            r.input.cursor() == 0,
            r.input.mode is Normal,
            r.re@ == Seq::<char>::empty(),
            r.pattern_matches@ == Seq::<MatchSet>::empty(),
    {
        App { input: Input::default(), pattern_matches: Vec::new(), re: Pattern::empty() }
    }
}

/// The sticky pattern and preview of `post` are what fail-soft
/// recompilation of `post`'s editor text leaves, starting from `pre`:
/// the new text and a fresh preview when the text compiles, `pre`'s
/// pattern and preview untouched when it does not.
pub open spec fn refreshed(pre: App, post: App, corpus: Seq<Seq<char>>) -> bool {
    &&& pattern_ok(post.input.text@) ==> post.re@ == post.input.text@ && preview_ok(
        post.re@,
        corpus,
        post.pattern_matches@,
    )
    &&& !pattern_ok(post.input.text@) ==> post.re == pre.re && post.pattern_matches
        == pre.pattern_matches
}

/// Fail-soft recompilation of the editor text.
fn refresh(app: &mut App, contents: &Vec<String>)
    requires
        old(app).wf(),
    ensures
        final(app).wf(),
        final(app).input == old(app).input,
        refreshed(*old(app), *final(app), contents.deep_view()),
{
    match Pattern::compile(app.input.text.as_str()) {
        Some(p) => {
            app.pattern_matches = into_matchsets(contents, &p);
            app.re = p;
        },
        None => {},
    }
}

/// Drive the session by one key event.
///
/// In `Normal` mode, `i` starts editing and `q` ends the session with no
/// output; nothing else has an effect.  In `Editing` mode, enter commits
/// the editor text if it compiles and rejects the keystroke otherwise;
/// escape returns to `Normal` mode; printable characters and backspace
/// edit the buffer and then recompile fail-soft; the navigation keys
/// move the cursor as the editor operations specify.  On commit the
/// compiled pattern is adopted as the sticky pattern, and the result
/// carries that pattern with the filtered, segmented view of the whole
/// corpus under it.
pub fn handle_key(app: &mut App, contents: &Vec<String>, key: KeyEvent) -> (r: SessionOutcome)
    requires
        old(app).wf(),
        old(app).input.text@.len() < usize::MAX,
    ensures
        final(app).wf(),
        old(app).input.mode is Normal ==> match key {
            KeyEvent::Char(ch) => if ch == 'i' {
                &&& r is Continue
                &&& final(app).input.text@ == old(app).input.text@
                &&& final(app).input.cursor() == old(app).input.cursor()
                &&& final(app).input.mode is Editing
                &&& final(app).re == old(app).re
                &&& final(app).pattern_matches == old(app).pattern_matches
            } else if ch == 'q' {
                r is Quit && *final(app) == *old(app)
            } else {
                r is Continue && *final(app) == *old(app)
            },
            _ => r is Continue && *final(app) == *old(app),
        },
        old(app).input.mode is Editing ==> match key {
            KeyEvent::Char(ch) => if ch == '\n' {
                if pattern_ok(old(app).input.text@) {
                    &&& r is Commit
                    &&& r->Commit_0.pattern@ == old(app).input.text@
                    &&& preview_ok(
                        old(app).input.text@,
                        contents.deep_view(),
                        r->Commit_0.matches@,
                    )
                    &&& final(app).input == old(app).input
                    &&& final(app).re@ == old(app).input.text@
                    &&& preview_ok(
                        final(app).re@,
                        contents.deep_view(),
                        final(app).pattern_matches@,
                    )
                } else {
                    r is Continue && *final(app) == *old(app)
                }
            } else {
                &&& r is Continue
                &&& final(app).input.text@ == old(app).input.text@.subrange(
                    0,
                    old(app).input.cursor(),
                ) + seq![ch] + old(app).input.text@.subrange(
                    old(app).input.cursor(),
                    old(app).input.text@.len() as int,
                )
                &&& final(app).input.cursor() == old(app).input.cursor() + 1
                &&& final(app).input.mode is Editing
                &&& refreshed(*old(app), *final(app), contents.deep_view())
            },
            KeyEvent::Backspace => {
                &&& r is Continue
                &&& final(app).input.mode is Editing
                &&& old(app).input.cursor() > 0 ==> final(app).input.text@ == old(
                    app,
                ).input.text@.subrange(0, old(app).input.cursor() - 1) + old(
                    app,
                ).input.text@.subrange(
                    old(app).input.cursor(),
                    old(app).input.text@.len() as int,
                ) && final(app).input.cursor() == old(app).input.cursor() - 1
                &&& old(app).input.cursor() == 0 ==> final(app).input.text@ == old(
                    app,
                ).input.text@ && final(app).input.cursor() == 0
                &&& refreshed(*old(app), *final(app), contents.deep_view())
            },
            KeyEvent::Esc => {
                &&& r is Continue
                &&& final(app).input.text@ == old(app).input.text@
                &&& final(app).input.cursor() == old(app).input.cursor()
                &&& final(app).input.mode is Normal
                &&& final(app).re == old(app).re
                &&& final(app).pattern_matches == old(app).pattern_matches
            },
            KeyEvent::Alt(ch) => {
                &&& r is Continue
                &&& final(app).input.text@ == old(app).input.text@
                &&& final(app).input.mode is Editing
                &&& final(app).re == old(app).re
                &&& final(app).pattern_matches == old(app).pattern_matches
                &&& final(app).input.cursor() == if ch == ',' {
                    prev_boundary_pos(old(app).input.text@, old(app).input.cursor())
                } else if ch == '.' {
                    next_boundary_pos(old(app).input.text@, old(app).input.cursor())
                } else {
                    old(app).input.cursor()
                }
            },
            _ => {
                &&& r is Continue
                &&& final(app).input.text@ == old(app).input.text@
                &&& final(app).input.mode is Editing
                &&& final(app).re == old(app).re
                &&& final(app).pattern_matches == old(app).pattern_matches
                &&& final(app).input.cursor() == match key {
                    KeyEvent::Left => if old(app).input.cursor() > 0 {
                        old(app).input.cursor() - 1
                    } else {
                        0
                    },
                    KeyEvent::Right => if old(app).input.cursor() < old(
                        app,
                    ).input.text@.len() {
                        old(app).input.cursor() + 1
                    } else {
                        old(app).input.text@.len() as int
                    },
                    KeyEvent::Home => 0,
                    KeyEvent::End => old(app).input.text@.len() as int,
                    _ => old(app).input.cursor(),
                }
            },
        },
{
    match app.input.mode {
        InputMode::Normal => match key {
            KeyEvent::Char(ch) => {
                if ch == 'i' {
                    app.input.mode = InputMode::Editing;
                    SessionOutcome::Continue
                } else if ch == 'q' {
                    SessionOutcome::Quit
                } else {
                    SessionOutcome::Continue
                }
            },
            _ => SessionOutcome::Continue,
        },
        InputMode::Editing => match key {
            KeyEvent::Char(ch) => {
                if ch == '\n' {
                    match Pattern::compile(app.input.text.as_str()) {
                        Some(p) => {
                            let result = SessionResult {
                                matches: into_matchsets(contents, &p),
                                pattern: p,
                            };
                            let sticky = match Pattern::compile(app.input.text.as_str()) {
                                Some(p2) => p2,
                                None => unreached(),
                            };
                            app.pattern_matches = into_matchsets(contents, &sticky);
                            app.re = sticky;
                            SessionOutcome::Commit(result)
                        },
                        None => SessionOutcome::Continue,
                    }
                } else {
                    app.input.add(ch);
                    refresh(app, contents);
                    SessionOutcome::Continue
                }
            },
            KeyEvent::Backspace => {
                app.input.delete();
                refresh(app, contents);
                SessionOutcome::Continue
            },
            KeyEvent::Esc => {
                app.input.esc();
                SessionOutcome::Continue
            },
            KeyEvent::Alt(ch) => {
                if ch == ',' {
                    app.input.previous_boundary();
                } else if ch == '.' {
                    app.input.next_boundary();
                }
                SessionOutcome::Continue
            },
            KeyEvent::Left => {
                app.input.left();
                SessionOutcome::Continue
            },
            KeyEvent::Right => {
                app.input.right();
                SessionOutcome::Continue
            },
            KeyEvent::Home => {
                app.input.home();
                SessionOutcome::Continue
            },
            KeyEvent::End => {
                app.input.end();
                SessionOutcome::Continue
            },
        },
    }
}

} // verus!
