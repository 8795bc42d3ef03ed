use vstd::prelude::*;
use vstd::string::StringExecFns;

use crate::menu::{resolve_path, Menu, MenuAction, MenuStack, NavError, menu_text, path_text};
use crate::strings::{pop_char, push_char};

verus! {

/// A keystroke, as the session tells them apart.
#[derive(Debug, Clone, Copy, PartialEq, Eq, Structural)]
pub enum Key {
    /// A printable character.
    Char(char),
    /// The erase key: backs out one level, or erases one typed character.
    Backspace,
    /// The cancel key: backs out one level, or leaves text capture.
    Escape,
    /// The confirm key.
    Enter,
    /// The user asked to stop the program (Ctrl-C).
    Interrupt,
    /// Any other key.
    Other,
}

/// How a session ends.
pub enum Outcome {
    /// A string chosen or typed by the user, for the caller.
    Emit(String),
    /// The user backed out of the root menu.
    BackedOut,
    /// A key outside the recognised set arrived while navigating.
    UnknownInput,
    /// The user interrupted the program.
    Interrupted,
}

impl Outcome {
    /// The process exit status for this outcome.
    pub fn exit_code(&self) -> (r: i32)
        ensures
            self is Emit ==> r == 0,
            self is BackedOut ==> r == 0,
            self is UnknownInput ==> r == 1,
            self is Interrupted ==> r == 137,
    {
        match self {
            Outcome::Emit(_) => 0,
            Outcome::BackedOut => 0,
            Outcome::UnknownInput => 1,
            Outcome::Interrupted => 137,
        }
    }
}

/// What the terminal must do after one keystroke.
pub enum Effect {
    /// Nothing changes on screen.
    Nothing,
    /// Clear the screen and draw the current menu again.
    Redraw,
    /// Show the prompt text and an input cursor.
    ShowPrompt(String),
    /// Print one typed character at the cursor.
    Echo(char),
    /// Erase the character before the cursor.
    EraseChar,
    /// Hide the input cursor and draw the current menu again.
    LeaveCapture,
    /// Restore the terminal and end the session.
    Exit(Outcome),
}

/// A full drawing of the session: the path, the current menu, and the text
/// typed so far while capturing.
pub struct Frame {
    pub path: String,
    pub menu: String,
    pub input: Option<String>,
}

/// One interactive session over a menu tree.
pub struct State {
    menu: Menu,
    stack: MenuStack,
    load_time_reading: u128,
    load_time_parsing: u128,
    reading: Option<(String, String)>,
}

impl State {
    /// The menu tree.
    pub closed spec fn tree(self) -> Menu {
        self.menu
    }

    /// The hotkeys pressed from the root to the current menu.
    pub closed spec fn path(self) -> Seq<char> {
        self.stack@
    }

    /// While capturing text: the prefix and the text typed so far.
    pub closed spec fn capture(self) -> Option<(Seq<char>, Seq<char>)> {
        match self.reading {
            Some((p, t)) => Some((p@, t@)),
            None => None,
        }
    }

    pub closed spec fn spec_load_time_reading(self) -> u128 {
        self.load_time_reading
    }

    pub closed spec fn spec_load_time_parsing(self) -> u128 {
        self.load_time_parsing
    }

    /// The path names a menu of the tree.
    pub open spec fn wf(self) -> bool {
        resolve_path(self.tree(), self.path()) is Some
    }

    /// The menu that the path names.
    pub open spec fn current(self) -> Menu {
        resolve_path(self.tree(), self.path()).unwrap()
    }

    /// A session at the root of `menu`, navigating.
    pub fn new(menu: Menu, load_time_reading: u128, load_time_parsing: u128) -> (r: State)
        ensures
            r.wf(),
            r.tree() == menu,
            r.path() == Seq::<char>::empty(),
            r.capture() is None,
            r.spec_load_time_reading() == load_time_reading,
            r.spec_load_time_parsing() == load_time_parsing,
    {
        State { menu, stack: MenuStack::new(), load_time_reading, load_time_parsing, reading: None }
    }

    pub fn load_time_reading(&self) -> (r: u128)
        ensures
            r == self.spec_load_time_reading(),
    {
        self.load_time_reading
    }

    pub fn load_time_parsing(&self) -> (r: u128)
        ensures
            r == self.spec_load_time_parsing(),
    {
        self.load_time_parsing
    }

    /// The capture buffer: the prefix and the text typed so far, while capturing.
    pub fn reading(&self) -> (r: &Option<(String, String)>)
        ensures
            r is None <==> self.capture() is None,
            r matches Some((p, t)) ==> self.capture() == Some((p@, t@)),
    {
        &self.reading
    }

    /// The path from the root.
    pub fn stack(&self) -> (r: &MenuStack)
        ensures
            r@ == self.path(),
    {
        &self.stack
    }

    /// The menu that the path names.
    pub fn current_menu(&self) -> (r: &Menu)
        requires
            self.wf(),
        ensures
            *r == self.current(),
    {
        match self.menu.resolve(&self.stack.0) {
            Ok(m) => m,
            Err(_) => {
                proof {
                    assert(false);
                }
                &self.menu
            },
        }
    }

    fn push_stack(&mut self, key: char)
        requires
            old(self).wf(),
            old(self).current().lookup(key) matches Some(MenuAction::SubMenu(_)),
        ensures
            final(self).wf(),
            final(self).path() == old(self).path().push(key),
            final(self).tree() == old(self).tree(),
            final(self).capture() == old(self).capture(),
            final(self).spec_load_time_reading() == old(self).spec_load_time_reading(),
            final(self).spec_load_time_parsing() == old(self).spec_load_time_parsing(),
    {
        self.stack.push(key);
        assert(self.stack@.drop_last() =~= old(self).stack@);
    }

    /// Removes the newest hotkey of the path and returns it; `None` at the root.
    pub fn pop_stack(&mut self) -> (r: Option<char>)
        requires
            old(self).wf(),
        ensures
            final(self).wf(),
            old(self).path().len() == 0 ==> r is None && final(self).path() == old(self).path(),
            old(self).path().len() > 0 ==> r == Some(old(self).path().last()) && final(self).path()
                == old(self).path().drop_last(),
            final(self).tree() == old(self).tree(),
            final(self).capture() == old(self).capture(),
            final(self).spec_load_time_reading() == old(self).spec_load_time_reading(),
            final(self).spec_load_time_parsing() == old(self).spec_load_time_parsing(),
    {
        self.stack.pop()
    }

    /// Descends into the submenu bound to `key` in the current menu.
    pub fn descend(&mut self, key: char) -> (r: Result<(), NavError>)
        requires
            old(self).wf(),
        ensures
            final(self).wf(),
            final(self).tree() == old(self).tree(),
            final(self).capture() == old(self).capture(),
            final(self).spec_load_time_reading() == old(self).spec_load_time_reading(),
            final(self).spec_load_time_parsing() == old(self).spec_load_time_parsing(),
            old(self).current().lookup(key) matches Some(MenuAction::SubMenu(_)) ==> r is Ok
                && final(self).path() == old(self).path().push(key),
            old(self).current().lookup(key) is None ==> r == Err::<(), NavError>(NavError::NoSuchKey)
                && final(self).path() == old(self).path(),
            old(self).current().lookup(key) matches Some(a) && !(a is SubMenu) ==> r == Err::<
                (),
                NavError,
            >(NavError::NotASubMenu) && final(self).path() == old(self).path(),
    {
        let found = match self.current_menu().get_action(key) {
            None => Err(NavError::NoSuchKey),
            Some(MenuAction::SubMenu(_)) => Ok(()),
            Some(_) => Err(NavError::NotASubMenu),
        };
        if found.is_ok() {
            self.push_stack(key);
        }
        found
    }

    /// Handles a printable key while navigating: descends into a submenu,
    /// ends the session with a terminal payload, or starts text capture for a
    /// prompt. A key with no binding changes nothing.
    pub fn handle_key(&mut self, key: char) -> (r: Effect)
        requires
            old(self).wf(),
        ensures
            final(self).wf(),
            final(self).tree() == old(self).tree(),
            final(self).spec_load_time_reading() == old(self).spec_load_time_reading(),
            final(self).spec_load_time_parsing() == old(self).spec_load_time_parsing(),
            old(self).current().lookup(key) is None ==> r is Nothing && final(self).path() == old(
                self,
            ).path() && final(self).capture() == old(self).capture(),
            old(self).current().lookup(key) matches Some(MenuAction::Terminal(t)) ==> (r matches Effect::Exit(
                Outcome::Emit(p),
            ) && p@ == t@) && final(self).path() == old(self).path() && final(self).capture() == old(
                self,
            ).capture(),
            old(self).current().lookup(key) matches Some(MenuAction::SubMenu(_)) ==> r is Redraw
                && final(self).path() == old(self).path().push(key) && final(self).capture() == old(
                self,
            ).capture(),
            old(self).current().lookup(key) matches Some(MenuAction::Prompt(q)) ==> (r matches Effect::ShowPrompt(
                t,
            ) && t@ == q.prompt@) && final(self).path() == old(self).path() && final(self).capture()
                == Some((q.prefix@, Seq::<char>::empty())),
    {
        let effect = match self.current_menu().get_action(key) {
            None => {
                return Effect::Nothing;
            },
            Some(MenuAction::Terminal(t)) => {
                return Effect::Exit(Outcome::Emit(t.clone()));
            },
            Some(MenuAction::Prompt(q)) => {
                let prompt = q.prompt.clone();
                self.reading = Some((q.prefix.clone(), String::new()));
                Effect::ShowPrompt(prompt)
            },
            Some(MenuAction::SubMenu(_)) => Effect::Redraw,
        };
        if let Effect::Redraw = effect {
            self.push_stack(key);
        }
        effect
    }

    /// Handles one keystroke: the whole transition table of a session.
    /// An interrupt always ends it. While capturing, characters are typed,
    /// erased, confirmed or the capture is cancelled. While navigating,
    /// printable keys go to `handle_key`, the erase and cancel keys back out
    /// one level (or end the session at the root), and any other key ends the
    /// session as unknown input.
    pub fn step(&mut self, key: Key) -> (r: Effect)
        requires
            old(self).wf(),
        ensures
            final(self).wf(),
            final(self).tree() == old(self).tree(),
            final(self).spec_load_time_reading() == old(self).spec_load_time_reading(),
            final(self).spec_load_time_parsing() == old(self).spec_load_time_parsing(),
            key is Interrupt ==> (r matches Effect::Exit(Outcome::Interrupted)) && final(self).path()
                == old(self).path() && final(self).capture() == old(self).capture(),
            !(key is Interrupt) && old(self).capture() is Some ==> final(self).path() == old(self).path(),
            !(key is Interrupt) ==> (old(self).capture() matches Some((pre, text)) ==> match key {
                Key::Char(c) => r == Effect::Echo(c) && final(self).capture() == Some((pre, text.push(c))),
                Key::Backspace => if text.len() > 0 {
                    r is EraseChar && final(self).capture() == Some((pre, text.drop_last()))
                } else {
                    r is Nothing && final(self).capture() == old(self).capture()
                },
                Key::Escape => r is LeaveCapture && final(self).capture() is None,
                Key::Enter => (r matches Effect::Exit(Outcome::Emit(p)) && p@ == pre + text)
                    && final(self).capture() is None,
                _ => r is Nothing && final(self).capture() == old(self).capture(),
            }),
            !(key is Interrupt) && old(self).capture() is None ==> match key {
                Key::Char(c) => old(self).current().lookup(c) is None ==> r is Nothing && final(self).path()
                    == old(self).path() && final(self).capture() is None,
                Key::Backspace | Key::Escape => if old(self).path().len() > 0 {
                    r is Redraw && final(self).path() == old(self).path().drop_last()
                        && final(self).capture() is None
                } else {
                    (r matches Effect::Exit(Outcome::BackedOut)) && final(self).path() == old(
                        self,
                    ).path() && final(self).capture() is None
                },
                _ => (r matches Effect::Exit(Outcome::UnknownInput)) && final(self).path() == old(
                    self,
                ).path() && final(self).capture() is None,
            },
            !(key is Interrupt) && old(self).capture() is None ==> (key matches Key::Char(c) ==> {
                &&& old(self).current().lookup(c) matches Some(MenuAction::Terminal(t)) ==> (r matches Effect::Exit(
                    Outcome::Emit(p),
                ) && p@ == t@) && final(self).path() == old(self).path() && final(self).capture() is None
                &&& old(self).current().lookup(c) matches Some(MenuAction::SubMenu(_)) ==> r is Redraw
                    && final(self).path() == old(self).path().push(c) && final(self).capture() is None
                &&& old(self).current().lookup(c) matches Some(MenuAction::Prompt(q)) ==> (r matches Effect::ShowPrompt(
                    t,
                ) && t@ == q.prompt@) && final(self).path() == old(self).path() && final(self).capture()
                    == Some((q.prefix@, Seq::<char>::empty()))
            }),
    {
        if let Key::Interrupt = key {
            return Effect::Exit(Outcome::Interrupted);
        }
        if self.reading.is_some() {
            let (prefix, mut text) = self.reading.take().unwrap();
            match key {
                Key::Char(c) => {
                    push_char(&mut text, c);
                    self.reading = Some((prefix, text));
                    Effect::Echo(c)
                },
                Key::Backspace => {
                    let erased = pop_char(&mut text);
                    self.reading = Some((prefix, text));
                    if erased.is_some() {
                        Effect::EraseChar
                    } else {
                        Effect::Nothing
                    }
                },
                Key::Escape => Effect::LeaveCapture,
                Key::Enter => {
                    let mut out = prefix;
                    out.append(text.as_str());
                    Effect::Exit(Outcome::Emit(out))
                },
                _ => {
                    self.reading = Some((prefix, text));
                    Effect::Nothing
                },
            }
        } else {
            match key {
                Key::Char(c) => self.handle_key(c),
                Key::Backspace | Key::Escape => match self.pop_stack() {
                    Some(_) => Effect::Redraw,
                    None => Effect::Exit(Outcome::BackedOut),
                },
                _ => Effect::Exit(Outcome::UnknownInput),
            }
        }
    }

    /// The drawing of this session.
    pub fn draw(&self) -> (r: Frame)
        requires
            self.wf(),
        ensures
            drawn(*self, r),
    {
        let path = self.stack.to_text();
        let menu = self.current_menu().to_text();
        let input = match &self.reading {
            Some((_, text)) => Some(text.clone()),
            None => None,
        };
        Frame { path, menu, input }
    }
}

/// `f` shows `s`: its path, its current menu, and the text typed so far.
pub open spec fn drawn(s: State, f: Frame) -> bool {
    &&& f.path@ == path_text(s.path())
    &&& f.menu@ == menu_text(s.current())
    &&& f.input is None <==> s.capture() is None
    &&& f.input matches Some(t) ==> s.capture() matches Some((_, typed)) && t@ == typed
}

/// Drawing depends on the tree, the path and the capture buffer alone: two
/// drawings of sessions that agree on them show the same text.
pub proof fn lemma_draw_is_pure(s: State, t: State, f: Frame, g: Frame)
    requires
        s.wf(),
        s.tree() == t.tree(),
        s.path() == t.path(),
        s.capture() == t.capture(),
        drawn(s, f),
        drawn(t, g),
    ensures
        f.path@ == g.path@,
        f.menu@ == g.menu@,
        f.input is None <==> g.input is None,
        f.input matches Some(a) ==> g.input matches Some(b) && a@ == b@,
{
}

/// Descending through a submenu binding from a menu that a path names gives
/// a path that names that submenu: a path built by descents always resolves.
pub proof fn lemma_descend_resolves(root: Menu, path: Seq<char>, key: char)
    requires
        resolve_path(root, path) is Some,
        resolve_path(root, path).unwrap().lookup(key) matches Some(MenuAction::SubMenu(_)),
    ensures
        resolve_path(root, path.push(key)) is Some,
        resolve_path(root, path.push(key)) == Some(
            resolve_path(root, path).unwrap().lookup(key)->Some_0->SubMenu_0,
        ),
{
    assert(path.push(key).drop_last() =~= path);
}

} // verus!
