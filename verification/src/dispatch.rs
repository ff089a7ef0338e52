//! Dispatch engine: the state machine that owns the configuration and
//! the active page index and decides, for each button press, whether to
//! navigate, reload, or launch an external command.

use crate::config::{lemma_find_in_member, Config};
use vstd::prelude::*;
use vstd::string::StringExecFns;

verus! {

/// What the surrounding loop must do after a press was dispatched.
pub enum Action {
    /// Nothing: the press was unbound, the navigation had no effect, or
    /// the page sub-command was not recognised.
    Stay,
    /// Re-render the now-active page.
    Render,
    /// Load the configuration anew and hand the outcome to
    /// `Engine::finish_reload`.
    Reload,
    /// Launch the given command detached, with an optional working
    /// directory, without waiting for it.
    Launch { command: Vec<String>, work_dir: Option<String> },
}

/// The active page after one "next" press among `n` pages: one
/// further, unless already on the last page.
pub open spec fn nav_next(cur: int, n: int) -> int {
    if cur + 1 < n {
        cur + 1
    } else {
        cur
    }
}

/// The active page after one "prev" press: one back, unless already on
/// page 0.
pub open spec fn nav_prev(cur: int) -> int {
    if cur > 0 {
        cur - 1
    } else {
        cur
    }
}

/// The active page after a whole sequence of navigation presses among
/// `n` pages; `true` stands for "next", `false` for "prev".
pub open spec fn nav_many(cur: int, n: int, presses: Seq<bool>) -> int
    decreases presses.len(),
{
    if presses.len() == 0 {
        cur
    } else {
        nav_many(
            if presses[0] {
                nav_next(cur, n)
            } else {
                nav_prev(cur)
            },
            n,
            presses.skip(1),
        )
    }
}

/// Law: navigation saturates at both ends, so over any sequence of
/// "next" and "prev" presses the active page index stays within
/// `[0, n)`; it never wraps and never leaves the pages.
pub proof fn lemma_navigation_stays_in_bounds(cur: int, n: int, presses: Seq<bool>)
    requires
        0 <= cur < n,
    ensures
        0 <= nav_many(cur, n, presses) < n,
    decreases presses.len(),
{
    if presses.len() > 0 {
        let moved = if presses[0] {
            nav_next(cur, n)
        } else {
            nav_prev(cur)
        };
        lemma_navigation_stays_in_bounds(moved, n, presses.skip(1));
    }
}

/// The engine's state: the loaded configuration and the index of the
/// page currently shown.
pub struct Engine {
    pub config: Config,
    pub current_page_index: usize,
}

impl Engine {
    /// The engine invariant: a well-formed configuration with the
    /// active page index inside `[0, pages.len())`. Every press
    /// preserves it, so no sequence of presses can drive the index out
    /// of bounds.
    pub open spec fn wf(self) -> bool {
        &&& self.config.wf()
        &&& self.current_page_index < self.config.pages@.len()
    }

    /// A fresh engine showing page 0 of the given configuration.
    pub fn new(config: Config) -> (r: Engine)
        requires
            config.wf(),
        ensures
            r.wf(),
            r.config == config,
            r.current_page_index == 0,
    {
        Engine { config, current_page_index: 0 }
    }

    /// Dispatches one press of the button at `button_index` on the
    /// active page.
    ///
    /// An unbound index is ignored. A `page next`/`page prev` command
    /// moves the active page, saturating at both ends, and asks for a
    /// render only when the page actually changed; an unrecognised page
    /// sub-command is ignored. A `reload` command changes nothing here:
    /// it asks the caller to load the configuration anew and hand the
    /// outcome to `finish_reload`. Any other command is handed back to
    /// be launched as an external process.
    pub fn handle_press(&mut self, button_index: u8) -> (r: Action)
        requires
            old(self).wf(),
        ensures
            final(self).wf(),
            final(self).config == old(self).config,
            ({
                let cur = old(self).current_page_index as int;
                let n = old(self).config.pages@.len() as int;
                let page = old(self).config.pages@[cur];
                match page.spec_find(button_index) {
                    None => *final(self) == *old(self) && r == Action::Stay,
                    Some(b) => {
                        let cmd = b.command@;
                        if cmd[0]@ == "page"@ {
                            if cmd.len() >= 2 && cmd[1]@ == "next"@ {
                                final(self).current_page_index == nav_next(cur, n) && r == (
                                if cur + 1 < n {
                                    Action::Render
                                } else {
                                    Action::Stay
                                })
                            } else if cmd.len() >= 2 && cmd[1]@ == "prev"@ {
                                final(self).current_page_index == nav_prev(cur) && r == (
                                if cur > 0 {
                                    Action::Render
                                } else {
                                    Action::Stay
                                })
                            } else {
                                *final(self) == *old(self) && r == Action::Stay
                            }
                        } else if cmd[0]@ == "reload"@ {
                            *final(self) == *old(self) && r == Action::Reload
                        } else {
                            *final(self) == *old(self) && (r matches Action::Launch {
                                command,
                                work_dir,
                            } && command@ == cmd && work_dir == b.work_dir)
                        }
                    },
                }
            }),
    {
        let picked: Option<(Vec<String>, Option<String>)> = {
            let page = &self.config.pages[self.current_page_index];
            match page.find_button(button_index) {
                None => None,
                Some(b) => {
                    proof {
                        lemma_find_in_member(page.buttons@, button_index);
                    }
                    Some((clone_strings(&b.command), clone_opt_string(&b.work_dir)))
                },
            }
        };
        match picked {
            None => Action::Stay,
            Some((cmd, wd)) => {
                if str_eq(&cmd[0], "page") {
                    if cmd.len() >= 2 && str_eq(&cmd[1], "next") {
                        if self.current_page_index < self.config.pages.len() - 1 {
                            self.current_page_index = self.current_page_index + 1;
                            Action::Render
                        } else {
                            Action::Stay
                        }
                    } else if cmd.len() >= 2 && str_eq(&cmd[1], "prev") {
                        if self.current_page_index > 0 {
                            self.current_page_index = self.current_page_index - 1;
                            Action::Render
                        } else {
                            Action::Stay
                        }
                    } else {
                        Action::Stay
                    }
                } else if str_eq(&cmd[0], "reload") {
                    Action::Reload
                } else {
                    Action::Launch { command: cmd, work_dir: wd }
                }
            },
        }
    }

    /// Takes the outcome of a configuration reload. A successful load
    /// replaces the configuration and returns to page 0; a failed one
    /// leaves configuration and page index exactly as they were, so a
    /// bad reload never wipes a working setup.
    pub fn finish_reload(&mut self, loaded: Option<Config>) -> (r: bool)
        requires
            old(self).wf(),
            loaded matches Some(c) ==> c.wf(),
        ensures
            final(self).wf(),
            match loaded {
                Some(c) => final(self).config == c && final(self).current_page_index == 0 && r,
                None => *final(self) == *old(self) && !r,
            },
    {
        match loaded {
            Some(c) => {
                self.config = c;
                self.current_page_index = 0;
                true
            },
            None => false,
        }
    }
}

/// Whether a string equals the given slice, character for character.
fn str_eq(s: &String, t: &str) -> (r: bool)
    ensures
        r == (s@ == t@),
{
    let t_owned = String::from_str(t);
    *s == t_owned
}

/// A copy of a command vector, equal element for element.
fn clone_strings(v: &Vec<String>) -> (r: Vec<String>)
    ensures
        r@ == v@,
{
    let r = v.clone();
    proof {
        assert(r@ =~= v@);
    }
    r
}

/// A copy of an optional working directory.
fn clone_opt_string(v: &Option<String>) -> (r: Option<String>)
    ensures
        r == *v,
{
    let r = v.clone();
    proof {
        if v.is_some() {
            assert(r.unwrap() == v.unwrap());
        }
    }
    r
}

} // verus!
