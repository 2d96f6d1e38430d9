//! The interactive navigator's state and its key bindings (vim-style).
//!
//! The terminal loop lives outside the library: it reads a key, hands it to
//! `Navigator::handle_key`, and carries out the outcome (quit, copy the
//! selected block, note the time of a first `g`).

use vstd::prelude::*;

verus! {

/// Which pane has the keyboard.
#[derive(Clone, Copy, Debug, PartialEq, Eq, Structural)]
pub enum Focus {
    List,
    Detail,
}

/// A key press, as the navigator sees it.
#[derive(Clone, Copy, Debug, PartialEq, Eq, Structural)]
pub enum Key {
    Char(char),
    Up,
    Down,
    Enter,
    Esc,
    /// Ctrl-C.
    Interrupt,
    Other,
}

/// What the terminal loop must do after a key.
#[derive(Clone, Copy, Debug, PartialEq, Eq, Structural)]
pub enum Outcome {
    Continue,
    Quit,
    /// Copy the selected block to the clipboard.
    Yank,
    /// A first `g` was pressed: note the time, a second `g` soon after jumps to the top.
    StartG,
}

/// The navigator's state as a value of the model.
pub struct NavModel {
    pub len: usize,
    pub selected: usize,
    pub detail_scroll: u16,
    pub focus: Focus,
    /// A first `g` is waiting for a second one.
    pub g_armed: bool,
}

/// The selection is a valid index (or 0 when there is nothing to select).
pub open spec fn nav_wf(m: NavModel) -> bool {
    if m.len > 0 {
        m.selected < m.len
    } else {
        m.selected == 0
    }
}

pub open spec fn scroll_add(s: u16, d: u16) -> u16 {
    if s + d > u16::MAX {
        u16::MAX
    } else {
        (s + d) as u16
    }
}

pub open spec fn scroll_sub(s: u16, d: u16) -> u16 {
    if s >= d {
        (s - d) as u16
    } else {
        0
    }
}

/// Moves the selection one block down (not past the last one).
pub open spec fn move_down(m: NavModel) -> NavModel {
    if m.len == 0 {
        m
    } else {
        NavModel {
            selected: if m.selected + 1 < m.len {
                (m.selected + 1) as usize
            } else {
                (m.len - 1) as usize
            },
            detail_scroll: 0,
            ..m
        }
    }
}

/// Moves the selection one block up (not past the first one).
pub open spec fn move_up(m: NavModel) -> NavModel {
    if m.len == 0 {
        m
    } else {
        NavModel {
            selected: if m.selected > 0 {
                (m.selected - 1) as usize
            } else {
                0
            },
            detail_scroll: 0,
            ..m
        }
    }
}

pub open spec fn jump_first(m: NavModel) -> NavModel {
    if m.len == 0 {
        m
    } else {
        NavModel { selected: 0, detail_scroll: 0, ..m }
    }
}

pub open spec fn jump_last(m: NavModel) -> NavModel {
    if m.len == 0 {
        m
    } else {
        NavModel { selected: (m.len - 1) as usize, detail_scroll: 0, ..m }
    }
}

pub open spec fn disarm(m: NavModel) -> NavModel {
    NavModel { g_armed: false, ..m }
}

pub open spec fn is_char(k: Key, c: char) -> bool {
    k == Key::Char(c)
}

/// The key bindings. Ctrl-C quits anywhere. In the list: `q` quits, `j`/Down
/// and `k`/Up move, `G` jumps to the last block, `gg` (the second `g` soon
/// after the first, `g_recent`) to the first, `y` copies the selected block,
/// Enter focuses the detail pane; any key but a first `g` forgets a pending
/// `g`. In the detail pane: Esc/`q` go back to the list, `j`/`k` scroll by 3,
/// `g` scrolls to the top and `G` far down.
pub open spec fn nav_step(m: NavModel, key: Key, g_recent: bool) -> (NavModel, Outcome) {
    if key is Interrupt {
        (m, Outcome::Quit)
    } else if m.focus is List {
        if is_char(key, 'q') {
            (m, Outcome::Quit)
        } else if is_char(key, 'j') || key is Down {
            (disarm(move_down(m)), Outcome::Continue)
        } else if is_char(key, 'k') || key is Up {
            (disarm(move_up(m)), Outcome::Continue)
        } else if is_char(key, 'G') {
            (disarm(jump_last(m)), Outcome::Continue)
        } else if is_char(key, 'g') {
            if m.g_armed && g_recent {
                (disarm(jump_first(m)), Outcome::Continue)
            } else {
                (NavModel { g_armed: true, ..m }, Outcome::StartG)
            }
        } else if is_char(key, 'y') {
            (disarm(m), if m.len > 0 {
                Outcome::Yank
            } else {
                Outcome::Continue
            })
        } else if key is Enter {
            (NavModel { focus: Focus::Detail, g_armed: false, ..m }, Outcome::Continue)
        } else {
            (disarm(m), Outcome::Continue)
        }
    } else {
        if key is Esc || is_char(key, 'q') {
            (NavModel { focus: Focus::List, detail_scroll: 0, ..m }, Outcome::Continue)
        } else if is_char(key, 'j') || key is Down {
            (NavModel { detail_scroll: scroll_add(m.detail_scroll, 3), ..m }, Outcome::Continue)
        } else if is_char(key, 'k') || key is Up {
            (NavModel { detail_scroll: scroll_sub(m.detail_scroll, 3), ..m }, Outcome::Continue)
        } else if is_char(key, 'g') {
            (NavModel { detail_scroll: 0, ..m }, Outcome::Continue)
        } else if is_char(key, 'G') {
            (NavModel { detail_scroll: scroll_add(m.detail_scroll, 999), ..m }, Outcome::Continue)
        } else {
            (m, Outcome::Continue)
        }
    }
}

/// The navigator over a list of `len` blocks.
pub struct Navigator {
    len: usize,
    selected: usize,
    detail_scroll: u16,
    focus: Focus,
    g_armed: bool,
}

impl Navigator {
    #[verifier::type_invariant]
    spec fn wf(self) -> bool {
        nav_wf(self.view())
    }

    pub closed spec fn view(self) -> NavModel {
        NavModel {
            len: self.len,
            selected: self.selected,
            detail_scroll: self.detail_scroll,
            focus: self.focus,
            g_armed: self.g_armed,
        }
    }

    /// A navigator over `len` blocks, with the first one selected.
    pub fn new(len: usize) -> (n: Navigator)
        ensures
            n.view() == (NavModel {
                len,
                selected: 0,
                detail_scroll: 0,
                focus: Focus::List,
                g_armed: false,
            }),
    {
        Navigator { len, selected: 0, detail_scroll: 0, focus: Focus::List, g_armed: false }
    }

    pub fn selected(&self) -> (r: usize)
        ensures
            r == self.view().selected,
            self.view().len > 0 ==> r < self.view().len,
    {
        proof {
            use_type_invariant(self);
        }
        self.selected
    }

    pub fn len(&self) -> (r: usize)
        ensures
            r == self.view().len,
    {
        self.len
    }

    pub fn detail_scroll(&self) -> (r: u16)
        ensures
            r == self.view().detail_scroll,
    {
        self.detail_scroll
    }

    pub fn focus(&self) -> (r: Focus)
        ensures
            r == self.view().focus,
    {
        self.focus
    }

    fn down(&mut self)
        requires
            nav_wf(old(self).view()),
        ensures
            final(self).view() == disarm(move_down(old(self).view())),
    {
        if self.len > 0 {
            self.selected = if self.selected + 1 < self.len {
                self.selected + 1
            } else {
                self.len - 1
            };
            self.detail_scroll = 0;
        }
        self.g_armed = false;
    }

    fn up(&mut self)
        requires
            nav_wf(old(self).view()),
        ensures
            final(self).view() == disarm(move_up(old(self).view())),
    {
        if self.len > 0 {
            self.selected = if self.selected > 0 {
                self.selected - 1
            } else {
                0
            };
            self.detail_scroll = 0;
        }
        self.g_armed = false;
    }

    fn scroll_by(s: u16, d: u16) -> (r: u16)
        ensures
            r == scroll_add(s, d),
    {
        if s > u16::MAX - d {
            u16::MAX
        } else {
            s + d
        }
    }

    /// Applies one key press (see `nav_step`); `g_recent` tells whether a
    /// pending first `g` was pressed recently enough for a second one to count.
    pub fn handle_key(&mut self, key: Key, g_recent: bool) -> (r: Outcome)
        ensures
            (final(self).view(), r) == nav_step(old(self).view(), key, g_recent),
    {
        proof {
            use_type_invariant(&*self);
        }
        if key == Key::Interrupt {
            return Outcome::Quit;
        }
        match self.focus {
            Focus::List => {
                if key == Key::Char('q') {
                    Outcome::Quit
                } else if key == Key::Char('j') || key == Key::Down {
                    self.down();
                    Outcome::Continue
                } else if key == Key::Char('k') || key == Key::Up {
                    self.up();
                    Outcome::Continue
                } else if key == Key::Char('G') {
                    if self.len > 0 {
                        self.selected = self.len - 1;
                        self.detail_scroll = 0;
                    }
                    self.g_armed = false;
                    Outcome::Continue
                } else if key == Key::Char('g') {
                    if self.g_armed && g_recent {
                        if self.len > 0 {
                            self.selected = 0;
                            self.detail_scroll = 0;
                        }
                        self.g_armed = false;
                        Outcome::Continue
                    } else {
                        self.g_armed = true;
                        Outcome::StartG
                    }
                } else if key == Key::Char('y') {
                    self.g_armed = false;
                    if self.len > 0 {
                        Outcome::Yank
                    } else {
                        Outcome::Continue
                    }
                } else if key == Key::Enter {
                    self.focus = Focus::Detail;
                    self.g_armed = false;
                    Outcome::Continue
                } else {
                    self.g_armed = false;
                    Outcome::Continue
                }
            },
            Focus::Detail => {
                if key == Key::Esc || key == Key::Char('q') {
                    self.focus = Focus::List;
                    self.detail_scroll = 0;
                } else if key == Key::Char('j') || key == Key::Down {
                    self.detail_scroll = Self::scroll_by(self.detail_scroll, 3);
                } else if key == Key::Char('k') || key == Key::Up {
                    self.detail_scroll = if self.detail_scroll >= 3 {
                        self.detail_scroll - 3
                    } else {
                        0
                    };
                } else if key == Key::Char('g') {
                    self.detail_scroll = 0;
                } else if key == Key::Char('G') {
                    self.detail_scroll = Self::scroll_by(self.detail_scroll, 999);
                }
                Outcome::Continue
            },
        }
    }
}


/// Every key keeps the selection a valid index and the number of blocks unchanged.
pub proof fn lemma_keys_keep_selection_valid(m: NavModel, key: Key, g_recent: bool)
    requires
        nav_wf(m),
    ensures
        nav_wf(nav_step(m, key, g_recent).0),
        nav_step(m, key, g_recent).0.len == m.len,
{
}

/// Ctrl-C quits from anywhere, and leaves the state as it is.
pub proof fn lemma_interrupt_quits(m: NavModel, g_recent: bool)
    ensures
        nav_step(m, Key::Interrupt, g_recent) == (m, Outcome::Quit),
{
}

/// In the list, `j` (or Down) moves the selection one block down, staying at
/// the last block, scrolls the detail back to the top and forgets a pending
/// `g`; the number of blocks and the focus do not change. With no blocks only
/// the pending `g` is forgotten.
pub proof fn lemma_move_down(m: NavModel, g: bool)
    requires
        nav_wf(m),
        m.focus is List,
    ensures
        ({
            let (m2, out) = nav_step(m, Key::Down, g);
            &&& out == Outcome::Continue
            &&& m2.len == m.len && m2.focus == m.focus && !m2.g_armed
            &&& m.len == 0 ==> m2 == NavModel { g_armed: false, ..m }
            &&& m.len > 0 ==> m2.selected == (if m.selected + 1 < m.len {
                m.selected + 1
            } else {
                m.len - 1
            }) && m2.detail_scroll == 0 && m2.selected < m2.len
        }),
        nav_step(m, Key::Char('j'), g) == nav_step(m, Key::Down, g),
{
}

/// In the list, `k` (or Up) moves the selection one block up, staying at the
/// first block, scrolls the detail back to the top and forgets a pending `g`.
pub proof fn lemma_move_up(m: NavModel, g: bool)
    requires
        nav_wf(m),
        m.focus is List,
    ensures
        ({
            let (m2, out) = nav_step(m, Key::Up, g);
            &&& out == Outcome::Continue
            &&& m2.len == m.len && m2.focus == m.focus && !m2.g_armed
            &&& m.len == 0 ==> m2 == NavModel { g_armed: false, ..m }
            &&& m.len > 0 ==> m2.selected == (if m.selected > 0 {
                m.selected - 1
            } else {
                0
            }) && m2.detail_scroll == 0
        }),
        nav_step(m, Key::Char('k'), g) == nav_step(m, Key::Up, g),
{
}

/// In the detail pane the arrow keys act as `j` and `k`: `j`/Down scrolls
/// down by 3 and `k`/Up up by 3, stopping at the ends of the `u16` range,
/// and neither changes the selection, the focus or a pending `g`.
pub proof fn lemma_detail_scrolling(m: NavModel, g: bool)
    requires
        m.focus is Detail,
    ensures
        nav_step(m, Key::Down, g) == nav_step(m, Key::Char('j'), g),
        nav_step(m, Key::Up, g) == nav_step(m, Key::Char('k'), g),
        ({
            let (down, out) = nav_step(m, Key::Char('j'), g);
            &&& out == Outcome::Continue
            &&& down.selected == m.selected && down.len == m.len && down.focus == m.focus
                && down.g_armed == m.g_armed
            &&& m.detail_scroll + 3 <= u16::MAX ==> down.detail_scroll == m.detail_scroll + 3
            &&& m.detail_scroll + 3 > u16::MAX ==> down.detail_scroll == u16::MAX
        }),
        ({
            let (up, out) = nav_step(m, Key::Char('k'), g);
            &&& out == Outcome::Continue
            &&& up.selected == m.selected && up.len == m.len && up.focus == m.focus
                && up.g_armed == m.g_armed
            &&& m.detail_scroll >= 3 ==> up.detail_scroll == m.detail_scroll - 3
            &&& m.detail_scroll < 3 ==> up.detail_scroll == 0
        }),
{
}

/// In the list, `j` then `k` comes back to the same block, unless `j` was at
/// the last one.
pub proof fn lemma_down_then_up(m: NavModel, g1: bool, g2: bool)
    requires
        nav_wf(m),
        m.focus is List,
        m.selected + 1 < m.len,
    ensures
        nav_step(nav_step(m, Key::Char('j'), g1).0, Key::Char('k'), g2).0.selected == m.selected,
{
}

/// In the list, `G` selects the last block.
pub proof fn lemma_jump_last(m: NavModel, g: bool)
    requires
        m.focus is List,
        m.len > 0,
    ensures
        nav_step(m, Key::Char('G'), g).0.selected == m.len - 1,
{
}

/// In the list, `g` followed soon by a second `g` selects the first block.
pub proof fn lemma_double_g_jumps_first(m: NavModel, g1: bool)
    requires
        m.focus is List,
        m.len > 0,
    ensures
        nav_step(nav_step(m, Key::Char('g'), g1).0, Key::Char('g'), true).0.selected == 0,
{
}

/// Entering the detail pane and leaving it returns to the list with the same
/// selection and the detail scrolled back to the top.
pub proof fn lemma_enter_then_escape(m: NavModel, g1: bool, g2: bool)
    requires
        m.focus is List,
    ensures
        nav_step(nav_step(m, Key::Enter, g1).0, Key::Esc, g2).0 == (NavModel {
            focus: Focus::List,
            detail_scroll: 0,
            g_armed: false,
            ..m
        }),
{
}

} // verus!
