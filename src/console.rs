use crate::dag::contains_string;
use crate::lift::string_seq;
use vstd::prelude::*;

verus! {

/// Which panel has the focus, among the panels in the order they were
/// registered.
pub struct Navigator {
    pub order: Vec<String>,
    pub index: String,
}

/// The position of `name` in `order`, or zero when it is absent.
pub open spec fn position_of(order: Seq<Seq<char>>, name: Seq<char>) -> int {
    if exists|i: int| 0 <= i < order.len() && order[i] == name {
        choose|i: int| 0 <= i < order.len() && order[i] == name && forall|j: int| 0 <= j < i ==> order[j] != name
    } else {
        0
    }
}

impl Navigator {
    /// Focus on the first panel.
    pub fn new(order: Vec<String>) -> (r: Navigator)
        requires
            order@.len() > 0,
        ensures
            r.order == order,
            r.index == order@[0],
    {
        let index = order[0].clone();
        Navigator { order, index }
    }

    /// Position of the focused panel (zero if it is not listed).
    pub fn idx(&self) -> (r: usize)
        ensures
            r as int == position_of(string_seq(self.order@), self.index@),
            self.order@.len() > 0 ==> r < self.order@.len(),
    {
        let ghost o = string_seq(self.order@);
        let mut i: usize = 0;
        while i < self.order.len()
            invariant
                i <= self.order@.len(),
                o == string_seq(self.order@),
                forall|j: int| 0 <= j < i ==> o[j] != self.index@,
            decreases self.order@.len() - i,
        {
            if self.order[i] == self.index {
                proof {
                    assert(o[i as int] == self.index@);
                    let k = choose|k: int| 0 <= k < o.len() && o[k] == self.index@ && forall|j: int| 0 <= j < k ==> o[j] != self.index@;
                    if k < i {
                    } else if k > i {
                        assert(o[i as int] == self.index@);
                    }
                }
                return i;
            }
            i += 1;
        }
        0
    }

    /// Focus on the panel at `panel_index`, if there is one.
    pub fn go_to(&mut self, panel_index: usize)
        ensures
            final(self).order == old(self).order,
            panel_index < old(self).order@.len() ==> final(self).index == old(self).order@[panel_index as int],
            panel_index >= old(self).order@.len() ==> final(self).index == old(self).index,
    {
        if panel_index < self.order.len() {
            self.index = self.order[panel_index].clone();
        }
    }

    /// Focus on the next panel, wrapping around.
    pub fn next(&mut self)
        requires
            old(self).order@.len() > 0,
        ensures
            final(self).order == old(self).order,
            final(self).index == old(self).order@[(position_of(string_seq(old(self).order@), old(self).index@) + 1) % old(self).order@.len() as int],
    {
        let i = self.idx();
        let n = self.order.len();
        self.index = self.order[(i + 1) % n].clone();
    }

    /// Focus on the previous panel, wrapping around.
    pub fn previous(&mut self)
        requires
            old(self).order@.len() > 0,
        ensures
            final(self).order == old(self).order,
            ({
                let p = position_of(string_seq(old(self).order@), old(self).index@);
                final(self).index == old(self).order@[if p == 0 {
                    old(self).order@.len() - 1
                } else {
                    p - 1
                }]
            }),
    {
        let i = self.idx();
        let n = self.order.len();
        let j = if i == 0 {
            n - 1
        } else {
            i - 1
        };
        self.index = self.order[j].clone();
    }

    /// A digit key: 1 to 9 focus on that panel, 0 on the last one.
    pub fn digit(&mut self, d: u32)
        requires
            d <= 9,
            old(self).order@.len() > 0,
        ensures
            final(self).order == old(self).order,
            ({
                let target: int = if d == 0 {
                    old(self).order@.len() - 1
                } else {
                    d - 1
                };
                if target < old(self).order@.len() {
                    final(self).index == old(self).order@[target]
                } else {
                    final(self).index == old(self).index
                }
            }),
    {
        let target: usize = if d == 0 {
            self.order.len() - 1
        } else {
            (d - 1) as usize
        };
        self.go_to(target);
    }

    /// Handles one key press: `q` or Ctrl-C quit, `r` reloads the focused
    /// panel's task, Right/`l` and Left/`h` move the focus, digits jump to a
    /// panel (0 to the last), Up/`k`/Ctrl-P and Down/`j`/Ctrl-N scroll by a
    /// line, Ctrl-B/Ctrl-F by a page and Ctrl-U/Ctrl-D by half a page.
    pub fn on_key(&mut self, key: Key, scroll: &mut Scroll, height: u16) -> (r: KeyAction)
        requires
            old(self).order@.len() > 0,
        ensures
            final(self).order == old(self).order,
            final(scroll).lines == old(scroll).lines,
            (key == Key::Char('q') || key == Key::Ctrl('c')) ==> r == KeyAction::Quit,
            key == Key::Char('r') ==> r == KeyAction::Reload(old(self).index),
            !(key == Key::Char('q') || key == Key::Ctrl('c') || key == Key::Char('r')) ==> r == KeyAction::Nothing,
            is_next_key(key) ==> final(self).index == next_of(
                old(self).order@,
                position_of(string_seq(old(self).order@), old(self).index@),
            ),
            is_previous_key(key) ==> final(self).index == previous_of(
                old(self).order@,
                position_of(string_seq(old(self).order@), old(self).index@),
            ),
            digit_of(key) matches Some(d) ==> final(self).index == digit_target(old(self).order@, old(self).index, d),
            !is_next_key(key) && !is_previous_key(key) && digit_of(key) is None ==> final(self).index == old(self).index,
            is_up_key(key) ==> final(scroll).shift as int == scrolled_up(old(scroll).lines, old(scroll).shift, 1, height),
            is_down_key(key) ==> final(scroll).shift as int == scrolled_down(old(scroll).shift, 1),
            key == Key::Ctrl('b') ==> final(scroll).shift as int == scrolled_up(old(scroll).lines, old(scroll).shift, height, height),
            key == Key::Ctrl('u') ==> final(scroll).shift as int == scrolled_up(old(scroll).lines, old(scroll).shift, height / 2, height),
            key == Key::Ctrl('f') ==> final(scroll).shift as int == scrolled_down(old(scroll).shift, height),
            key == Key::Ctrl('d') ==> final(scroll).shift as int == scrolled_down(old(scroll).shift, height / 2),
            !is_up_key(key) && !is_down_key(key) && key != Key::Ctrl('b') && key != Key::Ctrl('u') && key != Key::Ctrl('f')
                && key != Key::Ctrl('d') ==> final(scroll).shift == old(scroll).shift,
    {
        match key {
            Key::Char('q') | Key::Ctrl('c') => KeyAction::Quit,
            Key::Char('r') => KeyAction::Reload(self.index.clone()),
            Key::Up | Key::Char('k') | Key::Ctrl('p') | Key::ScrollUp => {
                scroll.up(1, height);
                KeyAction::Nothing
            },
            Key::Down | Key::Char('j') | Key::Ctrl('n') | Key::ScrollDown => {
                scroll.down(1);
                KeyAction::Nothing
            },
            Key::Ctrl('b') => {
                scroll.up(height, height);
                KeyAction::Nothing
            },
            Key::Ctrl('u') => {
                scroll.up(height / 2, height);
                KeyAction::Nothing
            },
            Key::Ctrl('f') => {
                scroll.down(height);
                KeyAction::Nothing
            },
            Key::Ctrl('d') => {
                scroll.down(height / 2);
                KeyAction::Nothing
            },
            Key::Right | Key::Char('l') => {
                self.next();
                KeyAction::Nothing
            },
            Key::Left | Key::Char('h') => {
                self.previous();
                KeyAction::Nothing
            },
            Key::Char(c) => {
                if '0' <= c && c <= '9' {
                    self.digit((c as u32) - ('0' as u32));
                }
                KeyAction::Nothing
            },
            _ => KeyAction::Nothing,
        }
    }

    /// Adds a panel at the end unless it is already listed.
    pub fn register(&mut self, name: String)
        ensures
            final(self).index == old(self).index,
            string_seq(old(self).order@).contains(name@) ==> final(self).order == old(self).order,
            !string_seq(old(self).order@).contains(name@) ==> final(self).order@ == old(self).order@.push(name),
    {
        if !contains_string(&self.order, &name) {
            self.order.push(name);
        }
    }
}

/// The panel after the one at position `p`, wrapping around.
pub open spec fn next_of(order: Seq<String>, p: int) -> String {
    order[(p + 1) % order.len() as int]
}

/// The panel before the one at position `p`, wrapping around.
pub open spec fn previous_of(order: Seq<String>, p: int) -> String {
    order[if p == 0 {
        order.len() - 1
    } else {
        p - 1
    }]
}

/// Focus after digit key `d`: 1 to 9 pick that panel, 0 the last one; a
/// panel that does not exist leaves the focus.
pub open spec fn digit_target(order: Seq<String>, index: String, d: int) -> String {
    let target: int = if d == 0 {
        order.len() - 1
    } else {
        d - 1
    };
    if target < order.len() {
        order[target]
    } else {
        index
    }
}

/// Offset after scrolling up by `by` with `height` visible lines.
pub open spec fn scrolled_up(lines: u16, shift: u16, by: u16, height: u16) -> int {
    vstd::math::min(shift + by, lines - vstd::math::min(lines as int, height as int))
}

/// Offset after scrolling down by `by`.
pub open spec fn scrolled_down(shift: u16, by: u16) -> int {
    if shift >= by {
        shift - by
    } else {
        0
    }
}

/// A key press, as the console sees it.
#[derive(Debug, Clone, Copy, PartialEq, Eq)]
pub enum Key {
    /// A character without modifier.
    Char(char),
    /// A character with Control held.
    Ctrl(char),
    Up,
    Down,
    Left,
    Right,
    Tab,
    /// The mouse wheel turned up.
    ScrollUp,
    /// The mouse wheel turned down.
    ScrollDown,
    Other,
}

/// What a key asks of the runtime beyond moving the focus or the scroll.
#[derive(Debug, Clone, PartialEq, Eq)]
pub enum KeyAction {
    /// Stop every supervisor and the runtime.
    Quit,
    /// Reload the named panel's task by hand.
    Reload(String),
    Nothing,
}

/// The key moves the focus to the next panel.
pub open spec fn is_next_key(k: Key) -> bool {
    k == Key::Right || k == Key::Char('l')
}

/// The key moves the focus to the previous panel.
pub open spec fn is_previous_key(k: Key) -> bool {
    k == Key::Left || k == Key::Char('h')
}

/// The key scrolls up one line.
pub open spec fn is_up_key(k: Key) -> bool {
    k == Key::Up || k == Key::Char('k') || k == Key::Ctrl('p') || k == Key::ScrollUp
}

/// The key scrolls down one line.
pub open spec fn is_down_key(k: Key) -> bool {
    k == Key::Down || k == Key::Char('j') || k == Key::Ctrl('n') || k == Key::ScrollDown
}

/// The digit a key stands for, if it is `0` to `9`.
pub open spec fn digit_of(k: Key) -> Option<int> {
    match k {
        Key::Char(c) => if '0' <= c && c <= '9' {
            Some(c as int - '0' as int)
        } else {
            None
        },
        _ => None,
    }
}

/// Scroll state of one panel: wrapped line count and offset from the bottom.
pub struct Scroll {
    pub lines: u16,
    pub shift: u16,
}

impl Scroll {
    /// Scrolls up by `by`, at most to the first line given `height` visible
    /// lines.
    pub fn up(&mut self, by: u16, height: u16)
        ensures
            final(self).lines == old(self).lines,
            final(self).shift as int == scrolled_up(old(self).lines, old(self).shift, by, height),
    {
        let visible = if self.lines < height {
            self.lines
        } else {
            height
        };
        let maximum = self.lines - visible;
        let wanted: u32 = self.shift as u32 + by as u32;
        self.shift = if wanted < maximum as u32 {
            wanted as u16
        } else {
            maximum
        };
    }

    /// Scrolls down by `by`, at most to the bottom.
    pub fn down(&mut self, by: u16)
        ensures
            final(self).lines == old(self).lines,
            final(self).shift as int == scrolled_down(old(self).shift, by),
    {
        if self.shift >= by {
            self.shift = self.shift - by;
        } else {
            self.shift = 0;
        }
    }
}

} // verus!
