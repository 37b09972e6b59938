//! A row of buttons.

use vstd::math::min;
use vstd::prelude::*;

use crate::graphics::Rect;
use crate::input::{InputEvent, KeyCode, KeyEvent};
use crate::text::views;
use crate::ui::prompt::MenuResult;

verus! {

/// A button as it is shown.
pub open spec fn button_text(label: Seq<char>) -> Seq<char> {
    "[ "@ + label + " ]"@
}

/// The columns that the first `n` buttons take, without what is between them.
pub open spec fn buttons_width(labels: Seq<Seq<char>>, n: int) -> nat
    decreases n,
{
    if n <= 0 {
        0
    } else {
        buttons_width(labels, n - 1) + labels[n - 1].len() + 4
    }
}

/// The column at which button `i` starts: two columns lie between two buttons.
pub open spec fn button_x(labels: Seq<Seq<char>>, i: int) -> nat {
    buttons_width(labels, i) + 2 * i as nat
}

/// The columns that all buttons take side by side.
pub open spec fn group_width(labels: Seq<Seq<char>>) -> int {
    buttons_width(labels, labels.len() as int) + if labels.len() == 0 {
        0
    } else {
        2 * (labels.len() - 1)
    }
}

/// What a row of buttons holds.
pub ghost struct ButtonGroupView {
    pub labels: Seq<Seq<char>>,
    pub selected: nat,
}

impl ButtonGroupView {
    pub open spec fn left(self) -> ButtonGroupView {
        ButtonGroupView {
            selected: if self.selected == 0 {
                0
            } else {
                (self.selected - 1) as nat
            },
            ..self
        }
    }

    pub open spec fn right(self) -> ButtonGroupView {
        ButtonGroupView {
            selected: if self.selected + 1 < self.labels.len() {
                self.selected + 1
            } else if self.labels.len() == 0 {
                0
            } else {
                (self.labels.len() - 1) as nat
            },
            ..self
        }
    }

    pub open spec fn after_key(self, key: KeyEvent) -> ButtonGroupView {
        match key.code {
            KeyCode::Left => self.left(),
            KeyCode::Tab => if key.modifiers.shift {
                self.left()
            } else {
                self.right()
            },
            KeyCode::Right => self.right(),
            _ => self,
        }
    }

    pub open spec fn result(self, key: KeyEvent) -> MenuResult {
        match key.code {
            KeyCode::Left | KeyCode::Tab | KeyCode::Right => MenuResult::Consumed,
            KeyCode::Enter => MenuResult::Validate(self.selected as usize),
            KeyCode::Esc => MenuResult::Abort(self.selected as usize),
            KeyCode::Char(c) => if c == 'c' && key.modifiers.control {
                MenuResult::Abort(self.selected as usize)
            } else {
                MenuResult::Ignored
            },
            _ => MenuResult::Ignored,
        }
    }
}

/// A button on the screen.
#[derive(Debug)]
pub struct DrawnButton {
    pub x: u16,
    pub y: u16,
    pub text: String,
    pub width: u16,
    pub is_selected: bool,
}

/// A horizontal row of labeled buttons.
///
/// Renders as:  `[ Allow ]  [ Deny ]  [ Cancel ]`
///
/// The focused button is highlighted with `ui.menu.selected`.
#[derive(Debug)]
pub struct ButtonGroup {
    buttons: Vec<String>,
    selected: usize,
}

impl View for ButtonGroup {
    type V = ButtonGroupView;

    closed spec fn view(&self) -> ButtonGroupView {
        ButtonGroupView { labels: views(self.buttons@), selected: self.selected as nat }
    }
}

proof fn lemma_buttons_width_monotone(labels: Seq<Seq<char>>, i: int, n: int)
    requires
        0 <= i <= n <= labels.len(),
    ensures
        buttons_width(labels, i) <= buttons_width(labels, n),
        buttons_width(labels, n) >= 4 * n,
    decreases n,
{
    if i < n {
        lemma_buttons_width_monotone(labels, i, n - 1);
    } else if n > 0 {
        lemma_buttons_width_monotone(labels, i - 1, n - 1);
    }
}

impl ButtonGroup {
    pub fn new(buttons: Vec<String>) -> (r: Self)
        ensures
            r@ == (ButtonGroupView { labels: views(buttons@), selected: 0 }),
    {
        Self { buttons, selected: 0 }
    }

    /// Total width needed to render all buttons side by side.
    pub fn required_width(&self) -> (width: u16)
        requires
            buttons_width(self@.labels, self@.labels.len() as int) <= u16::MAX,
        ensures
            width == min(group_width(self@.labels), u16::MAX as int),
    {
        let ghost labels = self@.labels;
        let mut width: u16 = 0;
        let mut i: usize = 0;
        while i < self.buttons.len()
            invariant
                i <= self.buttons.len(),
                labels == views(self.buttons@),
                width == buttons_width(labels, i as int),
                buttons_width(labels, labels.len() as int) <= u16::MAX,
            decreases self.buttons.len() - i,
        {
            let len = self.buttons[i].as_str().unicode_len();
            proof {
                assert(labels[i as int].len() == len);
                lemma_buttons_width_monotone(labels, i + 1, labels.len() as int);
            }
            width += len as u16 + 4;
            i += 1;
        }
        proof {
            lemma_buttons_width_monotone(labels, 0, labels.len() as int);
        }
        let gaps = self.buttons.len().saturating_sub(1) as u16;
        width.saturating_add(2 * gaps)
    }

    pub fn required_size(&self) -> (size: (u16, u16))
        requires
            buttons_width(self@.labels, self@.labels.len() as int) <= u16::MAX,
        ensures
            size.0 == min(group_width(self@.labels), u16::MAX as int),
            size.1 == 1,
    {
        (self.required_width(), 1)
    }

    /// The buttons side by side, from the left end of `area` on.
    pub fn render(&self, area: Rect) -> (drawn: Vec<DrawnButton>)
        requires
            area.x + group_width(self@.labels) <= u16::MAX,
        ensures
            drawn@.len() == self@.labels.len(),
            forall|i: int|
                0 <= i < drawn@.len() ==> {
                    &&& (#[trigger] drawn@[i]).x == area.x + button_x(self@.labels, i)
                    &&& drawn@[i].y == area.y
                    &&& drawn@[i].text@ == button_text(self@.labels[i])
                    &&& drawn@[i].width == self@.labels[i].len() + 4
                    &&& drawn@[i].is_selected == (i == self@.selected)
                },
    {
        proof {
            reveal_strlit("[ ");
            reveal_strlit(" ]");
        }
        let ghost labels = self@.labels;
        let mut drawn: Vec<DrawnButton> = Vec::new();
        let mut x: u16 = area.x;
        let mut i: usize = 0;
        while i < self.buttons.len()
            invariant
                i <= self.buttons.len(),
                labels == views(self.buttons@),
                labels == self@.labels,
                "[ "@.len() == 2,
                " ]"@.len() == 2,
                x == area.x + buttons_width(labels, i as int) + if i == 0 {
                    0
                } else {
                    2 * (i - 1)
                },
                area.x + group_width(labels) <= u16::MAX,
                drawn@.len() == i,
                forall|k: int|
                    0 <= k < i ==> {
                        &&& (#[trigger] drawn@[k]).x == area.x + button_x(labels, k)
                        &&& drawn@[k].y == area.y
                        &&& drawn@[k].text@ == button_text(labels[k])
                        &&& drawn@[k].width == labels[k].len() + 4
                        &&& drawn@[k].is_selected == (k == self@.selected)
                    },
            decreases self.buttons.len() - i,
        {
            proof {
                assert(labels[i as int] == self.buttons@[i as int]@);
                lemma_buttons_width_monotone(labels, i + 1, labels.len() as int);
            }
            if i > 0 {
                // 2-space gap between buttons
                x += 2;
            }
            let mut text = "[ ".to_string();
            text.append(self.buttons[i].as_str());
            text.append(" ]");
            let width = text.as_str().unicode_len() as u16;
            drawn.push(
                DrawnButton { x, y: area.y, text, width, is_selected: i == self.selected },
            );
            x += width;
            i += 1;
        }
        drawn
    }

    pub fn handle_event(&mut self, event: &InputEvent) -> (result: MenuResult)
        ensures
            match event {
                InputEvent::Key(key) => {
                    &&& final(self)@ == old(self)@.after_key(*key)
                    &&& result == old(self)@.result(*key)
                },
                _ => final(self)@ == old(self)@ && result == MenuResult::Ignored,
            },
    {
        let key = match event {
            InputEvent::Key(key) => key,
            _ => {
                return MenuResult::Ignored;
            },
        };
        match key.code {
            // Left arrow or Shift+Tab: move selection left.
            KeyCode::Left => {
                self.selected = self.selected.saturating_sub(1);
                MenuResult::Consumed
            },
            KeyCode::Tab => {
                if key.modifiers.shift {
                    self.selected = self.selected.saturating_sub(1);
                } else {
                    self.move_right();
                }
                MenuResult::Consumed
            },
            KeyCode::Right => {
                self.move_right();
                MenuResult::Consumed
            },
            KeyCode::Enter => MenuResult::Validate(self.selected),
            KeyCode::Esc => MenuResult::Abort(self.selected),
            KeyCode::Char(c) => {
                if c == 'c' && key.modifiers.control {
                    MenuResult::Abort(self.selected)
                } else {
                    MenuResult::Ignored
                }
            },
            _ => MenuResult::Ignored,
        }
    }

    fn move_right(&mut self)
        ensures
            final(self)@ == old(self)@.right(),
    {
        let last = self.buttons.len().saturating_sub(1);
        self.selected = if self.selected < last {
            self.selected + 1
        } else {
            last
        };
    }
}

/// The buttons fill the width that they require: the last one ends where it does.
pub proof fn law_buttons_fill_required_width(labels: Seq<Seq<char>>)
    requires
        labels.len() > 0,
    ensures
        button_x(labels, labels.len() - 1) + button_text(labels.last()).len() == group_width(labels),
{
    reveal_strlit("[ ");
    reveal_strlit(" ]");
}

/// Some button is always selected.
pub proof fn law_selection_stays_on_buttons(st: ButtonGroupView, key: KeyEvent)
    requires
        st.selected < st.labels.len(),
    ensures
        st.after_key(key).selected < st.labels.len(),
{
}

/// Buttons lie side by side in their order, two columns apart, the first one at the left.
pub proof fn law_buttons_lie_side_by_side(labels: Seq<Seq<char>>, i: int)
    requires
        0 <= i < labels.len(),
    ensures
        button_x(labels, 0) == 0,
        button_x(labels, i + 1) == button_x(labels, i) + button_text(labels[i]).len() + 2,
        button_text(labels[i]).len() == labels[i].len() + 4,
        button_text(labels[i]).subrange(2, 2 + labels[i].len() as int) == labels[i],
{
    reveal_strlit("[ ");
    reveal_strlit(" ]");
    assert(button_text(labels[i]).subrange(2, 2 + labels[i].len() as int) =~= labels[i]);
}

/// The arrows and the tab key select the button beside, and stop at the first and at the
/// last. Enter chooses the selected button, and Escape and Ctrl-C leave.
pub proof fn law_keys_of_the_buttons(st: ButtonGroupView, key: KeyEvent)
    requires
        st.selected < st.labels.len(),
    ensures
        ({
            let left = key.code == KeyCode::Left || key.code == KeyCode::Tab && key.modifiers.shift;
            let right = key.code == KeyCode::Right || key.code == KeyCode::Tab
                && !key.modifiers.shift;
            &&& st.after_key(key).labels == st.labels
            &&& left && st.selected > 0 ==> st.after_key(key).selected == st.selected - 1
            &&& left && st.selected == 0 ==> st.after_key(key).selected == 0
            &&& right && st.selected + 1 < st.labels.len() ==> st.after_key(key).selected
                == st.selected + 1
            &&& right && st.selected + 1 == st.labels.len() ==> st.after_key(key) == st
            &&& !left && !right ==> st.after_key(key) == st
            &&& left || right <==> st.result(key) == MenuResult::Consumed
            &&& key.code == KeyCode::Enter ==> st.result(key) == MenuResult::Validate(
                st.selected as usize,
            )
            &&& key.code == KeyCode::Esc || (key.code == KeyCode::Char('c')
                && key.modifiers.control) ==> st.result(key) == MenuResult::Abort(
                st.selected as usize,
            )
            &&& key.code == KeyCode::Char('c') && !key.modifiers.control ==> st.result(key)
                == MenuResult::Ignored
        }),
{
}

} // verus!
