//! A dialog that asks to choose one of several options.

use vstd::math::{max, min};
use vstd::prelude::*;

use crate::graphics::Rect;
use crate::input::{InputEvent, KeyCode, KeyEvent};
use crate::ui::prompt::MenuResult;

verus! {

/// A message with options below it.
#[derive(Debug)]
pub struct Select<T> {
    message: String,
    options: Vec<T>,
    /// The option that is selected.
    selected: usize,
    /// Other keys than those of the dialog close it.
    auto_close: bool,
    id: Option<&'static str>,
}

/// What a dialog holds.
pub ghost struct SelectView<T> {
    pub message: Seq<char>,
    pub options: Seq<T>,
    pub selected: nat,
    pub auto_close: bool,
    pub id: Option<&'static str>,
}

impl<T> View for Select<T> {
    type V = SelectView<T>;

    closed spec fn view(&self) -> SelectView<T> {
        SelectView {
            message: self.message@,
            options: self.options@,
            selected: self.selected as nat,
            auto_close: self.auto_close,
            id: self.id,
        }
    }
}

/// Where the parts of a dialog are, inside its border.
#[derive(Clone, Copy, Debug, PartialEq, Eq)]
pub struct SelectLayout {
    pub message: Rect,
    /// The line between the message and the options.
    pub separator: Rect,
    pub menu: Rect,
}

/// The size of a dialog around a message and a menu.
pub open spec fn dialog_size(message: (u16, u16), menu: (u16, u16)) -> (int, int) {
    (max(message.0 + 2, menu.0 as int) + 2, message.1 + 1 + menu.1 + 2)
}

/// Enter confirms.
pub open spec fn confirms(key: KeyEvent) -> bool {
    key.is_plain(KeyCode::Enter)
}

/// Esc and Ctrl-C reject.
pub open spec fn rejects(key: KeyEvent) -> bool {
    key.is_plain(KeyCode::Esc) || key.is_ctrl('c')
}

/// What becomes of an event in a dialog, given what becomes of it in the menu.
pub open spec fn event_result(
    auto_close: bool,
    event: InputEvent,
    in_menu: MenuResult,
) -> MenuResult {
    match event {
        InputEvent::Key(key) => match in_menu {
            MenuResult::Validate(_) if auto_close || confirms(key) => in_menu,
            MenuResult::Abort(_) if auto_close || rejects(key) => in_menu,
            _ => MenuResult::Consumed,
        },
        _ => in_menu,
    }
}

impl<T> Select<T> {
    /// A dialog with the first option selected.
    pub fn new(message: String, options: Vec<T>) -> (r: Self)
        requires
            options@.len() > 0,
        ensures
            r@ == (SelectView {
                message: message@,
                options: options@,
                selected: 0,
                auto_close: true,
                id: None,
            }),
    {
        Self { message, options, selected: 0, auto_close: true, id: None }
    }

    /// Disable auto-close so that only Enter confirms and only Esc/Ctrl-C rejects.
    /// Any other key is ignored and the dialog stays open.
    pub fn no_auto_close(self) -> (r: Self)
        ensures
            r@ == (SelectView { auto_close: false, ..self@ }),
    {
        Self {
            message: self.message,
            options: self.options,
            selected: self.selected,
            auto_close: false,
            id: self.id,
        }
    }

    /// Set a compositor ID so this dialog can be found and removed by ID.
    pub fn with_id(self, id: &'static str) -> (r: Self)
        ensures
            r@ == (SelectView { id: Some(id), ..self@ }),
    {
        Self {
            message: self.message,
            options: self.options,
            selected: self.selected,
            auto_close: self.auto_close,
            id: Some(id),
        }
    }

    pub fn id(&self) -> (id: Option<&'static str>)
        ensures
            id == self@.id,
    {
        self.id
    }

    pub fn message(&self) -> (message: &str)
        ensures
            message@ == self@.message,
    {
        self.message.as_str()
    }

    pub fn options(&self) -> (options: &Vec<T>)
        ensures
            options@ == self@.options,
    {
        &self.options
    }

    pub fn auto_close(&self) -> (b: bool)
        ensures
            b == self@.auto_close,
    {
        self.auto_close
    }

    /// The selected option.
    pub fn selected(&self) -> (option: &T)
        requires
            self@.selected < self@.options.len(),
        ensures
            *option == self@.options[self@.selected as int],
    {
        &self.options[self.selected]
    }

    /// What becomes of an event, given what becomes of it in the menu: keys never
    /// go through to what lies below the dialog. Without auto-close the menu's choice
    /// counts on Enter alone, and its dismissal on Esc and Ctrl-C alone.
    pub fn handle_event(&self, event: &InputEvent, in_menu: MenuResult) -> (result: MenuResult)
        ensures
            result == event_result(self@.auto_close, *event, in_menu),
    {
        match event {
            InputEvent::Key(key) => {
                let key = *key;
                let counts = match in_menu {
                    MenuResult::Ignored => false,
                    MenuResult::Consumed => false,
                    MenuResult::Validate(_) => self.auto_close || key.plain(KeyCode::Enter),
                    MenuResult::Abort(_) => {
                        self.auto_close || key.plain(KeyCode::Esc) || key.ctrl('c')
                    },
                };
                if counts {
                    in_menu
                } else {
                    MenuResult::Consumed
                }
            },
            _ => in_menu,
        }
    }

    /// The size of the dialog, given those of its message and its menu.
    pub fn required_size(message: (u16, u16), menu: (u16, u16)) -> (size: (u16, u16))
        requires
            dialog_size(message, menu).0 <= u16::MAX,
            dialog_size(message, menu).1 <= u16::MAX,
        ensures
            size.0 == dialog_size(message, menu).0,
            size.1 == dialog_size(message, menu).1,
    {
        let padded: u16 = message.0 + 2;
        let inner: u16 = if padded > menu.0 {
            padded
        } else {
            menu.0
        };
        (inner + 2, message.1 + 1 + menu.1 + 2)
    }

    /// The columns that the message may take: four fifths of the screen, but no
    /// more than 80.
    pub fn max_text_width(area: Rect) -> (width: u16)
        ensures
            width == min(80, (area.width * 80) / 100),
    {
        let share: u32 = (area.width as u32) * 80 / 100;
        if share < 80 {
            share as u16
        } else {
            80
        }
    }

    /// Where the dialog is: in the middle of `area`, and no larger.
    pub fn dialog_area(area: Rect, message: (u16, u16), menu: (u16, u16)) -> (dialog: Rect)
        requires
            area.fits(),
            dialog_size(message, menu).0 <= u16::MAX,
            dialog_size(message, menu).1 <= u16::MAX,
        ensures
            ({
                let size = dialog_size(message, menu);
                &&& dialog.x == area.x + max(area.width - size.0, 0) / 2
                &&& dialog.y == area.y + max(area.height - size.1, 0) / 2
                &&& dialog.width == min(size.0, area.width as int)
                &&& dialog.height == min(size.1, area.height as int)
            }),
            area.x <= dialog.x && dialog.x + dialog.width <= area.x + area.width,
            area.y <= dialog.y && dialog.y + dialog.height <= area.y + area.height,
    {
        let (width, height) = Self::required_size(message, menu);
        // Strictly center within the given area (origin-aware, no underflow).
        let x = area.x + area.width.saturating_sub(width) / 2;
        let y = area.y + area.height.saturating_sub(height) / 2;
        let shown_width = if width < area.width {
            width
        } else {
            area.width
        };
        let shown_height = if height < area.height {
            height
        } else {
            area.height
        };
        Rect::new(x, y, shown_width, shown_height)
    }

    /// Where the parts are inside the border.
    pub fn layout(inner: Rect, message_height: u16, menu_height: u16) -> (layout: SelectLayout)
        requires
            inner.fits(),
            inner.x < u16::MAX,
            inner.y + inner.height < u16::MAX,
        ensures
            ({
                let shown = min(message_height as int, inner.height as int);
                let room = max(inner.height - (shown + 1), 0);
                &&& layout.message.x == inner.x + 1
                &&& layout.message.y == inner.y
                &&& layout.message.width == max(inner.width - 2, 0)
                &&& layout.message.height == shown
                &&& layout.separator.x == inner.x
                &&& layout.separator.y == inner.y + shown
                &&& layout.separator.width == inner.width
                &&& layout.separator.height == 1
                &&& layout.menu.x == inner.x
                &&& layout.menu.y == inner.y + shown + 1
                &&& layout.menu.width == inner.width
                &&& layout.menu.height == min(room, menu_height as int)
            }),
    {
        // Message with 1-char horizontal padding so text isn't flush with the border.
        let shown = if message_height < inner.height {
            message_height
        } else {
            inner.height
        };
        let message = Rect::new(inner.x + 1, inner.y, inner.width.saturating_sub(2), shown);
        let sep_y = inner.y + shown;
        let separator = Rect::new(inner.x, sep_y, inner.width, 1);
        // Options menu below the separator.
        let avail = inner.height.saturating_sub(shown).saturating_sub(1);
        let height = if avail < menu_height {
            avail
        } else {
            menu_height
        };
        let menu = Rect::new(inner.x, sep_y + 1, inner.width, height);
        SelectLayout { message, separator, menu }
    }
}

/// Without auto-close only Enter confirms and only Esc and Ctrl-C reject, as far as the
/// menu does. Any other key, whatever the menu makes of it, is taken and leaves the
/// dialog open.
pub proof fn law_only_its_keys_close_the_dialog<T>(
    dialog: SelectView<T>,
    key: KeyEvent,
    in_menu: MenuResult,
)
    requires
        !dialog.auto_close,
    ensures
        ({
            let result = event_result(dialog.auto_close, InputEvent::Key(key), in_menu);
            &&& !confirms(key) && !rejects(key) ==> result == MenuResult::Consumed
            &&& result is Validate <==> confirms(key) && in_menu is Validate
            &&& result is Abort <==> rejects(key) && in_menu is Abort
            &&& result is Validate || result is Abort ==> result == in_menu
            &&& result != MenuResult::Ignored
        }),
{
}

/// No key goes through to what lies below the dialog.
pub proof fn law_dialog_takes_every_key(auto_close: bool, key: KeyEvent, in_menu: MenuResult)
    ensures
        event_result(auto_close, InputEvent::Key(key), in_menu) != MenuResult::Ignored,
{
}

/// A dialog lies in the middle: what is left free on both sides differs by one
/// column or row at most.
pub proof fn law_dialog_is_centered(area: Rect, size: (int, int))
    requires
        0 <= size.0,
        0 <= size.1,
    ensures
        ({
            let left = max(area.width - size.0, 0) / 2;
            let right = area.width - left - min(size.0, area.width as int);
            let top = max(area.height - size.1, 0) / 2;
            let bottom = area.height - top - min(size.1, area.height as int);
            &&& 0 <= right - left <= 1
            &&& 0 <= bottom - top <= 1
        }),
{
}

/// A dialog has room for its message and, below it, for its menu.
pub proof fn law_dialog_has_room(message: (u16, u16), menu: (u16, u16))
    ensures
        dialog_size(message, menu).0 >= message.0 + 4,
        dialog_size(message, menu).0 >= menu.0 + 2,
        dialog_size(message, menu).0 == message.0 + 4 || dialog_size(message, menu).0 == menu.0 + 2,
        dialog_size(message, menu).1 == message.1 + menu.1 + 3,
{
}

/// A dialog that closes by itself passes on every choice made in its menu; what is no key
/// goes to the menu alone.
pub proof fn law_dialog_passes_on_the_choice(key: KeyEvent, in_menu: MenuResult)
    ensures
        in_menu is Validate || in_menu is Abort ==> event_result(true, InputEvent::Key(key), in_menu)
            == in_menu,
        !(in_menu is Validate) && !(in_menu is Abort) ==> event_result(
            true,
            InputEvent::Key(key),
            in_menu,
        ) == MenuResult::Consumed,
        event_result(true, InputEvent::Other, in_menu) == in_menu,
        event_result(false, InputEvent::Other, in_menu) == in_menu,
{
}

} // verus!
