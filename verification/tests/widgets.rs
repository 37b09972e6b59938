use helix_term::graphics::Rect;
use helix_term::input::{
    InputEvent, KeyCode, KeyEvent, Modifiers, MouseEvent, MouseEventKind,
};
use helix_term::mcp::buffers::Hunk;
use helix_term::ui::diff_base::{cell_bg, CellColor, DiffBaseView, DiffHunkView, RowKind};
use helix_term::ui::markdown_preview::ViewResult;
use helix_term::ui::multi_menu::{item_visual_height, total_content_height};
use helix_term::ui::prompt::MenuResult;
use helix_term::ui::scrollbar::thumb;
use helix_term::ui::textarea::logical_line_vrows;
use helix_term::ui::{ButtonGroup, MultiMenu, MultiMenuItem, Select, TextArea};

const NONE: Modifiers = Modifiers { shift: false, control: false, alt: false, super_key: false };

fn key(code: KeyCode) -> InputEvent {
    InputEvent::Key(KeyEvent { code, modifiers: NONE })
}

fn ctrl(c: char) -> InputEvent {
    let modifiers = Modifiers { control: true, ..NONE };
    InputEvent::Key(KeyEvent { code: KeyCode::Char(c), modifiers })
}

// ── Text area ────────────────────────────────────────────────────────────────

fn area_with(text: &str) -> TextArea {
    let mut area = TextArea::new();
    area.insert_str(text);
    area
}

#[test]
fn text_is_typed_and_deleted_by_grapheme() {
    let mut area = area_with("ae\u{301}");
    area.delete_before();
    assert_eq!(area.text(), "a");
    area.insert_char('b');
    area.move_left();
    area.move_left();
    area.delete_after();
    assert_eq!(area.text(), "b");
    area.clear();
    assert_eq!(area.text(), "");
    area.delete_before();
    area.delete_after();
    assert_eq!(area.text(), "");
}

#[test]
fn clusters_are_found_in_any_text() {
    let steps = |text: &str| {
        let mut area = area_with(text);
        for _ in 0..20 {
            area.move_left();
        }
        let mut ends = Vec::new();
        while ends.last() != Some(&text.chars().count()) {
            area.move_right();
            ends.push(area.cursor);
        }
        area.move_right();
        assert_eq!(Some(&area.cursor), ends.last());
        assert_eq!(area.text(), text);
        ends
    };
    assert_eq!(steps("a\tb\u{7f}"), [1, 2, 3, 4]);
    assert_eq!(steps("a\r\nb\n\r"), [1, 3, 4, 5, 6]);
    assert_eq!(steps("\u{e9}\u{a9}\u{ad}\u{2ff}"), [1, 2, 3, 4]);
    assert_eq!(steps("ae\u{301}b"), [1, 3, 4]);
    assert_eq!(steps("\u{1F1F7}\u{1F1FA}\u{1F1F8}\u{1F1F9}x"), [2, 4, 5]);
    assert_eq!(steps("\u{1F468}\u{200D}\u{1F469}!"), [3, 4]);
    assert_eq!(steps("\u{915}\u{94D}\u{915}\u{915}"), [3, 4]);
}

#[test]
fn backspace_undoes_typing() {
    for text in ["", "ab", "a\n", "a\u{e9}"] {
        for c in ['x', '\n', '\r', '\u{fc}'] {
            let mut area = area_with(text);
            let place = area.cursor_position();
            area.insert_char(c);
            area.delete_before();
            assert_eq!(area.text(), text);
            assert_eq!(area.cursor_position(), place);
        }
    }
    let mut area = area_with("a\r");
    area.insert_char('\n');
    area.delete_before();
    assert_eq!(area.text(), "a");
}

#[test]
fn moves_and_deletions_go_together() {
    for left in 0..4 {
        let text = "ab\r\nc";
        let mut one = area_with(text);
        let mut other = area_with(text);
        for _ in 0..left {
            one.move_left();
            other.move_left();
        }
        one.move_left();
        one.delete_after();
        other.delete_before();
        assert_eq!(one.text(), other.text());
        assert_eq!(one.cursor, other.cursor);
    }
    let mut area = area_with("ab\r\nc");
    area.delete_after();
    assert_eq!(area.text(), "ab\r\nc");
    area.move_right();
    assert_eq!(area.cursor, 5);
    area.move_left();
    area.move_left();
    assert_eq!(area.cursor, 2);
    area.move_right();
    area.move_left();
    assert_eq!(area.cursor, 2);
    area.delete_after();
    assert_eq!(area.text(), "abc");
    assert_eq!(area.cursor, 2);
}

#[test]
fn cursor_behind_a_full_row_is_shown() {
    let mut area = area_with("hello");
    let rect = Rect::new(0, 0, 5, 2);
    assert_eq!(area.visual_rows_for(5), 1);
    assert_eq!(area.rows_needed_for(5), 2);
    assert_eq!(area.rows_needed_for(6), 1);
    area.render(rect);
    assert_eq!(area.cursor_screen_pos(rect), Some((0, 1)));
    area.move_left();
    assert_eq!(area.cursor_screen_pos(rect), Some((4, 0)));
    assert_eq!(area.rows_needed_for(5), 1);
    // Scrolled out of view.
    area.scroll = 3;
    assert_eq!(area.cursor_screen_pos(rect), None);
    let mut small = area_with("abcde");
    small.max_lines = 1;
    small.render(rect);
    assert_eq!(small.rows_needed_for(5), 1);
    assert_eq!(small.cursor_screen_pos(rect), Some((0, 0)));
}

#[test]
fn words_end_at_other_characters() {
    let mut area = area_with("a_1-\u{e9}2 x");
    for column in [7, 4, 0, 0] {
        area.move_word_left();
        assert_eq!(area.cursor, column);
    }
    for column in [4, 7, 8, 8] {
        area.move_word_right();
        assert_eq!(area.cursor, column);
    }
}

#[test]
fn cursor_moves_by_grapheme() {
    let mut area = area_with("ae\u{301}b");
    assert_eq!(area.cursor_position(), (0, 4));
    area.move_left();
    area.move_left();
    assert_eq!(area.cursor_position(), (0, 1));
    area.move_right();
    assert_eq!(area.cursor_position(), (0, 3));
}

#[test]
fn cursor_moves_by_line_and_keeps_its_column() {
    let mut area = area_with("abcd\nxyz\nlong line");
    assert_eq!(area.line_count(), 3);
    assert_eq!(area.cursor_position(), (2, 9));
    area.move_up();
    assert_eq!(area.cursor_position(), (1, 3));
    area.move_up();
    assert_eq!(area.cursor_position(), (0, 3));
    area.move_up();
    assert_eq!(area.cursor_position(), (0, 3));
    area.move_down();
    area.move_down();
    assert_eq!(area.cursor_position(), (2, 3));
    area.move_down();
    assert_eq!(area.cursor_position(), (2, 3));
}

#[test]
fn cursor_moves_by_word() {
    let mut area = area_with("one, two_2 é");
    area.move_word_left();
    assert_eq!(area.cursor_position(), (0, 11));
    area.move_word_left();
    assert_eq!(area.cursor_position(), (0, 5));
    area.move_word_left();
    assert_eq!(area.cursor_position(), (0, 0));
    area.move_word_right();
    assert_eq!(area.cursor_position(), (0, 5));
    area.move_word_right();
    area.move_word_right();
    assert_eq!(area.cursor_position(), (0, 12));
}

#[test]
fn long_lines_wrap() {
    assert_eq!(logical_line_vrows(0, 4), 1);
    assert_eq!(logical_line_vrows(8, 4), 2);
    assert_eq!(logical_line_vrows(9, 4), 3);
    assert_eq!(logical_line_vrows(9, 0), 1);
    let mut area = area_with("abcdefghij");
    assert_eq!(area.visual_rows_for(4), 3);
    let rows = area.render(Rect::new(2, 3, 4, 4));
    let texts: Vec<&str> = rows.iter().map(|r| r.text.as_str()).collect();
    assert_eq!(texts, vec!["abcd", "efgh", "ij"]);
    assert_eq!((rows[2].x, rows[2].y), (2, 5));
    assert_eq!(area.visual_rows(), 3);
    assert_eq!(area.cursor_screen_pos(Rect::new(2, 3, 4, 4)), Some((4, 5)));
}

#[test]
fn cursor_is_scrolled_into_view() {
    let mut area = area_with("1\n2\n3\n4\n5\n6");
    let rows = area.render(Rect::new(0, 0, 10, 4));
    let texts: Vec<&str> = rows.iter().map(|r| r.text.as_str()).collect();
    assert_eq!(texts, vec!["3", "4", "5", "6"]);
    assert_eq!(area.cursor_screen_pos(Rect::new(0, 0, 10, 4)), Some((1, 3)));
    assert_eq!(area.visual_rows_for(10), 4);
}

// ── Buttons, dialogs and menus ───────────────────────────────────────────────

fn strings(all: &[&str]) -> Vec<String> {
    all.iter().map(|s| s.to_string()).collect()
}

#[test]
fn buttons_fill_their_width() {
    let group = ButtonGroup::new(strings(&["Yes", "No"]));
    let width = group.required_width();
    assert_eq!(group.required_size(), (width, 1));
    let drawn = group.render(Rect::new(0, 0, 40, 1));
    assert_eq!(drawn.len(), 2);
    assert!(drawn[0].is_selected);
    assert!(!drawn[1].is_selected);
    assert!(drawn[0].text.contains("Yes"));
    let end = drawn[1].x - drawn[0].x + drawn[1].text.chars().count() as u16;
    assert_eq!(end, width);
}

#[test]
fn buttons_are_chosen_by_key() {
    let mut group = ButtonGroup::new(strings(&["Yes", "No"]));
    assert_eq!(group.handle_event(&key(KeyCode::Right)), MenuResult::Consumed);
    assert_eq!(group.handle_event(&key(KeyCode::Enter)), MenuResult::Validate(1));
    assert_eq!(group.handle_event(&key(KeyCode::Esc)), MenuResult::Abort(1));
    assert_eq!(group.handle_event(&InputEvent::Other), MenuResult::Ignored);
}

#[test]
fn dialogs_keep_keys_to_themselves() {
    let dialog = Select::new("Sure?".to_string(), vec![1, 2]);
    assert!(dialog.auto_close());
    assert_eq!(dialog.id(), None);
    let dialog = dialog.no_auto_close().with_id("sure");
    assert!(!dialog.auto_close());
    assert_eq!(dialog.id(), Some("sure"));
    assert_eq!(dialog.message(), "Sure?");
    assert_eq!(dialog.options(), &vec![1, 2]);
    assert_eq!(*dialog.selected(), 1);
}

#[test]
fn only_its_keys_close_a_dialog() {
    let validate = MenuResult::Validate(1);
    let abort = MenuResult::Abort(1);
    let open = Select::new("Sure?".to_string(), vec![1, 2]);
    assert_eq!(open.handle_event(&key(KeyCode::Up), MenuResult::Ignored), MenuResult::Consumed);
    assert_eq!(open.handle_event(&InputEvent::Other, MenuResult::Ignored), MenuResult::Ignored);
    assert_eq!(open.handle_event(&key(KeyCode::Char('x')), abort), abort);
    let dialog = open.no_auto_close();
    assert_eq!(dialog.handle_event(&key(KeyCode::Enter), validate), validate);
    assert_eq!(dialog.handle_event(&key(KeyCode::Esc), abort), abort);
    assert_eq!(dialog.handle_event(&ctrl('c'), abort), abort);
    for in_menu in [MenuResult::Ignored, MenuResult::Consumed, validate, abort] {
        for other in [key(KeyCode::Char('x')), key(KeyCode::Down), ctrl('x')] {
            assert_eq!(dialog.handle_event(&other, in_menu), MenuResult::Consumed);
        }
    }
    assert_eq!(dialog.handle_event(&key(KeyCode::Enter), abort), MenuResult::Consumed);
    assert_eq!(dialog.handle_event(&key(KeyCode::Esc), validate), MenuResult::Consumed);
}

#[test]
fn dialogs_lie_in_the_middle() {
    assert_eq!(Select::<u8>::required_size((10, 2), (6, 3)), (14, 8));
    assert_eq!(Select::<u8>::max_text_width(Rect::new(0, 0, 200, 10)), 80);
    assert_eq!(Select::<u8>::max_text_width(Rect::new(0, 0, 50, 10)), 40);
    let area = Select::<u8>::dialog_area(Rect::new(0, 0, 100, 50), (10, 2), (6, 3));
    assert_eq!((area.width, area.height), (14, 8));
    assert_eq!((area.x, area.y), (43, 21));
}

fn item(label: &str, sublabel: Option<&str>) -> MultiMenuItem {
    MultiMenuItem { label: label.to_string(), sublabel: sublabel.map(|s| s.to_string()) }
}

#[test]
fn menu_items_take_the_rows_they_need() {
    assert_eq!(item_visual_height(&item("one two", None), 20), 1);
    assert_eq!(item_visual_height(&item("one two", Some("sub")), 20), 2);
    assert_eq!(item_visual_height(&item("one two", None), 5), 2);
    let items = vec![item("a", None), item("b", Some("c"))];
    assert_eq!(total_content_height(&items, 20), 3);
}

#[test]
fn menu_reports_what_was_chosen() {
    let items = vec![item("a", None), item("b", None), item("c", None)];
    let mut menu: MultiMenu<u8> = MultiMenu::new(items).with_on_close(9);
    let (result, closed) = menu.handle_event(&key(KeyCode::Down));
    assert_eq!(result, MenuResult::Consumed);
    assert!(closed.is_none());
    let (result, closed) = menu.handle_event(&key(KeyCode::Enter));
    assert_eq!(result, MenuResult::Validate(1));
    assert_eq!(closed, Some(9));
}

#[test]
fn menu_lies_in_the_middle_of_any_screen() {
    let items = vec![item("a", None), item("b", None), item("c", None)];
    let menu: MultiMenu<u8> = MultiMenu::new(items);
    assert_eq!(menu.window(Rect::new(0, 0, 100, 12)), Some(Rect::new(25, 3, 50, 5)));
    assert_eq!(menu.window(Rect::new(0, 0, 100, 7283)), Some(Rect::new(25, 3639, 50, 5)));
    assert_eq!(menu.window(Rect::new(0, 0, 0, 60000)), None);
    assert_eq!(menu.window(Rect::new(0, 0, 100, 2)), None);
}

#[test]
fn menu_shows_the_selected_item() {
    let items: Vec<MultiMenuItem> = (0..9).map(|i| item(&format!("item {i}"), None)).collect();
    let mut menu: MultiMenu<u8> = MultiMenu::new(items);
    let inner = Rect::new(0, 0, 20, 3);
    menu.render(inner);
    for _ in 0..5 {
        menu.handle_event(&key(KeyCode::Down));
    }
    let rows = menu.render(inner);
    assert!(rows.len() <= 3);
    assert!(rows.iter().any(|r| r.text.contains("item 5")));
}

#[test]
fn thumb_reaches_both_ends() {
    assert_eq!(thumb(10, 20, 0), (0, 5));
    assert_eq!(thumb(10, 20, 10), (5, 5));
    assert_eq!(thumb(10, 1000, 500), (4, 1));
}

// ── Diffs ────────────────────────────────────────────────────────────────────

fn hunk(a: u32, b: u32, c: u32, d: u32) -> Hunk {
    Hunk { before_start: a, before_end: b, after_start: c, after_end: d }
}

fn numbered_lines(n: usize) -> String {
    (1..=n).map(|i| format!("line {i}\n")).collect()
}

fn shown(view: &mut DiffBaseView, height: u16) -> Vec<(Option<String>, Option<String>)> {
    let frame = view.render(Rect::new(1, 1, 60, height), None, None).unwrap();
    frame.rows.into_iter().map(|row| (row.left.number, row.right.number)).collect()
}

#[test]
fn cells_are_colored_by_what_they_show() {
    assert_eq!(cell_bg(RowKind::Context, true, 1, 2, 3), 3);
    assert_eq!(cell_bg(RowKind::Removed, true, 1, 2, 3), 1);
    assert_eq!(cell_bg(RowKind::Added, false, 1, 2, 3), 2);
    assert_eq!(cell_bg(RowKind::Modified, true, 1, 2, 3), 1);
    assert_eq!(cell_bg(RowKind::Modified, false, 1, 2, 3), 2);
}

#[test]
fn hunk_is_shown_with_its_context() {
    let base = numbered_lines(20);
    let mut view = DiffBaseView::new(
        base.clone(),
        base,
        "rust".to_string(),
        vec![hunk(9, 10, 9, 11)],
        9,
    );
    let rows = shown(&mut view, 30);
    let left: Vec<&str> = rows.iter().filter_map(|r| r.0.as_deref()).collect();
    assert_eq!(left, vec!["  7 ", "  8 ", "  9 ", " 10 ", " 11 ", " 12 ", " 13 "]);
    let right: Vec<&str> = rows.iter().filter_map(|r| r.1.as_deref()).collect();
    assert_eq!(right, vec!["  7 ", "  8 ", "  9 ", " 10 ", " 11 ", " 12 ", " 13 ", " 14 "]);
    assert_eq!(rows[3], (Some(" 10 ".to_string()), None));
}

#[test]
fn lines_stand_side_by_side_where_as_many_changed() {
    let text = numbered_lines(3);
    let mut view =
        DiffBaseView::new(text.clone(), text, "".to_string(), vec![hunk(1, 2, 1, 2)], 1);
    let frame = view.render(Rect::new(1, 1, 60, 10), None, None).unwrap();
    assert_eq!(frame.rows.len(), 3);
    assert_eq!(frame.rows[1].left.color, CellColor::Minus);
    assert_eq!(frame.rows[1].right.color, CellColor::Plus);
    assert_eq!(frame.rows[0].left.color, CellColor::Normal);
    assert_eq!(frame.rows[1].left.content.as_ref().unwrap()[0].content, "line 2");
    assert_eq!(frame.divider_x, 31);
    assert_eq!(frame.rows[0].right.x, 32);
    assert!(frame.left_title.starts_with(" Original"));
    assert!(frame.right_title.starts_with(" Modified"));
    assert_eq!(frame.thumb, None);
}

#[test]
fn cursor_window_is_shown_without_hunks() {
    let text = numbered_lines(30);
    let mut view = DiffBaseView::new(text.clone(), text, "".to_string(), Vec::new(), 10);
    let rows = shown(&mut view, 30);
    assert_eq!(rows.len(), 11);
    assert_eq!(rows[0].0.as_deref(), Some("  6 "));
    assert_eq!(rows[10].1.as_deref(), Some(" 16 "));
}

#[test]
fn whole_files_show_every_line() {
    let base = numbered_lines(12);
    let doc = numbered_lines(14);
    let hunks = vec![hunk(2, 4, 2, 3), hunk(8, 8, 7, 10)];
    let mut view = DiffBaseView::new_full_file(base, doc, "".to_string(), hunks, 0);
    let rows = shown(&mut view, 60);
    let left: Vec<String> = rows.iter().filter_map(|r| r.0.clone()).collect();
    let right: Vec<String> = rows.iter().filter_map(|r| r.1.clone()).collect();
    assert_eq!(left, (1..=12).map(|i| format!("{i:>3} ")).collect::<Vec<_>>());
    assert_eq!(right, (1..=14).map(|i| format!("{i:>3} ")).collect::<Vec<_>>());
}

#[test]
fn whole_files_begin_near_the_cursor() {
    let base = numbered_lines(200);
    let doc = numbered_lines(100);
    // A hundred lines were removed at the start.
    let hunks = vec![hunk(0, 100, 0, 0)];
    let mut view = DiffBaseView::new_full_file(base, doc, "".to_string(), hunks, 50);
    let rows = shown(&mut view, 21);
    assert!(rows.iter().any(|r| r.1.as_deref() == Some(" 51 ")));
    assert_eq!(rows[3].1.as_deref(), Some(" 51 "));
}

#[test]
fn diff_scrolls_by_key() {
    let text = numbered_lines(100);
    let mut view = DiffBaseView::new_full_file(text.clone(), text, "".to_string(), Vec::new(), 0);
    assert_eq!(shown(&mut view, 11)[0].0.as_deref(), Some("  1 "));
    assert_eq!(view.handle_event(&key(KeyCode::Char('j'))), ViewResult::Consumed);
    assert_eq!(shown(&mut view, 11)[0].0.as_deref(), Some("  2 "));
    assert_eq!(view.handle_event(&ctrl('d')), ViewResult::Consumed);
    assert_eq!(shown(&mut view, 11)[0].0.as_deref(), Some("  7 "));
    assert_eq!(view.handle_event(&key(KeyCode::PageUp)), ViewResult::Consumed);
    assert_eq!(view.handle_event(&key(KeyCode::Up)), ViewResult::Consumed);
    assert_eq!(shown(&mut view, 11)[0].0.as_deref(), Some("  1 "));
    for _ in 0..300 {
        view.handle_event(&key(KeyCode::Down));
    }
    assert_eq!(shown(&mut view, 11)[0].0.as_deref(), Some(" 91 "));
    assert_eq!(view.handle_event(&key(KeyCode::Esc)), ViewResult::Close);
    assert_eq!(view.handle_event(&key(KeyCode::Char('q'))), ViewResult::Close);
    assert_eq!(view.handle_event(&key(KeyCode::Char('x'))), ViewResult::Ignored);
    assert_eq!(view.required_size((80, 24)), Some((80, 24)));
    assert!(view.render(Rect::new(0, 0, 11, 9), None, None).is_none());
}

#[test]
fn hunk_view_asks_for_the_room_of_its_text() {
    let view = DiffHunkView::new("rust".to_string(), "ab\nécd\n".to_string());
    assert_eq!(view.required_size((100, 100)), Some((8, 4)));
    assert_eq!(view.required_size((10, 7)), Some((6, 3)));
    let empty = DiffHunkView::new("rust".to_string(), String::new());
    assert_eq!(empty.required_size((100, 100)), Some((44, 2)));
    let wide = DiffHunkView::new("rust".to_string(), "x".repeat(300));
    assert_eq!(wide.required_size((400, 100)), Some((120, 3)));
    assert_eq!(view.language(), "rust");
    assert_eq!(view.handle_event(&key(KeyCode::Esc)), ViewResult::Ignored);
    let rows = view.render(Rect::new(3, 4, 20, 1), None).unwrap();
    assert_eq!(rows.len(), 1);
    assert_eq!((rows[0].x, rows[0].y), (3, 4));
    assert_eq!(rows[0].spans[0].content, "ab");
    assert!(view.render(Rect::new(3, 4, 0, 1), None).is_none());
}

#[test]
fn events_of_the_mouse_are_told_apart() {
    let mouse = InputEvent::Mouse(MouseEvent {
        kind: MouseEventKind::ScrollDown,
        column: 1,
        row: 1,
        modifiers: NONE,
    });
    let text = numbered_lines(3);
    let mut view = DiffBaseView::new(text.clone(), text, "".to_string(), Vec::new(), 0);
    assert_eq!(view.handle_event(&mouse), ViewResult::Ignored);
}

#[test]
fn menu_asks_for_the_room_that_it_needs() {
    let items = vec![item("one two", None), item("日本", Some("twelve chars"))];
    let menu: MultiMenu<u8> = MultiMenu::new(items);
    assert_eq!(menu.content_size(), (16, 3));
    let none: MultiMenu<u8> = MultiMenu::new(Vec::new());
    assert_eq!(none.content_size(), (2, 0));
}

#[test]
fn empty_menu_can_be_closed() {
    let mut menu: MultiMenu<u8> = MultiMenu::new(Vec::new());
    assert!(menu.render(Rect::new(0, 0, 20, 3)).is_empty());
    assert_eq!(menu.handle_event(&key(KeyCode::Esc)).0, MenuResult::Abort(0));
    assert_eq!(menu.handle_event(&key(KeyCode::Enter)).0, MenuResult::Validate(0));
}
