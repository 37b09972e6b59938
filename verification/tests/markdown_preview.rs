use helix_term::graphics::Rect;
use helix_term::input::{InputEvent, KeyCode, KeyEvent, Modifiers, MouseEvent, MouseEventKind};
use helix_term::ui::markdown::code::{CodeHighlights, HighlightStep};
use helix_term::ui::markdown::{show, Markdown};
use helix_term::ui::markdown_preview::{
    drop_columns, is_protected, pan, visual_rows, wrap_spans, ViewResult,
};
use helix_term::ui::scrollbar::thumb;
use helix_term::ui::spans::{copy_line, text_of, Role, Span, Style};
use helix_term::ui::MarkdownPreview;
use unicode_width::UnicodeWidthStr;

fn plain(s: &str) -> Vec<Span> {
    vec![Span::styled(s.to_string(), Style::new(Role::Plain))]
}

const NONE: Modifiers = Modifiers { shift: false, control: false, alt: false, super_key: false };

fn key(code: KeyCode) -> InputEvent {
    InputEvent::Key(KeyEvent { code, modifiers: NONE })
}

fn ctrl(c: char) -> InputEvent {
    let modifiers = Modifiers { control: true, ..NONE };
    InputEvent::Key(KeyEvent { code: KeyCode::Char(c), modifiers })
}

fn wheel(kind: MouseEventKind, shift: bool) -> InputEvent {
    let modifiers = Modifiers { shift, ..NONE };
    InputEvent::Mouse(MouseEvent { kind, column: 0, row: 0, modifiers })
}

#[test]
fn protects_table_and_rule_lines() {
    assert!(is_protected(&plain("┌──────┬──────┐")));
    assert!(is_protected(&plain("│ Col1 │ Col2 │")));
    assert!(is_protected(&plain("├──────┼──────┤")));
    assert!(is_protected(&plain("───")));
    assert!(!is_protected(&plain("regular paragraph text")));
    assert!(!is_protected(&plain("")));
}

#[test]
fn wide_table_row_is_not_wrapped() {
    // A table row far wider than the width must stay a single visual line.
    let row = "│ Column Alpha │ Column Beta │ Column Gamma │ Column Delta │";
    assert!(is_protected(&plain(row)));
    // Protected lines bypass wrap_spans entirely, so a copy keeps them intact.
    let kept = copy_line(&plain(row));
    assert_eq!(text_of(&kept), row);
    let rows = visual_rows(&vec![plain(row)], 10);
    assert_eq!(rows.len(), 1);
    assert_eq!(text_of(&rows[0]), row);
}

#[test]
fn long_prose_wraps_to_width() {
    let prose = plain("the quick brown fox jumps over the lazy dog again and again");
    let wrapped = wrap_spans(&prose, 20);
    assert!(wrapped.len() > 1, "expected multiple wrapped lines");
    for line in &wrapped {
        assert!(
            text_of(line).width() <= 20,
            "line exceeds width: {:?}",
            text_of(line)
        );
    }
    // No content is lost (word order preserved, whitespace-insensitive).
    let joined: String = wrapped
        .iter()
        .flat_map(|l| l.iter())
        .map(|s| s.content.as_str())
        .collect::<Vec<_>>()
        .join("");
    for word in ["quick", "brown", "lazy", "again"] {
        assert!(joined.contains(word), "missing word {word}");
    }
}

#[test]
fn overlong_word_is_hard_split() {
    let word = plain("supercalifragilisticexpialidocious");
    let wrapped = wrap_spans(&word, 10);
    assert!(wrapped.len() >= 4);
    for line in &wrapped {
        assert!(text_of(line).width() <= 10);
    }
}

#[test]
fn empty_line_preserved() {
    let wrapped = wrap_spans(&plain(""), 20);
    assert_eq!(wrapped.len(), 1);
    assert_eq!(text_of(&wrapped[0]), "");
}

#[test]
fn drop_columns_pans_horizontally() {
    assert_eq!(drop_columns("┌────┬────┐", 0), "┌────┬────┐");
    assert_eq!(drop_columns("┌────┬────┐", 5), "┬────┐");
    assert_eq!(drop_columns("abcdef", 3), "def");
    assert_eq!(drop_columns("abc", 3), "");
    assert_eq!(drop_columns("abc", 10), "");
    // Wide (2-column) chars: dropping 1 col of a 2-col char keeps the next char.
    assert_eq!(drop_columns("あい", 2), "い");
    assert_eq!(drop_columns("あい", 1), "い");
}

/// End-to-end: parse a document with a wide table + long prose, build the
/// visual lines the way `render` does, and assert prose wraps while the table
/// stays intact on single lines.
#[test]
fn render_pipeline_wraps_prose_keeps_tables() {
    let src = "\
# Heading

This is a fairly long prose paragraph that should be word-wrapped across several visual lines when the view is narrow.

| Column Alpha | Column Beta | Column Gamma | Column Delta |
| ------------ | ----------- | ------------ | ------------ |
| a1 value     | b1 value    | c1 value     | d1 value     |
";
    let md = Markdown::new(src.to_string());
    let text = md.parse();

    let width = 30usize;
    let mut vlines: Vec<Vec<Span>> = Vec::new();
    for line in &text {
        if is_protected(line) {
            vlines.push(copy_line(line));
        } else {
            vlines.extend(wrap_spans(line, width));
        }
    }

    // Prose wrapped to width; table rows kept whole (wider than `width`).
    assert!(vlines.iter().any(|l| !is_protected(l) && text_of(l).contains("word-wrapped")));
    for l in &vlines {
        if is_protected(l) {
            assert!(text_of(l).width() > width, "table row should stay intact");
        } else {
            assert!(text_of(l).width() <= width, "prose must fit the width");
        }
    }
    // The view builds the same lines.
    let rows = visual_rows(&text, width);
    let a: Vec<String> = rows.iter().map(text_of).collect();
    let b: Vec<String> = vlines.iter().map(text_of).collect();
    assert_eq!(a, b);
}

#[test]
fn wrapping_keeps_indentation_and_drops_other_leading_space() {
    let texts = |s: &str, w| wrap_spans(&plain(s), w).iter().map(text_of).collect::<Vec<_>>();
    assert_eq!(texts("  ab cd", 4), vec!["  ab", "cd"]);
    assert_eq!(texts("ab    cd", 4), vec!["ab  ", "cd"]);
    assert_eq!(texts("あいう", 4), vec!["あい", "う"]);
    assert_eq!(texts("x abcdefgh", 4), vec!["x ab", "cdef", "gh"]);
    assert_eq!(texts("abc", 0), vec!["a", "b", "c"]);
    // A character before U+FE0F counts as an emoji.
    assert_eq!(texts("ab ☂\u{fe0f}", 4), vec!["ab ", "☂\u{fe0f}"]);
}

#[test]
fn scrolling_is_clamped() {
    let text: String = (0..40).map(|i| format!("line {i}\n\n")).collect();
    let mut view = MarkdownPreview::new(text);
    assert!(view.needs_layout(20));
    let lines = show(&view.blocks(20), &vec![]);
    view.set_lines(&lines, 20);
    assert!(!view.needs_layout(20));
    let inner = Rect::new(1, 1, 20, 11);
    let first = |view: &mut MarkdownPreview| {
        let frame = view.render(inner).unwrap();
        text_of(&frame.rows[0].spans)
    };
    let frame = view.render(inner).unwrap();
    assert_eq!(frame.rows.len(), 10);
    assert_eq!(frame.rows[9].y, 11);
    assert_eq!(frame.end_x, 21);
    assert_eq!(frame.thumb, Some(thumb(10, lines.len(), 0)));
    assert_eq!(view.handle_event(&key(KeyCode::Char('j'))), ViewResult::Consumed);
    assert_eq!(view.handle_event(&key(KeyCode::Down)), ViewResult::Consumed);
    assert_eq!(first(&mut view), "line 1");
    assert_eq!(view.handle_event(&ctrl('d')), ViewResult::Consumed);
    assert_eq!(view.handle_event(&key(KeyCode::Char('k'))), ViewResult::Consumed);
    assert_eq!(first(&mut view), "line 3");
    view.handle_event(&key(KeyCode::Char('G')));
    let frame = view.render(inner).unwrap();
    assert_eq!(text_of(&frame.rows[9].spans), "line 39");
    let (start, height) = frame.thumb.unwrap();
    assert_eq!(start + height, 10);
    view.handle_event(&wheel(MouseEventKind::ScrollDown, false));
    assert_eq!(text_of(&view.render(inner).unwrap().rows[9].spans), "line 39");
    view.handle_event(&wheel(MouseEventKind::ScrollUp, false));
    view.handle_event(&key(KeyCode::Char('g')));
    assert_eq!(first(&mut view), "line 0");
    assert_eq!(view.handle_event(&key(KeyCode::Esc)), ViewResult::Close);
    assert_eq!(view.handle_event(&key(KeyCode::Char('q'))), ViewResult::Close);
    assert_eq!(view.handle_event(&key(KeyCode::Char('x'))), ViewResult::Ignored);
    assert_eq!(view.handle_event(&InputEvent::Other), ViewResult::Ignored);
    assert_eq!(view.required_size((3, 4)), Some((3, 4)));
    assert!(view.render(Rect::new(0, 0, 3, 10)).is_none());
}

#[test]
fn document_is_laid_out_with_its_highlights() {
    let step = |offset, id| HighlightStep { offset, refresh: false, highlights: vec![id] };
    let code = |at| Some(CodeHighlights { syntax: vec![step(0, 3), step(at, 4)], overlay: vec![] });
    let mut view = MarkdownPreview::new("one two\n\n```rust\nlet é;\n```\n".to_string());
    assert!(!view.lay_out(&vec![code(5)], 5));
    assert!(view.needs_layout(5));
    assert!(view.lay_out(&vec![code(6)], 5));
    assert!(!view.needs_layout(5));
    let frame = view.render(Rect::new(0, 0, 5, 11)).unwrap();
    let texts: Vec<String> = frame.rows.iter().map(|row| text_of(&row.spans)).collect();
    assert_eq!(texts, ["one ", "two", "", "let é", ";"]);
    assert_eq!(frame.rows[3].spans[0].highlights, vec![3]);
    assert_eq!(frame.rows[4].spans[0].highlights, vec![3, 4]);
    assert!(view.lay_out(&vec![], 40));
    let frame = view.render(Rect::new(0, 0, 40, 11)).unwrap();
    assert_eq!(text_of(&frame.rows[2].spans), "let é;");
    assert!(frame.rows[2].spans[0].highlights.is_empty());
}

#[test]
fn panning_reaches_the_end_of_wide_tables() {
    let mut view = MarkdownPreview::new(String::new());
    let row = "│ 123456789 123456789 123456789 │";
    view.set_lines(&vec![plain(row)], 10);
    let inner = Rect::new(0, 0, 10, 4);
    view.render(inner);
    view.handle_event(&wheel(MouseEventKind::ScrollDown, true));
    let frame = view.render(inner).unwrap();
    assert_eq!(text_of(&frame.rows[0].spans), "789 123456789 123456789 │");
    view.handle_event(&key(KeyCode::Char('$')));
    let frame = view.render(inner).unwrap();
    assert_eq!(text_of(&frame.rows[0].spans), "23456789 │");
    assert_eq!(frame.thumb, None);
    view.handle_event(&key(KeyCode::Char('h')));
    view.handle_event(&key(KeyCode::Char('0')));
    assert_eq!(text_of(&view.render(inner).unwrap().rows[0].spans), row);
}

#[test]
fn panning_goes_over_spans() {
    let line = vec![
        Span::styled("abc".to_string(), Style::new(Role::Text)),
        Span::styled("def".to_string(), Style::new(Role::Code)),
    ];
    let rest = pan(&line, 4);
    assert_eq!(rest.len(), 1);
    assert_eq!(rest[0].content, "ef");
    assert_eq!(rest[0].style, Style::new(Role::Code));
    assert_eq!(text_of(&pan(&line, 1)), "bcdef");
    assert!(pan(&line, 6).is_empty());
}

#[test]
fn thumb_is_proportional() {
    assert_eq!(thumb(10, 20, 0), (0, 5));
    assert_eq!(thumb(10, 20, 10), (5, 5));
    assert_eq!(thumb(10, 20, 5), (2, 5));
    assert_eq!(thumb(10, 1000, 500), (4, 1));
}
