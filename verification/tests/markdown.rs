use helix_term::ui::markdown::code::{fits, CodeHighlights, HighlightStep};
use helix_term::ui::markdown::table::{align_cell, table_lines, Align, TableRow};
use helix_term::ui::markdown::{
    highlighted_code_block, layout_events, show, wrap_text, Block, Markdown,
};
use helix_term::ui::markdown::events::{Event, Part, PartEnd};
use helix_term::ui::spans::{text_of, Modifier, Role, Span, Style};

const WIDE_TABLE: &str = "\
| Column Alpha | Column Beta | Column Gamma |
| ------------ | ----------- | ------------ |
| a1 value long text here | b1 | c1 more text |
";

fn line_texts(lines: &[Vec<Span>]) -> Vec<String> {
    lines.iter().map(text_of).collect()
}

#[test]
fn wrap_text_wraps_and_hard_splits() {
    assert_eq!(wrap_text("hello world foo", 5), vec!["hello", "world", "foo"]);
    assert_eq!(wrap_text("abcdefgh", 3), vec!["abc", "def", "gh"]);
    assert_eq!(wrap_text("", 10), vec![""]);
    assert_eq!(wrap_text("anything", 0), vec![""]);
}

#[test]
fn table_fits_max_width() {
    let md = Markdown::new(WIDE_TABLE.to_string()).with_max_table_width(40);
    let lines = line_texts(&md.parse());
    for line in &lines {
        assert!(line.chars().count() <= 40, "line too wide: {line:?}");
    }
    // Header text is preserved (wrapped across lines).
    let joined = lines.join("\n");
    assert!(joined.contains("Column") && joined.contains("Alpha"));
}

#[test]
fn table_without_limit_is_unconstrained() {
    let md = Markdown::new(WIDE_TABLE.to_string());
    let lines = line_texts(&md.parse());
    assert!(lines.iter().any(|l| l.chars().count() > 40));
}

#[test]
fn narrow_table_unchanged_by_limit() {
    let src = "\
| A | B |
| - | - |
| 1 | 2 |
";
    let plain_md = Markdown::new(src.to_string());
    let plain = line_texts(&plain_md.parse());
    let limited_md = Markdown::new(src.to_string()).with_max_table_width(80);
    let limited = line_texts(&limited_md.parse());
    assert_eq!(plain, limited);
}

#[test]
fn narrow_table_is_drawn_with_a_frame() {
    let src = "| A | B |\n| - | - |\n| 1 | 2 |\n";
    let lines = Markdown::new(src.to_string()).parse();
    assert_eq!(
        line_texts(&lines),
        vec!["┌───┬───┐", "│ A │ B │", "├───┼───┤", "│ 1 │ 2 │", "└───┴───┘"]
    );
    // The head is bold, the body is not.
    assert_eq!(lines[1][0].style.modifier, Modifier::Bold);
    assert_eq!(lines[3][0].style.modifier, Modifier::Regular);
}

#[test]
fn wrapping_keeps_short_words_together() {
    assert_eq!(wrap_text("a bb ccc", 4), vec!["a bb", "ccc"]);
    assert_eq!(wrap_text("ab abcdefgh c", 3), vec!["ab", "abc", "def", "gh", "c"]);
    assert_eq!(wrap_text("ab abcdefg c", 3), vec!["ab", "abc", "def", "g c"]);
}

#[test]
fn cells_are_aligned() {
    assert_eq!(align_cell("ab", 5, Align::Unset), "ab   ");
    assert_eq!(align_cell("ab", 5, Align::Left), "ab   ");
    assert_eq!(align_cell("ab", 5, Align::Right), "   ab");
    assert_eq!(align_cell("ab", 5, Align::Center), " ab  ");
    assert_eq!(align_cell("abcdef", 5, Align::Right), "abcdef");
}

#[test]
fn columns_are_not_shrunk_below_their_minimum() {
    let row = TableRow { cells: vec!["abcdefgh".to_string(), "xy".to_string()], is_head: false };
    let lines = line_texts(&table_lines(&vec![row], &vec![], Some(1)));
    assert_eq!(
        lines,
        vec![
            "┌─────┬────┐",
            "│ abc │ xy │",
            "│ def │    │",
            "│ gh  │    │",
            "└─────┴────┘",
            ""
        ]
    );
}

#[test]
fn short_rows_are_filled_up() {
    let head = TableRow { cells: vec!["h".to_string(), "i".to_string()], is_head: true };
    let row = TableRow { cells: vec!["x".to_string()], is_head: false };
    let lines = line_texts(&table_lines(&vec![head, row], &vec![Align::Right], None));
    assert_eq!(lines[3], "│ x │   │");
}

#[test]
fn prose_headings_and_emphasis_have_styles() {
    let lines = Markdown::new("# Title\n\nsome *fine* `code` **bold** ~~gone~~".to_string()).parse();
    assert_eq!(line_texts(&lines), vec!["Title", "", "some fine code bold gone"]);
    assert_eq!(lines[0][0].style, Style { role: Role::Heading(1), modifier: Modifier::Regular });
    let styles: Vec<Style> = lines[2].iter().map(|s| s.style).collect();
    assert_eq!(styles[1], Style { role: Role::Text, modifier: Modifier::Italic });
    assert_eq!(styles[3], Style { role: Role::Code, modifier: Modifier::Regular });
    assert_eq!(styles[5], Style { role: Role::Text, modifier: Modifier::Bold });
    assert_eq!(styles[7], Style { role: Role::Text, modifier: Modifier::CrossedOut });
    assert_eq!(Role::Heading(3).key(), "markup.heading.3");
    assert_eq!(Role::Text.key(), "ui.text");
}

#[test]
fn lists_are_numbered_and_nested() {
    let lines = Markdown::new("9. a\n10. b\n    - c\n\ntext\n\n---\n".to_string()).parse();
    let texts = line_texts(&lines);
    assert_eq!(texts[0], "9. a");
    assert_eq!(texts[1], "10. b");
    assert_eq!(texts[2], "  • c");
    assert!(texts.contains(&"───".to_string()));
}

#[test]
fn code_tags_turn_text_into_code() {
    let events = vec![
        Event::Start(Part::Other),
        Event::Html("<code>".to_string()),
        Event::Text("x".to_string()),
        Event::Html("</code>".to_string()),
        Event::Text("y".to_string()),
        Event::Html("<codes>".to_string()),
        Event::End(PartEnd::Paragraph),
    ];
    let blocks = layout_events(&events, None);
    let lines = show(&blocks, &vec![]);
    assert_eq!(line_texts(&lines), vec!["xy<codes>"]);
    assert_eq!(lines[0][0].style.role, Role::Code);
    assert_eq!(lines[0][1].style.role, Role::Text);
    assert_eq!(lines[0][2].style.role, Role::Code);
}

#[test]
fn code_blocks_name_their_language() {
    let blocks = Markdown::new("```rust\nlet\tx;\n```\n".to_string()).blocks();
    match &blocks[0] {
        Block::Code { language, text } => {
            assert_eq!(language, "rust");
            assert_eq!(text, "let\tx;\n");
        }
        Block::Line(_) => panic!("a code block was expected"),
    }
    // Without highlights the text is shown as it is.
    assert_eq!(line_texts(&show(&blocks, &vec![])), vec!["let\tx;"]);
}

#[test]
fn highlighted_code_is_cut_at_steps_and_lines() {
    let step = |offset, refresh, id| HighlightStep { offset, refresh, highlights: vec![id] };
    let code = CodeHighlights {
        syntax: vec![step(0, false, 7), step(5, true, 8)],
        overlay: vec![step(1, false, 9)],
    };
    let lines = highlighted_code_block("a\té\nz", Some(&code));
    assert_eq!(line_texts(&lines), vec!["a    é", "z"]);
    let ids: Vec<Vec<u32>> = lines[0].iter().map(|s| s.highlights.clone()).collect();
    assert_eq!(ids, vec![vec![7], vec![7, 9]]);
    assert_eq!(lines[1][0].highlights, vec![8, 9]);
}

#[test]
fn highlights_must_fit_the_text() {
    let step = |offset| HighlightStep { offset, refresh: false, highlights: vec![1] };
    let code = |offset| CodeHighlights { syntax: vec![], overlay: vec![step(offset)] };
    for (offset, fitting) in [(0, true), (1, true), (2, false), (3, true), (4, false)] {
        assert_eq!(fits("aé", &code(offset)), fitting);
    }
    assert!(fits("aé", &code(u32::MAX)));
    let text = Markdown::new("```\naé\n```\n\n```\nb\n```".to_string());
    let lines = text.parse_highlighted(&vec![None, Some(code(1))]).unwrap();
    assert_eq!(line_texts(&lines).len(), line_texts(&text.parse()).len());
    assert!(text.parse_highlighted(&vec![Some(code(2)), None]).is_none());
    assert!(text.parse_highlighted(&vec![Some(code(4)), Some(code(3))]).is_none());
}

#[test]
fn highlighting_out_of_order_is_not_followed() {
    let step = |offset| HighlightStep { offset, refresh: false, highlights: vec![1] };
    let code = CodeHighlights { syntax: vec![step(2), step(1)], overlay: vec![] };
    let lines = highlighted_code_block("abc\n", Some(&code));
    assert_eq!(line_texts(&lines), vec!["abc"]);
    assert_eq!(lines[0][0].style.role, Role::Code);
    assert!(lines[0][0].highlights.is_empty());
}

#[test]
fn popups_are_padded_and_limited() {
    assert_eq!(Markdown::wrap_width((1, 5)), 0);
    assert_eq!(Markdown::wrap_width((50, 5)), 48);
    assert_eq!(Markdown::wrap_width((500, 5)), 120);
    assert_eq!(Markdown::required_size((10, 3)), (12, 5));
}
