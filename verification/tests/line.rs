use adventure::error::Error;
use adventure::line::DirectiveKind;
use adventure::line::Line;
use adventure::line::Lines;

#[test]
fn can_get_directive_kinds() {
    let examples: Vec<(&str, Option<DirectiveKind>)> = vec![
        ("page", Some(DirectiveKind::Page)),
        ("title", Some(DirectiveKind::Title)),
        ("link", Some(DirectiveKind::Link)),
        ("text", Some(DirectiveKind::Text)),
        ("", None),
        ("pag", None),
        ("links", None),
        ("hdewuid", None),
    ];

    for (input, expected) in examples {
        let actual = DirectiveKind::from_str(input);
        assert_eq!(expected, actual);
    }
}

#[test]
fn can_parse_empty_lines() {
    let empty_lines: Vec<&str> = vec!["", " ", "  ", "   ", "    ", "     "];

    for line in empty_lines {
        let result = Line::parse(line);
        let matches = matches!(result, Ok(None));
        assert!(matches);
    }
}

#[test]
fn can_parse_comments() {
    let comments: Vec<&str> = vec!["# ...", "     # nothing!"];

    for line in comments {
        let result = Line::parse(line);
        assert!(matches!(result, Ok(None)));
    }
}

#[test]
fn can_parse_directives() {
    let examples: Vec<(&str, Line)> = vec![
        ("page", Line::new_directive(0, DirectiveKind::Page, None)),
        (
            "        title Hello!",
            Line::new_directive(2, DirectiveKind::Title, Some("Hello!".to_string())),
        ),
        (
            "link Goodbye :(",
            Line::new_directive(0, DirectiveKind::Link, Some("Goodbye :(".to_string())),
        ),
        ("    text    ", Line::new_directive(1, DirectiveKind::Text, None)),
        (
            "            link whitespace  ",
            Line::new_directive(3, DirectiveKind::Link, Some("whitespace".to_string())),
        ),
        (
            "    title Another directive example   #   and comments!?   ",
            Line::new_directive(
                1,
                DirectiveKind::Title,
                Some("Another directive example".to_string()),
            ),
        ),
    ];

    for (input, expected) in examples {
        let actual = Line::parse(input).unwrap().unwrap();
        assert_eq!(expected, actual);
    }
}

#[test]
fn can_generate_indentation_errors() {
    let examples: Vec<(&str, usize)> = vec![
        (" a", 1),
        ("  a", 2),
        ("   a", 3),
        ("     a", 5),
        ("                 a", 17),
        ("                             a", 29),
    ];

    for (input, expected) in examples {
        let actual = Line::parse(input).unwrap_err();
        assert!(matches!(
            actual,
            Error::InvalidIndentation { count } if count == expected
        ));
    }
}

#[test]
fn empty_string_has_no_lines() {
    let input = "\n\n    \n\n               \n\n\n\n    \n";
    let output = Lines::new(input);
    assert!(output.items.is_empty());
}

#[test]
fn prose_keeps_its_comment_tail() {
    let line = Line::parse("just some prose # with a remark").unwrap().unwrap();
    assert_eq!(
        Line::new_text(0, "just some prose # with a remark".to_string()),
        line
    );
}

#[test]
fn directive_matching_is_case_sensitive() {
    assert_eq!(None, DirectiveKind::from_str("Page"));
    assert_eq!(None, DirectiveKind::from_str("pages"));
    assert_eq!(None, DirectiveKind::from_str("PAGE"));
    assert_eq!(None, DirectiveKind::from_str("Title"));
    let line = Line::parse("Page start").unwrap().unwrap();
    assert_eq!(Line::new_text(0, "Page start".to_string()), line);
}

#[test]
fn numbering_skips_blank_and_comment_lines() {
    let input = "# heading\n\npage one\n    # note\n    title\n";
    let output = Lines::new(input);
    assert_eq!(2, output.items.len());
    assert_eq!(2, output.items[0].0);
    assert_eq!(4, output.items[1].0);
    assert!(matches!(output.items[0].1, Ok(_)));
    assert!(matches!(output.items[1].1, Ok(_)));
}

#[test]
fn a_line_led_by_other_whitespace_is_ignored() {
    let result = Line::parse("\tindented with a tab").unwrap();
    assert!(result.is_none());
}

#[test]
fn carriage_returns_are_stripped_before_line_feeds() {
    let input = "page one\r\n    title\r\n";
    let output = Lines::new(input);
    assert_eq!(2, output.items.len());
    let expected = Line::new_directive(0, DirectiveKind::Page, Some("one".to_string()));
    assert_eq!(&expected, output.items[0].1.as_ref().unwrap());
}
