use adventure::block::Block;
use adventure::error::Error;
use adventure::line::DirectiveKind;
use adventure::line::Line;
use adventure::script::string_to_lines;

#[test]
fn can_parse_text_lines() {
    let input_data: Vec<(usize, usize, &str)> = vec![
        (1, 0, "Hello, world!"),
        (3, 0, "Another string"),
        (5, 0, ""),
        (100, 0, "Hello, world!"),
    ];

    let input: Vec<(usize, Line)> = input_data
        .iter()
        .map(|&(number, indent, text)| (number, Line::new_text(indent, text.to_string())))
        .collect();

    let actual = Block::parse(input).unwrap();

    let expected: Vec<Block> = input_data
        .iter()
        .map(|&(line, _, text)| Block::external(line, text.to_string()))
        .collect();

    assert_eq!(expected.len(), actual.len());
    for (e, a) in expected.iter().zip(actual.iter()) {
        assert_eq!(e, a);
    }
}

#[test]
fn can_parse_complex_block() {
    let input = "page dungeon-entrance
    title
        The Dungeon Entrance

    text
        The dungeon! Eek!

        I've decided - I'm having two paragraphs... Pass the detritus!

    link dungeon-locked-door
        Try the door.

    link stumble-off-cliff
        Flee.
";

    let expected = vec![Block::internal(
        0,
        DirectiveKind::Page,
        Some("dungeon-entrance".to_string()),
        vec![
            Block::internal(
                1,
                DirectiveKind::Title,
                None,
                vec![Block::external(2, "The Dungeon Entrance".to_string())],
            ),
            Block::internal(
                4,
                DirectiveKind::Text,
                None,
                vec![
                    Block::external(5, "The dungeon! Eek!".to_string()),
                    Block::external(
                        7,
                        "I've decided - I'm having two paragraphs... Pass the detritus!"
                            .to_string(),
                    ),
                ],
            ),
            Block::internal(
                9,
                DirectiveKind::Link,
                Some("dungeon-locked-door".to_string()),
                vec![Block::external(10, "Try the door.".to_string())],
            ),
            Block::internal(
                12,
                DirectiveKind::Link,
                Some("stumble-off-cliff".to_string()),
                vec![Block::external(13, "Flee.".to_string())],
            ),
        ],
    )];

    let lines = string_to_lines(input).unwrap();
    let actual = Block::parse(lines).unwrap();

    assert_eq!(expected.len(), actual.len());

    for (expected, actual) in expected.iter().zip(actual.iter()) {
        assert_eq!(expected, actual);
    }
}

#[test]
fn can_report_bad_indentation() {
    let input = "page first-one
        title
            I just indented twice in one go! Bad!
            These lines should get skipped, since they're in a badly indented block!

page second-try
    link this-ones-okay
                But not this!
";

    let expected: Vec<(usize, usize, usize)> = vec![(1, 1, 2), (7, 2, 4)];

    let lines = string_to_lines(input).unwrap();
    let actual = Block::parse(lines).unwrap_err();

    assert_eq!(expected.len(), actual.len());

    // The error reports an expected and an actual indentation, so the
    // expectations here hold an expected expected indentation, and so on.
    for ((line, expected_expected, expected_found), (actual_line, actual_error)) in
        expected.iter().zip(actual.iter())
    {
        assert_eq!(line, actual_line);
        assert!(matches!(
            actual_error,
            Error::UnexpectedIndentation { expected, found } if
                expected == expected_expected && found == expected_found
        ));
    }
}

#[test]
fn a_discarded_region_leaves_surrounding_blocks_intact() {
    let input = "page one
    title
            far too deep
    text
        kept
";
    let lines = string_to_lines(input).unwrap();
    let errors = Block::parse(lines).unwrap_err();
    assert_eq!(1, errors.len());
    assert_eq!(2, errors[0].0);
    assert!(matches!(
        errors[0].1,
        Error::UnexpectedIndentation { expected, found } if expected == 2 && found == 3
    ));
}
