use adventure::block::Block;
use adventure::error::Error;
use adventure::line::DirectiveKind;
use adventure::page_block::PageBlock;
use adventure::script::Page;

#[test]
fn page_block_title_block_cannot_be_empty() {
    let input = Block::internal(2, DirectiveKind::Title, None, Vec::new());

    let output = PageBlock::parse(&input).unwrap_err();

    assert_eq!(1, output.len());
    assert!(
        matches!(&output[0], (2, Error::MissingText { block }) if *block == DirectiveKind::Title)
    );
}

#[test]
fn page_block_title_block_cannot_have_argument() {
    let input = Block::internal(2, DirectiveKind::Title, Some("oh no!".to_string()), Vec::new());

    let output = PageBlock::parse(&input).unwrap_err();

    assert_eq!(2, output.len());
    assert!(
        matches!(&output[0], (2, Error::UnexpectedArgument { block }) if *block == DirectiveKind::Title)
    );
    assert!(
        matches!(&output[1], (2, Error::MissingText { block }) if *block == DirectiveKind::Title)
    );
}

#[test]
fn page_block_title_block_cannot_have_multiple_children() {
    let input = Block::internal(
        2,
        DirectiveKind::Title,
        None,
        vec![
            Block::external(3, "oh no".to_string()),
            Block::external(4, "oh no 2".to_string()),
        ],
    );

    let output = PageBlock::parse(&input).unwrap_err();

    assert_eq!(1, output.len());
    assert!(
        matches!(&output[0], (4, Error::ExcessiveChildCount { block }) if *block == DirectiveKind::Title)
    );
}

#[test]
fn page_block_title_block_cannot_have_non_text_children() {
    let input = Block::internal(
        2,
        DirectiveKind::Title,
        None,
        vec![Block::internal(3, DirectiveKind::Title, None, Vec::new())],
    );

    let output = PageBlock::parse(&input).unwrap_err();

    assert_eq!(1, output.len());
    assert!(matches!(
        &output[0],
        (3, Error::UnexpectedChildDirective { block }) if *block == DirectiveKind::Title
    ));
}

#[test]
fn page_block_can_parse_valid_title_block() {
    let input = Block::internal(
        2,
        DirectiveKind::Title,
        None,
        vec![Block::external(3, "hurrah!".to_string())],
    );

    let output = PageBlock::parse(&input).unwrap();

    assert!(matches!(output, (2, PageBlock::Title(t)) if t == "hurrah!"));
}

#[test]
fn page_block_link_block_requires_argument_and_children() {
    let input = Block::internal(2, DirectiveKind::Link, None, Vec::new());

    let output = PageBlock::parse(&input).unwrap_err();

    assert_eq!(2, output.len());
    assert!(matches!(
        &output[0],
        (
            2,
            Error::MissingArgument {
                block: DirectiveKind::Link
            }
        )
    ));
    assert!(
        matches!(&output[1], (2, Error::MissingText { block }) if *block == DirectiveKind::Link)
    );
}

#[test]
fn page_block_link_block_requires_children() {
    let input = Block::internal(
        2,
        DirectiveKind::Link,
        Some("go-to-this-page".to_string()),
        Vec::new(),
    );

    let output = PageBlock::parse(&input).unwrap_err();

    assert_eq!(1, output.len());
    assert!(
        matches!(&output[0], (2, Error::MissingText { block }) if *block == DirectiveKind::Link)
    );
}

#[test]
fn page_block_link_block_requires_single_child() {
    let input = Block::internal(
        2,
        DirectiveKind::Link,
        Some("go-to-this-page".to_string()),
        vec![
            Block::external(3, "oh no".to_string()),
            Block::external(5, "oh no 2".to_string()),
        ],
    );

    let output = PageBlock::parse(&input).unwrap_err();

    assert_eq!(1, output.len());
    assert!(
        matches!(&output[0], (5, Error::ExcessiveChildCount { block }) if *block == DirectiveKind::Link)
    );
}

#[test]
fn page_block_link_block_requires_text_child() {
    let input = Block::internal(
        10,
        DirectiveKind::Link,
        Some("go-to-this-page".to_string()),
        vec![Block::internal(12, DirectiveKind::Title, None, Vec::new())],
    );

    let output = PageBlock::parse(&input).unwrap_err();

    assert_eq!(1, output.len());
    assert!(
        matches!(&output[0], (12, Error::UnexpectedChildDirective { block }) if *block == DirectiveKind::Link)
    );
}

#[test]
fn page_block_can_parse_valid_link_block() {
    let input = Block::internal(
        10,
        DirectiveKind::Link,
        Some("trip-onto-landmine".to_string()),
        vec![Block::external(12, "Watch out for that landmine!".to_string())],
    );

    let output = PageBlock::parse(&input).unwrap();

    assert!(matches!(
        output,
        (10, PageBlock::Link(target, text))
            if target == "trip-onto-landmine"
            && text == "Watch out for that landmine!"
    ));
}

#[test]
fn page_block_report_empty_text_blocks() {
    let input = Block::internal(123, DirectiveKind::Text, None, Vec::new());

    let output = PageBlock::parse(&input).unwrap_err();

    assert_eq!(1, output.len());
    assert!(
        matches!(&output[0], (123, Error::MissingText { block }) if *block == DirectiveKind::Text)
    );
}

#[test]
fn page_block_report_unexpected_text_argument() {
    let input = Block::internal(
        4567,
        DirectiveKind::Text,
        Some("asdfghjkl".to_string()),
        vec![Block::external(2000000000, "hello".to_string())],
    );

    let output = PageBlock::parse(&input).unwrap_err();

    assert_eq!(1, output.len());
    assert!(
        matches!(&output[0], (4567, Error::UnexpectedArgument { block }) if *block == DirectiveKind::Text)
    );
}

#[test]
fn page_block_can_parse_valid_text_blocks() {
    let input = Block::internal(
        6,
        DirectiveKind::Text,
        None,
        vec![
            Block::external(7, "first paragraph".to_string()),
            Block::external(8, "the second".to_string()),
            Block::external(9, "a third".to_string()),
            Block::external(10, "finally the fourth".to_string()),
        ],
    );

    let output = PageBlock::parse(&input).unwrap();

    match output {
        (l, _) if l != 6 => panic!("Wrong line number!"),
        (_, PageBlock::Text(paragraphs)) => {
            assert_eq!(4, paragraphs.len());
            assert_eq!("first paragraph", paragraphs[0]);
            assert_eq!("the second", paragraphs[1]);
            assert_eq!("a third", paragraphs[2]);
            assert_eq!("finally the fourth", paragraphs[3]);
        }
        _ => {
            panic!("Wrong PageBlock variant!");
        }
    }
}

#[test]
fn page_block_report_directives_within_text_block() {
    let input = Block::internal(
        6,
        DirectiveKind::Text,
        None,
        vec![
            Block::external(7, "first paragraph".to_string()),
            Block::external(8, "the second".to_string()),
            Block::internal(9, DirectiveKind::Text, None, Vec::new()),
            Block::external(10, "finally the fourth".to_string()),
            Block::internal(11, DirectiveKind::Text, None, Vec::new()),
        ],
    );

    let output = PageBlock::parse(&input).unwrap_err();

    assert_eq!(2, output.len());
    assert!(matches!(
        &output[0],
        (9, Error::UnexpectedChildDirective { block }) if *block == DirectiveKind::Text
    ));
    assert!(matches!(
        &output[1],
        (11, Error::UnexpectedChildDirective { block }) if *block == DirectiveKind::Text
    ));
}

#[test]
fn page_block_report_page_without_identifier() {
    let input = Block::internal(0, DirectiveKind::Page, None, Vec::new());

    let output = PageBlock::parse(&input).unwrap_err();

    assert_eq!(2, output.len());
    assert!(matches!(
        &output[0],
        (0, Error::MissingArgument { block }) if *block == DirectiveKind::Page
    ));
    assert!(matches!(
        &output[1],
        (0, Error::PageMissingTitle { page }) if page == "{unnamed}"
    ));
}

#[test]
fn page_block_report_page_without_title() {
    let input = Block::internal(
        0,
        DirectiveKind::Page,
        Some("my-first-valid-page".to_string()),
        Vec::new(),
    );

    let output = PageBlock::parse(&input).unwrap_err();

    assert_eq!(1, output.len());
    assert!(matches!(
        &output[0],
        (0, Error::PageMissingTitle { page }) if page == "my-first-valid-page"
    ));
}

#[test]
fn page_block_report_page_with_excessive_titles() {
    let input = Block::internal(
        0,
        DirectiveKind::Page,
        Some("too-many-titles".to_string()),
        vec![
            Block::internal(
                1,
                DirectiveKind::Title,
                None,
                vec![Block::external(2, "first".to_string())],
            ),
            Block::internal(
                3,
                DirectiveKind::Title,
                None,
                vec![Block::external(4, "second".to_string())],
            ),
        ],
    );

    let output = PageBlock::parse(&input).unwrap_err();

    assert_eq!(1, output.len());
    assert!(matches!(
        &output[0],
        (0, Error::ExcessivePageTitles { page }) if page == "too-many-titles"
    ));
}

#[test]
fn page_block_can_parse_empty_valid_page() {
    let input = Block::internal(
        50,
        DirectiveKind::Page,
        Some("almost-empty".to_string()),
        vec![Block::internal(
            51,
            DirectiveKind::Title,
            None,
            vec![Block::external(52, "I have a title!".to_string())],
        )],
    );

    let output = PageBlock::parse(&input).unwrap();

    match output {
        (line, _) if line != 50 => panic!("Line number is wrong"),
        (
            _,
            PageBlock::Page(Page {
                identifier,
                title,
                paragraphs,
                links,
            }),
        ) => {
            assert_eq!("almost-empty", identifier);
            assert_eq!("I have a title!", title);
            assert!(paragraphs.is_empty());
            assert!(links.is_empty());
        }
        _ => panic!("Incorrect PageBlock variant!"),
    }
}

#[test]
fn page_block_can_collect_text_from_page() {
    let input = Block::internal(
        0,
        DirectiveKind::Page,
        Some("with-text".to_string()),
        vec![
            Block::internal(
                1,
                DirectiveKind::Title,
                None,
                vec![Block::external(2, "Title".to_string())],
            ),
            Block::internal(
                4,
                DirectiveKind::Text,
                None,
                vec![
                    Block::external(5, "first".to_string()),
                    Block::external(6, "second".to_string()),
                ],
            ),
            Block::internal(
                8,
                DirectiveKind::Text,
                None,
                vec![
                    Block::external(9, "third".to_string()),
                    Block::external(10, "fourth".to_string()),
                    Block::external(11, "fifth".to_string()),
                ],
            ),
        ],
    );

    let output = PageBlock::parse(&input).unwrap();

    match output {
        (line, _) if line != 0 => panic!("Line number is wrong"),
        (
            _,
            PageBlock::Page(Page {
                identifier,
                title,
                paragraphs,
                links,
            }),
        ) => {
            assert_eq!("with-text", identifier);
            assert_eq!("Title", title);
            assert_eq!(5, paragraphs.len());
            assert_eq!("first", paragraphs[0]);
            assert_eq!("second", paragraphs[1]);
            assert_eq!("third", paragraphs[2]);
            assert_eq!("fourth", paragraphs[3]);
            assert_eq!("fifth", paragraphs[4]);
            assert!(links.is_empty());
        }
        _ => panic!("Incorrect PageBlock variant!"),
    }
}

#[test]
fn page_block_inner_errors_are_reported() {
    let input = Block::internal(
        0,
        DirectiveKind::Page,
        Some("with-text".to_string()),
        vec![Block::internal(1, DirectiveKind::Title, None, Vec::new())],
    );

    let output = PageBlock::parse(&input).unwrap_err();

    assert!(
        matches!(&output[0], (1, Error::MissingText { block }) if *block == DirectiveKind::Title)
    );
}

#[test]
fn page_block_can_collect_links_from_page() {
    let input = Block::internal(
        0,
        DirectiveKind::Page,
        Some("with-links".to_string()),
        vec![
            Block::internal(
                1,
                DirectiveKind::Title,
                None,
                vec![Block::external(2, "Title 2".to_string())],
            ),
            Block::internal(
                4,
                DirectiveKind::Link,
                Some("page-three".to_string()),
                vec![Block::external(5, "Go to page three".to_string())],
            ),
            Block::internal(
                8,
                DirectiveKind::Link,
                Some("page-seven".to_string()),
                vec![Block::external(7, "Go to page seven".to_string())],
            ),
        ],
    );

    let output = PageBlock::parse(&input).unwrap();

    match output {
        (line, _) if line != 0 => panic!("Line number is wrong"),
        (
            _,
            PageBlock::Page(Page {
                identifier,
                title,
                paragraphs,
                links,
            }),
        ) => {
            assert_eq!("with-links", identifier);
            assert_eq!("Title 2", title);
            assert_eq!(2, links.len());
            assert_eq!("page-three", links[0].0);
            assert_eq!("Go to page three", links[0].1);
            assert_eq!("page-seven", links[1].0);
            assert_eq!("Go to page seven", links[1].1);
            assert!(paragraphs.is_empty());
        }
        _ => panic!("Incorrect PageBlock variant!"),
    }
}
