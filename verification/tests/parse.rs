use adventure::adventure::Adventure;
use adventure::adventure::Error as ResolutionError;
use adventure::error::Error;
use adventure::line::DirectiveKind;
use adventure::script::parse;
use adventure::script::Script;

#[test]
fn two_page_script_resolves_forward_references() {
    let input = "page start
    title
        Start
    link end
        Go onward.
page end
    title
        The End
";
    let script = parse(input).unwrap();
    assert_eq!(2, script.pages.len());
    assert_eq!("start", script.pages[0].identifier);
    assert_eq!("Start", script.pages[0].title);
    assert_eq!("end", script.pages[0].links[0].0);
    assert_eq!("Go onward.", script.pages[0].links[0].1);
    assert_eq!("end", script.pages[1].identifier);
    assert_eq!("The End", script.pages[1].title);

    let adventure = Adventure::new(&script).unwrap();
    assert_eq!(2, adventure.pages.len());
    assert_eq!(1, adventure.pages[0].index);
    assert_eq!("Start", adventure.pages[0].title);
    assert_eq!(1, adventure.pages[0].links.len());
    assert_eq!(2, adventure.pages[0].links[0].index);
    assert_eq!("Go onward.", adventure.pages[0].links[0].text);
    assert_eq!(2, adventure.pages[1].index);
    assert_eq!("The End", adventure.pages[1].title);
    assert!(adventure.pages[1].links.is_empty());
}

#[test]
fn blank_and_comment_lines_parse_to_an_empty_script() {
    let input = "   \n# a comment\n\n        # another, oddly indented\n    \n";
    let script = parse(input).unwrap();
    assert!(script.pages.is_empty());
}

#[test]
fn invalid_indentation_carries_the_exact_count() {
    let errors = parse("page a\n   title\n").unwrap_err();
    assert_eq!(1, errors.len());
    assert_eq!(1, errors[0].0);
    assert!(matches!(errors[0].1, Error::InvalidIndentation { count } if count == 3));
}

#[test]
fn all_invalid_indentations_are_reported_together() {
    let errors = parse(" a\npage ok\n     b\n").unwrap_err();
    assert_eq!(2, errors.len());
    assert!(matches!(errors[0], (0, Error::InvalidIndentation { count }) if count == 1));
    assert!(matches!(errors[1], (2, Error::InvalidIndentation { count }) if count == 5));
}

#[test]
fn lexical_errors_gate_later_phases() {
    // The unargumented, untitled page would be reported by the resolver,
    // but the lexical fault alone is: phases are gated in turn.
    let errors = parse("   bad\npage\n").unwrap_err();
    assert_eq!(1, errors.len());
    assert!(matches!(errors[0], (0, Error::InvalidIndentation { count }) if count == 3));
}

#[test]
fn capitalised_keyword_is_prose_not_a_directive() {
    let errors = parse("Page start\n").unwrap_err();
    assert_eq!(1, errors.len());
    assert!(matches!(errors[0], (0, Error::UnexpectedText)));
}

#[test]
fn single_page_script_round_trips() {
    let input = "page lonely\n    title\n        All Alone\n";
    let script = parse(input).unwrap();
    assert_eq!(1, script.pages.len());
    assert_eq!("lonely", script.pages[0].identifier);
    assert_eq!("All Alone", script.pages[0].title);
    assert!(script.pages[0].paragraphs.is_empty());
    assert!(script.pages[0].links.is_empty());
}

#[test]
fn dangling_reference_names_both_pages() {
    let input = "page a
    title
        A
    link b
        Into the void.
page c
    title
        C
";
    let script = parse(input).unwrap();
    let errors = Adventure::new(&script).unwrap_err();
    assert_eq!(1, errors.len());
    let ResolutionError::BadReference { from, to } = &errors[0];
    assert_eq!("a", from);
    assert_eq!("b", to);
}

#[test]
fn over_indented_region_is_reported_once_and_skipped() {
    let input = "page first\n            title\n                Deep\npage second\n    title\n        Okay\n";
    let errors = parse(input).unwrap_err();
    assert_eq!(1, errors.len());
    assert!(matches!(
        errors[0],
        (1, Error::UnexpectedIndentation { expected, found }) if expected == 1 && found == 3
    ));
}

#[test]
fn two_titles_yield_exactly_one_error() {
    let input = "page twice\n    title\n        One\n    title\n        Two\n";
    let errors = parse(input).unwrap_err();
    assert_eq!(1, errors.len());
    assert!(matches!(
        &errors[0],
        (0, Error::ExcessivePageTitles { page }) if page == "twice"
    ));
}

#[test]
fn top_level_directives_other_than_pages_are_refused() {
    let errors = parse("title\n    Hello\n").unwrap_err();
    assert_eq!(1, errors.len());
    assert!(matches!(
        errors[0],
        (0, Error::UnexpectedTopLevelDirective { found }) if found == DirectiveKind::Title
    ));
}

#[test]
fn nested_pages_are_refused() {
    let input = "page outer
    title
        Outer
    page inner
        title
            Inner
";
    let errors = parse(input).unwrap_err();
    assert_eq!(1, errors.len());
    assert!(matches!(
        &errors[0],
        (3, Error::NestedPage { parent, child }) if parent == "outer" && child == "inner"
    ));
}

#[test]
fn page_without_argument_is_reported_and_still_checked() {
    let errors = parse("page\n    title\n        T\n    link\n        L\n").unwrap_err();
    assert_eq!(2, errors.len());
    assert!(matches!(
        errors[0],
        (0, Error::MissingArgument { block }) if block == DirectiveKind::Page
    ));
    assert!(matches!(
        errors[1],
        (3, Error::MissingArgument { block }) if block == DirectiveKind::Link
    ));
}

#[test]
fn title_with_argument_is_reported_even_beside_valid_text() {
    // The faulty title yields no title at all, so the page is also left
    // untitled; both faults surface together.
    let errors = parse("page a\n    title Inline\n        Proper\n").unwrap_err();
    assert_eq!(2, errors.len());
    assert!(matches!(
        errors[0],
        (1, Error::UnexpectedArgument { block }) if block == DirectiveKind::Title
    ));
    assert!(matches!(
        &errors[1],
        (0, Error::PageMissingTitle { page }) if page == "a"
    ));
}

#[test]
fn semantic_errors_aggregate_across_pages() {
    let input = "page one\npage two\n";
    let errors = parse(input).unwrap_err();
    assert_eq!(2, errors.len());
    assert!(matches!(
        &errors[0],
        (0, Error::PageMissingTitle { page }) if page == "one"
    ));
    assert!(matches!(
        &errors[1],
        (1, Error::PageMissingTitle { page }) if page == "two"
    ));
}

#[test]
fn directive_arguments_lose_their_comment_tails_but_prose_keeps_them() {
    let input = "page ident   # a note\n    title\n        T # kept\n";
    let script = parse(input).unwrap();
    assert_eq!("ident", script.pages[0].identifier);
    assert_eq!("T # kept", script.pages[0].title);
}

#[test]
fn paragraphs_from_several_text_blocks_concatenate() {
    let input = "page p
    title
        P
    text
        one

        two
    text
        three
";
    let script = parse(input).unwrap();
    let paragraphs = &script.pages[0].paragraphs;
    assert_eq!(3, paragraphs.len());
    assert_eq!("one", paragraphs[0]);
    assert_eq!("two", paragraphs[1]);
    assert_eq!("three", paragraphs[2]);
}

#[test]
fn script_new_parses_like_parse() {
    let script = Script::new("page a\n    title\n        A\n").unwrap();
    assert_eq!(1, script.pages.len());
    assert_eq!("a", script.pages[0].identifier);
}

#[test]
fn windows_line_endings_parse_like_plain_ones() {
    let script = parse("page a\r\n    title\r\n        A\r\n").unwrap();
    assert_eq!(1, script.pages.len());
    assert_eq!("A", script.pages[0].title);
}

#[test]
fn error_constructors_pair_line_numbers() {
    let (line, error) = Error::missing_argument(3, DirectiveKind::Link);
    assert_eq!(3, line);
    assert!(matches!(error, Error::MissingArgument { block } if block == DirectiveKind::Link));
    let (line, error) = Error::nested_page(7, "outer", "inner");
    assert_eq!(7, line);
    assert!(matches!(&error, Error::NestedPage { parent, child } if parent == "outer" && child == "inner"));
    let (line, error) = Error::page_missing_title(9, "p");
    assert_eq!(9, line);
    assert!(matches!(&error, Error::PageMissingTitle { page } if page == "p"));
    let (line, error) = Error::excessive_page_titles(11, "q");
    assert_eq!(11, line);
    assert!(matches!(&error, Error::ExcessivePageTitles { page } if page == "q"));
    let (line, error) = Error::unexpected_argument(13, DirectiveKind::Text);
    assert_eq!(13, line);
    assert!(matches!(error, Error::UnexpectedArgument { block } if block == DirectiveKind::Text));
    let (line, error) = Error::missing_text(15, DirectiveKind::Title);
    assert_eq!(15, line);
    assert!(matches!(error, Error::MissingText { block } if block == DirectiveKind::Title));
    let (line, error) = Error::unexpected_child_directive(17, DirectiveKind::Text);
    assert_eq!(17, line);
    assert!(matches!(error, Error::UnexpectedChildDirective { block } if block == DirectiveKind::Text));
    let (line, error) = Error::excessive_child_count(19, DirectiveKind::Link);
    assert_eq!(19, line);
    assert!(matches!(error, Error::ExcessiveChildCount { block } if block == DirectiveKind::Link));
}

#[test]
fn bad_reference_constructor_names_both_ends() {
    let error = ResolutionError::bad_reference("here", "gone");
    let ResolutionError::BadReference { from, to } = &error;
    assert_eq!("here", from);
    assert_eq!("gone", to);
}

#[test]
fn every_dangling_reference_in_the_script_is_reported() {
    let input = "page a
    title
        A
    link missing-one
        Somewhere.
page b
    title
        B
    link missing-two
        Elsewhere.
    link a
        Back.
";
    let script = parse(input).unwrap();
    let errors = Adventure::new(&script).unwrap_err();
    assert_eq!(2, errors.len());
    let ResolutionError::BadReference { from, to } = &errors[0];
    assert_eq!("a", from);
    assert_eq!("missing-one", to);
    let ResolutionError::BadReference { from, to } = &errors[1];
    assert_eq!("b", from);
    assert_eq!("missing-two", to);
}

#[test]
fn links_resolve_to_the_first_matching_page() {
    let input = "page a
    title
        A
    link a
        Self reference.
";
    let script = parse(input).unwrap();
    let adventure = Adventure::new(&script).unwrap();
    assert_eq!(1, adventure.pages[0].links[0].index);
}
