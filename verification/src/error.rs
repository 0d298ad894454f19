//! The errors a parse can report, and their mathematical model.

use vstd::prelude::*;

use crate::line::DirectiveKind;

verus! {

/// An error found while parsing a script. Every error is paired with the
/// 0-based number of the line it was found on.
#[derive(Debug, PartialEq)]
pub enum Error {
    /// A line is indented by a number of spaces that is not a multiple of four.
    InvalidIndentation { count: usize },
    /// A line is nested more deeply than its surroundings allow.
    UnexpectedIndentation { expected: usize, found: usize },
    /// A directive that takes no argument was given one.
    UnexpectedArgument { block: DirectiveKind },
    /// A directive that takes a single child was given more than one.
    ExcessiveChildCount { block: DirectiveKind },
    /// A directive that takes only prose children was given a directive child.
    UnexpectedChildDirective { block: DirectiveKind },
    /// A directive that requires an argument was given none.
    MissingArgument { block: DirectiveKind },
    /// A directive that requires prose children was given none.
    MissingText { block: DirectiveKind },
    /// A page was declared without a title.
    PageMissingTitle { page: String },
    /// A page was declared with more than one title.
    ExcessivePageTitles { page: String },
    /// Prose stands at the top level of the script.
    UnexpectedText,
    /// A directive other than a page stands at the top level of the script.
    UnexpectedTopLevelDirective { found: DirectiveKind },
    /// A page is declared inside another page.
    NestedPage { parent: String, child: String },
}

/// The model of an `Error`, with mathematical integers and character
/// sequences in place of machine words and heap strings.
pub enum ErrorModel {
    InvalidIndentation { count: int },
    UnexpectedIndentation { expected: int, found: int },
    UnexpectedArgument { block: DirectiveKind },
    ExcessiveChildCount { block: DirectiveKind },
    UnexpectedChildDirective { block: DirectiveKind },
    MissingArgument { block: DirectiveKind },
    MissingText { block: DirectiveKind },
    PageMissingTitle { page: Seq<char> },
    ExcessivePageTitles { page: Seq<char> },
    UnexpectedText,
    UnexpectedTopLevelDirective { found: DirectiveKind },
    NestedPage { parent: Seq<char>, child: Seq<char> },
}

impl View for Error {
    type V = ErrorModel;

    open spec fn view(&self) -> ErrorModel {
        match self {
            Error::InvalidIndentation { count } => ErrorModel::InvalidIndentation {
                count: *count as int,
            },
            Error::UnexpectedIndentation { expected, found } => ErrorModel::UnexpectedIndentation {
                expected: *expected as int,
                found: *found as int,
            },
            Error::UnexpectedArgument { block } => ErrorModel::UnexpectedArgument {
                block: *block,
            },
            Error::ExcessiveChildCount { block } => ErrorModel::ExcessiveChildCount {
                block: *block,
            },
            Error::UnexpectedChildDirective { block } => ErrorModel::UnexpectedChildDirective {
                block: *block,
            },
            Error::MissingArgument { block } => ErrorModel::MissingArgument { block: *block },
            Error::MissingText { block } => ErrorModel::MissingText { block: *block },
            Error::PageMissingTitle { page } => ErrorModel::PageMissingTitle { page: page@ },
            Error::ExcessivePageTitles { page } => ErrorModel::ExcessivePageTitles {
                page: page@,
            },
            Error::UnexpectedText => ErrorModel::UnexpectedText,
            Error::UnexpectedTopLevelDirective { found } => {
                ErrorModel::UnexpectedTopLevelDirective { found: *found }
            },
            Error::NestedPage { parent, child } => ErrorModel::NestedPage {
                parent: parent@,
                child: child@,
            },
        }
    }
}

/// The model of a numbered error list, as the contracts speak of one.
pub open spec fn errors_model(v: Seq<(usize, Error)>) -> Seq<(int, ErrorModel)> {
    v.map_values(|p: (usize, Error)| (p.0 as int, p.1@))
}

impl Error {
    /// Pair a `MissingArgument` error with its line number.
    pub fn missing_argument(line: usize, block: DirectiveKind) -> (r: (usize, Error))
        ensures
            r.0 == line,
            r.1@ == (ErrorModel::MissingArgument { block }),
    {
        (line, Error::MissingArgument { block })
    }

    /// Pair a `NestedPage` error with its line number.
    pub fn nested_page(line: usize, parent: &str, child: &str) -> (r: (usize, Error))
        ensures
            r.0 == line,
            r.1@ == (ErrorModel::NestedPage { parent: parent@, child: child@ }),
    {
        (line, Error::NestedPage { parent: parent.to_owned(), child: child.to_owned() })
    }

    /// Pair a `PageMissingTitle` error with its line number.
    pub fn page_missing_title(line: usize, page: &str) -> (r: (usize, Error))
        ensures
            r.0 == line,
            r.1@ == (ErrorModel::PageMissingTitle { page: page@ }),
    {
        (line, Error::PageMissingTitle { page: page.to_owned() })
    }

    /// Pair an `ExcessivePageTitles` error with its line number.
    pub fn excessive_page_titles(line: usize, page: &str) -> (r: (usize, Error))
        ensures
            r.0 == line,
            r.1@ == (ErrorModel::ExcessivePageTitles { page: page@ }),
    {
        (line, Error::ExcessivePageTitles { page: page.to_owned() })
    }

    /// Pair an `UnexpectedArgument` error with its line number.
    pub fn unexpected_argument(line: usize, block: DirectiveKind) -> (r: (usize, Error))
        ensures
            r.0 == line,
            r.1@ == (ErrorModel::UnexpectedArgument { block }),
    {
        (line, Error::UnexpectedArgument { block })
    }

    /// Pair a `MissingText` error with its line number.
    pub fn missing_text(line: usize, block: DirectiveKind) -> (r: (usize, Error))
        ensures
            r.0 == line,
            r.1@ == (ErrorModel::MissingText { block }),
    {
        (line, Error::MissingText { block })
    }

    /// Pair an `UnexpectedChildDirective` error with its line number.
    pub fn unexpected_child_directive(line: usize, block: DirectiveKind) -> (r: (usize, Error))
        ensures
            r.0 == line,
            r.1@ == (ErrorModel::UnexpectedChildDirective { block }),
    {
        (line, Error::UnexpectedChildDirective { block })
    }

    /// Pair an `ExcessiveChildCount` error with its line number.
    pub fn excessive_child_count(line: usize, block: DirectiveKind) -> (r: (usize, Error))
        ensures
            r.0 == line,
            r.1@ == (ErrorModel::ExcessiveChildCount { block }),
    {
        (line, Error::ExcessiveChildCount { block })
    }
}

} // verus!
