//! Page resolver: interprets a block against the directive grammar,
//! validating pages, titles, paragraph text and links, and aggregating
//! every error a block's subtree holds instead of stopping at the first.

use vstd::prelude::*;

use crate::block::Block;
use crate::block::BlockKind;
use crate::block::BlockKindModel;
use crate::block::BlockModel;
use crate::block::block_model;
use crate::block::blocks_model;
use crate::block::lemma_blocks_model;
use crate::error::Error;
use crate::error::ErrorModel;
use crate::error::errors_model;
use crate::line::DirectiveKind;
use crate::script::Page;
use crate::script::PageModel;
use crate::script::links_model;
use crate::line::strings_model;

verus! {

/// What one block resolves to: a page title, a link with its shown text, a
/// run of paragraphs, or a whole validated page.
#[derive(Debug, PartialEq)]
pub enum PageBlock {
    Title(String),
    Link(String, String),
    Text(Vec<String>),
    Page(Page),
}

/// The model of a `PageBlock`.
pub enum PageBlockModel {
    Title(Seq<char>),
    Link(Seq<char>, Seq<char>),
    Text(Seq<Seq<char>>),
    Page(PageModel),
}

/// The model of a page block.
pub open spec fn page_block_model(pb: PageBlock) -> PageBlockModel {
    match pb {
        PageBlock::Title(t) => PageBlockModel::Title(t@),
        PageBlock::Link(d, t) => PageBlockModel::Link(d@, t@),
        PageBlock::Text(ps) => PageBlockModel::Text(strings_model(ps@)),
        PageBlock::Page(p) => PageBlockModel::Page(p@),
    }
}

/// The placeholder identifier a page without an argument validates under,
/// so that the rest of its subtree can still be checked.
pub open spec fn unnamed_page_id() -> Seq<char> {
    "{unnamed}"@
}

/// The placeholder title a page without a title carries in error reports.
pub open spec fn untitled_page_title() -> Seq<char> {
    "{untitled}"@
}

/// What a title block resolves to: it takes no argument and exactly one
/// prose child, which is the page's title.
pub open spec fn spec_title(line: int, argument: Option<Seq<char>>, children: Seq<BlockModel>)
    -> Result<(int, PageBlockModel), Seq<(int, ErrorModel)>> {
    let argerrs: Seq<(int, ErrorModel)> = if argument is Some {
        seq![(line, ErrorModel::UnexpectedArgument { block: DirectiveKind::Title })]
    } else {
        Seq::empty()
    };
    if children.len() == 0 {
        Err(argerrs.push((line, ErrorModel::MissingText { block: DirectiveKind::Title })))
    } else if children.len() > 1 {
        Err(
            argerrs.push(
                (children[1].line, ErrorModel::ExcessiveChildCount { block: DirectiveKind::Title }),
            ),
        )
    } else {
        match children[0].kind {
            BlockKindModel::External(t) => if argerrs.len() == 0 {
                Ok((line, PageBlockModel::Title(t)))
            } else {
                Err(argerrs)
            },
            BlockKindModel::Internal(_) => Err(
                argerrs.push(
                    (
                        children[0].line,
                        ErrorModel::UnexpectedChildDirective { block: DirectiveKind::Title },
                    ),
                ),
            ),
        }
    }
}

/// What a link block resolves to: it requires an argument, the destination
/// identifier, and exactly one prose child, the shown text.
pub open spec fn spec_link(line: int, argument: Option<Seq<char>>, children: Seq<BlockModel>)
    -> Result<(int, PageBlockModel), Seq<(int, ErrorModel)>> {
    let argerrs: Seq<(int, ErrorModel)> = if argument is None {
        seq![(line, ErrorModel::MissingArgument { block: DirectiveKind::Link })]
    } else {
        Seq::empty()
    };
    if children.len() == 0 {
        Err(argerrs.push((line, ErrorModel::MissingText { block: DirectiveKind::Link })))
    } else if children.len() > 1 {
        Err(
            argerrs.push(
                (children[1].line, ErrorModel::ExcessiveChildCount { block: DirectiveKind::Link }),
            ),
        )
    } else {
        match children[0].kind {
            BlockKindModel::External(t) => match argument {
                Some(a) => Ok((line, PageBlockModel::Link(a, t))),
                None => Err(argerrs),
            },
            BlockKindModel::Internal(_) => Err(
                argerrs.push(
                    (
                        children[0].line,
                        ErrorModel::UnexpectedChildDirective { block: DirectiveKind::Link },
                    ),
                ),
            ),
        }
    }
}

/// Scanning the children of a text block: prose children become paragraphs
/// in order; each directive child is reported on its own without stopping
/// the scan.
pub open spec fn spec_text_scan(children: Seq<BlockModel>) -> (Seq<Seq<char>>, Seq<
    (int, ErrorModel),
>)
    decreases children.len(),
{
    if children.len() == 0 {
        (Seq::empty(), Seq::empty())
    } else {
        let (ps, es) = spec_text_scan(children.drop_last());
        match children.last().kind {
            BlockKindModel::External(t) => (ps.push(t), es),
            BlockKindModel::Internal(_) => (
                ps,
                es.push(
                    (
                        children.last().line,
                        ErrorModel::UnexpectedChildDirective { block: DirectiveKind::Text },
                    ),
                ),
            ),
        }
    }
}

/// What a text block resolves to: it takes no argument and at least one
/// child, every one of which must be prose.
pub open spec fn spec_text(line: int, argument: Option<Seq<char>>, children: Seq<BlockModel>)
    -> Result<(int, PageBlockModel), Seq<(int, ErrorModel)>> {
    let argerrs: Seq<(int, ErrorModel)> = if argument is Some {
        seq![(line, ErrorModel::UnexpectedArgument { block: DirectiveKind::Text })]
    } else {
        Seq::empty()
    };
    let misserrs: Seq<(int, ErrorModel)> = if children.len() == 0 {
        seq![(line, ErrorModel::MissingText { block: DirectiveKind::Text })]
    } else {
        Seq::empty()
    };
    let scan = spec_text_scan(children);
    let all = argerrs + misserrs + scan.1;
    if all.len() == 0 {
        Ok((line, PageBlockModel::Text(scan.0)))
    } else {
        Err(all)
    }
}

/// The running outcome of scanning a page's children.
pub struct PageScan {
    pub titles: Seq<Seq<char>>,
    pub paragraphs: Seq<Seq<char>>,
    pub links: Seq<(Seq<char>, Seq<char>)>,
    pub errors: Seq<(int, ErrorModel)>,
}

/// Scanning the children of a page block: titles, paragraphs and links
/// gather in document order; a valid nested page is itself an error naming
/// both pages, and an invalid child contributes its own errors.
pub open spec fn spec_page_scan(id: Seq<char>, children: Seq<BlockModel>) -> PageScan
    decreases children, 0int,
{
    if children.len() == 0 {
        PageScan {
            titles: Seq::empty(),
            paragraphs: Seq::empty(),
            links: Seq::empty(),
            errors: Seq::empty(),
        }
    } else {
        let acc = spec_page_scan(id, children.drop_last());
        match spec_page_block(children.last()) {
            Ok((l, pb)) => match pb {
                PageBlockModel::Title(t) => PageScan { titles: acc.titles.push(t), ..acc },
                PageBlockModel::Text(ps) => PageScan {
                    paragraphs: acc.paragraphs + ps,
                    ..acc
                },
                PageBlockModel::Link(d, t) => PageScan { links: acc.links.push((d, t)), ..acc },
                PageBlockModel::Page(p) => PageScan {
                    errors: acc.errors.push(
                        (l, ErrorModel::NestedPage { parent: id, child: p.identifier }),
                    ),
                    ..acc
                },
            },
            Err(es) => PageScan { errors: acc.errors + es, ..acc },
        }
    }
}

/// What a page block resolves to. A missing argument is reported and the
/// placeholder identifier stands in, so the children are still checked;
/// exactly one title is required, and the first found stands in otherwise;
/// the page validates only when its whole subtree holds no error at all.
pub open spec fn spec_page(line: int, argument: Option<Seq<char>>, children: Seq<BlockModel>)
    -> Result<(int, PageBlockModel), Seq<(int, ErrorModel)>>
    decreases children, 1int,
{
    let id = match argument {
        Some(a) => a,
        None => unnamed_page_id(),
    };
    let argerrs: Seq<(int, ErrorModel)> = if argument is None {
        seq![(line, ErrorModel::MissingArgument { block: DirectiveKind::Page })]
    } else {
        Seq::empty()
    };
    let scan = spec_page_scan(id, children);
    let titleerrs: Seq<(int, ErrorModel)> = if scan.titles.len() == 0 {
        seq![(line, ErrorModel::PageMissingTitle { page: id })]
    } else if scan.titles.len() > 1 {
        seq![(line, ErrorModel::ExcessivePageTitles { page: id })]
    } else {
        Seq::empty()
    };
    let title = if scan.titles.len() == 0 {
        untitled_page_title()
    } else {
        scan.titles[0]
    };
    let all = argerrs + scan.errors + titleerrs;
    if all.len() == 0 {
        Ok(
            (
                line,
                PageBlockModel::Page(
                    PageModel {
                        identifier: id,
                        title,
                        paragraphs: scan.paragraphs,
                        links: scan.links,
                    },
                ),
            ),
        )
    } else {
        Err(all)
    }
}

/// What one block resolves to under the directive grammar. Prose cannot
/// stand on its own where a directive is expected.
pub open spec fn spec_page_block(b: BlockModel) -> Result<(int, PageBlockModel), Seq<
    (int, ErrorModel),
>>
    decreases b, 1int,
{
    match b.kind {
        BlockKindModel::External(_) => Err(seq![(b.line, ErrorModel::UnexpectedText)]),
        BlockKindModel::Internal(ib) => match ib.kind {
            DirectiveKind::Page => spec_page(b.line, ib.argument, ib.children),
            DirectiveKind::Title => spec_title(b.line, ib.argument, ib.children),
            DirectiveKind::Link => spec_link(b.line, ib.argument, ib.children),
            DirectiveKind::Text => spec_text(b.line, ib.argument, ib.children),
        },
    }
}

/// Resolve a title block.
fn resolve_title(line: usize, argument: &Option<String>, children: &Vec<Block>) -> (r: Result<
    (usize, PageBlock),
    Vec<(usize, Error)>,
>)
    ensures
        (match r {
            Ok((l, pb)) => Ok::<(int, PageBlockModel), Seq<(int, ErrorModel)>>(
                (l as int, page_block_model(pb)),
            ),
            Err(es) => Err(errors_model(es@)),
        }) == spec_title(
            line as int,
            crate::block::opt_string_model(*argument),
            blocks_model(children@),
        ),
{
    proof {
        lemma_blocks_model(children@);
    }
    let ghost cs = blocks_model(children@);
    let mut errors: Vec<(usize, Error)> = Vec::new();
    if argument.is_some() {
        errors.push(Error::unexpected_argument(line, DirectiveKind::Title));
    }
    let ghost argerrs = errors_model(errors@);
    proof {
        if argument.is_some() {
            assert(argerrs =~= seq![
                (line as int, ErrorModel::UnexpectedArgument { block: DirectiveKind::Title }),
            ]);
        } else {
            assert(argerrs =~= Seq::<(int, ErrorModel)>::empty());
        }
    }
    if children.len() == 0 {
        errors.push(Error::missing_text(line, DirectiveKind::Title));
        proof {
            assert(errors_model(errors@) =~= argerrs.push(
                (line as int, ErrorModel::MissingText { block: DirectiveKind::Title }),
            ));
        }
        return Err(errors);
    }
    if children.len() > 1 {
        errors.push(Error::excessive_child_count(children[1].line, DirectiveKind::Title));
        proof {
            assert(errors_model(errors@) =~= argerrs.push(
                (
                    cs[1].line,
                    ErrorModel::ExcessiveChildCount { block: DirectiveKind::Title },
                ),
            ));
        }
        return Err(errors);
    }
    match &children[0].kind {
        BlockKind::External(t) => {
            if errors.len() == 0 {
                proof {
                    assert(errors_model(errors@) =~= Seq::<(int, ErrorModel)>::empty());
                }
                Ok((line, PageBlock::Title(t.clone())))
            } else {
                Err(errors)
            }
        },
        BlockKind::Internal(_) => {
            errors.push(Error::unexpected_child_directive(children[0].line, DirectiveKind::Title));
            proof {
                assert(errors_model(errors@) =~= argerrs.push(
                    (
                        cs[0].line,
                        ErrorModel::UnexpectedChildDirective { block: DirectiveKind::Title },
                    ),
                ));
            }
            Err(errors)
        },
    }
}

/// Resolve a link block.
fn resolve_link(line: usize, argument: &Option<String>, children: &Vec<Block>) -> (r: Result<
    (usize, PageBlock),
    Vec<(usize, Error)>,
>)
    ensures
        (match r {
            Ok((l, pb)) => Ok::<(int, PageBlockModel), Seq<(int, ErrorModel)>>(
                (l as int, page_block_model(pb)),
            ),
            Err(es) => Err(errors_model(es@)),
        }) == spec_link(
            line as int,
            crate::block::opt_string_model(*argument),
            blocks_model(children@),
        ),
{
    proof {
        lemma_blocks_model(children@);
    }
    let ghost cs = blocks_model(children@);
    let mut errors: Vec<(usize, Error)> = Vec::new();
    if argument.is_none() {
        errors.push(Error::missing_argument(line, DirectiveKind::Link));
    }
    let ghost argerrs = errors_model(errors@);
    proof {
        if argument.is_none() {
            assert(argerrs =~= seq![
                (line as int, ErrorModel::MissingArgument { block: DirectiveKind::Link }),
            ]);
        } else {
            assert(argerrs =~= Seq::<(int, ErrorModel)>::empty());
        }
    }
    if children.len() == 0 {
        errors.push(Error::missing_text(line, DirectiveKind::Link));
        proof {
            assert(errors_model(errors@) =~= argerrs.push(
                (line as int, ErrorModel::MissingText { block: DirectiveKind::Link }),
            ));
        }
        return Err(errors);
    }
    if children.len() > 1 {
        errors.push(Error::excessive_child_count(children[1].line, DirectiveKind::Link));
        proof {
            assert(errors_model(errors@) =~= argerrs.push(
                (cs[1].line, ErrorModel::ExcessiveChildCount { block: DirectiveKind::Link }),
            ));
        }
        return Err(errors);
    }
    match &children[0].kind {
        BlockKind::External(t) => {
            match argument {
                Some(a) => Ok((line, PageBlock::Link(a.clone(), t.clone()))),
                None => Err(errors),
            }
        },
        BlockKind::Internal(_) => {
            errors.push(Error::unexpected_child_directive(children[0].line, DirectiveKind::Link));
            proof {
                assert(errors_model(errors@) =~= argerrs.push(
                    (
                        cs[0].line,
                        ErrorModel::UnexpectedChildDirective { block: DirectiveKind::Link },
                    ),
                ));
            }
            Err(errors)
        },
    }
}

/// Resolve a text block.
fn resolve_text(line: usize, argument: &Option<String>, children: &Vec<Block>) -> (r: Result<
    (usize, PageBlock),
    Vec<(usize, Error)>,
>)
    ensures
        (match r {
            Ok((l, pb)) => Ok::<(int, PageBlockModel), Seq<(int, ErrorModel)>>(
                (l as int, page_block_model(pb)),
            ),
            Err(es) => Err(errors_model(es@)),
        }) == spec_text(
            line as int,
            crate::block::opt_string_model(*argument),
            blocks_model(children@),
        ),
{
    proof {
        lemma_blocks_model(children@);
    }
    let ghost cs = blocks_model(children@);
    let mut errors: Vec<(usize, Error)> = Vec::new();
    if argument.is_some() {
        errors.push(Error::unexpected_argument(line, DirectiveKind::Text));
    }
    if children.len() == 0 {
        errors.push(Error::missing_text(line, DirectiveKind::Text));
    }
    let ghost head = errors_model(errors@);
    proof {
        let argerrs: Seq<(int, ErrorModel)> = if argument.is_some() {
            seq![(line as int, ErrorModel::UnexpectedArgument { block: DirectiveKind::Text })]
        } else {
            Seq::empty()
        };
        let misserrs: Seq<(int, ErrorModel)> = if children@.len() == 0 {
            seq![(line as int, ErrorModel::MissingText { block: DirectiveKind::Text })]
        } else {
            Seq::empty()
        };
        assert(head =~= argerrs + misserrs);
    }
    let mut paragraphs: Vec<String> = Vec::new();
    let mut i: usize = 0;
    proof {
        assert(cs.take(0) =~= Seq::<BlockModel>::empty());
    }
    while i < children.len()
        invariant
            0 <= i <= children.len(),
            cs == blocks_model(children@),
            cs.len() == children@.len(),
            forall|j: int| 0 <= j < children@.len() ==> cs[j] == block_model(children@[j]),
            strings_model(paragraphs@) == spec_text_scan(cs.take(i as int)).0,
            errors_model(errors@) == head + spec_text_scan(cs.take(i as int)).1,
        decreases children.len() - i,
    {
        proof {
            assert(cs.take(i + 1).drop_last() =~= cs.take(i as int));
            assert(cs.take(i + 1).last() == cs[i as int]);
        }
        match &children[i].kind {
            BlockKind::External(t) => {
                let ghost prev = paragraphs@;
                paragraphs.push(t.clone());
                proof {
                    assert(strings_model(paragraphs@) =~= strings_model(prev).push(t@));
                }
            },
            BlockKind::Internal(_) => {
                let ghost prev = errors@;
                errors.push(
                    Error::unexpected_child_directive(children[i].line, DirectiveKind::Text),
                );
                proof {
                    assert(errors_model(errors@) =~= errors_model(prev).push(
                        (
                            cs[i as int].line,
                            ErrorModel::UnexpectedChildDirective { block: DirectiveKind::Text },
                        ),
                    ));
                    assert(errors_model(errors@) =~= head + spec_text_scan(cs.take(i + 1)).1);
                }
            },
        }
        i += 1;
    }
    proof {
        assert(cs.take(children@.len() as int) =~= cs);
    }
    if errors.len() == 0 {
        proof {
            assert(errors_model(errors@) =~= Seq::<(int, ErrorModel)>::empty());
            assert(head + spec_text_scan(cs).1 =~= Seq::<(int, ErrorModel)>::empty());
        }
        Ok((line, PageBlock::Text(paragraphs)))
    } else {
        proof {
            assert(errors_model(errors@).len() == errors@.len());
        }
        Err(errors)
    }
}

impl PageBlock {
    /// Resolve one block against the directive grammar. Returns what the
    /// block is, under the number of the line it began on, or every error
    /// its subtree holds.
    pub fn parse(block: &Block) -> (r: Result<(usize, PageBlock), Vec<(usize, Error)>>)
        ensures
            (match r {
                Ok((l, pb)) => Ok::<(int, PageBlockModel), Seq<(int, ErrorModel)>>(
                    (l as int, page_block_model(pb)),
                ),
                Err(es) => Err(errors_model(es@)),
            }) == spec_page_block(block_model(*block)),
        decreases *block, 1int,
    {
        match &block.kind {
            BlockKind::External(_) => {
                let mut errors: Vec<(usize, Error)> = Vec::new();
                errors.push((block.line, Error::UnexpectedText));
                proof {
                    assert(errors_model(errors@) =~= seq![
                        (block.line as int, ErrorModel::UnexpectedText),
                    ]);
                }
                Err(errors)
            },
            BlockKind::Internal(ib) => match ib.kind {
                DirectiveKind::Page => Self::resolve_page(
                    block.line,
                    &ib.argument,
                    &ib.children,
                ),
                DirectiveKind::Title => resolve_title(block.line, &ib.argument, &ib.children),
                DirectiveKind::Link => resolve_link(block.line, &ib.argument, &ib.children),
                DirectiveKind::Text => resolve_text(block.line, &ib.argument, &ib.children),
            },
        }
    }

    /// Resolve a page block: gather its titles, paragraphs and links, and
    /// report everything wrong anywhere under it.
    fn resolve_page(line: usize, argument: &Option<String>, children: &Vec<Block>) -> (r: Result<
        (usize, PageBlock),
        Vec<(usize, Error)>,
    >)
        ensures
            (match r {
                Ok((l, pb)) => Ok::<(int, PageBlockModel), Seq<(int, ErrorModel)>>(
                    (l as int, page_block_model(pb)),
                ),
                Err(es) => Err(errors_model(es@)),
            }) == spec_page(
                line as int,
                crate::block::opt_string_model(*argument),
                blocks_model(children@),
            ),
        decreases *children, 0int,
    {
        proof {
            lemma_blocks_model(children@);
        }
        let ghost cs = blocks_model(children@);
        let mut errors: Vec<(usize, Error)> = Vec::new();
        let identifier: String = match argument {
            Some(s) => s.clone(),
            None => {
                errors.push(Error::missing_argument(line, DirectiveKind::Page));
                String::from_str("{unnamed}")
            },
        };
        let ghost id = identifier@;
        let ghost argerrs = errors_model(errors@);
        proof {
            if argument.is_none() {
                assert(argerrs =~= seq![
                    (line as int, ErrorModel::MissingArgument { block: DirectiveKind::Page }),
                ]);
            } else {
                assert(argerrs =~= Seq::<(int, ErrorModel)>::empty());
            }
        }
        let mut titles: Vec<String> = Vec::new();
        let mut paragraphs: Vec<String> = Vec::new();
        let mut links: Vec<(String, String)> = Vec::new();
        let mut i: usize = 0;
        proof {
            assert(cs.take(0) =~= Seq::<BlockModel>::empty());
        }
        while i < children.len()
            invariant
                0 <= i <= children.len(),
                cs == blocks_model(children@),
                cs.len() == children@.len(),
                forall|j: int| 0 <= j < children@.len() ==> cs[j] == block_model(children@[j]),
                strings_model(titles@) == spec_page_scan(id, cs.take(i as int)).titles,
                strings_model(paragraphs@) == spec_page_scan(id, cs.take(i as int)).paragraphs,
                links_model(links@) == spec_page_scan(id, cs.take(i as int)).links,
                errors_model(errors@) == argerrs + spec_page_scan(id, cs.take(i as int)).errors,
                identifier@ == id,
            decreases children.len() - i,
        {
            proof {
                assert(cs.take(i + 1).drop_last() =~= cs.take(i as int));
                assert(cs.take(i + 1).last() == cs[i as int]);
                assert(decreases_to!(*children => children@[i as int]));
            }
            match Self::parse(&children[i]) {
                Ok((l, pb)) => match pb {
                    PageBlock::Title(t) => {
                        let ghost prev = titles@;
                        let ghost tm = t@;
                        titles.push(t);
                        proof {
                            assert(strings_model(titles@) =~= strings_model(prev).push(tm));
                        }
                    },
                    PageBlock::Text(mut ps) => {
                        let ghost prev = paragraphs@;
                        let ghost psm = strings_model(ps@);
                        paragraphs.append(&mut ps);
                        proof {
                            assert(strings_model(paragraphs@) =~= strings_model(prev) + psm);
                        }
                    },
                    PageBlock::Link(d, t) => {
                        let ghost prev = links@;
                        let ghost dm = d@;
                        let ghost tm = t@;
                        links.push((d, t));
                        proof {
                            assert(links_model(links@) =~= links_model(prev).push((dm, tm)));
                        }
                    },
                    PageBlock::Page(p) => {
                        let ghost prev = errors@;
                        errors.push(
                            Error::nested_page(l, identifier.as_str(), p.identifier.as_str()),
                        );
                        proof {
                            assert(errors_model(errors@) =~= errors_model(prev).push(
                                (
                                    l as int,
                                    ErrorModel::NestedPage { parent: id, child: p@.identifier },
                                ),
                            ));
                        }
                    },
                },
                Err(mut es) => {
                    let ghost prev = errors@;
                    let ghost esm = errors_model(es@);
                    errors.append(&mut es);
                    proof {
                        assert(errors_model(errors@) =~= errors_model(prev) + esm);
                    }
                },
            }
            i += 1;
        }
        proof {
            assert(cs.take(children@.len() as int) =~= cs);
        }
        let ghost scan = spec_page_scan(id, cs);
        let title: String = if titles.len() == 0 {
            errors.push(Error::page_missing_title(line, identifier.as_str()));
            String::from_str("{untitled}")
        } else {
            if titles.len() > 1 {
                errors.push(Error::excessive_page_titles(line, identifier.as_str()));
            }
            titles[0].clone()
        };
        proof {
            assert(strings_model(titles@).len() == titles@.len());
            if titles@.len() > 0 {
                assert(strings_model(titles@)[0] == titles@[0]@);
            }
        }
        if errors.len() == 0 {
            proof {
                assert(errors_model(errors@) =~= Seq::<(int, ErrorModel)>::empty());
            }
            Ok(
                (
                    line,
                    PageBlock::Page(Page { identifier, title, paragraphs, links }),
                ),
            )
        } else {
            proof {
                assert(errors_model(errors@).len() == errors@.len());
                let titleerrs: Seq<(int, ErrorModel)> = if scan.titles.len() == 0 {
                    seq![(line as int, ErrorModel::PageMissingTitle { page: id })]
                } else if scan.titles.len() > 1 {
                    seq![(line as int, ErrorModel::ExcessivePageTitles { page: id })]
                } else {
                    Seq::empty()
                };
                assert(errors_model(errors@) =~= argerrs + scan.errors + titleerrs);
            }
            Err(errors)
        }
    }
}

/// Whether a block resolves, on its own, to page content: a title, a link
/// or a run of paragraphs.
pub open spec fn resolves_to_content(b: BlockModel) -> bool {
    match spec_page_block(b) {
        Ok((l, pb)) => !(pb is Page),
        Err(_) => false,
    }
}

/// How many of the children resolve to titles.
pub open spec fn title_count(children: Seq<BlockModel>) -> int
    decreases children.len(),
{
    if children.len() == 0 {
        0
    } else {
        title_count(children.drop_last()) + (match spec_page_block(children.last()) {
            Ok((l, pb)) => if pb is Title {
                1int
            } else {
                0int
            },
            Err(_) => 0int,
        })
    }
}

/// Scanning children that each resolve to page content finds no error, and
/// gathers exactly as many titles as resolve to one.
proof fn lemma_page_scan_all_content(id: Seq<char>, children: Seq<BlockModel>)
    requires
        forall|i: int| 0 <= i < children.len() ==> resolves_to_content(#[trigger] children[i]),
    ensures
        spec_page_scan(id, children).errors == Seq::<(int, ErrorModel)>::empty(),
        spec_page_scan(id, children).titles.len() == title_count(children),
    decreases children.len(),
{
    if children.len() == 0 {
        assert(spec_page_scan(id, children).errors =~= Seq::<(int, ErrorModel)>::empty());
    } else {
        assert(forall|i: int|
            0 <= i < children.drop_last().len() ==> #[trigger] children.drop_last()[i]
                == children[i]);
        lemma_page_scan_all_content(id, children.drop_last());
        assert(resolves_to_content(children.last()));
    }
}

/// A page with two title children, and otherwise sound content, yields
/// exactly one error: too many declared titles, naming the page.
pub proof fn theorem_two_titles_one_error(line: int, id: Seq<char>, children: Seq<BlockModel>)
    requires
        forall|i: int| 0 <= i < children.len() ==> resolves_to_content(#[trigger] children[i]),
        title_count(children) == 2,
    ensures
        spec_page(line, Some(id), children) == Err::<(int, PageBlockModel), Seq<
            (int, ErrorModel),
        >>(seq![(line, ErrorModel::ExcessivePageTitles { page: id })]),
{
    lemma_page_scan_all_content(id, children);
    let scan = spec_page_scan(id, children);
    let titleerrs: Seq<(int, ErrorModel)> = seq![
        (line, ErrorModel::ExcessivePageTitles { page: id }),
    ];
    assert(Seq::<(int, ErrorModel)>::empty() + scan.errors + titleerrs =~= titleerrs);
}

} // verus!
