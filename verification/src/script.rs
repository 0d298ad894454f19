//! The validated document model a successful parse produces, and the parse
//! pipeline itself: tokenized lines become a block forest, the forest
//! becomes validated pages, and the pages become a script.

use vstd::prelude::*;

use crate::block::Block;
use crate::block::BlockKind;
use crate::block::BlockModel;
use crate::block::BlockKindModel;
use crate::block::blocks_model;
use crate::block::lemma_blocks_model;
use crate::block::line_pairs_model;
use crate::block::spec_build;
use crate::error::Error;
use crate::error::ErrorModel;
use crate::error::errors_model;
use crate::line::DirectiveKind;
use crate::line::Line;
use crate::line::LineModel;
use crate::line::Lines;
use crate::line::line_items_model;
use crate::line::spec_line_items;
use crate::line::spec_split_lines;
use crate::line::strings_model;
use crate::page_block::PageBlock;
use crate::page_block::PageBlockModel;
use crate::page_block::page_block_model;
use crate::page_block::spec_page_block;
use crate::block::FrameModel;
use crate::block::InternalBlockModel;
use crate::block::init_build_state;
use crate::block::spec_run_from;
use crate::block::spec_step;
use crate::block::spec_finish;
use crate::block::spec_run;
use crate::block::close_to;
use crate::block::close_frame;
use crate::line::LineKindModel;
use crate::line::first_ws_index;
use crate::line::lemma_split_lines_step;
use crate::line::lemma_tokenize_page_line;
use crate::line::lemma_tokenize_prose_line;
use crate::line::lemma_tokenize_title_line;
use crate::line::spec_directive_of;
use crate::line::spec_is_whitespace;
use crate::page_block::spec_page_scan;
use crate::page_block::spec_page;
use crate::page_block::spec_title;

verus! {

/// A validated page: its identifier, its title, its paragraphs in document
/// order, and its links as pairs of destination identifier and shown text.
#[derive(Debug, PartialEq)]
pub struct Page {
    /// String used to identify the page.
    pub identifier: String,
    /// The title of the page.
    pub title: String,
    /// The paragraphs of text within the page.
    pub paragraphs: Vec<String>,
    /// The links to other pages: the target page identifier and the
    /// user-facing text.
    pub links: Vec<(String, String)>,
}

/// A fully parsed script: its pages in document order.
#[derive(Debug, PartialEq)]
pub struct Script {
    pub pages: Vec<Page>,
}

/// The model of a `Page`.
pub struct PageModel {
    pub identifier: Seq<char>,
    pub title: Seq<char>,
    pub paragraphs: Seq<Seq<char>>,
    pub links: Seq<(Seq<char>, Seq<char>)>,
}

/// The model of a `Script`.
pub struct ScriptModel {
    pub pages: Seq<PageModel>,
}

/// The model of a link list.
pub open spec fn links_model(v: Seq<(String, String)>) -> Seq<(Seq<char>, Seq<char>)> {
    v.map_values(|p: (String, String)| (p.0@, p.1@))
}

impl View for Page {
    type V = PageModel;

    open spec fn view(&self) -> PageModel {
        PageModel {
            identifier: self.identifier@,
            title: self.title@,
            paragraphs: strings_model(self.paragraphs@),
            links: links_model(self.links@),
        }
    }
}

/// The model of a page list.
pub open spec fn pages_model(v: Seq<Page>) -> Seq<PageModel> {
    v.map_values(|p: Page| p@)
}

impl View for Script {
    type V = ScriptModel;

    open spec fn view(&self) -> ScriptModel {
        ScriptModel { pages: pages_model(self.pages@) }
    }
}

/// The lexical errors among the tokenization outcomes, in order.
pub open spec fn items_errors(items: Seq<(int, Result<LineModel, ErrorModel>)>) -> Seq<
    (int, ErrorModel),
>
    decreases items.len(),
{
    if items.len() == 0 {
        Seq::empty()
    } else {
        items_errors(items.drop_last()) + match items.last().1 {
            Ok(_) => Seq::empty(),
            Err(e) => seq![(items.last().0, e)],
        }
    }
}

/// The classified lines among the tokenization outcomes, in order.
pub open spec fn items_lines(items: Seq<(int, Result<LineModel, ErrorModel>)>) -> Seq<
    (int, LineModel),
>
    decreases items.len(),
{
    if items.len() == 0 {
        Seq::empty()
    } else {
        items_lines(items.drop_last()) + match items.last().1 {
            Ok(l) => seq![(items.last().0, l)],
            Err(_) => Seq::empty(),
        }
    }
}

/// Tokenize a whole text: all classified lines, or all lexical errors if
/// there is any at all.
pub fn string_to_lines(string: &str) -> (r: Result<Vec<(usize, Line)>, Vec<(usize, Error)>>)
    ensures
        ({
            let items = spec_line_items(spec_split_lines(string@));
            match r {
                Ok(v) => items_errors(items).len() == 0 && line_pairs_model(v@) == items_lines(
                    items,
                ),
                Err(e) => e@.len() > 0 && errors_model(e@) == items_errors(items),
            }
        }),
{
    let lines = Lines::new(string);
    let mut items = lines.items;
    let ghost all = line_items_model(items@);
    let mut oks: Vec<(usize, Line)> = Vec::new();
    let mut errs: Vec<(usize, Error)> = Vec::new();
    let ghost mut k: int = 0;
    proof {
        assert(line_items_model(items@) =~= all.skip(0));
        assert(all.take(0) =~= Seq::<(int, Result<LineModel, ErrorModel>)>::empty());
    }
    while items.len() > 0
        invariant
            0 <= k <= all.len(),
            line_items_model(items@) =~= all.skip(k),
            items@.len() == all.len() - k,
            line_pairs_model(oks@) == items_lines(all.take(k)),
            errors_model(errs@) == items_errors(all.take(k)),
        decreases items.len(),
    {
        let ghost pre = items@;
        let it = items.remove(0);
        proof {
            assert(items@ =~= pre.drop_first());
            assert(line_items_model(items@) =~= all.skip(k + 1)) by {
                assert(line_items_model(pre).drop_first() =~= line_items_model(pre.drop_first()));
                assert(all.skip(k).drop_first() =~= all.skip(k + 1));
            }
            assert(line_items_model(pre)[0] == all[k]);
            assert(all.take(k + 1).drop_last() =~= all.take(k));
            assert(all.take(k + 1).last() == all[k]);
        }
        match it.1 {
            Ok(l) => {
                let ghost prev = oks@;
                let ghost lm = l@;
                oks.push((it.0, l));
                proof {
                    assert(line_pairs_model(oks@) =~= line_pairs_model(prev).push(
                        (it.0 as int, lm),
                    ));
                    assert(items_lines(all.take(k + 1)) =~= items_lines(all.take(k)).push(
                        (it.0 as int, lm),
                    ));
                    assert(items_errors(all.take(k + 1)) =~= items_errors(all.take(k)));
                }
            },
            Err(e) => {
                let ghost prev = errs@;
                let ghost em = e@;
                errs.push((it.0, e));
                proof {
                    assert(errors_model(errs@) =~= errors_model(prev).push((it.0 as int, em)));
                    assert(items_errors(all.take(k + 1)) =~= items_errors(all.take(k)).push(
                        (it.0 as int, em),
                    ));
                    assert(items_lines(all.take(k + 1)) =~= items_lines(all.take(k)));
                }
            },
        }
        proof {
            k = k + 1;
        }
    }
    proof {
        assert(all.take(all.len() as int) =~= all);
    }
    if errs.len() == 0 {
        proof {
            assert(errors_model(errs@) =~= Seq::<(int, ErrorModel)>::empty());
        }
        Ok(oks)
    } else {
        proof {
            assert(errors_model(errs@).len() == errs@.len());
        }
        Err(errs)
    }
}

/// Build the block forest of the tokenized lines.
pub fn lines_to_blocks(lines: Vec<(usize, Line)>) -> (r: Result<Vec<Block>, Vec<(usize, Error)>>)
    ensures
        ({
            let out = spec_build(line_pairs_model(lines@));
            match r {
                Ok(blocks) => out.1.len() == 0 && blocks_model(blocks@) == out.0,
                Err(errors) => out.1.len() > 0 && errors_model(errors@) == out.1,
            }
        }),
{
    Block::parse(lines)
}

/// What resolving the top-level block list yields: the validated page
/// blocks in order, and every error of the whole pass. A top-level prose
/// block, and a top-level directive other than a page, are themselves
/// errors.
pub open spec fn spec_top_blocks(bs: Seq<BlockModel>) -> (Seq<(int, PageBlockModel)>, Seq<
    (int, ErrorModel),
>)
    decreases bs.len(),
{
    if bs.len() == 0 {
        (Seq::empty(), Seq::empty())
    } else {
        let (pbs, errs) = spec_top_blocks(bs.drop_last());
        let b = bs.last();
        match b.kind {
            BlockKindModel::Internal(ib) => if ib.kind is Page {
                match spec_page_block(b) {
                    Ok(p) => (pbs.push(p), errs),
                    Err(es) => (pbs, errs + es),
                }
            } else {
                (
                    pbs,
                    errs.push(
                        (b.line, ErrorModel::UnexpectedTopLevelDirective { found: ib.kind }),
                    ),
                )
            },
            BlockKindModel::External(_) => (
                pbs,
                errs.push((b.line, ErrorModel::UnexpectedText)),
            ),
        }
    }
}

/// The model of a numbered page-block list.
pub open spec fn page_blocks_model(v: Seq<(usize, PageBlock)>) -> Seq<(int, PageBlockModel)> {
    v.map_values(|p: (usize, PageBlock)| (p.0 as int, page_block_model(p.1)))
}

/// Resolve every top-level block against the directive grammar. Returns the
/// validated page blocks when the whole pass finds no fault, and otherwise
/// the full ordered error list.
pub fn blocks_to_page_blocks(blocks: Vec<Block>) -> (r: Result<
    Vec<(usize, PageBlock)>,
    Vec<(usize, Error)>,
>)
    ensures
        ({
            let out = spec_top_blocks(blocks_model(blocks@));
            match r {
                Ok(pbs) => out.1.len() == 0 && page_blocks_model(pbs@) == out.0,
                Err(errors) => out.1.len() > 0 && errors_model(errors@) == out.1,
            }
        }),
{
    let ghost bs = blocks_model(blocks@);
    let mut pbs: Vec<(usize, PageBlock)> = Vec::new();
    let mut errs: Vec<(usize, Error)> = Vec::new();
    let mut i: usize = 0;
    proof {
        lemma_blocks_model(blocks@);
        assert(bs.take(0) =~= Seq::<BlockModel>::empty());
    }
    while i < blocks.len()
        invariant
            0 <= i <= blocks.len(),
            bs == blocks_model(blocks@),
            bs.len() == blocks@.len(),
            forall|j: int| 0 <= j < blocks@.len() ==> bs[j] == crate::block::block_model(
                blocks@[j],
            ),
            page_blocks_model(pbs@) == spec_top_blocks(bs.take(i as int)).0,
            errors_model(errs@) == spec_top_blocks(bs.take(i as int)).1,
        decreases blocks.len() - i,
    {
        proof {
            assert(bs.take(i + 1).drop_last() =~= bs.take(i as int));
            assert(bs.take(i + 1).last() == bs[i as int]);
        }
        let block = &blocks[i];
        let top_level_fault: Option<DirectiveKind> = match &block.kind {
            BlockKind::Internal(ib) => match ib.kind {
                DirectiveKind::Page => None,
                k => Some(k),
            },
            BlockKind::External(_) => None,
        };
        match top_level_fault {
            Some(kind) => {
                let ghost prev = errs@;
                errs.push((block.line, Error::UnexpectedTopLevelDirective { found: kind }));
                proof {
                    assert(errors_model(errs@) =~= errors_model(prev).push(
                        (
                            block.line as int,
                            ErrorModel::UnexpectedTopLevelDirective { found: kind },
                        ),
                    ));
                }
            },
            None => {
                match PageBlock::parse(block) {
                    Ok((l, pb)) => {
                        let ghost prev = pbs@;
                        let ghost pbm = page_block_model(pb);
                        pbs.push((l, pb));
                        proof {
                            assert(page_blocks_model(pbs@) =~= page_blocks_model(prev).push(
                                (l as int, pbm),
                            ));
                        }
                    },
                    Err(mut es) => {
                        let ghost prev = errs@;
                        let ghost esm = errors_model(es@);
                        errs.append(&mut es);
                        proof {
                            assert(errors_model(errs@) =~= errors_model(prev) + esm);
                        }
                    },
                }
            },
        }
        i += 1;
    }
    proof {
        assert(bs.take(blocks@.len() as int) =~= bs);
    }
    if errs.len() == 0 {
        proof {
            assert(errors_model(errs@) =~= Seq::<(int, ErrorModel)>::empty());
        }
        Ok(pbs)
    } else {
        proof {
            assert(errors_model(errs@).len() == errs@.len());
        }
        Err(errs)
    }
}

/// What gathering the resolved page blocks yields: the pages in document
/// order, and an error for anything that is not a page.
pub open spec fn spec_pages_of(pbs: Seq<(int, PageBlockModel)>) -> (Seq<PageModel>, Seq<
    (int, ErrorModel),
>)
    decreases pbs.len(),
{
    if pbs.len() == 0 {
        (Seq::empty(), Seq::empty())
    } else {
        let (pages, errs) = spec_pages_of(pbs.drop_last());
        let (l, pb) = pbs.last();
        match pb {
            PageBlockModel::Page(p) => (pages.push(p), errs),
            PageBlockModel::Title(_) => (
                pages,
                errs.push(
                    (l, ErrorModel::UnexpectedTopLevelDirective { found: DirectiveKind::Title }),
                ),
            ),
            PageBlockModel::Link(_, _) => (
                pages,
                errs.push(
                    (l, ErrorModel::UnexpectedTopLevelDirective { found: DirectiveKind::Link }),
                ),
            ),
            PageBlockModel::Text(_) => (
                pages,
                errs.push(
                    (l, ErrorModel::UnexpectedTopLevelDirective { found: DirectiveKind::Text }),
                ),
            ),
        }
    }
}

/// Gather the resolved page blocks into the page list.
pub fn page_blocks_to_pages(page_blocks: Vec<(usize, PageBlock)>) -> (r: Result<
    Vec<Page>,
    Vec<(usize, Error)>,
>)
    ensures
        ({
            let out = spec_pages_of(page_blocks_model(page_blocks@));
            match r {
                Ok(pages) => out.1.len() == 0 && pages_model(pages@) == out.0,
                Err(errors) => out.1.len() > 0 && errors_model(errors@) == out.1,
            }
        }),
{
    let ghost all = page_blocks_model(page_blocks@);
    let mut items = page_blocks;
    let mut pages: Vec<Page> = Vec::new();
    let mut errs: Vec<(usize, Error)> = Vec::new();
    let ghost mut k: int = 0;
    proof {
        assert(page_blocks_model(items@) =~= all.skip(0));
        assert(all.take(0) =~= Seq::<(int, PageBlockModel)>::empty());
    }
    while items.len() > 0
        invariant
            0 <= k <= all.len(),
            page_blocks_model(items@) =~= all.skip(k),
            items@.len() == all.len() - k,
            pages_model(pages@) == spec_pages_of(all.take(k)).0,
            errors_model(errs@) == spec_pages_of(all.take(k)).1,
        decreases items.len(),
    {
        let ghost pre = items@;
        let (l, pb) = items.remove(0);
        proof {
            assert(items@ =~= pre.drop_first());
            assert(page_blocks_model(items@) =~= all.skip(k + 1)) by {
                assert(page_blocks_model(pre).drop_first() =~= page_blocks_model(
                    pre.drop_first(),
                ));
                assert(all.skip(k).drop_first() =~= all.skip(k + 1));
            }
            assert(page_blocks_model(pre)[0] == all[k]);
            assert(all.take(k + 1).drop_last() =~= all.take(k));
            assert(all.take(k + 1).last() == all[k]);
        }
        match pb {
            PageBlock::Page(p) => {
                let ghost prev = pages@;
                let ghost pm = p@;
                pages.push(p);
                proof {
                    assert(pages_model(pages@) =~= pages_model(prev).push(pm));
                }
            },
            PageBlock::Title(_) => {
                let ghost prev = errs@;
                errs.push(
                    (l, Error::UnexpectedTopLevelDirective { found: DirectiveKind::Title }),
                );
                proof {
                    assert(errors_model(errs@) =~= errors_model(prev).push(
                        (
                            l as int,
                            ErrorModel::UnexpectedTopLevelDirective {
                                found: DirectiveKind::Title,
                            },
                        ),
                    ));
                }
            },
            PageBlock::Link(_, _) => {
                let ghost prev = errs@;
                errs.push((l, Error::UnexpectedTopLevelDirective { found: DirectiveKind::Link }));
                proof {
                    assert(errors_model(errs@) =~= errors_model(prev).push(
                        (
                            l as int,
                            ErrorModel::UnexpectedTopLevelDirective { found: DirectiveKind::Link },
                        ),
                    ));
                }
            },
            PageBlock::Text(_) => {
                let ghost prev = errs@;
                errs.push((l, Error::UnexpectedTopLevelDirective { found: DirectiveKind::Text }));
                proof {
                    assert(errors_model(errs@) =~= errors_model(prev).push(
                        (
                            l as int,
                            ErrorModel::UnexpectedTopLevelDirective { found: DirectiveKind::Text },
                        ),
                    ));
                }
            },
        }
        proof {
            k = k + 1;
        }
    }
    proof {
        assert(all.take(all.len() as int) =~= all);
    }
    if errs.len() == 0 {
        proof {
            assert(errors_model(errs@) =~= Seq::<(int, ErrorModel)>::empty());
        }
        Ok(pages)
    } else {
        proof {
            assert(errors_model(errs@).len() == errs@.len());
        }
        Err(errs)
    }
}

/// What parsing a whole source text yields: the script, or the ordered
/// error list of the first pipeline phase that found any fault. Each phase
/// runs only when the one before it found none, but within a phase every
/// independently detectable fault is reported.
pub open spec fn spec_parse(s: Seq<char>) -> Result<ScriptModel, Seq<(int, ErrorModel)>> {
    let items = spec_line_items(spec_split_lines(s));
    if items_errors(items).len() > 0 {
        Err(items_errors(items))
    } else {
        let built = spec_build(items_lines(items));
        if built.1.len() > 0 {
            Err(built.1)
        } else {
            let resolved = spec_top_blocks(built.0);
            if resolved.1.len() > 0 {
                Err(resolved.1)
            } else {
                let gathered = spec_pages_of(resolved.0);
                if gathered.1.len() > 0 {
                    Err(gathered.1)
                } else {
                    Ok(ScriptModel { pages: gathered.0 })
                }
            }
        }
    }
}

/// Parse a whole source text into a script, or into the ordered list of
/// every error the failing phase found, each under its 0-based line number.
pub fn parse(input: &str) -> (r: Result<Script, Vec<(usize, Error)>>)
    ensures
        (match r {
            Ok(script) => Ok::<ScriptModel, Seq<(int, ErrorModel)>>(script@),
            Err(errors) => Err(errors_model(errors@)),
        }) == spec_parse(input@),
        r is Err ==> (match r {
            Err(errors) => errors@.len() > 0,
            Ok(_) => false,
        }),
{
    let lines = match string_to_lines(input) {
        Ok(v) => v,
        Err(e) => {
            return Err(e);
        },
    };
    let blocks = match lines_to_blocks(lines) {
        Ok(v) => v,
        Err(e) => {
            return Err(e);
        },
    };
    let page_blocks = match blocks_to_page_blocks(blocks) {
        Ok(v) => v,
        Err(e) => {
            return Err(e);
        },
    };
    let pages = match page_blocks_to_pages(page_blocks) {
        Ok(v) => v,
        Err(e) => {
            return Err(e);
        },
    };
    Ok(Script { pages })
}

impl Script {
    /// Parse a whole source text into a script.
    pub fn new(string: &str) -> (r: Result<Script, Vec<(usize, Error)>>)
        ensures
            (match r {
                Ok(script) => Ok::<ScriptModel, Seq<(int, ErrorModel)>>(script@),
                Err(errors) => Err(errors_model(errors@)),
            }) == spec_parse(string@),
            r is Err ==> (match r {
                Err(errors) => errors@.len() > 0,
                Ok(_) => false,
            }),
    {
        parse(string)
    }
}

/// A script of one page with one title and nothing else parses to exactly
/// one page: it carries that identifier and that title, and its paragraphs
/// and links are empty — whatever the identifier, the title and the line
/// numbers are.
pub proof fn theorem_single_page_round_trip(
    n0: int,
    n1: int,
    n2: int,
    id: Seq<char>,
    title: Seq<char>,
)
    ensures
        ({
            let ts = seq![
                (
                    n0,
                    LineModel {
                        indent: 0,
                        kind: LineKindModel::Directive(DirectiveKind::Page, Some(id)),
                    },
                ),
                (
                    n1,
                    LineModel {
                        indent: 1,
                        kind: LineKindModel::Directive(DirectiveKind::Title, None),
                    },
                ),
                (n2, LineModel { indent: 2, kind: LineKindModel::Text(title) }),
            ];
            let built = spec_build(ts);
            let resolved = spec_top_blocks(built.0);
            let gathered = spec_pages_of(resolved.0);
            &&& built.1.len() == 0
            &&& resolved.1.len() == 0
            &&& gathered.1.len() == 0
            &&& gathered.0 =~= seq![
                PageModel {
                    identifier: id,
                    title,
                    paragraphs: Seq::<Seq<char>>::empty(),
                    links: Seq::<(Seq<char>, Seq<char>)>::empty(),
                },
            ]
        }),
{
    let t0 = (
        n0,
        LineModel { indent: 0, kind: LineKindModel::Directive(DirectiveKind::Page, Some(id)) },
    );
    let t1 = (
        n1,
        LineModel { indent: 1, kind: LineKindModel::Directive(DirectiveKind::Title, None) },
    );
    let t2 = (n2, LineModel { indent: 2, kind: LineKindModel::Text(title) });
    let ts = seq![t0, t1, t2];
    assert(ts.len() == 3 && ts[0] == t0 && ts[1] == t1 && ts[2] == t2);

    // Running the builder opens the page, opens the title, and files the
    // prose under the title.
    let f0 = FrameModel {
        line: n0,
        kind: DirectiveKind::Page,
        argument: Some(id),
        children: Seq::empty(),
    };
    let f1 = FrameModel {
        line: n1,
        kind: DirectiveKind::Title,
        argument: None,
        children: Seq::empty(),
    };
    let ext = BlockModel { line: n2, kind: BlockKindModel::External(title) };
    let st0 = init_build_state();
    let st1 = spec_step(st0, t0);
    assert(close_to(st0, 0) == st0);
    assert(st1.root =~= Seq::<BlockModel>::empty());
    assert(st1.frames =~= seq![f0]);
    assert(st1.skip is None);
    assert(st1.errors =~= Seq::<(int, ErrorModel)>::empty());
    let st2 = spec_step(st1, t1);
    assert(close_to(st1, 1) == st1);
    assert(st2.root =~= Seq::<BlockModel>::empty());
    assert(st2.frames =~= seq![f0, f1]) by {
        assert(st2.frames == st1.frames.push(f1));
    }
    assert(st2.skip is None);
    assert(st2.errors =~= Seq::<(int, ErrorModel)>::empty());
    let st3 = spec_step(st2, t2);
    let f1c = FrameModel { children: seq![ext], ..f1 };
    assert(close_to(st2, 2) == st2);
    assert(st3.root =~= Seq::<BlockModel>::empty());
    assert(st3.frames =~= seq![f0, f1c]) by {
        assert(st2.frames.last() == f1);
        assert(st2.frames.drop_last() =~= seq![f0]);
        assert(f1.children.push(ext) =~= seq![ext]);
        assert(FrameModel { children: f1.children.push(ext), ..f1 } == f1c);
        assert(st3.frames =~= st2.frames.drop_last().push(f1c));
    }
    assert(st3.skip is None);
    assert(st3.errors =~= Seq::<(int, ErrorModel)>::empty());
    assert(spec_run(ts) == st3) by {
        assert(ts.drop_first() =~= seq![t1, t2]);
        assert(ts.drop_first().drop_first() =~= seq![t2]);
        assert(seq![t2].drop_first() =~= Seq::<(int, LineModel)>::empty());
        assert(ts.drop_first()[0] == t1);
        assert(seq![t2][0] == t2);
        assert(spec_run_from(st0, ts) == spec_run_from(st1, ts.drop_first()));
        assert(spec_run_from(st1, ts.drop_first()) == spec_run_from(st2, seq![t2]));
        assert(spec_run_from(st2, seq![t2]) == spec_run_from(
            st3,
            Seq::<(int, LineModel)>::empty(),
        ));
    }

    // Finishing closes the title into the page, and the page into the
    // forest.
    let b1 = BlockModel {
        line: n1,
        kind: BlockKindModel::Internal(
            InternalBlockModel {
                kind: DirectiveKind::Title,
                argument: None,
                children: seq![ext],
            },
        ),
    };
    let b0 = BlockModel {
        line: n0,
        kind: BlockKindModel::Internal(
            InternalBlockModel {
                kind: DirectiveKind::Page,
                argument: Some(id),
                children: seq![b1],
            },
        ),
    };
    let f0c = FrameModel { children: seq![b1], ..f0 };
    let st4 = close_frame(st3);
    assert(st4.root =~= Seq::<BlockModel>::empty());
    assert(st4.frames =~= seq![f0c]) by {
        assert(st3.frames.last() == f1c);
        assert(st3.frames.drop_last() =~= seq![f0]);
        assert(f0.children.push(b1) =~= seq![b1]);
        assert(seq![f0].drop_last() =~= Seq::<FrameModel>::empty());
    }
    assert(st4.errors =~= Seq::<(int, ErrorModel)>::empty());
    let st5 = close_frame(st4);
    assert(st5.root =~= seq![b0]) by {
        assert(st4.frames.last() == f0c);
        assert(st4.frames.drop_last() =~= Seq::<FrameModel>::empty());
    }
    assert(st5.frames =~= Seq::<FrameModel>::empty());
    assert(st5.errors =~= Seq::<(int, ErrorModel)>::empty());
    assert(spec_finish(st3) == st5) by {
        assert(close_to(st3, 0) == close_to(st4, 0));
        assert(close_to(st4, 0) == close_to(st5, 0));
        assert(close_to(st5, 0) == st5);
    }
    let built = spec_build(ts);
    assert(built.0 =~= seq![b0]);
    assert(built.1.len() == 0);

    // The resolver validates the one page: its one title child yields the
    // title, and nothing else is there to gather.
    assert(spec_title(n1, None, seq![ext]) == Ok::<(int, PageBlockModel), Seq<
        (int, ErrorModel),
    >>((n1, PageBlockModel::Title(title)))) by {
        assert(seq![ext][0] == ext);
        assert(seq![ext].len() == 1);
    }
    assert(spec_page_block(b1) == spec_title(n1, None, seq![ext]));
    let scan = spec_page_scan(id, seq![b1]);
    assert(scan.titles =~= seq![title] && scan.paragraphs =~= Seq::<Seq<char>>::empty()
        && scan.links =~= Seq::<(Seq<char>, Seq<char>)>::empty() && scan.errors =~= Seq::<
        (int, ErrorModel),
    >::empty()) by {
        assert(seq![b1].drop_last() =~= Seq::<BlockModel>::empty());
        assert(seq![b1].last() == b1);
        let scan0 = spec_page_scan(id, Seq::<BlockModel>::empty());
        assert(scan0.titles =~= Seq::<Seq<char>>::empty());
        assert(scan0.titles.push(title) =~= seq![title]);
    }
    let p = PageModel {
        identifier: id,
        title,
        paragraphs: Seq::<Seq<char>>::empty(),
        links: Seq::<(Seq<char>, Seq<char>)>::empty(),
    };
    assert(spec_page(n0, Some(id), seq![b1]) == Ok::<(int, PageBlockModel), Seq<
        (int, ErrorModel),
    >>((n0, PageBlockModel::Page(p)))) by {
        assert(scan.titles[0] == title);
        assert((Seq::<(int, ErrorModel)>::empty() + scan.errors
            + Seq::<(int, ErrorModel)>::empty()).len() == 0);
        assert(PageModel {
            identifier: id,
            title: scan.titles[0],
            paragraphs: scan.paragraphs,
            links: scan.links,
        } == p);
    }
    assert(spec_page_block(b0) == spec_page(n0, Some(id), seq![b1]));
    let resolved = spec_top_blocks(built.0);
    assert(resolved.0 =~= seq![(n0, PageBlockModel::Page(p))] && resolved.1.len() == 0) by {
        assert(seq![b0].drop_last() =~= Seq::<BlockModel>::empty());
        assert(seq![b0].last() == b0);
        let r0 = spec_top_blocks(Seq::<BlockModel>::empty());
        assert(r0.0 =~= Seq::<(int, PageBlockModel)>::empty());
        assert(r0.1 =~= Seq::<(int, ErrorModel)>::empty());
        assert(r0.0.push((n0, PageBlockModel::Page(p))) =~= seq![(n0, PageBlockModel::Page(p))]);
    }
    let gathered = spec_pages_of(resolved.0);
    assert(gathered.0 =~= seq![p] && gathered.1.len() == 0) by {
        let pbs = seq![(n0, PageBlockModel::Page(p))];
        assert(pbs.drop_last() =~= Seq::<(int, PageBlockModel)>::empty());
        assert(pbs.last() == (n0, PageBlockModel::Page(p)));
        let g0 = spec_pages_of(Seq::<(int, PageBlockModel)>::empty());
        assert(g0.0 =~= Seq::<PageModel>::empty());
        assert(g0.1 =~= Seq::<(int, ErrorModel)>::empty());
        assert(g0.0.push(p) =~= seq![p]);
    }
}

/// Three successfully classified lines carry no lexical error and exactly
/// their three tokens, numbered in order.
proof fn lemma_three_ok_items(l0: LineModel, l1: LineModel, l2: LineModel)
    ensures
        items_errors(
            seq![
                (0int, Ok::<LineModel, ErrorModel>(l0)),
                (1int, Ok::<LineModel, ErrorModel>(l1)),
                (2int, Ok::<LineModel, ErrorModel>(l2)),
            ],
        ) == Seq::<(int, ErrorModel)>::empty(),
        items_lines(
            seq![
                (0int, Ok::<LineModel, ErrorModel>(l0)),
                (1int, Ok::<LineModel, ErrorModel>(l1)),
                (2int, Ok::<LineModel, ErrorModel>(l2)),
            ],
        ) == seq![(0int, l0), (1int, l1), (2int, l2)],
{
    let items0 = Seq::<(int, Result<LineModel, ErrorModel>)>::empty();
    let items1 = seq![(0int, Ok::<LineModel, ErrorModel>(l0))];
    let items2 = seq![
        (0int, Ok::<LineModel, ErrorModel>(l0)),
        (1int, Ok::<LineModel, ErrorModel>(l1)),
    ];
    let items3 = seq![
        (0int, Ok::<LineModel, ErrorModel>(l0)),
        (1int, Ok::<LineModel, ErrorModel>(l1)),
        (2int, Ok::<LineModel, ErrorModel>(l2)),
    ];
    assert(items1.drop_last() =~= items0);
    assert(items2.drop_last() =~= items1);
    assert(items3.drop_last() =~= items2);
    assert(items1.last() == (0int, Ok::<LineModel, ErrorModel>(l0)));
    assert(items2.last() == (1int, Ok::<LineModel, ErrorModel>(l1)));
    assert(items3.last() == (2int, Ok::<LineModel, ErrorModel>(l2)));
    assert(items_errors(items0) =~= Seq::<(int, ErrorModel)>::empty());
    assert(items_lines(items0) =~= Seq::<(int, LineModel)>::empty());
    assert(items_errors(items1) =~= Seq::<(int, ErrorModel)>::empty());
    assert(items_lines(items1) =~= seq![(0int, l0)]);
    assert(items_errors(items2) =~= Seq::<(int, ErrorModel)>::empty());
    assert(items_lines(items2) =~= seq![(0int, l0), (1int, l1)]);
    assert(items_errors(items3) =~= Seq::<(int, ErrorModel)>::empty());
    assert(items_lines(items3) =~= seq![(0int, l0), (1int, l1), (2int, l2)]);
}

/// A source text of one page with one title and nothing else parses to a
/// script of exactly one page carrying that identifier and title, with no
/// paragraphs and no links — for every identifier that is a plain word and
/// every title line that reads as prose.
#[verifier::rlimit(50)]
pub proof fn theorem_single_page_source_round_trip(id: Seq<char>, t: Seq<char>)
    requires
        id.len() > 0,
        forall|i: int| 0 <= i < id.len() ==> !spec_is_whitespace(#[trigger] id[i]),
        forall|i: int| 0 <= i < id.len() ==> id[i] != '#',
        t.len() > 0,
        !spec_is_whitespace(t[0]),
        t[0] != '#',
        spec_directive_of(t.take(first_ws_index(t))) is None,
        forall|i: int| 0 <= i < t.len() ==> t[i] != '\n',
        t.last() != '\r',
    ensures
        ({
            let source = "page "@ + id + "\n"@ + "    title"@ + "\n"@ + "        "@ + t + "\n"@;
            spec_parse(source) == Ok::<ScriptModel, Seq<(int, ErrorModel)>>(
                ScriptModel {
                    pages: seq![
                        PageModel {
                            identifier: id,
                            title: t,
                            paragraphs: Seq::<Seq<char>>::empty(),
                            links: Seq::<(Seq<char>, Seq<char>)>::empty(),
                        },
                    ],
                },
            )
        }),
{
    reveal_strlit("page ");
    reveal_strlit("    title");
    reveal_strlit("        ");
    reveal_strlit("\n");
    let source = "page "@ + id + "\n"@ + "    title"@ + "\n"@ + "        "@ + t + "\n"@;
    let a = "page "@ + id;
    let b = "    title"@;
    let c = "        "@ + t;

    // The text splits into its three physical lines.
    let s3 = c + seq!['\n'] + Seq::<char>::empty();
    let s2 = b + seq!['\n'] + s3;
    let s1 = a + seq!['\n'] + s2;
    assert(source =~= s1);
    assert(forall|i: int| 0 <= i < a.len() ==> a[i] != '\n') by {
        assert(forall|i: int| 0 <= i < 5 ==> a[i] == "page "@[i]);
        assert(forall|j: int| 0 <= j < id.len() ==> a[5 + j] == id[j] && !spec_is_whitespace(
            id[j],
        ));
    }
    assert(a.last() == id.last() && !spec_is_whitespace(id.last()));
    lemma_split_lines_step(a, s2);
    assert(forall|i: int| 0 <= i < b.len() ==> b[i] != '\n');
    lemma_split_lines_step(b, s3);
    assert(forall|i: int| 0 <= i < c.len() ==> c[i] != '\n') by {
        assert(forall|i: int| 0 <= i < 8 ==> c[i] == "        "@[i]);
        assert(forall|j: int| 0 <= j < t.len() ==> c[8 + j] == t[j] && t[j] != '\n');
    }
    assert(c.last() == t.last());
    lemma_split_lines_step(c, Seq::<char>::empty());
    assert(spec_split_lines(Seq::<char>::empty()) =~= Seq::<Seq<char>>::empty());
    let ls = seq![a, b, c];
    assert(spec_split_lines(source) =~= ls);

    // Each line tokenizes as the round trip needs.
    lemma_tokenize_page_line(id);
    lemma_tokenize_title_line();
    lemma_tokenize_prose_line(t);
    let l0 = LineModel { indent: 0, kind: LineKindModel::Directive(DirectiveKind::Page, Some(id)) };
    let l1 = LineModel { indent: 1, kind: LineKindModel::Directive(DirectiveKind::Title, None) };
    let l2 = LineModel { indent: 2, kind: LineKindModel::Text(t) };
    let items = seq![
        (0int, Ok::<LineModel, ErrorModel>(l0)),
        (1int, Ok::<LineModel, ErrorModel>(l1)),
        (2int, Ok::<LineModel, ErrorModel>(l2)),
    ];
    assert(spec_line_items(ls) =~= items) by {
        assert(ls.drop_last() =~= seq![a, b]);
        assert(seq![a, b].drop_last() =~= seq![a]);
        assert(seq![a].drop_last() =~= Seq::<Seq<char>>::empty());
        assert(spec_line_items(Seq::<Seq<char>>::empty())
            =~= Seq::<(int, Result<LineModel, ErrorModel>)>::empty());
        assert(seq![a].last() == a);
        assert(seq![a, b].last() == b);
        assert(ls.last() == c);
        assert(spec_line_items(seq![a]) =~= seq![(0int, Ok::<LineModel, ErrorModel>(l0))]);
        assert(spec_line_items(seq![a, b]) =~= seq![
            (0int, Ok::<LineModel, ErrorModel>(l0)),
            (1int, Ok::<LineModel, ErrorModel>(l1)),
        ]);
    }

    // No lexical errors; the classified lines are exactly the three tokens.
    let ts = seq![(0int, l0), (1int, l1), (2int, l2)];
    lemma_three_ok_items(l0, l1, l2);

    // The rest of the pipeline is the token-level round trip.
    theorem_single_page_round_trip(0, 1, 2, id, t);
    let built = spec_build(ts);
    let resolved = spec_top_blocks(built.0);
    let gathered = spec_pages_of(resolved.0);
    assert(spec_parse(source) == Ok::<ScriptModel, Seq<(int, ErrorModel)>>(
        ScriptModel { pages: gathered.0 },
    ));
}

} // verus!
