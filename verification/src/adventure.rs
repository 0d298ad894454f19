//! Script assembler: resolves the textual link targets of a parsed script
//! to 1-based page indices, reporting every dangling reference.

use vstd::prelude::*;

use crate::line::str_eq;
use crate::script::PageModel;
use crate::script::Script;
use crate::script::ScriptModel;
use crate::script::pages_model;

verus! {

/// A link with its shown text to an indexed page.
#[derive(Debug, PartialEq)]
pub struct PageLink {
    /// The 1-based display index of the destination page.
    pub index: usize,
    pub text: String,
}

/// A fully resolved page, ready for rendering.
#[derive(Debug, PartialEq)]
pub struct Page {
    pub title: String,
    /// The page's own 1-based display index.
    pub index: usize,
    pub paragraphs: Vec<String>,
    pub links: Vec<PageLink>,
}

/// A fully resolved adventure: every page indexed, every link numeric.
#[derive(Debug, PartialEq)]
pub struct Adventure {
    pub pages: Vec<Page>,
}

/// An error found while resolving links.
#[derive(Debug, PartialEq)]
pub enum Error {
    /// A page links to an identifier that no page carries.
    BadReference { from: String, to: String },
}

/// The model of a `PageLink`.
pub struct PageLinkModel {
    pub index: int,
    pub text: Seq<char>,
}

/// The model of a resolved `Page`.
pub struct ResolvedPageModel {
    pub title: Seq<char>,
    pub index: int,
    pub paragraphs: Seq<Seq<char>>,
    pub links: Seq<PageLinkModel>,
}

/// The model of an `Adventure`.
pub struct AdventureModel {
    pub pages: Seq<ResolvedPageModel>,
}

/// The model of a resolution `Error`.
pub enum ErrorModel {
    BadReference { from: Seq<char>, to: Seq<char> },
}

impl View for Error {
    type V = ErrorModel;

    open spec fn view(&self) -> ErrorModel {
        match self {
            Error::BadReference { from, to } => ErrorModel::BadReference { from: from@, to: to@ },
        }
    }
}

/// The model of a resolution error list.
pub open spec fn resolution_errors_model(v: Seq<Error>) -> Seq<ErrorModel> {
    v.map_values(|e: Error| e@)
}

impl View for PageLink {
    type V = PageLinkModel;

    open spec fn view(&self) -> PageLinkModel {
        PageLinkModel { index: self.index as int, text: self.text@ }
    }
}

/// The model of a link list.
pub open spec fn page_links_model(v: Seq<PageLink>) -> Seq<PageLinkModel> {
    v.map_values(|l: PageLink| l@)
}

impl View for Page {
    type V = ResolvedPageModel;

    open spec fn view(&self) -> ResolvedPageModel {
        ResolvedPageModel {
            title: self.title@,
            index: self.index as int,
            paragraphs: crate::line::strings_model(self.paragraphs@),
            links: page_links_model(self.links@),
        }
    }
}

impl View for Adventure {
    type V = AdventureModel;

    open spec fn view(&self) -> AdventureModel {
        AdventureModel { pages: self.pages@.map_values(|p: Page| p@) }
    }
}

/// The 1-based index of the first page whose identifier is `id`, if any.
pub open spec fn spec_find_page_index(pages: Seq<PageModel>, id: Seq<char>) -> Option<int>
    decreases pages.len(),
{
    if pages.len() == 0 {
        None
    } else if pages[0].identifier == id {
        Some(1)
    } else {
        match spec_find_page_index(pages.drop_first(), id) {
            Some(i) => Some(i + 1),
            None => None,
        }
    }
}

pub proof fn lemma_find_page_index_none(pages: Seq<PageModel>, id: Seq<char>)
    requires
        forall|j: int| 0 <= j < pages.len() ==> pages[j].identifier != id,
    ensures
        spec_find_page_index(pages, id) is None,
    decreases pages.len(),
{
    if pages.len() > 0 {
        assert(forall|j: int|
            0 <= j < pages.drop_first().len() ==> pages.drop_first()[j] == pages[j + 1]);
        lemma_find_page_index_none(pages.drop_first(), id);
    }
}

pub proof fn lemma_find_page_index_some(pages: Seq<PageModel>, id: Seq<char>, i: int)
    requires
        0 <= i < pages.len(),
        pages[i].identifier == id,
        forall|j: int| 0 <= j < i ==> pages[j].identifier != id,
    ensures
        spec_find_page_index(pages, id) == Some(i + 1),
    decreases pages.len(),
{
    if i == 0 {
    } else {
        assert(pages[0].identifier != id);
        assert(forall|j: int|
            0 <= j < pages.drop_first().len() ==> pages.drop_first()[j] == pages[j + 1]);
        assert(pages.drop_first()[i - 1].identifier == id);
        lemma_find_page_index_some(pages.drop_first(), id, i - 1);
    }
}

/// Resolving the links of one page: each destination that names a page
/// becomes its 1-based index, and each that names none is a dangling
/// reference from this page; all of them are reported.
pub open spec fn spec_links_scan(
    pages: Seq<PageModel>,
    from: Seq<char>,
    links: Seq<(Seq<char>, Seq<char>)>,
) -> (Seq<PageLinkModel>, Seq<ErrorModel>)
    decreases links.len(),
{
    if links.len() == 0 {
        (Seq::empty(), Seq::empty())
    } else {
        let (ls, es) = spec_links_scan(pages, from, links.drop_last());
        let (dest, text) = links.last();
        match spec_find_page_index(pages, dest) {
            Some(i) => (ls.push(PageLinkModel { index: i, text }), es),
            None => (ls, es.push(ErrorModel::BadReference { from, to: dest })),
        }
    }
}

/// Resolving a whole script, page by page in document order: a page whose
/// links all resolve becomes a resolved page under its 1-based index; the
/// dangling references of every page are gathered together.
pub open spec fn spec_adventure_scan(all: Seq<PageModel>, k: int) -> (Seq<ResolvedPageModel>, Seq<
    ErrorModel,
>)
    decreases k,
{
    if k <= 0 {
        (Seq::empty(), Seq::empty())
    } else {
        let (ps, es) = spec_adventure_scan(all, k - 1);
        let page = all[k - 1];
        let (ls, les) = spec_links_scan(all, page.identifier, page.links);
        if les.len() == 0 {
            (
                ps.push(
                    ResolvedPageModel {
                        title: page.title,
                        index: k,
                        paragraphs: page.paragraphs,
                        links: ls,
                    },
                ),
                es,
            )
        } else {
            (ps, es + les)
        }
    }
}

/// What assembling a script yields: the fully resolved adventure, or the
/// complete list of dangling references found anywhere in it.
pub open spec fn spec_adventure(s: ScriptModel) -> Result<AdventureModel, Seq<ErrorModel>> {
    let (ps, es) = spec_adventure_scan(s.pages, s.pages.len() as int);
    if es.len() == 0 {
        Ok(AdventureModel { pages: ps })
    } else {
        Err(es)
    }
}

impl Error {
    /// Build a dangling-reference error naming both ends.
    pub fn bad_reference(from: &str, to: &str) -> (r: Error)
        ensures
            r@ == (ErrorModel::BadReference { from: from@, to: to@ }),
    {
        Error::BadReference { from: from.to_owned(), to: to.to_owned() }
    }
}

/// Copy a list of strings.
fn clone_strings(v: &Vec<String>) -> (r: Vec<String>)
    ensures
        r@ =~= v@,
{
    let mut r: Vec<String> = Vec::new();
    let mut i: usize = 0;
    while i < v.len()
        invariant
            0 <= i <= v.len(),
            r@ =~= v@.take(i as int),
        decreases v.len() - i,
    {
        r.push(v[i].clone());
        proof {
            assert(r@ =~= v@.take(i + 1));
        }
        i += 1;
    }
    proof {
        assert(v@.take(v@.len() as int) =~= v@);
    }
    r
}

impl Adventure {
    /// Resolve every link of a parsed script. Returns the adventure when
    /// every destination names a page, and otherwise every dangling
    /// reference in the whole script.
    pub fn new(script: &Script) -> (r: Result<Adventure, Vec<Error>>)
        ensures
            (match r {
                Ok(adventure) => Ok::<AdventureModel, Seq<ErrorModel>>(adventure@),
                Err(errors) => Err(resolution_errors_model(errors@)),
            }) == spec_adventure(script@),
            r is Err ==> (match r {
                Err(errors) => errors@.len() > 0,
                Ok(_) => false,
            }),
    {
        let ghost all = pages_model(script.pages@);
        let mut pages: Vec<Page> = Vec::new();
        let mut errors: Vec<Error> = Vec::new();
        let mut k: usize = 0;
        proof {
            assert(pages@.map_values(|p: Page| p@) =~= spec_adventure_scan(all, 0).0);
            assert(resolution_errors_model(errors@) =~= spec_adventure_scan(all, 0).1);
        }
        while k < script.pages.len()
            invariant
                0 <= k <= script.pages.len(),
                all == pages_model(script.pages@),
                all.len() == script.pages@.len(),
                pages@.map_values(|p: Page| p@) == spec_adventure_scan(all, k as int).0,
                resolution_errors_model(errors@) == spec_adventure_scan(all, k as int).1,
            decreases script.pages.len() - k,
        {
            proof {
                assert(all[k as int] == script.pages@[k as int]@);
            }
            let page = &script.pages[k];
            match Self::make_links(script, page) {
                Ok(links) => {
                    let ghost prev = pages@;
                    let new_page = Page {
                        title: page.title.clone(),
                        index: k + 1,
                        paragraphs: clone_strings(&page.paragraphs),
                        links,
                    };
                    pages.push(new_page);
                    proof {
                        assert(pages@.map_values(|p: Page| p@) =~= prev.map_values(
                            |p: Page| p@,
                        ).push(new_page@));
                    }
                },
                Err(mut es) => {
                    let ghost prev = errors@;
                    let ghost esm = resolution_errors_model(es@);
                    errors.append(&mut es);
                    proof {
                        assert(resolution_errors_model(errors@) =~= resolution_errors_model(prev)
                            + esm);
                    }
                },
            }
            k += 1;
        }
        if errors.len() == 0 {
            proof {
                assert(resolution_errors_model(errors@) =~= Seq::<ErrorModel>::empty());
            }
            Ok(Adventure { pages })
        } else {
            proof {
                assert(resolution_errors_model(errors@).len() == errors@.len());
            }
            Err(errors)
        }
    }

    /// Resolve the links of one page against the whole script.
    fn make_links(script: &Script, info: &crate::script::Page) -> (r: Result<
        Vec<PageLink>,
        Vec<Error>,
    >)
        ensures
            ({
                let out = spec_links_scan(
                    pages_model(script.pages@),
                    info.identifier@,
                    crate::script::links_model(info.links@),
                );
                match r {
                    Ok(links) => out.1.len() == 0 && page_links_model(links@) == out.0,
                    Err(errors) => out.1.len() > 0 && resolution_errors_model(errors@) == out.1,
                }
            }),
    {
        let ghost all = pages_model(script.pages@);
        let ghost from = info.identifier@;
        let ghost lks = crate::script::links_model(info.links@);
        let mut links: Vec<PageLink> = Vec::new();
        let mut errors: Vec<Error> = Vec::new();
        let mut i: usize = 0;
        proof {
            assert(lks.take(0) =~= Seq::<(Seq<char>, Seq<char>)>::empty());
            assert(page_links_model(links@) =~= spec_links_scan(all, from, lks.take(0)).0);
            assert(resolution_errors_model(errors@) =~= spec_links_scan(all, from, lks.take(0)).1);
        }
        while i < info.links.len()
            invariant
                0 <= i <= info.links.len(),
                all == pages_model(script.pages@),
                from == info.identifier@,
                lks == crate::script::links_model(info.links@),
                lks.len() == info.links@.len(),
                page_links_model(links@) == spec_links_scan(all, from, lks.take(i as int)).0,
                resolution_errors_model(errors@) == spec_links_scan(all, from, lks.take(i as int)).1,
            decreases info.links.len() - i,
        {
            proof {
                assert(lks.take(i + 1).drop_last() =~= lks.take(i as int));
                assert(lks.take(i + 1).last() == lks[i as int]);
                assert(lks[i as int] == (info.links@[i as int].0@, info.links@[i as int].1@));
            }
            let destination = &info.links[i].0;
            let text = &info.links[i].1;
            match Self::find_page_index(script, destination.as_str()) {
                Some(index) => {
                    let ghost prev = links@;
                    let new_link = PageLink { index, text: text.clone() };
                    links.push(new_link);
                    proof {
                        assert(page_links_model(links@) =~= page_links_model(prev).push(
                            new_link@,
                        ));
                    }
                },
                None => {
                    let ghost prev = errors@;
                    let e = Error::bad_reference(info.identifier.as_str(), destination.as_str());
                    errors.push(e);
                    proof {
                        assert(resolution_errors_model(errors@) =~= resolution_errors_model(
                            prev,
                        ).push(ErrorModel::BadReference { from, to: lks[i as int].0 }));
                    }
                },
            }
            i += 1;
        }
        proof {
            assert(lks.take(info.links@.len() as int) =~= lks);
        }
        if errors.len() == 0 {
            proof {
                assert(resolution_errors_model(errors@) =~= Seq::<ErrorModel>::empty());
            }
            Ok(links)
        } else {
            proof {
                assert(resolution_errors_model(errors@).len() == errors@.len());
            }
            Err(errors)
        }
    }

    /// The 1-based index of the first page with the given identifier.
    fn find_page_index(script: &Script, expected: &str) -> (r: Option<usize>)
        ensures
            (match r {
                Some(i) => Some(i as int),
                None => None,
            }) == spec_find_page_index(pages_model(script.pages@), expected@),
    {
        let ghost all = pages_model(script.pages@);
        let mut index: usize = 0;
        while index < script.pages.len()
            invariant
                0 <= index <= script.pages.len(),
                all == pages_model(script.pages@),
                all.len() == script.pages@.len(),
                forall|j: int| 0 <= j < index ==> all[j].identifier != expected@,
            decreases script.pages.len() - index,
        {
            proof {
                assert(all[index as int] == script.pages@[index as int]@);
            }
            if str_eq(script.pages[index].identifier.as_str(), expected) {
                proof {
                    lemma_find_page_index_some(all, expected@, index as int);
                }
                // Indices are offset by one: they are meant to be read by
                // humans.
                return Some(index + 1);
            }
            index += 1;
        }
        proof {
            lemma_find_page_index_none(all, expected@);
        }
        None
    }
}

/// A page that links to an identifier no page carries always makes the
/// whole resolution fail, and the failure names both the linking page and
/// the missing destination — whatever else the script holds.
pub proof fn theorem_dangling_reference_reported(s: ScriptModel, pi: int, li: int)
    requires
        0 <= pi < s.pages.len(),
        0 <= li < s.pages[pi].links.len(),
        forall|j: int| 0 <= j < s.pages.len() ==> s.pages[j].identifier != s.pages[pi].links[li].0,
    ensures
        spec_adventure(s) is Err,
        (match spec_adventure(s) {
            Err(es) => es.contains(
                ErrorModel::BadReference {
                    from: s.pages[pi].identifier,
                    to: s.pages[pi].links[li].0,
                },
            ),
            Ok(_) => false,
        }),
{
    lemma_find_page_index_none(s.pages, s.pages[pi].links[li].0);
    lemma_links_scan_contains(s.pages, s.pages[pi].identifier, s.pages[pi].links, li);
    lemma_adventure_scan_contains(
        s.pages,
        s.pages.len() as int,
        pi,
        ErrorModel::BadReference { from: s.pages[pi].identifier, to: s.pages[pi].links[li].0 },
    );
}

/// A link whose destination names no page contributes its dangling
/// reference to the page's own error list.
proof fn lemma_links_scan_contains(
    pages: Seq<PageModel>,
    from: Seq<char>,
    links: Seq<(Seq<char>, Seq<char>)>,
    li: int,
)
    requires
        0 <= li < links.len(),
        spec_find_page_index(pages, links[li].0) is None,
    ensures
        spec_links_scan(pages, from, links).1.contains(
            ErrorModel::BadReference { from, to: links[li].0 },
        ),
    decreases links.len(),
{
    let (ls, es) = spec_links_scan(pages, from, links.drop_last());
    if li == links.len() - 1 {
        let target = ErrorModel::BadReference { from, to: links[li].0 };
        assert(spec_links_scan(pages, from, links).1 == es.push(target));
        assert(es.push(target)[es.len() as int] == target);
    } else {
        assert(links.drop_last()[li] == links[li]);
        lemma_links_scan_contains(pages, from, links.drop_last(), li);
        let target = ErrorModel::BadReference { from, to: links[li].0 };
        let j = choose|j: int| 0 <= j < es.len() && es[j] == target;
        match spec_find_page_index(pages, links.last().0) {
            Some(_) => {
                assert(spec_links_scan(pages, from, links).1 == es);
            },
            None => {
                assert(spec_links_scan(pages, from, links).1[j] == target);
            },
        }
    }
}

/// An error in any one page's resolution stays in the script's gathered
/// error list.
proof fn lemma_adventure_scan_contains(all: Seq<PageModel>, k: int, pi: int, target: ErrorModel)
    requires
        0 <= pi < k,
        spec_links_scan(all, all[pi].identifier, all[pi].links).1.contains(target),
    ensures
        spec_adventure_scan(all, k).1.contains(target),
    decreases k,
{
    let (ps, es) = spec_adventure_scan(all, k - 1);
    let page = all[k - 1];
    let (ls, les) = spec_links_scan(all, page.identifier, page.links);
    if pi == k - 1 {
        let j = choose|j: int| 0 <= j < les.len() && les[j] == target;
        assert(les.len() > 0);
        assert((es + les)[es.len() + j] == target);
        assert(spec_adventure_scan(all, k).1 == es + les);
    } else {
        lemma_adventure_scan_contains(all, k - 1, pi, target);
        let j = choose|j: int| 0 <= j < es.len() && es[j] == target;
        if les.len() == 0 {
            assert(spec_adventure_scan(all, k).1 == es);
        } else {
            assert((es + les)[j] == target);
        }
    }
}

} // verus!
