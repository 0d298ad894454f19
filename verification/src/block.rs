//! Block builder: turns the tokenized lines into a forest of nested blocks,
//! honouring indentation, and recovering from malformed regions.
//!
//! The builder is specified as a transition system that consumes one
//! classified line per step. Its state holds the finished top-level blocks,
//! a stack of directives whose children are still being collected (one per
//! open nesting level), the structural errors found so far, and, after a
//! faulty region was entered, the indentation bound below which input
//! becomes trustworthy again.

use vstd::prelude::*;

use crate::error::Error;
use crate::error::ErrorModel;
use crate::error::errors_model;
use crate::line::DirectiveKind;
use crate::line::Line;
use crate::line::LineKind;
use crate::line::LineKindModel;
use crate::line::LineModel;

verus! {

broadcast use vstd::seq::axiom_seq_index_decreases;

/// A directive block together with its nested children.
#[derive(Debug, PartialEq)]
pub struct InternalBlock {
    pub kind: DirectiveKind,
    pub argument: Option<String>,
    pub children: Vec<Block>,
}

/// What a block is: a directive with children, or plain prose.
#[derive(Debug, PartialEq)]
pub enum BlockKind {
    Internal(InternalBlock),
    External(String),
}

/// A node of the indentation-derived tree, with the number of the line it
/// began on.
#[derive(Debug, PartialEq)]
pub struct Block {
    pub line: usize,
    pub kind: BlockKind,
}

/// The model of an `InternalBlock`.
pub struct InternalBlockModel {
    pub kind: DirectiveKind,
    pub argument: Option<Seq<char>>,
    pub children: Seq<BlockModel>,
}

/// The model of a `BlockKind`.
pub enum BlockKindModel {
    Internal(InternalBlockModel),
    External(Seq<char>),
}

/// The model of a `Block`.
pub struct BlockModel {
    pub line: int,
    pub kind: BlockKindModel,
}

/// The model of an optional argument string.
pub open spec fn opt_string_model(o: Option<String>) -> Option<Seq<char>> {
    match o {
        Some(s) => Some(s@),
        None => None,
    }
}

/// The model of a block.
pub open spec fn block_model(b: Block) -> BlockModel
    decreases b, 0int,
{
    BlockModel {
        line: b.line as int,
        kind: match b.kind {
            BlockKind::External(t) => BlockKindModel::External(t@),
            BlockKind::Internal(ib) => BlockKindModel::Internal(
                InternalBlockModel {
                    kind: ib.kind,
                    argument: opt_string_model(ib.argument),
                    children: blocks_model(ib.children@),
                },
            ),
        },
    }
}

/// The model of a sequence of blocks.
pub open spec fn blocks_model(s: Seq<Block>) -> Seq<BlockModel>
    decreases s, 1int,
{
    if s.len() == 0 {
        Seq::empty()
    } else {
        blocks_model(s.drop_last()).push(block_model(s.last()))
    }
}

pub proof fn lemma_blocks_model(s: Seq<Block>)
    ensures
        blocks_model(s).len() == s.len(),
        forall|i: int| 0 <= i < s.len() ==> blocks_model(s)[i] == block_model(s[i]),
    decreases s.len(),
{
    if s.len() > 0 {
        lemma_blocks_model(s.drop_last());
    }
}

/// A directive whose children are still being collected.
pub struct FrameModel {
    pub line: int,
    pub kind: DirectiveKind,
    pub argument: Option<Seq<char>>,
    pub children: Seq<BlockModel>,
}

/// The state of the block builder.
pub struct BuildState {
    /// The finished top-level blocks.
    pub root: Seq<BlockModel>,
    /// The open directives, one per nesting level: a line at indent `d`
    /// belongs to the level opened by `frames[d - 1]`.
    pub frames: Seq<FrameModel>,
    /// After a structural fault at expected indent `e`: lines indented at
    /// least `e` belong to the malformed region and are passed over.
    pub skip: Option<int>,
    /// The structural errors found so far, in order.
    pub errors: Seq<(int, ErrorModel)>,
}

/// The state in which building begins.
pub open spec fn init_build_state() -> BuildState {
    BuildState { root: Seq::empty(), frames: Seq::empty(), skip: None, errors: Seq::empty() }
}

/// Hand a finished block to its owner: the innermost open directive, or the
/// top level when none is open.
pub open spec fn state_append(st: BuildState, b: BlockModel) -> BuildState {
    if st.frames.len() == 0 {
        BuildState { root: st.root.push(b), ..st }
    } else {
        let f = st.frames.last();
        BuildState {
            frames: st.frames.drop_last().push(FrameModel { children: f.children.push(b), ..f }),
            ..st
        }
    }
}

/// Close the innermost open directive: its collected children become its
/// block, which is handed to the level above.
pub open spec fn close_frame(st: BuildState) -> BuildState {
    if st.frames.len() == 0 {
        st
    } else {
        let f = st.frames.last();
        let b = BlockModel {
            line: f.line,
            kind: BlockKindModel::Internal(
                InternalBlockModel { kind: f.kind, argument: f.argument, children: f.children },
            ),
        };
        state_append(BuildState { frames: st.frames.drop_last(), ..st }, b)
    }
}

/// Close open directives until at most `d` levels remain.
pub open spec fn close_to(st: BuildState, d: int) -> BuildState
    decreases st.frames.len(),
{
    if st.frames.len() == 0 || st.frames.len() <= d {
        st
    } else {
        close_to(close_frame(st), d)
    }
}

/// Leave a malformed region behind: the level the fault was found at
/// contributes nothing, so the innermost open directive closes with no
/// children at all — or, at the top level, the forest so far is discarded.
pub open spec fn exit_skip(st: BuildState) -> BuildState {
    if st.frames.len() == 0 {
        BuildState { root: Seq::empty(), skip: None, ..st }
    } else {
        let f = st.frames.last();
        let b = BlockModel {
            line: f.line,
            kind: BlockKindModel::Internal(
                InternalBlockModel { kind: f.kind, argument: f.argument, children: Seq::empty() },
            ),
        };
        state_append(BuildState { frames: st.frames.drop_last(), skip: None, ..st }, b)
    }
}

/// Process one classified line outside a malformed region. Levels deeper
/// than the line's indent close first; a line indented deeper than the
/// innermost remaining level is a structural fault that opens a malformed
/// region; otherwise prose joins the current level and a directive opens a
/// new one.
pub open spec fn step_line(st: BuildState, num: int, l: LineModel) -> BuildState {
    let st1 = close_to(st, l.indent);
    let m = st1.frames.len() as int;
    if l.indent > m {
        BuildState {
            errors: st1.errors.push(
                (num, ErrorModel::UnexpectedIndentation { expected: m, found: l.indent }),
            ),
            skip: Some(m),
            ..st1
        }
    } else {
        match l.kind {
            LineKindModel::Text(t) => state_append(
                st1,
                BlockModel { line: num, kind: BlockKindModel::External(t) },
            ),
            LineKindModel::Directive(k, a) => BuildState {
                frames: st1.frames.push(
                    FrameModel { line: num, kind: k, argument: a, children: Seq::empty() },
                ),
                ..st1
            },
        }
    }
}

/// Process one classified line: inside a malformed region a line indented
/// at least as deeply as the fault's level is passed over; a shallower line
/// ends the region and is processed normally.
pub open spec fn spec_step(st: BuildState, t: (int, LineModel)) -> BuildState {
    match st.skip {
        Some(e) => if t.1.indent >= e {
            st
        } else {
            step_line(exit_skip(st), t.0, t.1)
        },
        None => step_line(st, t.0, t.1),
    }
}

/// Run the builder over a sequence of classified lines from a given state.
pub open spec fn spec_run_from(st: BuildState, ts: Seq<(int, LineModel)>) -> BuildState
    decreases ts.len(),
{
    if ts.len() == 0 {
        st
    } else {
        spec_run_from(spec_step(st, ts[0]), ts.drop_first())
    }
}

/// Run the builder over a sequence of classified lines from the start.
pub open spec fn spec_run(ts: Seq<(int, LineModel)>) -> BuildState {
    spec_run_from(init_build_state(), ts)
}

/// End of input: a pending malformed region resolves, and every open
/// directive closes.
pub open spec fn spec_finish(st: BuildState) -> BuildState {
    let st1 = if st.skip is Some {
        exit_skip(st)
    } else {
        st
    };
    close_to(st1, 0)
}

/// What building makes of a token sequence: the block forest and the
/// structural errors.
pub open spec fn spec_build(ts: Seq<(int, LineModel)>) -> (Seq<BlockModel>, Seq<
    (int, ErrorModel),
>) {
    let f = spec_finish(spec_run(ts));
    (f.root, f.errors)
}

/// The model of a numbered line list.
pub open spec fn line_pairs_model(v: Seq<(usize, Line)>) -> Seq<(int, LineModel)> {
    v.map_values(|p: (usize, Line)| (p.0 as int, p.1@))
}

pub proof fn lemma_run_from_snoc(st: BuildState, ts: Seq<(int, LineModel)>, t: (int, LineModel))
    ensures
        spec_run_from(st, ts.push(t)) == spec_step(spec_run_from(st, ts), t),
    decreases ts.len(),
{
    if ts.len() == 0 {
        assert(ts.push(t).drop_first() =~= Seq::<(int, LineModel)>::empty());
        assert(ts.push(t)[0] == t);
        assert(spec_run_from(st, ts.push(t)) == spec_run_from(
            spec_step(st, t),
            ts.push(t).drop_first(),
        ));
    } else {
        assert(ts.push(t)[0] == ts[0]);
        assert(ts.push(t).drop_first() =~= ts.drop_first().push(t));
        lemma_run_from_snoc(spec_step(st, ts[0]), ts.drop_first(), t);
        assert(spec_run_from(st, ts.push(t)) == spec_run_from(
            spec_step(st, ts[0]),
            ts.push(t).drop_first(),
        ));
        assert(spec_run_from(st, ts) == spec_run_from(spec_step(st, ts[0]), ts.drop_first()));
    }
}

/// An open directive of the running builder.
struct Frame {
    line: usize,
    kind: DirectiveKind,
    argument: Option<String>,
    children: Vec<Block>,
}

spec fn frame_model(f: Frame) -> FrameModel {
    FrameModel {
        line: f.line as int,
        kind: f.kind,
        argument: opt_string_model(f.argument),
        children: blocks_model(f.children@),
    }
}

spec fn frames_model(s: Seq<Frame>) -> Seq<FrameModel> {
    s.map_values(|f: Frame| frame_model(f))
}

spec fn machine_model(
    root: Seq<Block>,
    frames: Seq<Frame>,
    skip_to: Option<usize>,
    errors: Seq<(usize, Error)>,
) -> BuildState {
    BuildState {
        root: blocks_model(root),
        frames: frames_model(frames),
        skip: match skip_to {
            Some(e) => Some(e as int),
            None => None,
        },
        errors: errors_model(errors),
    }
}

/// Hand a finished block to the innermost open directive, or to the top
/// level when none is open.
fn append_block(root: &mut Vec<Block>, frames: &mut Vec<Frame>, b: Block)
    ensures
        blocks_model(final(root)@) == state_append(
            machine_model(old(root)@, old(frames)@, None, Seq::empty()),
            block_model(b),
        ).root,
        frames_model(final(frames)@) == state_append(
            machine_model(old(root)@, old(frames)@, None, Seq::empty()),
            block_model(b),
        ).frames,
{
    let ghost st0 = machine_model(root@, frames@, None, Seq::empty());
    if frames.len() == 0 {
        root.push(b);
        proof {
            assert(blocks_model(root@) =~= st0.root.push(block_model(b))) by {
                assert(root@.drop_last() =~= old(root)@);
            }
        }
    } else {
        let mut f = frames.pop().unwrap();
        let ghost popped = frames@;
        f.children.push(b);
        proof {
            assert(blocks_model(f.children@).last() == block_model(b)) by {
                assert(f.children@.last() == b);
            }
            assert(blocks_model(f.children@) =~= blocks_model(f.children@.drop_last()).push(
                block_model(b),
            ));
        }
        frames.push(f);
        proof {
            let fm0 = frames_model(old(frames)@);
            assert(frames_model(popped) =~= fm0.drop_last()) by {
                assert(popped =~= old(frames)@.drop_last());
            }
            assert(frame_model(old(frames)@.last()) == fm0.last());
            assert(f.children@.drop_last() =~= old(frames)@.last().children@);
            assert(frames_model(frames@) =~= frames_model(popped).push(frame_model(f)));
            assert(frames_model(frames@) =~= state_append(st0, block_model(b)).frames);
        }
    }
}

/// Close the innermost open directive into a block of its own.
fn close_one(root: &mut Vec<Block>, frames: &mut Vec<Frame>)
    requires
        old(frames)@.len() > 0,
    ensures
        blocks_model(final(root)@) == close_frame(
            machine_model(old(root)@, old(frames)@, None, Seq::empty()),
        ).root,
        frames_model(final(frames)@) == close_frame(
            machine_model(old(root)@, old(frames)@, None, Seq::empty()),
        ).frames,
{
    let ghost st0 = machine_model(root@, frames@, None, Seq::empty());
    let f = frames.pop().unwrap();
    let b = Block {
        line: f.line,
        kind: BlockKind::Internal(
            InternalBlock { kind: f.kind, argument: f.argument, children: f.children },
        ),
    };
    proof {
        assert(frames_model(frames@) =~= st0.frames.drop_last()) by {
            assert(frames@ =~= old(frames)@.drop_last());
        }
        assert(frame_model(old(frames)@.last()) == st0.frames.last());
        assert(block_model(b) == BlockModel {
            line: st0.frames.last().line,
            kind: BlockKindModel::Internal(
                InternalBlockModel {
                    kind: st0.frames.last().kind,
                    argument: st0.frames.last().argument,
                    children: st0.frames.last().children,
                },
            ),
        });
    }
    append_block(root, frames, b);
}

impl Block {
    /// Build a directive block directly.
    pub fn internal(
        line: usize,
        kind: DirectiveKind,
        argument: Option<String>,
        children: Vec<Block>,
    ) -> (r: Block)
        ensures
            block_model(r) == (BlockModel {
                line: line as int,
                kind: BlockKindModel::Internal(
                    InternalBlockModel {
                        kind,
                        argument: opt_string_model(argument),
                        children: blocks_model(children@),
                    },
                ),
            }),
    {
        Block { line, kind: BlockKind::Internal(InternalBlock { kind, argument, children }) }
    }

    /// Build a prose block directly.
    pub fn external(line: usize, text: String) -> (r: Block)
        ensures
            block_model(r) == (BlockModel {
                line: line as int,
                kind: BlockKindModel::External(text@),
            }),
    {
        Block { line, kind: BlockKind::External(text) }
    }

    /// Build the block forest of a tokenized script. Returns the forest
    /// when the indentation structure is sound everywhere, and otherwise
    /// the full ordered list of structural errors.
    pub fn parse(lines: Vec<(usize, Line)>) -> (r: Result<Vec<Block>, Vec<(usize, Error)>>)
        ensures
            ({
                let out = spec_build(line_pairs_model(lines@));
                match r {
                    Ok(blocks) => out.1.len() == 0 && blocks_model(blocks@) == out.0,
                    Err(errors) => out.1.len() > 0 && errors_model(errors@) == out.1,
                }
            }),
    {
        let ghost ts = line_pairs_model(lines@);
        let mut root: Vec<Block> = Vec::new();
        let mut frames: Vec<Frame> = Vec::new();
        let mut skip_to: Option<usize> = None;
        let mut errors: Vec<(usize, Error)> = Vec::new();
        let mut i: usize = 0;
        proof {
            assert(ts.take(0) =~= Seq::<(int, LineModel)>::empty());
            assert(blocks_model(root@) =~= Seq::<BlockModel>::empty());
            assert(frames_model(frames@) =~= Seq::<FrameModel>::empty());
            assert(errors_model(errors@) =~= Seq::<(int, ErrorModel)>::empty());
            assert(machine_model(root@, frames@, skip_to, errors@) == init_build_state());
        }
        while i < lines.len()
            invariant
                0 <= i <= lines.len(),
                ts == line_pairs_model(lines@),
                machine_model(root@, frames@, skip_to, errors@) == spec_run_from(
                    init_build_state(),
                    ts.take(i as int),
                ),
            decreases lines.len() - i,
        {
            let ghost st_before = machine_model(root@, frames@, skip_to, errors@);
            proof {
                assert(ts.take(i + 1) =~= ts.take(i as int).push(ts[i as int]));
                lemma_run_from_snoc(init_build_state(), ts.take(i as int), ts[i as int]);
                assert(ts[i as int] == (lines@[i as int].0 as int, lines@[i as int].1@));
            }
            let num = lines[i].0;
            let indent = lines[i].1.indent;
            let mut absorbed = false;
            match skip_to {
                Some(e) => {
                    if indent >= e {
                        absorbed = true;
                    } else {
                        // The malformed region ends here: the directive it
                        // began under closes with no children.
                        if frames.len() == 0 {
                            root = Vec::new();
                        } else {
                            let ghost pre = frames@;
                            let f = frames.pop().unwrap();
                            let b = Block {
                                line: f.line,
                                kind: BlockKind::Internal(
                                    InternalBlock {
                                        kind: f.kind,
                                        argument: f.argument,
                                        children: Vec::new(),
                                    },
                                ),
                            };
                            proof {
                                assert(frames@ =~= pre.drop_last());
                                assert(frames_model(frames@) =~= frames_model(pre).drop_last());
                                assert(frame_model(pre.last()) == frames_model(pre).last());
                                assert(blocks_model(Seq::<Block>::empty())
                                    =~= Seq::<BlockModel>::empty());
                            }
                            append_block(&mut root, &mut frames, b);
                        }
                        skip_to = None;
                    }
                },
                None => {},
            }
            if !absorbed {
                let ghost st_entry = machine_model(root@, frames@, skip_to, errors@);
                proof {
                    if st_before.skip is Some {
                        assert(st_entry == exit_skip(st_before));
                    } else {
                        assert(st_entry == st_before);
                    }
                }
                // Close levels deeper than this line's indentation.
                while frames.len() > indent
                    invariant
                        skip_to is None,
                        errors_model(errors@) == st_entry.errors,
                        close_to(
                            machine_model(root@, frames@, skip_to, errors@),
                            indent as int,
                        ) == close_to(st_entry, indent as int),
                    decreases frames.len(),
                {
                    close_one(&mut root, &mut frames);
                }
                let ghost st1 = machine_model(root@, frames@, skip_to, errors@);
                proof {
                    assert(st1 == close_to(st_entry, indent as int));
                }
                let m = frames.len();
                if indent > m {
                    errors.push(
                        (num, Error::UnexpectedIndentation { expected: m, found: indent }),
                    );
                    skip_to = Some(m);
                    proof {
                        assert(errors_model(errors@) =~= st1.errors.push(
                            (
                                num as int,
                                ErrorModel::UnexpectedIndentation {
                                    expected: m as int,
                                    found: indent as int,
                                },
                            ),
                        ));
                        assert(m as int == st1.frames.len());
                    }
                } else {
                    match &lines[i].1.kind {
                        LineKind::Text(t) => {
                            let b = Block { line: num, kind: BlockKind::External(t.clone()) };
                            append_block(&mut root, &mut frames, b);
                        },
                        LineKind::Directive(k, a) => {
                            let arg = match a {
                                Some(s) => Some(s.clone()),
                                None => None,
                            };
                            frames.push(
                                Frame { line: num, kind: *k, argument: arg, children: Vec::new() },
                            );
                            proof {
                                assert(frames_model(frames@) =~= st1.frames.push(
                                    FrameModel {
                                        line: num as int,
                                        kind: *k,
                                        argument: opt_string_model(arg),
                                        children: Seq::empty(),
                                    },
                                )) by {
                                    assert(frames@.drop_last() =~= frames@.subrange(
                                        0,
                                        frames@.len() - 1,
                                    ));
                                    assert(blocks_model(Seq::<Block>::empty())
                                        =~= Seq::<BlockModel>::empty());
                                }
                            }
                        },
                    }
                }
            }
            proof {
                assert(machine_model(root@, frames@, skip_to, errors@) == spec_step(
                    st_before,
                    ts[i as int],
                ));
            }
            i += 1;
        }
        proof {
            assert(ts.take(lines@.len() as int) =~= ts);
        }
        // End of input: resolve a pending malformed region and close every
        // level still open.
        let ghost st_end = machine_model(root@, frames@, skip_to, errors@);
        match skip_to {
            Some(_) => {
                if frames.len() == 0 {
                    root = Vec::new();
                } else {
                    let ghost pre = frames@;
                    let f = frames.pop().unwrap();
                    let b = Block {
                        line: f.line,
                        kind: BlockKind::Internal(
                            InternalBlock {
                                kind: f.kind,
                                argument: f.argument,
                                children: Vec::new(),
                            },
                        ),
                    };
                    proof {
                        assert(frames@ =~= pre.drop_last());
                        assert(frames_model(frames@) =~= frames_model(pre).drop_last());
                        assert(frame_model(pre.last()) == frames_model(pre).last());
                        assert(blocks_model(Seq::<Block>::empty()) =~= Seq::<BlockModel>::empty());
                    }
                    append_block(&mut root, &mut frames, b);
                }
                skip_to = None;
            },
            None => {},
        }
        let ghost st2 = machine_model(root@, frames@, skip_to, errors@);
        proof {
            if st_end.skip is Some {
                assert(st2 == exit_skip(st_end));
            } else {
                assert(st2 == st_end);
            }
        }
        while frames.len() > 0
            invariant
                skip_to is None,
                errors_model(errors@) == st2.errors,
                close_to(machine_model(root@, frames@, skip_to, errors@), 0) == close_to(st2, 0),
            decreases frames.len(),
        {
            close_one(&mut root, &mut frames);
        }
        proof {
            assert(machine_model(root@, frames@, skip_to, errors@) == spec_finish(
                spec_run(ts),
            ));
        }
        if errors.len() == 0 {
            proof {
                assert(errors_model(errors@) =~= Seq::<(int, ErrorModel)>::empty());
            }
            Ok(root)
        } else {
            proof {
                assert(errors_model(errors@).len() == errors@.len());
            }
            Err(errors)
        }
    }
}

/// Inside a malformed region, a line indented at least as deeply as the
/// fault's level is passed over with no effect on the builder.
pub proof fn lemma_skip_absorbs(st: BuildState, ts: Seq<(int, LineModel)>, e: int)
    requires
        st.skip == Some(e),
        forall|i: int| 0 <= i < ts.len() ==> (#[trigger] ts[i]).1.indent >= e,
    ensures
        spec_run_from(st, ts) == st,
    decreases ts.len(),
{
    if ts.len() > 0 {
        assert(spec_step(st, ts[0]) == st);
        assert(forall|i: int|
            0 <= i < ts.drop_first().len() ==> #[trigger] ts.drop_first()[i] == ts[i + 1]);
        lemma_skip_absorbs(st, ts.drop_first(), e);
    }
}

/// Running the builder over two token lists in turn is running it over
/// their concatenation.
pub proof fn lemma_run_from_concat(
    st: BuildState,
    a: Seq<(int, LineModel)>,
    b: Seq<(int, LineModel)>,
)
    ensures
        spec_run_from(st, a + b) == spec_run_from(spec_run_from(st, a), b),
    decreases a.len(),
{
    if a.len() == 0 {
        assert(a + b =~= b);
    } else {
        assert((a + b)[0] == a[0]);
        assert((a + b).drop_first() =~= a.drop_first() + b);
        lemma_run_from_concat(spec_step(st, a[0]), a.drop_first(), b);
    }
}

/// A region indented more deeply than its surroundings allow yields
/// exactly one structural error, for its first line; everything else in
/// the region is discarded; and the builder's forest, open directives and
/// earlier errors are untouched, so that building resumes correctly on
/// whatever follows the region.
pub proof fn theorem_over_indentation_recovery(
    pre: Seq<(int, LineModel)>,
    mid: Seq<(int, LineModel)>,
)
    requires
        spec_run(pre).skip is None,
        mid.len() >= 1,
        mid[0].1.indent > spec_run(pre).frames.len(),
        forall|i: int| 1 <= i < mid.len() ==> (#[trigger] mid[i]).1.indent >= spec_run(
            pre,
        ).frames.len(),
    ensures
        ({
            let st = spec_run(pre);
            let m = st.frames.len() as int;
            spec_run(pre + mid) == BuildState {
                errors: st.errors.push(
                    (
                        mid[0].0,
                        ErrorModel::UnexpectedIndentation { expected: m, found: mid[0].1.indent },
                    ),
                ),
                skip: Some(m),
                ..st
            }
        }),
{
    let st = spec_run(pre);
    let m = st.frames.len() as int;
    lemma_run_from_concat(init_build_state(), pre, mid);
    assert(spec_run(pre + mid) == spec_run_from(st, mid));
    assert(close_to(st, mid[0].1.indent) == st);
    let st1 = spec_step(st, mid[0]);
    assert(st1 == BuildState {
        errors: st.errors.push(
            (mid[0].0, ErrorModel::UnexpectedIndentation { expected: m, found: mid[0].1.indent }),
        ),
        skip: Some(m),
        ..st
    });
    assert(forall|i: int|
        0 <= i < mid.drop_first().len() ==> #[trigger] mid.drop_first()[i] == mid[i + 1]);
    lemma_skip_absorbs(st1, mid.drop_first(), m);
    assert(spec_run_from(st, mid) == spec_run_from(st1, mid.drop_first()));
}

} // verus!
