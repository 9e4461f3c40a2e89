//! Reconstruction of the nested call tree from the flat entry stream.
//!
//! The stream is interpreted by a stack machine over the open calls: a start
//! entry at depth `d` opens a new call nested under the call open at depth
//! `d - 1` (restoring the invariant with placeholder nodes when the stream
//! jumps more than one level deeper), and an end entry closes the innermost
//! open call, recording its elapsed time.  A start entry at or above the
//! currently open depth, or an end entry with no open call, is a
//! `DepthMismatch`; running out of entries while calls are open is a
//! `PrematureEof`.

use crate::ftrace::{spec_data, spec_depth, FtraceError, RawFtrace};
use crate::tree::{lemma_node_view_children, node_model, FtraceNode, FtraceTree, NodeModel};
use vstd::prelude::*;

verus! {

/// One open call during reconstruction: the depth and address claimed by its
/// start entry, and the models of its already-completed children.
#[verifier::ext_equal]
pub ghost struct Frame {
    pub depth: u8,
    pub func: u64,
    pub children: Seq<NodeModel>,
}

/// A frame just opened, with no children yet.
pub open spec fn empty_frame(depth: u8, func: u64) -> Frame {
    Frame { depth, func, children: Seq::empty() }
}

/// Closing a frame with the duration from its end entry yields the finished
/// node: no symbol yet, elapsed time recorded exactly once.
pub open spec fn close_frame(f: Frame, t: u64) -> NodeModel {
    NodeModel { depth: f.depth, func: f.func, symbol: None, time: Some(t), children: f.children }
}

/// `n` placeholder frames at depths `lo`, `lo + 1`, ...: address zero,
/// inserted to restore the nesting invariant when a start entry claims a
/// depth more than one level below the currently open call.
pub open spec fn placeholder_frames(lo: int, n: int) -> Seq<Frame> {
    Seq::new(n as nat, |i: int| empty_frame((lo + i) as u8, 0))
}

/// The machine starts with only the synthetic root open.  The frame at stack
/// position `i` is always the call open at depth `i`.
pub open spec fn initial_stack() -> Seq<Frame> {
    seq![empty_frame(0, 0)]
}

/// One raw entry word applied to the stack of open frames.
pub open spec fn step(st: Seq<Frame>, e: u64) -> Result<Seq<Frame>, FtraceError>
    recommends
        st.len() >= 1,
{
    let d = spec_depth(e) as int;
    if d == 0 {
        if st.len() <= 1 {
            Err(FtraceError::DepthMismatch)
        } else {
            let node = close_frame(st.last(), spec_data(e));
            let parent = st[st.len() - 2];
            Ok(
                st.drop_last().update(
                    st.len() - 2,
                    Frame { children: parent.children.push(node), ..parent },
                ),
            )
        }
    } else {
        if d < st.len() {
            Err(FtraceError::DepthMismatch)
        } else {
            Ok(
                st + placeholder_frames(st.len() as int, d - st.len()) + seq![
                    empty_frame(spec_depth(e), spec_data(e)),
                ],
            )
        }
    }
}

/// The machine run over a sequence of entry words, stopping at the first
/// entry that violates the nesting discipline.
pub open spec fn run_steps(st: Seq<Frame>, entries: Seq<u64>) -> Result<Seq<Frame>, FtraceError>
    decreases entries.len(),
{
    if entries.len() == 0 {
        Ok(st)
    } else {
        match step(st, entries[0]) {
            Ok(st2) => run_steps(st2, entries.drop_first()),
            Err(e) => Err(e),
        }
    }
}

/// What a flat entry stream denotes: the top-level calls of the rebuilt
/// tree, or the error that the stream's nesting forces.
pub open spec fn spec_build(entries: Seq<u64>) -> Result<Seq<NodeModel>, FtraceError> {
    match run_steps(initial_stack(), entries) {
        Ok(st) => if st.len() == 1 {
            Ok(st[0].children)
        } else {
            Err(FtraceError::PrematureEof)
        },
        Err(e) => Err(e),
    }
}

/// The raw words of a sequence of entries.
pub open spec fn entry_words(s: Seq<RawFtrace>) -> Seq<u64> {
    Seq::new(s.len(), |i: int| if 0 <= i < s.len() { s[i].0 } else { 0 })
}

/// The frames an exec node stack stands for.
pub open spec fn frames_of(stack: Seq<FtraceNode>) -> Seq<Frame> {
    Seq::new(
        stack.len(),
        |i: int|
            if 0 <= i < stack.len() {
                Frame {
                    depth: stack[i].depth,
                    func: stack[i].func,
                    children: node_model(stack[i]).children,
                }
            } else {
                empty_frame(0, 0)
            },
    )
}

/// Open nodes carry no symbol and no time yet.
pub open spec fn stack_open(stack: Seq<FtraceNode>) -> bool {
    forall|i: int|
        0 <= i < stack.len() ==> (#[trigger] stack[i]).symbol is None && stack[i].time is None
}

/// Running a concatenation runs the two halves in order.
pub proof fn lemma_run_steps_app(st: Seq<Frame>, a: Seq<u64>, b: Seq<u64>)
    ensures
        run_steps(st, a + b) == (match run_steps(st, a) {
            Ok(m) => run_steps(m, b),
            Err(e) => Err(e),
        }),
    decreases a.len(),
{
    if a.len() == 0 {
        assert(a + b =~= b);
    } else {
        assert((a + b)[0] == a[0]);
        assert((a + b).drop_first() =~= a.drop_first() + b);
        match step(st, a[0]) {
            Ok(st2) => {
                lemma_run_steps_app(st2, a.drop_first(), b);
            },
            Err(_) => {
            },
        }
    }
}

/// Two nodes with the same child vector have the same child models.
proof fn lemma_model_children_eq(a: FtraceNode, b: FtraceNode)
    requires
        a.children == b.children,
    ensures
        node_model(a).children =~= node_model(b).children,
{
}

/// Rebuild the call tree from the decoded entries.  `trace_info` is the
/// header text that preceded the magic marker; it is carried into the tree
/// unchanged.  The result is exactly what the stack machine `spec_build`
/// assigns to the stream: the reconstructed top-level calls, or
/// `DepthMismatch` on the first entry that violates nesting, or
/// `PrematureEof` when the stream ends with calls still open.
pub fn build_tree(entries: &Vec<RawFtrace>, trace_info: String) -> (r: Result<
    FtraceTree,
    FtraceError,
>)
    ensures
        match r {
            Ok(t) => spec_build(entry_words(entries@)) == Ok::<Seq<NodeModel>, FtraceError>(t@.children)
                && t@.trace_info == trace_info@,
            Err(e) => spec_build(entry_words(entries@)) == Err::<Seq<NodeModel>, FtraceError>(e),
        },
{
    let ghost words = entry_words(entries@);
    let mut stack: Vec<FtraceNode> = Vec::new();
    stack.push(FtraceNode::new(0, 0, None));
    proof {
        assert(frames_of(stack@) =~= initial_stack());
        assert(words.take(0) =~= Seq::<u64>::empty());
    }
    let mut idx: usize = 0;
    while idx < entries.len()
        invariant
            idx <= entries@.len(),
            words == entry_words(entries@),
            1 <= stack@.len() <= 256,
            stack_open(stack@),
            run_steps(initial_stack(), words.take(idx as int)) == Ok::<Seq<Frame>, FtraceError>(
                frames_of(stack@),
            ),
        decreases entries@.len() - idx,
    {
        let ghost prev = stack@;
        let e = entries[idx];
        proof {
            assert(words[idx as int] == e.0);
        }
        let d = e.depth();
        if d == 0 {
            if stack.len() <= 1 {
                proof {
                    lemma_abort_at(words, idx as int, frames_of(prev), FtraceError::DepthMismatch);
                }
                return Err(FtraceError::DepthMismatch);
            }
            let mut node = stack.pop().unwrap();
            let ghost node0 = node;
            let res = node.end_with(e);
            proof {
                assert(res is Ok);
            }
            let mut parent = stack.pop().unwrap();
            let ghost parent0 = parent;
            parent.add_child(node);
            stack.push(parent);
            proof {
                lemma_model_children_eq(node, node0);
                assert(node_model(node) =~= close_frame(
                    frames_of(prev).last(),
                    spec_data(e.0),
                ));
                broadcast use lemma_node_view_children;

                let pf = frames_of(prev)[prev.len() - 2];
                assert(Frame {
                    depth: parent.depth,
                    func: parent.func,
                    children: node_model(parent).children,
                } =~= Frame { children: pf.children.push(node_model(node)), ..pf });
                assert(frames_of(stack@) =~= step(frames_of(prev), e.0).unwrap());
                lemma_advance(words, idx as int, frames_of(prev), frames_of(stack@));
            }
        } else {
            if (d as usize) < stack.len() {
                proof {
                    assert(step(frames_of(prev), e.0) == Err::<Seq<Frame>, FtraceError>(
                        FtraceError::DepthMismatch,
                    ));
                    lemma_abort_at(words, idx as int, frames_of(prev), FtraceError::DepthMismatch);
                }
                return Err(FtraceError::DepthMismatch);
            }
            let ghost base = stack@;
            while stack.len() < d as usize
                invariant
                    base.len() <= stack@.len() <= d as usize,
                    d as usize <= 256,
                    stack_open(stack@),
                    frames_of(stack@) =~= frames_of(base) + placeholder_frames(
                        base.len() as int,
                        stack@.len() - base.len(),
                    ),
                decreases d as usize - stack@.len(),
            {
                let ph = FtraceNode::new(stack.len() as u8, 0, None);
                let ghost mid = stack@;
                stack.push(ph);
                proof {
                    let lo = base.len() as int;
                    let k = mid.len() - base.len();
                    let goal = frames_of(base) + placeholder_frames(lo, k + 1);
                    assert(node_model(ph).children == Seq::<NodeModel>::empty());
                    assert forall|i: int| 0 <= i < stack@.len() implies frames_of(stack@)[i]
                        == goal[i] by {
                        if i < mid.len() {
                            assert(stack@[i] == mid[i]);
                            assert(frames_of(mid)[i] == (frames_of(base) + placeholder_frames(
                                lo,
                                k,
                            ))[i]);
                            if i >= base.len() {
                                assert(placeholder_frames(lo, k)[i - lo] == empty_frame(
                                    (lo + (i - lo)) as u8,
                                    0,
                                ));
                                assert(placeholder_frames(lo, k + 1)[i - lo] == empty_frame(
                                    (lo + (i - lo)) as u8,
                                    0,
                                ));
                            }
                        } else {
                            assert(stack@[i] == ph);
                            assert(goal[i] == placeholder_frames(lo, k + 1)[k]);
                            assert(placeholder_frames(lo, k + 1)[k] == empty_frame(
                                (lo + k) as u8,
                                0,
                            ));
                        }
                    }
                    assert(frames_of(stack@) =~= frames_of(base) + placeholder_frames(
                        base.len() as int,
                        stack@.len() - base.len(),
                    ));
                }
            }
            let node = match FtraceNode::with_start(e) {
                Ok(n) => n,
                Err(_) => {
                    proof {
                        assert(false);
                    }
                    return Err(FtraceError::InvalidEntry);
                },
            };
            stack.push(node);
            proof {
                assert(frames_of(stack@) =~= step(frames_of(prev), e.0).unwrap());
                lemma_advance(words, idx as int, frames_of(prev), frames_of(stack@));
            }
        }
        idx = idx + 1;
    }
    proof {
        assert(words.take(idx as int) =~= words);
    }
    if stack.len() == 1 {
        let root = stack.pop().unwrap();
        proof {
            broadcast use lemma_node_view_children;

            assert(frames_of(stack@.push(root))[0].children == root@.children);
        }
        Ok(FtraceTree::from_root_node(trace_info, root))
    } else {
        Err(FtraceError::PrematureEof)
    }
}

/// The start entry word for a call at depth `depth` on address `func`.
pub open spec fn start_word(depth: u8, func: u64) -> u64
    recommends
        func < 0x0100_0000_0000_0000,
{
    ((depth as u64) << 56) | func
}

/// The elapsed time a node carries, zero while it is still open.
pub open spec fn time_of(n: NodeModel) -> u64 {
    match n.time {
        Some(t) => t,
        None => 0,
    }
}

/// A finished node as the stream records it: depth in 1..=255, address and
/// time within 56 bits, an elapsed time present, no symbol, and every child
/// exactly one level deeper.
pub open spec fn wf_node(n: NodeModel, d: int) -> bool
    decreases n,
{
    &&& n.depth == d
    &&& 1 <= d <= 255
    &&& n.func < 0x0100_0000_0000_0000
    &&& n.symbol is None
    &&& (n.time matches Some(t) && t < 0x0100_0000_0000_0000)
    &&& wf_forest(n.children, d + 1)
}

/// A forest of finished sibling calls at depth `d`.
pub open spec fn wf_forest(s: Seq<NodeModel>, d: int) -> bool
    decreases s,
{
    if s.len() == 0 {
        true
    } else {
        wf_node(s[0], d) && wf_forest(s.drop_first(), d)
    }
}

/// The balanced entry stream a finished node writes: its start entry, its
/// children's streams in order, then its own end entry.
pub open spec fn node_entries(n: NodeModel) -> Seq<u64>
    decreases n,
{
    seq![start_word(n.depth, n.func)] + forest_entries(n.children) + seq![time_of(n)]
}

/// The entry streams of sibling calls, concatenated in temporal order.
pub open spec fn forest_entries(s: Seq<NodeModel>) -> Seq<u64>
    decreases s,
{
    if s.len() == 0 {
        Seq::empty()
    } else {
        node_entries(s[0]) + forest_entries(s.drop_first())
    }
}

proof fn lemma_start_word_bits(d: u8, f: u64)
    requires
        f < 0x0100_0000_0000_0000,
        d != 0,
    ensures
        spec_depth(start_word(d, f)) == d,
        spec_data(start_word(d, f)) == f,
{
    assert(((((d as u64) << 56) | f) >> 56) as u8 == d) by (bit_vector)
        requires
            f < 0x0100_0000_0000_0000u64,
    ;
    assert(((((d as u64) << 56) | f) & 0x00FF_FFFF_FFFF_FFFFu64) == f) by (bit_vector)
        requires
            f < 0x0100_0000_0000_0000u64,
    ;
}

proof fn lemma_end_word_bits(t: u64)
    requires
        t < 0x0100_0000_0000_0000,
    ensures
        spec_depth(t) == 0,
        spec_data(t) == t,
{
    assert((t >> 56) as u8 == 0) by (bit_vector)
        requires
            t < 0x0100_0000_0000_0000u64,
    ;
    assert((t & 0x00FF_FFFF_FFFF_FFFFu64) == t) by (bit_vector)
        requires
            t < 0x0100_0000_0000_0000u64,
    ;
}

/// The stack after a forest of finished calls has run: the top frame has
/// gained the forest as children, everything else is untouched.
pub open spec fn append_children(st: Seq<Frame>, fs: Seq<NodeModel>) -> Seq<Frame>
    recommends
        st.len() >= 1,
{
    st.update(
        st.len() - 1,
        Frame { children: st.last().children + fs, ..st.last() },
    )
}

/// Running the entry stream of a well-formed forest whose roots sit exactly
/// one level below the open call appends the forest to the open call's
/// children and touches nothing else.
proof fn lemma_run_forest(st: Seq<Frame>, fs: Seq<NodeModel>, rest: Seq<u64>)
    requires
        st.len() >= 1,
        wf_forest(fs, st.len() as int),
    ensures
        run_steps(st, forest_entries(fs) + rest) == run_steps(append_children(st, fs), rest),
    decreases forest_entries(fs).len(),
{
    if fs.len() == 0 {
        assert(forest_entries(fs) + rest =~= rest);
        assert(st.last().children + fs =~= st.last().children);
        assert(append_children(st, fs) =~= st);
    } else {
        let n = fs[0];
        let fs2 = fs.drop_first();
        assert(wf_node(n, st.len() as int) && wf_forest(fs2, st.len() as int));
        assert(n.func < 0x0100_0000_0000_0000 && (n.time matches Some(t) && t
            < 0x0100_0000_0000_0000));
        let sw = start_word(n.depth, n.func);
        let t = time_of(n);
        lemma_start_word_bits(n.depth, n.func);
        lemma_end_word_bits(t);

        let all = forest_entries(fs) + rest;
        let after_start = forest_entries(n.children) + (seq![t] + (forest_entries(fs2) + rest));
        assert(forest_entries(fs) == node_entries(n) + forest_entries(fs2));
        assert(all =~= seq![sw] + after_start);
        assert(all[0] == sw);
        assert(all.drop_first() =~= after_start);

        // The start entry opens a frame exactly one level deeper: no
        // placeholders are needed.
        let st1 = step(st, sw).unwrap();
        assert(placeholder_frames(st.len() as int, 0) =~= Seq::<Frame>::empty());
        assert(st1 =~= st.push(empty_frame(n.depth, n.func)));

        // The children's stream fills the new frame.
        lemma_run_forest(st1, n.children, seq![t] + (forest_entries(fs2) + rest));
        let st2 = append_children(st1, n.children);
        assert(st2 =~= st.push(
            Frame { depth: n.depth, func: n.func, children: Seq::empty() + n.children },
        ));

        // The end entry closes the frame into exactly the node `n`.
        assert((seq![t] + (forest_entries(fs2) + rest))[0] == t);
        assert((seq![t] + (forest_entries(fs2) + rest)).drop_first() =~= forest_entries(fs2)
            + rest);
        let st3 = step(st2, t).unwrap();
        assert(Seq::empty() + n.children =~= n.children);
        assert(close_frame(st2.last(), t) =~= n);
        assert(st2.drop_last() =~= st);
        assert(st3 =~= st.update(
            st.len() - 1,
            Frame { children: st.last().children.push(n), ..st.last() },
        ));

        // The remaining siblings extend the same frame.
        lemma_run_forest(st3, fs2, rest);
        assert(st.last().children.push(n) + fs2 =~= st.last().children + fs);
        assert(append_children(st3, fs2) =~= append_children(st, fs));
    }
}

/// Round-trip nesting: the balanced entry stream written by a well-formed
/// forest of finished calls rebuilds exactly that forest — same nesting in
/// the same order, and every node's elapsed time comes from its own end
/// entry.
pub proof fn lemma_round_trip(fs: Seq<NodeModel>)
    requires
        wf_forest(fs, 1),
    ensures
        spec_build(forest_entries(fs)) == Ok::<Seq<NodeModel>, FtraceError>(fs),
{
    lemma_run_forest(initial_stack(), fs, Seq::empty());
    assert(forest_entries(fs) + Seq::empty() =~= forest_entries(fs));
    let fin = append_children(initial_stack(), fs);
    assert(fin.len() == 1);
    assert(fin[0].children =~= fs);
}

/// Depth-violation detection: the first start entry at or above the open
/// depth, or end entry with no open call, makes the whole build fail with
/// `DepthMismatch` — it is never silently attached to a wrong parent.
pub proof fn lemma_depth_violation_detected(entries: Seq<u64>, k: int, st: Seq<Frame>)
    requires
        0 <= k < entries.len(),
        run_steps(initial_stack(), entries.take(k)) == Ok::<Seq<Frame>, FtraceError>(st),
        ({
            let d = spec_depth(entries[k]) as int;
            (d == 0 && st.len() <= 1) || (d != 0 && d < st.len())
        }),
    ensures
        spec_build(entries) == Err::<Seq<NodeModel>, FtraceError>(FtraceError::DepthMismatch),
{
    lemma_abort_at(entries, k, st, FtraceError::DepthMismatch);
}

/// Truncation detection: a stream whose entries all apply cleanly but leave
/// a call open is rejected with `PrematureEof`, never returned as a tree
/// with a missing elapsed time.
pub proof fn lemma_truncation_detected(entries: Seq<u64>, st: Seq<Frame>)
    requires
        run_steps(initial_stack(), entries) == Ok::<Seq<Frame>, FtraceError>(st),
        st.len() > 1,
    ensures
        spec_build(entries) == Err::<Seq<NodeModel>, FtraceError>(FtraceError::PrematureEof),
{
}

/// If the machine reaches state `st` after `k` entries and the next entry
/// makes it abort, the whole run aborts with that error.
proof fn lemma_abort_at(words: Seq<u64>, k: int, st: Seq<Frame>, e: FtraceError)
    requires
        0 <= k < words.len(),
        run_steps(initial_stack(), words.take(k)) == Ok::<Seq<Frame>, FtraceError>(st),
        step(st, words[k]) == Err::<Seq<Frame>, FtraceError>(e),
    ensures
        run_steps(initial_stack(), words) == Err::<Seq<Frame>, FtraceError>(e),
        spec_build(words) == Err::<Seq<NodeModel>, FtraceError>(e),
{
    assert(words =~= words.take(k) + words.skip(k));
    lemma_run_steps_app(initial_stack(), words.take(k), words.skip(k));
    assert(words.skip(k).len() > 0);
    assert(words.skip(k)[0] == words[k]);
}

/// If the machine reaches state `st` after `k` entries and the next entry
/// steps it to `st2`, then `k + 1` entries reach `st2`.
proof fn lemma_advance(words: Seq<u64>, k: int, st: Seq<Frame>, st2: Seq<Frame>)
    requires
        0 <= k < words.len(),
        run_steps(initial_stack(), words.take(k)) == Ok::<Seq<Frame>, FtraceError>(st),
        step(st, words[k]) == Ok::<Seq<Frame>, FtraceError>(st2),
    ensures
        run_steps(initial_stack(), words.take(k + 1)) == Ok::<Seq<Frame>, FtraceError>(st2),
{
    assert(words.take(k + 1) =~= words.take(k) + seq![words[k]]);
    lemma_run_steps_app(initial_stack(), words.take(k), seq![words[k]]);
    assert(seq![words[k]].drop_first() =~= Seq::<u64>::empty());
    assert(run_steps(st2, seq![words[k]].drop_first()) == Ok::<Seq<Frame>, FtraceError>(st2));
}

} // verus!
