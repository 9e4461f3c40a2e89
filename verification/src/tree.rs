//! The reconstructed call tree: nodes created from start entries, closed by
//! end entries, and optionally annotated with resolved symbol names.

use crate::ftrace::{spec_data, spec_depth, FtraceError, RawFtrace};
use vstd::prelude::*;

verus! {

/// Mathematical model of a call-tree node.
#[verifier::ext_equal]
pub ghost struct NodeModel {
    pub depth: u8,
    pub func: u64,
    pub symbol: Option<Seq<char>>,
    pub time: Option<u64>,
    pub children: Seq<NodeModel>,
}

/// Mathematical model of a whole trace tree.
#[verifier::ext_equal]
pub ghost struct TreeModel {
    pub trace_info: Seq<char>,
    pub children: Seq<NodeModel>,
}

/// One node of the call tree.  `depth` is the nesting depth claimed by the
/// start entry, `func` the 56-bit address it carried, `time` the nanosecond
/// duration carried by the matching end entry (`None` while the call is
/// still open), and `symbol` the resolved name, if any.
pub struct FtraceNode {
    pub children: Vec<FtraceNode>,
    pub depth: u8,
    pub func: u64,
    pub symbol: Option<String>,
    pub time: Option<u64>,
}

/// The model of a node: its scalar fields with views taken, and the models
/// of its children in order.
pub open spec fn node_model(n: FtraceNode) -> NodeModel
    decreases n,
{
    NodeModel {
        depth: n.depth,
        func: n.func,
        symbol: match n.symbol {
            Some(s) => Some(s@),
            None => None,
        },
        time: n.time,
        children: Seq::new(
            n.children@.len(),
            |i: int|
                if 0 <= i < n.children@.len() {
                    node_model(n.children@[i])
                } else {
                    NodeModel {
                        depth: 0,
                        func: 0,
                        symbol: None,
                        time: None,
                        children: Seq::empty(),
                    }
                },
        ),
    }
}

impl View for FtraceNode {
    type V = NodeModel;

    open spec fn view(&self) -> NodeModel {
        node_model(*self)
    }
}

/// The models of a sequence of nodes, in order.
pub open spec fn models_of(s: Seq<FtraceNode>) -> Seq<NodeModel> {
    Seq::new(s.len(), |i: int| if 0 <= i < s.len() { node_model(s[i]) } else { NodeModel {
        depth: 0,
        func: 0,
        symbol: None,
        time: None,
        children: Seq::empty(),
    } })
}

pub broadcast proof fn lemma_node_view_children(n: FtraceNode)
    ensures
        #[trigger] n@.children =~= models_of(n.children@),
{
    assert forall|i: int| 0 <= i < n.children@.len() implies n@.children[i] == models_of(
        n.children@,
    )[i] by {
        assert(n@.children[i] == node_model(n.children@[i]));
        assert(models_of(n.children@)[i] == node_model(n.children@[i]));
    }
}

impl FtraceNode {
    /// A fresh node with no children and no symbol.
    pub fn new(depth: u8, func: u64, time: Option<u64>) -> (r: FtraceNode)
        ensures
            r@ == (NodeModel {
                depth,
                func,
                symbol: None,
                time,
                children: Seq::<NodeModel>::empty(),
            }),
    {
        let r = FtraceNode { children: Vec::new(), depth, func, symbol: None, time };
        proof {
            assert(r@.children =~= Seq::<NodeModel>::empty());
            assert(r@ =~= NodeModel {
                depth,
                func,
                symbol: None,
                time,
                children: Seq::<NodeModel>::empty(),
            });
        }
        r
    }

    /// A node opened by a start entry; rejects end entries.
    pub fn with_start(code: RawFtrace) -> (r: Result<FtraceNode, FtraceError>)
        ensures
            spec_depth(code.0) != 0 ==> (r matches Ok(n) && n@ == (NodeModel {
                depth: spec_depth(code.0),
                func: spec_data(code.0),
                symbol: None,
                time: None,
                children: Seq::<NodeModel>::empty(),
            })),
            spec_depth(code.0) == 0 ==> (r matches Err(e) && e == FtraceError::InvalidEntry),
    {
        if !code.is_start() {
            return Err(FtraceError::InvalidEntry);
        }
        Ok(Self::new(code.depth(), code.data(), None))
    }

    /// Record the elapsed time carried by this node's end entry; rejects
    /// start entries and leaves the node unchanged for them.
    pub fn end_with(&mut self, code: RawFtrace) -> (r: Result<(), FtraceError>)
        ensures
            spec_depth(code.0) == 0 ==> (r matches Ok(()) && *final(self) == (FtraceNode {
                time: Some(spec_data(code.0)),
                ..*old(self)
            })),
            spec_depth(code.0) != 0 ==> (r matches Err(e) && e == FtraceError::InvalidEntry
                && *final(self) == *old(self)),
    {
        if !code.is_end() {
            return Err(FtraceError::InvalidEntry);
        }
        self.time = Some(code.data());
        Ok(())
    }

    /// Append a child; children keep their temporal order of entry.
    pub fn add_child(&mut self, child: FtraceNode)
        ensures
            final(self).children@ == old(self).children@.push(child),
            final(self).depth == old(self).depth,
            final(self).func == old(self).func,
            final(self).symbol == old(self).symbol,
            final(self).time == old(self).time,
            final(self)@.children =~= old(self)@.children.push(child@),
    {
        self.children.push(child);
        proof {
            broadcast use lemma_node_view_children;

            assert(models_of(final(self).children@) =~= models_of(old(self).children@).push(
                child@,
            ));
        }
    }

    pub fn depth(&self) -> (r: u8)
        ensures
            r == self.depth,
    {
        self.depth
    }

    pub fn func(&self) -> (r: u64)
        ensures
            r == self.func,
    {
        self.func
    }

    pub fn symbol(&self) -> (r: Option<&str>)
        ensures
            match r {
                Some(s) => self.symbol matches Some(q) && q@ == s@,
                None => self.symbol is None,
            },
    {
        match &self.symbol {
            Some(s) => Some(s.as_str()),
            None => None,
        }
    }

    /// Attach a resolved symbol name.
    pub fn set_symbol(&mut self, symbol: String)
        ensures
            *final(self) == (FtraceNode { symbol: Some(symbol), ..*old(self) }),
    {
        self.symbol = Some(symbol);
    }

    pub fn time(&self) -> (r: Option<u64>)
        ensures
            r == self.time,
    {
        self.time
    }

    pub fn children(&self) -> (r: &Vec<FtraceNode>)
        ensures
            r == &self.children,
    {
        &self.children
    }

    pub fn children_mut(&mut self) -> (r: &mut Vec<FtraceNode>)
        ensures
            *r == old(self).children,
            *final(self) == (FtraceNode { children: *final(r), ..*old(self) }),
    {
        &mut self.children
    }
}

/// A whole reconstructed trace: the header text and the top-level calls.
pub struct FtraceTree {
    pub trace_info: String,
    pub children: Vec<FtraceNode>,
}

impl View for FtraceTree {
    type V = TreeModel;

    open spec fn view(&self) -> TreeModel {
        TreeModel { trace_info: self.trace_info@, children: models_of(self.children@) }
    }
}

impl FtraceTree {
    pub fn new(trace_info: String, children: Vec<FtraceNode>) -> (r: FtraceTree)
        ensures
            r@.trace_info == trace_info@,
            r@.children == models_of(children@),
    {
        FtraceTree { trace_info, children }
    }

    /// Keep the children of a reconstruction root and discard the synthetic
    /// root node itself.
    pub fn from_root_node(trace_info: String, root: FtraceNode) -> (r: FtraceTree)
        ensures
            r@.trace_info == trace_info@,
            r@.children == root@.children,
    {
        let ghost whole = root;
        let FtraceNode { children, .. } = root;
        proof {
            assert(children == whole.children);
            broadcast use lemma_node_view_children;

        }
        let r = FtraceTree { trace_info, children };
        proof {
            assert(r@.children =~= models_of(whole.children@));
            assert(r@.children =~= whole@.children);
        }
        r
    }

    pub fn trace_info(&self) -> (r: &str)
        ensures
            r@ == self.trace_info@,
    {
        self.trace_info.as_str()
    }

    pub fn children(&self) -> (r: &Vec<FtraceNode>)
        ensures
            r == &self.children,
    {
        &self.children
    }

    pub fn children_mut(&mut self) -> (r: &mut Vec<FtraceNode>)
        ensures
            *r == old(self).children,
            *final(self) == (FtraceTree { children: *final(r), ..*old(self) }),
    {
        &mut self.children
    }

    /// Walk the tree in depth-first preorder.
    pub fn dfs_iter<'a>(&'a self) -> (r: FtraceDfsIter<'a>)
        ensures
            r.wf(),
            r.remaining() == preorder_forest(self@.children),
    {
        let stack: Vec<(&'a Vec<FtraceNode>, usize)> = vec![(&self.children, 0)];
        let r = FtraceDfsIter { stack };
        proof {
            broadcast use lemma_node_view_children;

            assert(r.stack@.drop_last().len() == 0);
            assert(FtraceDfsIter::remaining_of(r.stack@.drop_last()) =~= Seq::<NodeModel>::empty());
            assert(models_of(self.children@).skip(0) =~= models_of(self.children@));
            assert(r.remaining() =~= preorder_forest(self@.children));
        }
        r
    }
}

/// The nodes of `n`'s subtree in depth-first preorder: the node itself,
/// then the subtrees of its children in order.
pub open spec fn preorder(n: NodeModel) -> Seq<NodeModel>
    decreases n,
{
    seq![n] + preorder_forest(n.children)
}

/// The preorders of a sequence of subtrees, concatenated in order.
pub open spec fn preorder_forest(s: Seq<NodeModel>) -> Seq<NodeModel>
    decreases s,
{
    if s.len() == 0 {
        Seq::empty()
    } else {
        preorder(s[0]) + preorder_forest(s.drop_first())
    }
}

/// Explicit-stack depth-first traversal over a tree borrowed from
/// [`FtraceTree::dfs_iter`].  Each stack level holds one child list and the
/// index of the next child to visit in it.
pub struct FtraceDfsIter<'a> {
    pub stack: Vec<(&'a Vec<FtraceNode>, usize)>,
}

impl<'a> FtraceDfsIter<'a> {
    /// What one stack level still has to yield.
    pub open spec fn level_remaining(l: (&'a Vec<FtraceNode>, usize)) -> Seq<NodeModel> {
        preorder_forest(models_of(l.0@).skip(l.1 as int))
    }

    /// The models of the nodes this iterator has yet to yield, in order.
    pub open spec fn remaining_of(stack: Seq<(&'a Vec<FtraceNode>, usize)>) -> Seq<NodeModel>
        decreases stack.len(),
    {
        if stack.len() == 0 {
            Seq::empty()
        } else {
            Self::level_remaining(stack.last()) + Self::remaining_of(stack.drop_last())
        }
    }

    pub open spec fn remaining(self) -> Seq<NodeModel> {
        Self::remaining_of(self.stack@)
    }

    /// Every level's index stays within its child list.
    pub open spec fn wf(self) -> bool {
        forall|j: int|
            0 <= j < self.stack@.len() ==> (#[trigger] self.stack@[j]).1 <= self.stack@[j].0@.len()
    }

    /// Yield the next node in preorder, or `None` once the walk is done.
    pub fn next(&mut self) -> (r: Option<&'a FtraceNode>)
        requires
            old(self).wf(),
        ensures
            final(self).wf(),
            match r {
                Some(n) => old(self).remaining().len() > 0 && n@ == old(self).remaining()[0]
                    && final(self).remaining() == old(self).remaining().drop_first(),
                None => old(self).remaining().len() == 0 && final(self).remaining().len() == 0,
            },
    {
        loop
            invariant
                self.wf(),
                Self::remaining_of(self.stack@) == old(self).remaining(),
            decreases self.stack.len(),
        {
            if self.stack.len() == 0 {
                proof {
                    assert(Self::remaining_of(self.stack@) =~= Seq::<NodeModel>::empty());
                }
                return None;
            }
            let ghost prev_stack = self.stack@;
            let (v, i) = self.stack[self.stack.len() - 1];
            if i < v.len() {
                let item: &'a FtraceNode = &v[i];
                let last = self.stack.len() - 1;
                self.stack[last].1 = i + 1;
                self.stack.push((&item.children, 0));
                proof {
                    broadcast use lemma_node_view_children;

                    lemma_dfs_step(prev_stack, self.stack@, v, i);
                }
                return Some(item);
            } else {
                proof {
                    assert(i == v@.len());
                    assert(models_of(v@).skip(i as int) =~= Seq::<NodeModel>::empty());
                    assert(preorder_forest(models_of(v@).skip(i as int)) =~= Seq::<NodeModel>::empty());
                }
                self.stack.pop();
                proof {
                    assert(prev_stack.drop_last() =~= self.stack@);
                    assert(Self::remaining_of(prev_stack)
                        == Self::level_remaining((v, i)) + Self::remaining_of(self.stack@));
                    assert(Self::remaining_of(prev_stack) =~= Self::remaining_of(self.stack@));
                }
            }
        }
    }
}

/// Advancing past child `i` of the top level and descending into its child
/// list drops exactly that node's model from the front of the remainder.
proof fn lemma_dfs_step<'a>(
    prev: Seq<(&'a Vec<FtraceNode>, usize)>,
    cur: Seq<(&'a Vec<FtraceNode>, usize)>,
    v: &'a Vec<FtraceNode>,
    i: usize,
)
    requires
        prev.len() > 0,
        prev.last() == (v, i),
        i < v@.len(),
        i + 1 <= usize::MAX,
        cur =~= prev.update(prev.len() - 1, (v, (i + 1) as usize)).push((&v@[i as int].children, 0usize)),
    ensures
        FtraceDfsIter::remaining_of(prev).len() > 0,
        FtraceDfsIter::remaining_of(prev)[0] == v@[i as int]@,
        FtraceDfsIter::remaining_of(cur) == FtraceDfsIter::remaining_of(prev).drop_first(),
{
    broadcast use lemma_node_view_children;

    let ms = models_of(v@);
    let below = FtraceDfsIter::remaining_of(prev.drop_last());
    // remaining(prev) = preorder_forest(ms.skip(i)) + below
    assert(FtraceDfsIter::remaining_of(prev)
        == FtraceDfsIter::level_remaining((v, i)) + below);
    let si = ms.skip(i as int);
    assert(si.len() > 0);
    assert(si[0] == ms[i as int]);
    assert(si.drop_first() =~= ms.skip(i + 1));
    // preorder_forest(skip i) = preorder(ms[i]) + preorder_forest(skip i+1)
    assert(preorder_forest(si) == preorder(si[0]) + preorder_forest(si.drop_first()));
    assert(preorder(ms[i as int]) == seq![ms[i as int]] + preorder_forest(ms[i as int].children));

    let mid = prev.update(prev.len() - 1, (v, (i + 1) as usize));
    assert(mid.drop_last() =~= prev.drop_last());
    assert(mid.last() == (v, (i + 1) as usize));
    assert(FtraceDfsIter::remaining_of(mid)
        == FtraceDfsIter::level_remaining(mid.last()) + FtraceDfsIter::remaining_of(mid.drop_last()));
    assert(FtraceDfsIter::level_remaining((v, (i + 1) as usize)) == preorder_forest(ms.skip(i + 1)));
    assert(FtraceDfsIter::remaining_of(mid)
        == preorder_forest(ms.skip(i + 1)) + below);
    assert(cur.drop_last() =~= mid);
    assert(cur.last() == (&v@[i as int].children, 0usize));
    assert(models_of(v@[i as int].children@).skip(0) =~= models_of(v@[i as int].children@));
    assert(models_of(v@[i as int].children@) =~= ms[i as int].children);
    assert(FtraceDfsIter::remaining_of(cur)
        == preorder_forest(ms[i as int].children) + (preorder_forest(ms.skip(i + 1)) + below));
    assert(FtraceDfsIter::remaining_of(prev)
        =~= seq![ms[i as int]] + (preorder_forest(ms[i as int].children) + (preorder_forest(ms.skip(i + 1)) + below)));
    assert(FtraceDfsIter::remaining_of(cur)
        =~= FtraceDfsIter::remaining_of(prev).drop_first());
}

} // verus!

verus! {

/// The height of a node's model: one more than its tallest subtree.
pub open spec fn model_height(m: NodeModel) -> nat
    decreases m,
{
    1 + forest_model_height(m.children)
}

/// The height of the tallest tree in a forest of models.
pub open spec fn forest_model_height(s: Seq<NodeModel>) -> nat
    decreases s,
{
    if s.len() == 0 {
        0
    } else {
        let h0 = model_height(s[0]);
        let hr = forest_model_height(s.drop_first());
        if h0 > hr {
            h0
        } else {
            hr
        }
    }
}

/// Two forests whose trees have pairwise equal heights are equally tall.
pub proof fn lemma_forest_height_pointwise(a: Seq<NodeModel>, b: Seq<NodeModel>)
    requires
        a.len() == b.len(),
        forall|i: int| 0 <= i < a.len() ==> model_height(#[trigger] b[i]) == model_height(a[i]),
    ensures
        forest_model_height(a) == forest_model_height(b),
    decreases a,
{
    if a.len() > 0 {
        assert forall|i: int| 0 <= i < a.drop_first().len() implies model_height(
            #[trigger] b.drop_first()[i],
        ) == model_height(a.drop_first()[i]) by {
            assert(a.drop_first()[i] == a[i + 1]);
            assert(b.drop_first()[i] == b[i + 1]);
        }
        lemma_forest_height_pointwise(a.drop_first(), b.drop_first());
        assert(model_height(b[0]) == model_height(a[0]));
    }
}

/// Every tree in a forest is at most as tall as the forest.
pub proof fn lemma_child_height(s: Seq<NodeModel>, i: int)
    requires
        0 <= i < s.len(),
    ensures
        model_height(s[i]) <= forest_model_height(s),
    decreases s,
{
    if i > 0 {
        lemma_child_height(s.drop_first(), i - 1);
        assert(s.drop_first()[i - 1] == s[i]);
    }
}

} // verus!
