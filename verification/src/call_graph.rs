//! Cross-contract invocation call graphs.
//!
//! A failure deep in a chain of cross-contract calls surfaces as an opaque panic
//! code. This module rebuilds the invocation tree the host executed from its
//! `fn_call` / `fn_return` records, attributes the measured gas to each frame, and
//! renders the tree as text or hierarchical JSON. Frames that never returned (the
//! call panicked) stay in the tree, marked, since they are what a developer is
//! debugging.
use vstd::prelude::*;
use vstd::arithmetic::div_mod::{lemma_fundamental_div_mod, lemma_mod_bound};
use crate::text::{push_char, push_u64, push_i64, push_json_escaped, push_repeat, repeat_seq, json_escaped, decimal, signed_decimal};

verus! {

/// A value carried by an invocation: an argument or a return value.
///
/// Scalars keep their value; anything without a lossless JSON form is kept as its
/// rendered text.
#[derive(Debug, PartialEq)]
pub enum TraceValue {
    Bool(bool),
    Void,
    U32(u32),
    I32(i32),
    U64(u64),
    I64(i64),
    /// A symbol whose bytes are valid UTF-8.
    Symbol(String),
    /// A symbol whose bytes are not valid UTF-8.
    InvalidSymbol,
    /// A vector of values.
    Vec(Vec<TraceValue>),
    /// A vector value with no contents.
    EmptyVec,
    /// Any other value, by its rendered form (wide integers, maps, bytes, addresses).
    Other(String),
}

/// A single frame in a recorded cross-contract invocation tree.
#[derive(Debug, PartialEq)]
pub struct CallFrame {
    /// Strkey of the contract that executed this frame, if the host reported one.
    pub contract: Option<String>,
    /// Name of the invoked function.
    pub function: String,
    /// Arguments, in declaration order.
    pub args: Vec<TraceValue>,
    /// Value returned, or `None` if the invocation panicked or trapped.
    pub return_value: Option<TraceValue>,
    /// Depth of this frame; the outermost invocation is `0`.
    pub depth: u32,
    /// CPU instructions of this frame and everything beneath it.
    pub cumulative_instructions: u64,
    /// CPU instructions attributed to this frame alone.
    pub self_instructions: u64,
    /// Fee in stroops of this frame and everything beneath it.
    pub cumulative_fee_stroops: i64,
    /// Fee in stroops attributed to this frame alone.
    pub self_fee_stroops: i64,
    /// Sub-invocations, in execution order.
    pub children: Vec<CallFrame>,
}

/// The frames of a tree in execution order (pre-order).
pub open spec fn preorder(f: CallFrame) -> Seq<CallFrame>
    decreases f, 1int,
{
    seq![f] + preorder_list(f.children@)
}

/// The frames of a forest in execution order.
pub open spec fn preorder_list(fs: Seq<CallFrame>) -> Seq<CallFrame>
    decreases fs, 0int,
{
    if fs.len() == 0 {
        seq![]
    } else {
        preorder_list(fs.drop_last()) + preorder(fs.last())
    }
}

/// The number of frames of a tree.
pub open spec fn count_frames(f: CallFrame) -> nat {
    preorder(f).len()
}

/// The depth of the deepest frame in a tree: its own depth when it has no
/// children, else the deepest of its children's.
pub open spec fn deepest(f: CallFrame) -> int
    decreases f, 1int,
{
    if f.children@.len() == 0 {
        f.depth as int
    } else {
        deepest_list(f.children@)
    }
}

/// The deepest depth over a non-empty forest.
pub open spec fn deepest_list(fs: Seq<CallFrame>) -> int
    decreases fs, 0int,
{
    if fs.len() == 0 {
        0
    } else if fs.len() == 1 {
        deepest(fs[0])
    } else {
        let a = deepest_list(fs.drop_last());
        let b = deepest(fs.last());
        if a >= b {
            a
        } else {
            b
        }
    }
}

proof fn lemma_preorder_list_push(fs: Seq<CallFrame>, f: CallFrame)
    ensures
        preorder_list(fs.push(f)) == preorder_list(fs) + preorder(f),
{
    assert(fs.push(f).drop_last() =~= fs);
}

impl CallFrame {
    /// `true` when the frame returned no value: the invocation panicked or trapped.
    pub fn panicked(&self) -> (r: bool)
        ensures
            r == (self.return_value is None),
    {
        self.return_value.is_none()
    }

    /// Total number of frames in this subtree, including this frame.
    pub fn frame_count(&self) -> (r: usize)
        requires
            count_frames(*self) <= usize::MAX,
        ensures
            r == count_frames(*self),
        decreases *self,
    {
        let mut total: usize = 1;
        let mut i: usize = 0;
        while i < self.children.len()
            invariant
                i <= self.children@.len(),
                count_frames(*self) <= usize::MAX,
                total == 1 + preorder_list(self.children@.take(i as int)).len(),
            decreases self.children@.len() - i,
        {
            let ghost t = self.children@.take(i as int);
            proof {
                assert(self.children@.take(i + 1) =~= t.push(self.children@[i as int]));
                lemma_preorder_list_push(t, self.children@[i as int]);
                lemma_preorder_list_prefix_len(self.children@, i + 1);
            }
            let child = &self.children[i];
            proof {
                assert(count_frames(*child) <= usize::MAX);
            }
            total = total + child.frame_count();
            i = i + 1;
        }
        proof {
            assert(self.children@.take(self.children@.len() as int) =~= self.children@);
        }
        total
    }

    /// Depth of the deepest frame in this subtree.
    pub fn max_depth(&self) -> (r: u32)
        ensures
            r == deepest(*self),
        decreases *self,
    {
        let n = self.children.len();
        if n == 0 {
            return self.depth;
        }
        let mut best = self.children[0].max_depth();
        let mut i: usize = 1;
        proof {
            assert(self.children@.take(1).drop_last() =~= Seq::<CallFrame>::empty());
            assert(deepest_list(self.children@.take(1)) == deepest(self.children@[0]));
        }
        while i < n
            invariant
                n == self.children@.len(),
                1 <= i <= n,
                best == deepest_list(self.children@.take(i as int)),
            decreases n - i,
        {
            let d = self.children[i].max_depth();
            proof {
                assert(self.children@.take(i + 1).drop_last() =~= self.children@.take(i as int));
            }
            if d > best {
                best = d;
            }
            i = i + 1;
        }
        proof {
            assert(self.children@.take(n as int) =~= self.children@);
        }
        best
    }

    /// Every frame in this subtree, in execution order.
    pub fn frames(&self) -> (r: Vec<&CallFrame>)
        ensures
            r@.map_values(|g: &CallFrame| *g) == preorder(*self),
        decreases *self,
    {
        let mut out: Vec<&CallFrame> = Vec::new();
        out.push(self);
        let mut i: usize = 0;
        while i < self.children.len()
            invariant
                i <= self.children@.len(),
                out@.map_values(|g: &CallFrame| *g) == seq![*self] + preorder_list(
                    self.children@.take(i as int),
                ),
            decreases self.children@.len() - i,
        {
            let sub = self.children[i].frames();
            let ghost before = out@;
            let mut j: usize = 0;
            while j < sub.len()
                invariant
                    j <= sub@.len(),
                    out@ == before + sub@.take(j as int),
                decreases sub@.len() - j,
            {
                out.push(sub[j]);
                proof {
                    assert(sub@.take(j + 1) =~= sub@.take(j as int).push(sub@[j as int]));
                }
                j = j + 1;
            }
            proof {
                assert(sub@.take(sub@.len() as int) =~= sub@);
                let t = self.children@.take(i as int);
                assert(self.children@.take(i + 1) =~= t.push(self.children@[i as int]));
                lemma_preorder_list_push(t, self.children@[i as int]);
                assert(out@.map_values(|g: &CallFrame| *g) =~= before.map_values(
                    |g: &CallFrame| *g,
                ) + sub@.map_values(|g: &CallFrame| *g));
            }
            i = i + 1;
        }
        proof {
            assert(self.children@.take(self.children@.len() as int) =~= self.children@);
        }
        out
    }

    /// Every frame in this subtree whose function name is `function`, in
    /// execution order.
    pub fn find_by_function(&self, function: &str) -> (r: Vec<&CallFrame>)
        ensures
            r@.map_values(|g: &CallFrame| *g) == preorder(*self).filter(
                |g: CallFrame| g.function@ == function@,
            ),
    {
        select_by_function(self.frames(), function)
    }
}

/// The frames of `all` whose function name is `function`, in order.
fn select_by_function<'a>(all: Vec<&'a CallFrame>, function: &str) -> (r: Vec<&'a CallFrame>)
    ensures
        r@.map_values(|g: &CallFrame| *g) == all@.map_values(|g: &CallFrame| *g).filter(
            |g: CallFrame| g.function@ == function@,
        ),
{
    let name = String::from_str(function);
    let ghost all_v = all@.map_values(|g: &CallFrame| *g);
    let mut out: Vec<&CallFrame> = Vec::new();
    let mut i: usize = 0;
    while i < all.len()
        invariant
            name@ == function@,
            all_v == all@.map_values(|g: &CallFrame| *g),
            i <= all@.len(),
            out@.map_values(|g: &CallFrame| *g) == all_v.take(i as int).filter(
                |g: CallFrame| g.function@ == function@,
            ),
        decreases all@.len() - i,
    {
        proof {
            assert(all_v.take(i + 1).drop_last() =~= all_v.take(i as int));
            reveal_with_fuel(Seq::<_>::filter, 1);
        }
        if all[i].function == name {
            out.push(all[i]);
        }
        proof {
            assert(out@.map_values(|g: &CallFrame| *g) =~= all_v.take(i + 1).filter(
                |g: CallFrame| g.function@ == function@,
            ));
        }
        i = i + 1;
    }
    proof {
        assert(all_v.take(all@.len() as int) =~= all_v);
    }
    out
}

/// The frames of `all` that panicked, in order.
fn select_panicked<'a>(all: Vec<&'a CallFrame>) -> (r: Vec<&'a CallFrame>)
    ensures
        r@.map_values(|g: &CallFrame| *g) == all@.map_values(|g: &CallFrame| *g).filter(
            |g: CallFrame| g.return_value is None,
        ),
{
    let ghost all_v = all@.map_values(|g: &CallFrame| *g);
    let mut out: Vec<&CallFrame> = Vec::new();
    let mut i: usize = 0;
    while i < all.len()
        invariant
            all_v == all@.map_values(|g: &CallFrame| *g),
            i <= all@.len(),
            out@.map_values(|g: &CallFrame| *g) == all_v.take(i as int).filter(
                |g: CallFrame| g.return_value is None,
            ),
        decreases all@.len() - i,
    {
        proof {
            assert(all_v.take(i + 1).drop_last() =~= all_v.take(i as int));
            reveal_with_fuel(Seq::<_>::filter, 1);
        }
        if all[i].panicked() {
            out.push(all[i]);
        }
        proof {
            assert(out@.map_values(|g: &CallFrame| *g) =~= all_v.take(i + 1).filter(
                |g: CallFrame| g.return_value is None,
            ));
        }
        i = i + 1;
    }
    proof {
        assert(all_v.take(all@.len() as int) =~= all_v);
    }
    out
}

proof fn lemma_preorder_list_prefix_len(fs: Seq<CallFrame>, k: int)
    requires
        0 <= k <= fs.len(),
    ensures
        preorder_list(fs.take(k)).len() <= preorder_list(fs).len(),
    decreases fs.len() - k,
{
    if k < fs.len() {
        lemma_preorder_list_prefix_len(fs, k + 1);
        assert(fs.take(k + 1).drop_last() =~= fs.take(k));
    } else {
        assert(fs.take(k) =~= fs);
    }
}


/// One record of the host's invocation stream.
#[derive(Debug, PartialEq)]
pub enum TraceRecord {
    /// The host entered a contract function.
    Call { contract: Option<String>, function: String, args: Vec<TraceValue> },
    /// The host returned normally from the innermost open frame of `function`.
    Return { function: String, value: TraceValue },
}

/// A recorded cross-contract invocation forest, with the measured totals.
#[derive(Debug, PartialEq)]
pub struct CallTrace {
    roots: Vec<CallFrame>,
    total_instructions: u64,
    total_fee_stroops: i64,
}

impl CallTrace {
    /// The top-level frames.
    pub closed spec fn roots_seq(&self) -> Seq<CallFrame> {
        self.roots@
    }

    /// The measured instruction total.
    pub closed spec fn instructions_total(&self) -> u64 {
        self.total_instructions
    }

    /// The measured fee total.
    pub closed spec fn fee_total(&self) -> i64 {
        self.total_fee_stroops
    }

    /// The frames of a trace can be counted in a `usize`.
    #[verifier::type_invariant]
    closed spec fn countable(&self) -> bool {
        preorder_list(self.roots@).len() <= usize::MAX
    }
}

/// What a frame records of its own invocation: contract, function, arguments,
/// depth and return value; everything but its costs and sub-invocations.
pub type CallNode = (Option<String>, String, Vec<TraceValue>, u32, Option<TraceValue>);

pub open spec fn node_of(f: CallFrame) -> CallNode {
    (f.contract, f.function, f.args, f.depth, f.return_value)
}

/// The nodes of a forest's frames in execution order.
pub open spec fn nodes(fs: Seq<CallFrame>) -> Seq<CallNode> {
    preorder_list(fs).map_values(|g: CallFrame| node_of(g))
}

/// The tree sits at `level`: its root has that depth and its sub-invocations
/// are one level below.
pub open spec fn at_level(f: CallFrame, level: int) -> bool
    decreases f, 1int,
{
    f.depth == level as u32 && forest_at_level(f.children@, level + 1)
}

/// Every tree of the forest sits at `level`.
pub open spec fn forest_at_level(fs: Seq<CallFrame>, level: int) -> bool
    decreases fs, 0int,
{
    if fs.len() == 0 {
        true
    } else {
        forest_at_level(fs.drop_last(), level) && at_level(fs.last(), level)
    }
}

/// The position of the innermost entry equal to `function`, if any.
pub open spec fn innermost(functions: Seq<Seq<char>>, function: Seq<char>) -> Option<int>
    decreases functions.len(),
{
    if functions.len() == 0 {
        None
    } else if functions.last() == function {
        Some(functions.len() - 1)
    } else {
        innermost(functions.drop_last(), function)
    }
}

/// Replays the records. The first component is the node of every call, in call
/// order: its label, the number of calls open when it was made as its depth,
/// and the value of the `Return` that closed it, if one did. The second lists
/// the calls still open, outermost first, by position and function name.
///
/// A `Return` closes the innermost open call of its function together with
/// every call opened after it; one with no open call of its function changes
/// nothing.
pub open spec fn replay(records: Seq<TraceRecord>) -> (Seq<CallNode>, Seq<(int, Seq<char>)>)
    decreases records.len(),
{
    if records.len() == 0 {
        (seq![], seq![])
    } else {
        replay_step(replay(records.drop_last()), records.last())
    }
}

/// One record's effect on the replayed calls and open calls.
pub open spec fn replay_step(
    state: (Seq<CallNode>, Seq<(int, Seq<char>)>),
    record: TraceRecord,
) -> (Seq<CallNode>, Seq<(int, Seq<char>)>) {
    let calls = state.0;
    let open = state.1;
    match record {
        TraceRecord::Call { contract, function, args } => (
            calls.push((contract, function, args, open.len() as u32, None)),
            open.push((calls.len() as int, function@)),
        ),
        TraceRecord::Return { function, value } => match innermost(
            open.map_values(|o: (int, Seq<char>)| o.1),
            function@,
        ) {
            Some(k) => {
                let p = open[k].0;
                let n = calls[p];
                (calls.update(p, (n.0, n.1, n.2, n.3, Some(value))), open.take(k))
            },
            None => (calls, open),
        },
    }
}

/// The node of every call the records make, in call order.
pub open spec fn recorded_calls(records: Seq<TraceRecord>) -> Seq<CallNode> {
    replay(records).0
}

/// The nodes of the frames still open on the stack, each followed by the
/// subtrees it has already completed.
spec fn chain_nodes(stack: Seq<CallFrame>) -> Seq<CallNode>
    decreases stack.len(),
{
    if stack.len() == 0 {
        seq![]
    } else {
        chain_nodes(stack.drop_last()) + seq![node_of(stack.last())] + nodes(
            stack.last().children@,
        )
    }
}

/// The completed trees `roots` and the open frames `stack` are what replaying
/// some records gives as `calls` and `open`.
spec fn agrees(
    roots: Seq<CallFrame>,
    stack: Seq<CallFrame>,
    calls: Seq<CallNode>,
    open: Seq<(int, Seq<char>)>,
) -> bool {
    &&& nodes(roots) + chain_nodes(stack) == calls
    &&& stack.len() == open.len()
    &&& forest_at_level(roots, 0)
    &&& open_agree(nodes(roots).len() as int, stack, open)
}

/// Each open frame runs the function of its open call, sits at its depth, was
/// the call at its position (counting from `base`), and has completed subtrees
/// one level below it.
spec fn open_agree(base: int, stack: Seq<CallFrame>, open: Seq<(int, Seq<char>)>) -> bool {
    forall|i: int|
        0 <= i < stack.len() ==> {
            &&& (#[trigger] stack[i]).function@ == open[i].1
            &&& stack[i].depth == i as u32
            &&& open[i].0 == base + chain_nodes(stack.take(i)).len()
            &&& forest_at_level(stack[i].children@, i + 1)
        }
}

/// Every frame of a forest carries the per-frame share and its subtree's total.
pub open spec fn apportioned(fs: Seq<CallFrame>, per_instructions: int, per_fee: int) -> bool {
    forall|k: int|
        0 <= k < preorder_list(fs).len() ==> {
            let g = #[trigger] preorder_list(fs)[k];
            &&& g.self_instructions == per_instructions
            &&& g.cumulative_instructions == per_instructions * count_frames(g)
            &&& g.self_fee_stroops == per_fee
            &&& g.cumulative_fee_stroops == per_fee * count_frames(g)
        }
}

proof fn lemma_nodes_push(fs: Seq<CallFrame>, f: CallFrame)
    ensures
        nodes(fs.push(f)) == nodes(fs) + seq![node_of(f)] + nodes(f.children@),
{
    lemma_preorder_list_push(fs, f);
    assert(nodes(fs.push(f)) =~= nodes(fs) + seq![node_of(f)] + nodes(f.children@));
}

proof fn lemma_forest_at_level_push(fs: Seq<CallFrame>, f: CallFrame, level: int)
    ensures
        forest_at_level(fs.push(f), level) == (forest_at_level(fs, level) && at_level(f, level)),
{
    assert(fs.push(f).drop_last() =~= fs);
}

proof fn lemma_forest_at_level_index(fs: Seq<CallFrame>, level: int, i: int)
    requires
        forest_at_level(fs, level),
        0 <= i < fs.len(),
    ensures
        at_level(fs[i], level),
    decreases fs.len(),
{
    if i < fs.len() - 1 {
        lemma_forest_at_level_index(fs.drop_last(), level, i);
    }
}

/// Opening a call pushes a childless frame at the stack's depth.
proof fn lemma_agrees_open(
    roots: Seq<CallFrame>,
    stack: Seq<CallFrame>,
    f: CallFrame,
    calls: Seq<CallNode>,
    open: Seq<(int, Seq<char>)>,
)
    requires
        agrees(roots, stack, calls, open),
        f.children@.len() == 0,
        f.depth == stack.len() as u32,
    ensures
        agrees(
            roots,
            stack.push(f),
            calls.push(node_of(f)),
            open.push((calls.len() as int, f.function@)),
        ),
{
    let s2 = stack.push(f);
    let o2 = open.push((calls.len() as int, f.function@));
    assert(s2.drop_last() =~= stack);
    assert(nodes(f.children@) =~= Seq::<CallNode>::empty());
    assert(nodes(roots) + chain_nodes(s2) =~= calls.push(node_of(f)));
    assert forall|i: int| 0 <= i < s2.len() implies {
        &&& (#[trigger] s2[i]).function@ == o2[i].1
        &&& s2[i].depth == i as u32
        &&& o2[i].0 == nodes(roots).len() + chain_nodes(s2.take(i)).len()
        &&& forest_at_level(s2[i].children@, i + 1)
    } by {
        if i < stack.len() {
            assert(s2[i] == stack[i]);
            assert(s2.take(i) =~= stack.take(i));
        } else {
            assert(s2.take(i) =~= stack);
        }
    }
}

/// Recording the return value of the innermost open frame.
proof fn lemma_agrees_return(
    roots: Seq<CallFrame>,
    stack: Seq<CallFrame>,
    f: CallFrame,
    g: CallFrame,
    calls: Seq<CallNode>,
    open: Seq<(int, Seq<char>)>,
    value: TraceValue,
)
    requires
        agrees(roots, stack.push(f), calls, open),
        g == (CallFrame { return_value: Some(value), ..f }),
    ensures
        open.len() > 0,
        0 <= open.last().0 < calls.len(),
        agrees(
            roots,
            stack.push(g),
            calls.update(
                open.last().0,
                (
                    calls[open.last().0].0,
                    calls[open.last().0].1,
                    calls[open.last().0].2,
                    calls[open.last().0].3,
                    Some(value),
                ),
            ),
            open,
        ),
{
    let s1 = stack.push(f);
    let s2 = stack.push(g);
    let m = stack.len() as int;
    assert(s1[m] == f);
    assert(s1.take(m) =~= stack);
    assert(s1.drop_last() =~= stack);
    assert(s2.drop_last() =~= stack);
    let p = open.last().0;
    assert(p == nodes(roots).len() + chain_nodes(stack).len());
    let calls2 = calls.update(
        p,
        (calls[p].0, calls[p].1, calls[p].2, calls[p].3, Some(value)),
    );
    assert(calls[p] == node_of(f));
    assert(nodes(roots) + chain_nodes(s2) =~= calls2);
    assert forall|i: int| 0 <= i < s2.len() implies {
        &&& (#[trigger] s2[i]).function@ == open[i].1
        &&& s2[i].depth == i as u32
        &&& open[i].0 == nodes(roots).len() + chain_nodes(s2.take(i)).len()
        &&& forest_at_level(s2[i].children@, i + 1)
    } by {
        assert(s1[i] == s1[i]);
        if i < m {
            assert(s2[i] == s1[i]);
            assert(s2.take(i) =~= s1.take(i));
        } else {
            assert(s2.take(i) =~= s1.take(i));
        }
    }
}

/// Closing the innermost open frame `f`: `attach` puts it under the next open
/// frame, or among the roots.
proof fn lemma_agrees_close(
    roots: Seq<CallFrame>,
    stack: Seq<CallFrame>,
    f: CallFrame,
    roots2: Seq<CallFrame>,
    stack2: Seq<CallFrame>,
    calls: Seq<CallNode>,
    open: Seq<(int, Seq<char>)>,
)
    requires
        agrees(roots, stack.push(f), calls, open),
        attached(roots, stack, f, roots2, stack2),
    ensures
        agrees(roots2, stack2, calls, open.drop_last()),
{
    if stack.len() == 0 {
        lemma_agrees_close_root(roots, stack, f, roots2, stack2, calls, open);
    } else {
        lemma_agrees_close_child(roots, stack, f, roots2, stack2, calls, open);
    }
}

proof fn lemma_agrees_close_root(
    roots: Seq<CallFrame>,
    stack: Seq<CallFrame>,
    f: CallFrame,
    roots2: Seq<CallFrame>,
    stack2: Seq<CallFrame>,
    calls: Seq<CallNode>,
    open: Seq<(int, Seq<char>)>,
)
    requires
        agrees(roots, stack.push(f), calls, open),
        stack.len() == 0,
        roots2 == roots.push(f),
        stack2 == stack,
    ensures
        agrees(roots2, stack2, calls, open.drop_last()),
{
    let s1 = stack.push(f);
    assert(s1[0] == f);
    assert(s1.drop_last() =~= stack);
    lemma_nodes_push(roots, f);
    lemma_forest_at_level_push(roots, f, 0);
    assert(chain_nodes(stack) =~= Seq::<CallNode>::empty());
    assert(chain_nodes(s1) == chain_nodes(stack) + seq![node_of(f)] + nodes(f.children@));
    assert(nodes(roots2) + chain_nodes(stack2) =~= nodes(roots) + chain_nodes(s1));
}

/// The open frames' chain is unchanged when the innermost one moves under the
/// next.
proof fn lemma_chain_close_child(stack: Seq<CallFrame>, f: CallFrame, stack2: Seq<CallFrame>)
    requires
        stack.len() > 0,
        stack2.len() == stack.len(),
        stack2.drop_last() == stack.drop_last(),
        node_of(stack2.last()) == node_of(stack.last()),
        stack2.last().children@ == stack.last().children@.push(f),
    ensures
        chain_nodes(stack2) == chain_nodes(stack.push(f)),
{
    let p = stack.last();
    let p2 = stack2.last();
    assert(stack.push(f).drop_last() =~= stack);
    lemma_nodes_push(p.children@, f);
    assert(chain_nodes(stack2) == chain_nodes(stack2.drop_last()) + seq![node_of(p2)] + nodes(
        p2.children@,
    ));
    assert(chain_nodes(stack) == chain_nodes(stack.drop_last()) + seq![node_of(p)] + nodes(
        p.children@,
    ));
    assert(chain_nodes(stack.push(f)) == chain_nodes(stack) + seq![node_of(f)] + nodes(
        f.children@,
    ));
    assert(chain_nodes(stack2) =~= chain_nodes(stack.push(f)));
}

proof fn lemma_agrees_close_child(
    roots: Seq<CallFrame>,
    stack: Seq<CallFrame>,
    f: CallFrame,
    roots2: Seq<CallFrame>,
    stack2: Seq<CallFrame>,
    calls: Seq<CallNode>,
    open: Seq<(int, Seq<char>)>,
)
    requires
        agrees(roots, stack.push(f), calls, open),
        stack.len() > 0,
        roots2 == roots,
        stack2.len() == stack.len(),
        stack2.drop_last() == stack.drop_last(),
        node_of(stack2.last()) == node_of(stack.last()),
        stack2.last().children@ == stack.last().children@.push(f),
    ensures
        agrees(roots2, stack2, calls, open.drop_last()),
{
    lemma_chain_close_child(stack, f, stack2);
    lemma_open_agree_close_child(nodes(roots).len() as int, stack, f, stack2, open);
}

proof fn lemma_open_agree_close_child(
    base: int,
    stack: Seq<CallFrame>,
    f: CallFrame,
    stack2: Seq<CallFrame>,
    open: Seq<(int, Seq<char>)>,
)
    requires
        open_agree(base, stack.push(f), open),
        stack.push(f).len() == open.len(),
        stack.len() > 0,
        stack2.len() == stack.len(),
        stack2.drop_last() == stack.drop_last(),
        node_of(stack2.last()) == node_of(stack.last()),
        stack2.last().children@ == stack.last().children@.push(f),
    ensures
        open_agree(base, stack2, open.drop_last()),
{
    let s1 = stack.push(f);
    let m = stack.len() as int;
    let p = stack.last();
    let p2 = stack2.last();
    let o2 = open.drop_last();
    assert(s1[m] == f);
    assert(s1[m - 1] == p);
    lemma_forest_at_level_push(p.children@, f, m);
    assert(forest_at_level(p2.children@, m));
    assert forall|i: int| 0 <= i < stack2.len() implies {
        &&& (#[trigger] stack2[i]).function@ == o2[i].1
        &&& stack2[i].depth == i as u32
        &&& o2[i].0 == base + chain_nodes(stack2.take(i)).len()
        &&& forest_at_level(stack2[i].children@, i + 1)
    } by {
        assert(s1[i] == s1[i]);
        assert(stack2.take(i) =~= stack.drop_last().take(i));
        assert(s1.take(i) =~= stack.drop_last().take(i));
        if i < m - 1 {
            assert(stack2[i] == stack2.drop_last()[i]);
            assert(stack2[i] == s1[i]);
        }
    }
}

/// What `attach` does: `f` becomes the last child of the innermost open frame,
/// or the last root when none is open.
spec fn attached(
    roots: Seq<CallFrame>,
    stack: Seq<CallFrame>,
    f: CallFrame,
    roots2: Seq<CallFrame>,
    stack2: Seq<CallFrame>,
) -> bool {
    if stack.len() == 0 {
        roots2 == roots.push(f) && stack2 == stack
    } else {
        &&& roots2 == roots
        &&& stack2.len() == stack.len()
        &&& stack2.drop_last() == stack.drop_last()
        &&& node_of(stack2.last()) == node_of(stack.last())
        &&& stack2.last().children@ == stack.last().children@.push(f)
    }
}

proof fn lemma_apportioned_push(fs: Seq<CallFrame>, f: CallFrame, pi: int, pf: int)
    requires
        apportioned(fs, pi, pf),
        apportioned(seq![f], pi, pf),
    ensures
        apportioned(fs.push(f), pi, pf),
{
    lemma_preorder_list_push(fs, f);
    lemma_single(f);
    let all = preorder_list(fs.push(f));
    assert forall|k: int| 0 <= k < all.len() implies {
        let g = #[trigger] all[k];
        &&& g.self_instructions == pi
        &&& g.cumulative_instructions == pi * count_frames(g)
        &&& g.self_fee_stroops == pf
        &&& g.cumulative_fee_stroops == pf * count_frames(g)
    } by {
        if k < preorder_list(fs).len() {
            assert(all[k] == preorder_list(fs)[k]);
        } else {
            assert(all[k] == preorder_list(seq![f])[k - preorder_list(fs).len()]);
        }
    }
}

proof fn lemma_single(f: CallFrame)
    ensures
        preorder_list(seq![f]) == preorder(f),
        nodes(seq![f]) == seq![node_of(f)] + nodes(f.children@),
{
    assert(seq![f].drop_last() =~= Seq::<CallFrame>::empty());
    assert(preorder_list(Seq::<CallFrame>::empty()) == Seq::<CallFrame>::empty());
    assert(preorder_list(seq![f]) =~= preorder(f));
    assert(nodes(seq![f]) =~= seq![node_of(f)] + nodes(f.children@));
}

proof fn lemma_count_frames_unfold(f: CallFrame)
    ensures
        count_frames(f) == 1 + preorder_list(f.children@).len(),
{
}

/// Gives every frame of `frame` its share of the totals: `per_instructions` and
/// `per_fee` of its own, and the sum over its subtree as its cumulative figure.
fn apportion(frame: CallFrame, per_instructions: u64, per_fee: i64, Ghost(level): Ghost<int>) -> (r:
    CallFrame)
    requires
        per_instructions * count_frames(frame) <= u64::MAX,
        i64::MIN <= per_fee * count_frames(frame) <= i64::MAX,
        at_level(frame, level),
    ensures
        nodes(seq![r]) == nodes(seq![frame]),
        at_level(r, level),
        count_frames(r) == count_frames(frame),
        apportioned(seq![r], per_instructions as int, per_fee as int),
    decreases frame, 1int,
{
    let CallFrame {
        contract,
        function,
        args,
        return_value,
        depth,
        cumulative_instructions: _,
        self_instructions: _,
        cumulative_fee_stroops: _,
        self_fee_stroops: _,
        children,
    } = frame;
    let ghost kids = children@;
    proof {
        lemma_count_frames_unfold(frame);
        let cnt = preorder_list(kids).len() as int;
        assert(per_instructions * cnt <= per_instructions * (1 + cnt)) by (nonlinear_arith)
            requires
                cnt >= 0,
        ;
        assert(i64::MIN <= per_fee * cnt <= i64::MAX) by (nonlinear_arith)
            requires
                cnt >= 0,
                i64::MIN <= per_fee * (1 + cnt) <= i64::MAX,
        ;
        assert(decreases_to!(frame => children));
    }
    let (done, child_instructions, child_fee) = apportion_forest(
        children,
        per_instructions,
        per_fee,
        Ghost(level + 1),
    );
    let ghost done_seq = done@;
    proof {
        let cnt = preorder_list(done_seq).len() as int;
        assert(per_instructions + per_instructions * cnt == per_instructions * (1 + cnt)) by (
        nonlinear_arith);
        assert(per_fee + per_fee * cnt == per_fee * (1 + cnt)) by (nonlinear_arith);
    }
    let r = CallFrame {
        contract,
        function,
        args,
        return_value,
        depth,
        cumulative_instructions: per_instructions + child_instructions,
        self_instructions: per_instructions,
        cumulative_fee_stroops: per_fee + child_fee,
        self_fee_stroops: per_fee,
        children: done,
    };
    proof {
        lemma_count_frames_unfold(r);
        lemma_single(r);
        lemma_single(frame);
        let all = preorder_list(seq![r]);
        assert forall|k: int| 0 <= k < all.len() implies {
            let g = #[trigger] all[k];
            &&& g.self_instructions == per_instructions
            &&& g.cumulative_instructions == per_instructions * count_frames(g)
            &&& g.self_fee_stroops == per_fee
            &&& g.cumulative_fee_stroops == per_fee * count_frames(g)
        } by {
            if k > 0 {
                assert(all[k] == preorder_list(done_seq)[k - 1]);
            }
        }
    }
    r
}


/// Apportions every tree of a forest; returns the trees and their summed
/// cumulative figures.
fn apportion_forest(
    fs: Vec<CallFrame>,
    per_instructions: u64,
    per_fee: i64,
    Ghost(level): Ghost<int>,
) -> (r: (Vec<CallFrame>, u64, i64))
    requires
        per_instructions * preorder_list(fs@).len() <= u64::MAX,
        i64::MIN <= per_fee * preorder_list(fs@).len() <= i64::MAX,
        forest_at_level(fs@, level),
    ensures
        nodes(r.0@) == nodes(fs@),
        forest_at_level(r.0@, level),
        preorder_list(r.0@).len() == preorder_list(fs@).len(),
        apportioned(r.0@, per_instructions as int, per_fee as int),
        r.1 == per_instructions * preorder_list(fs@).len(),
        r.2 == per_fee * preorder_list(fs@).len(),
    decreases fs, 0int,
{
    let ghost kids = fs@;
    proof {
        assert forall|i: int| 0 <= i < kids.len() implies decreases_to!(fs => #[trigger] kids[i]) by {
            assert(decreases_to!(fs => fs@));
            assert(decreases_to!(fs@ => fs@[i]));
        }
    }
    let mut pending = fs;
    let mut reversed: Vec<CallFrame> = Vec::new();
    while pending.len() > 0
        invariant
            pending@ + reversed@.reverse() == kids,
        decreases pending@.len(),
    {
        let c = pending.pop().unwrap();
        proof {
            assert(pending@ + reversed@.push(c).reverse() =~= kids);
        }
        reversed.push(c);
    }
    proof {
        assert(reversed@.reverse() =~= kids);
    }
    let mut done: Vec<CallFrame> = Vec::new();
    let mut child_instructions: u64 = 0;
    let mut child_fee: i64 = 0;
    proof {
        assert(kids.take(0) =~= Seq::<CallFrame>::empty());
        assert(kids.skip(0) =~= kids);
    }
    while reversed.len() > 0
        invariant
            forall|i: int| 0 <= i < kids.len() ==> decreases_to!(fs => #[trigger] kids[i]),
            done@.len() <= kids.len(),
            reversed@.reverse() == kids.skip(done@.len() as int),
            nodes(done@) == nodes(kids.take(done@.len() as int)),
            forest_at_level(kids, level),
            forest_at_level(done@, level),
            preorder_list(done@).len() == preorder_list(kids.take(done@.len() as int)).len(),
            apportioned(done@, per_instructions as int, per_fee as int),
            child_instructions == per_instructions * preorder_list(done@).len(),
            child_fee == per_fee * preorder_list(done@).len(),
            per_instructions * preorder_list(kids).len() <= u64::MAX,
            i64::MIN <= per_fee * preorder_list(kids).len() <= i64::MAX,
        decreases reversed@.len(),
    {
        let ghost r0 = reversed@;
        let c = reversed.pop().unwrap();
        let ghost n = done@.len() as int;
        proof {
            assert(r0 =~= reversed@.push(c));
            assert(r0.len() >= 1);
            assert(r0.reverse()[0] == r0[r0.len() - 1]);
            assert(r0.reverse()[0] == c);
            assert(r0.reverse() == kids.skip(n));
            assert(kids.skip(n).len() == kids.len() - n);
            assert(n < kids.len());
            assert(kids.skip(n)[0] == kids[n]);
            assert(kids[n] == c);
            assert forall|j: int| 0 <= j < reversed@.len() implies #[trigger] reversed@.reverse()[j]
                == kids.skip(n + 1)[j] by {
                assert(kids.skip(n + 1)[j] == kids.skip(n)[j + 1]);
                assert(r0.reverse()[j + 1] == r0[r0.len() - 2 - j]);
            }
            assert(reversed@.reverse() =~= kids.skip(n + 1));
            assert(kids.take(n + 1) =~= kids.take(n).push(c));
            lemma_preorder_list_push(kids.take(n), c);
            lemma_preorder_list_prefix_len(kids, n + 1);
            let cc = count_frames(c) as int;
            let total = preorder_list(kids).len() as int;
            assert(0 <= cc <= total);
            assert(per_instructions * cc <= per_instructions * total) by (nonlinear_arith)
                requires
                    0 <= cc <= total,
            ;
            assert(i64::MIN <= per_fee * cc <= i64::MAX) by (nonlinear_arith)
                requires
                    0 <= cc <= total,
                    i64::MIN <= per_fee * total <= i64::MAX,
            ;
            assert(decreases_to!(fs => kids[n]));
            lemma_forest_at_level_index(kids, level, n);
        }
        let a = apportion(c, per_instructions, per_fee, Ghost(level));
        proof {
            let before = preorder_list(done@).len() as int;
            let cc = count_frames(c) as int;
            let total = preorder_list(kids).len() as int;
            lemma_preorder_list_push(done@, a);
            lemma_nodes_push(done@, a);
            lemma_nodes_push(kids.take(n), c);
            lemma_forest_at_level_push(done@, a, level);
            lemma_single(a);
            lemma_single(c);
            assert(before + cc <= total);
            assert(per_instructions * (before + cc) <= per_instructions * total) by (
            nonlinear_arith)
                requires
                    0 <= before + cc <= total,
            ;
            assert(i64::MIN <= per_fee * (before + cc) <= i64::MAX) by (nonlinear_arith)
                requires
                    0 <= before + cc <= total,
                    i64::MIN <= per_fee * total <= i64::MAX,
            ;
            assert(per_instructions * before + per_instructions * cc == per_instructions * (
            before + cc)) by (nonlinear_arith);
            assert(per_fee * before + per_fee * cc == per_fee * (before + cc)) by (
            nonlinear_arith);
            lemma_apportioned_push(done@, a, per_instructions as int, per_fee as int);
            assert(nodes(done@.push(a)) =~= nodes(done@) + nodes(seq![a]));
            assert(nodes(kids.take(n).push(c)) =~= nodes(kids.take(n)) + nodes(seq![c]));
            assert(nodes(done@.push(a)) == nodes(kids.take(n + 1)));
            assert(preorder_list(kids.take(n)).len() == before);
            assert(preorder_list(kids.take(n).push(c)).len() == before + cc);
            assert(preorder_list(done@.push(a)).len() == preorder_list(kids.take(n + 1)).len());
            assert(preorder(a)[0] == a);
            assert(a.cumulative_instructions == per_instructions * cc);
            assert(a.cumulative_fee_stroops == per_fee * cc);
        }
        child_instructions = child_instructions + a.cumulative_instructions;
        child_fee = child_fee + a.cumulative_fee_stroops;
        done.push(a);
    }
    proof {
        assert(done@.len() == kids.len());
        assert(kids.take(kids.len() as int) =~= kids);
    }
    (done, child_instructions, child_fee)
}

/// Number of frames across a forest.
fn forest_frame_count(fs: &Vec<CallFrame>) -> (r: usize)
    requires
        preorder_list(fs@).len() <= usize::MAX,
    ensures
        r == preorder_list(fs@).len(),
{
    let mut total: usize = 0;
    let mut i: usize = 0;
    while i < fs.len()
        invariant
            i <= fs@.len(),
            preorder_list(fs@).len() <= usize::MAX,
            total == preorder_list(fs@.take(i as int)).len(),
        decreases fs@.len() - i,
    {
        proof {
            let t = fs@.take(i as int);
            assert(fs@.take(i + 1) =~= t.push(fs@[i as int]));
            lemma_preorder_list_push(t, fs@[i as int]);
            lemma_preorder_list_prefix_len(fs@, i + 1);
        }
        total = total + fs[i].frame_count();
        i = i + 1;
    }
    proof {
        assert(fs@.take(fs@.len() as int) =~= fs@);
    }
    total
}

/// The function names of the open frames, outermost first.
spec fn open_functions(stack: Seq<CallFrame>) -> Seq<Seq<char>> {
    stack.map_values(|f: CallFrame| f.function@)
}

/// How many open frames there are up to and including the innermost one
/// running `function`, if any is.
fn innermost_open(stack: &Vec<CallFrame>, function: &String) -> (r: Option<usize>)
    ensures
        (match r {
            Some(t) => t >= 1 && innermost(open_functions(stack@), function@) == Some(t - 1),
            None => innermost(open_functions(stack@), function@) is None,
        }),
{
    let ghost fns = open_functions(stack@);
    let mut t: usize = stack.len();
    proof {
        assert(fns.take(t as int) =~= fns);
    }
    while t > 0
        invariant
            t <= stack@.len(),
            fns == open_functions(stack@),
            innermost(fns, function@) == innermost(fns.take(t as int), function@),
        decreases t,
    {
        proof {
            assert(fns.take(t as int).drop_last() =~= fns.take(t - 1));
            assert(fns.take(t as int).last() == stack@[t - 1].function@);
        }
        if stack[t - 1].function == *function {
            return Some(t);
        }
        t = t - 1;
    }
    proof {
        assert(fns.take(0) =~= Seq::<Seq<char>>::empty());
    }
    None
}

/// Places a completed frame under the innermost open frame, or among the roots.
fn attach(stack: &mut Vec<CallFrame>, roots: &mut Vec<CallFrame>, frame: CallFrame)
    ensures
        attached(old(roots)@, old(stack)@, frame, final(roots)@, final(stack)@),
{
    if stack.len() == 0 {
        roots.push(frame);
    } else {
        let ghost s0 = stack@;
        let mut parent = stack.pop().unwrap();
        let ghost p0 = parent;
        parent.children.push(frame);
        proof {
            assert(s0.drop_last() =~= stack@);
        }
        stack.push(parent);
        proof {
            assert(stack@.drop_last() =~= s0.drop_last());
            assert(node_of(parent) == node_of(p0));
        }
    }
}

proof fn lemma_innermost_bound(functions: Seq<Seq<char>>, function: Seq<char>)
    ensures
        innermost(functions, function) matches Some(k) ==> 0 <= k < functions.len()
            && functions[k] == function,
    decreases functions.len(),
{
    if functions.len() > 0 && functions.last() != function {
        lemma_innermost_bound(functions.drop_last(), function);
    }
}

proof fn lemma_replay_len(records: Seq<TraceRecord>)
    ensures
        replay(records).0.len() <= records.len(),
        forall|i: int|
            0 <= i < replay(records).1.len() ==> 0 <= #[trigger] replay(records).1[i].0 < replay(
                records,
            ).0.len(),
    decreases records.len(),
{
    if records.len() > 0 {
        let before = replay(records.drop_last());
        lemma_replay_len(records.drop_last());
        let after = replay(records);
        assert(after == replay_step(before, records.last()));
        match records.last() {
            TraceRecord::Call { .. } => {
                assert forall|i: int| 0 <= i < after.1.len() implies 0 <= #[trigger] after.1[i].0
                    < after.0.len() by {
                    if i < before.1.len() {
                        assert(after.1[i] == before.1[i]);
                    }
                }
            },
            TraceRecord::Return { function, value } => {
                let fns = before.1.map_values(|o: (int, Seq<char>)| o.1);
                lemma_innermost_bound(fns, function@);
                match innermost(fns, function@) {
                    Some(k) => {
                        assert(0 <= before.1[k].0 < before.0.len());
                        assert(after.0.len() == before.0.len());
                        assert forall|i: int| 0 <= i < after.1.len() implies 0
                            <= #[trigger] after.1[i].0 < after.0.len() by {
                            assert(after.1[i] == before.1[i]);
                        }
                    },
                    None => {},
                }
            },
        }
    }
}

/// Applies one record to the completed trees and the open frames.
fn apply_record(
    stack: &mut Vec<CallFrame>,
    roots: &mut Vec<CallFrame>,
    rec: TraceRecord,
    Ghost(calls): Ghost<Seq<CallNode>>,
    Ghost(open): Ghost<Seq<(int, Seq<char>)>>,
)
    requires
        agrees(old(roots)@, old(stack)@, calls, open),
    ensures
        agrees(
            final(roots)@,
            final(stack)@,
            replay_step((calls, open), rec).0,
            replay_step((calls, open), rec).1,
        ),
{
    match rec {
        TraceRecord::Call { contract, function, args } => {
            let depth = stack.len() as u32;
            let frame = CallFrame {
                contract,
                function,
                args,
                return_value: None,
                depth,
                cumulative_instructions: 0,
                self_instructions: 0,
                cumulative_fee_stroops: 0,
                self_fee_stroops: 0,
                children: Vec::new(),
            };
            proof {
                lemma_agrees_open(roots@, stack@, frame, calls, open);
            }
            stack.push(frame);
        },
        TraceRecord::Return { function, value } => {
            let ghost fns = open.map_values(|o: (int, Seq<char>)| o.1);
            proof {
                assert(open_functions(stack@) =~= fns);
                lemma_innermost_bound(fns, function@);
            }
            if let Some(t) = innermost_open(&stack, &function) {
                // Frames left open above the target panicked: close them first.
                close_down_to(stack, roots, t, Ghost(calls), Ghost(open));
                let ghost s0 = stack@;
                let ghost r0 = roots@;
                let frame = stack.pop().unwrap();
                let ghost s1 = stack@;
                proof {
                    assert(s1.push(frame) =~= s0);
                }
                let ghost f0 = frame;
                let mut frame = frame;
                frame.return_value = Some(value);
                let ghost opened = open.take(t as int);
                let ghost p = opened.last().0;
                let ghost updated = calls.update(
                    p,
                    (calls[p].0, calls[p].1, calls[p].2, calls[p].3, Some(value)),
                );
                proof {
                    lemma_agrees_return(r0, s1, f0, frame, calls, opened, value);
                    assert(opened.last() == open[t - 1]);
                }
                attach(stack, roots, frame);
                proof {
                    lemma_agrees_close(r0, s1, frame, roots@, stack@, updated, opened);
                    assert(opened.drop_last() =~= open.take(t - 1));
                }
            }
        },
    }
}

/// Closes the open frames down to `t` of them, as panicked.
fn close_down_to(
    stack: &mut Vec<CallFrame>,
    roots: &mut Vec<CallFrame>,
    t: usize,
    Ghost(calls): Ghost<Seq<CallNode>>,
    Ghost(open): Ghost<Seq<(int, Seq<char>)>>,
)
    requires
        t <= old(stack)@.len(),
        agrees(old(roots)@, old(stack)@, calls, open),
    ensures
        final(stack)@.len() == t,
        agrees(final(roots)@, final(stack)@, calls, open.take(t as int)),
{
    proof {
        assert(open.take(stack@.len() as int) =~= open);
    }
    while stack.len() > t
        invariant
            t <= stack@.len() <= open.len(),
            agrees(roots@, stack@, calls, open.take(stack@.len() as int)),
        decreases stack@.len(),
    {
        let ghost s0 = stack@;
        let ghost r0 = roots@;
        let orphan = stack.pop().unwrap();
        proof {
            assert(stack@.push(orphan) =~= s0);
        }
        let ghost s1 = stack@;
        attach(stack, roots, orphan);
        proof {
            lemma_agrees_close(r0, s1, orphan, roots@, stack@, calls, open.take(s0.len() as int));
            assert(open.take(s0.len() as int).drop_last() =~= open.take(stack@.len() as int));
        }
    }
}

/// Reconstructs the invocation forest from the host's call and return records.
///
/// Every `Call` opens a frame one level below the innermost open one. A `Return`
/// closes the innermost open frame of its function and records its value;
/// frames still open above it panicked and are closed first, so the tree stays
/// well formed. Frames still open at the end panicked too. A `Return` with no
/// open frame of its function is ignored. The totals are then shared equally among the frames:
/// each gets `total / frames`, and its cumulative figure is the sum over its
/// subtree.
pub fn build_trace(records: Vec<TraceRecord>, total_instructions: u64, total_fee_stroops: i64) -> (r:
    CallTrace)
    ensures
        r.instructions_total() == total_instructions,
        r.fee_total() == total_fee_stroops,
        nodes(r.roots_seq()) == recorded_calls(records@),
        forest_at_level(r.roots_seq(), 0),
        apportioned(
            r.roots_seq(),
            (if recorded_calls(records@).len() == 0 {
                0
            } else {
                total_instructions as int / recorded_calls(records@).len() as int
            }),
            (if recorded_calls(records@).len() == 0 {
                0
            } else {
                truncated_div(total_fee_stroops as int, recorded_calls(records@).len() as int)
            }),
        ),
{
    let ghost all = records@;
    let record_count = records.len();
    let mut pending = records;
    let mut reversed: Vec<TraceRecord> = Vec::new();
    while pending.len() > 0
        invariant
            pending@ + reversed@.reverse() == all,
        decreases pending@.len(),
    {
        let rec = pending.pop().unwrap();
        proof {
            assert(pending@ + reversed@.push(rec).reverse() =~= all);
        }
        reversed.push(rec);
    }
    proof {
        assert(reversed@.reverse() =~= all);
    }
    let mut roots: Vec<CallFrame> = Vec::new();
    // Frames whose return has not been seen yet, outermost first.
    let mut stack: Vec<CallFrame> = Vec::new();
    let mut seen: usize = 0;
    proof {
        assert(all.take(0) =~= Seq::<TraceRecord>::empty());
        assert(nodes(Seq::<CallFrame>::empty()) =~= Seq::<CallNode>::empty());
        assert(chain_nodes(Seq::<CallFrame>::empty()) =~= Seq::<CallNode>::empty());
    }
    while seen < record_count
        invariant
            seen <= all.len(),
            all.len() == record_count,
            all.take(seen as int) + reversed@.reverse() == all,
            agrees(
                roots@,
                stack@,
                replay(all.take(seen as int)).0,
                replay(all.take(seen as int)).1,
            ),
        decreases record_count - seen,
    {
        let rec = reversed.pop().unwrap();
        let ghost before = replay(all.take(seen as int));
        proof {
            assert(all.take(seen as int).push(rec) + reversed@.reverse() =~= all);
            assert(all.take(seen + 1) =~= all.take(seen as int).push(rec));
            assert(all.take(seen + 1).drop_last() =~= all.take(seen as int));
            assert(seen < all.len());
        }
        apply_record(&mut stack, &mut roots, rec, Ghost(before.0), Ghost(before.1));
        seen = seen + 1;
    }
    // Anything still open panicked without returning.
    let ghost last = replay(all);
    proof {
        assert(all.take(all.len() as int) =~= all);
    }
    close_down_to(&mut stack, &mut roots, 0, Ghost(last.0), Ghost(last.1));
    proof {
        assert(last.1.take(0) =~= Seq::<(int, Seq<char>)>::empty());
        assert(stack@ =~= Seq::<CallFrame>::empty());
        assert(chain_nodes(stack@) =~= Seq::<CallNode>::empty());
        assert(nodes(roots@) =~= last.0);
        lemma_replay_len(all);
        assert(nodes(roots@).len() == preorder_list(roots@).len());
    }
    let n: usize = forest_frame_count(&roots);
    let per_instructions: u64 = if n == 0 {
        0
    } else {
        total_instructions / (n as u64)
    };
    let per_fee: i64 = if n == 0 {
        0
    } else {
        let q: i128 = if total_fee_stroops >= 0 {
            (total_fee_stroops as i128) / (n as i128)
        } else {
            -((-(total_fee_stroops as i128)) / (n as i128))
        };
        proof {
            lemma_truncated_div_bound(total_fee_stroops as int, n as int);
        }
        q as i64
    };
    proof {
        if n > 0 {
            lemma_fundamental_div_mod(total_instructions as int, n as int);
            lemma_mod_bound(total_instructions as int, n as int);
            assert(per_instructions * n <= total_instructions) by (nonlinear_arith)
                requires
                    total_instructions == n * (total_instructions as int / n as int) + (
                    total_instructions as int % n as int),
                    0 <= total_instructions as int % n as int,
                    per_instructions == total_instructions as int / n as int,
            ;
            lemma_truncated_div_bound(total_fee_stroops as int, n as int);
        }
    }
    let (apportioned_roots, _, _) = apportion_forest(roots, per_instructions, per_fee, Ghost(0));
    CallTrace { roots: apportioned_roots, total_instructions, total_fee_stroops }
}

proof fn lemma_truncated_div_bound(a: int, n: int)
    requires
        n > 0,
        i64::MIN <= a <= i64::MAX,
    ensures
        i64::MIN <= truncated_div(a, n) * n <= i64::MAX,
        i64::MIN <= truncated_div(a, n) <= i64::MAX,
{
    if a >= 0 {
        lemma_fundamental_div_mod(a, n);
        lemma_mod_bound(a, n);
        assert(0 <= (a / n) * n <= a) by (nonlinear_arith)
            requires
                a == n * (a / n) + a % n,
                0 <= a % n,
                a >= 0,
                n > 0,
        ;
        assert(a / n <= a) by (nonlinear_arith)
            requires
                (a / n) * n <= a,
                n > 0,
                a >= 0,
        ;
    } else {
        let b = -a;
        lemma_fundamental_div_mod(b, n);
        lemma_mod_bound(b, n);
        assert(0 <= (b / n) * n <= b) by (nonlinear_arith)
            requires
                b == n * (b / n) + b % n,
                0 <= b % n,
                b >= 0,
                n > 0,
        ;
        assert(0 <= b / n <= b) by (nonlinear_arith)
            requires
                (b / n) * n <= b,
                0 <= (b / n) * n,
                n > 0,
                b >= 0,
        ;
        assert(truncated_div(a, n) * n == -((b / n) * n)) by (nonlinear_arith)
            requires
                truncated_div(a, n) == -(b / n),
        ;
    }
}

/// Truncating integer division, as Rust's `/` on signed integers.
pub open spec fn truncated_div(a: int, b: int) -> int {
    if a >= 0 {
        a / b
    } else {
        -((-a) / b)
    }
}

// ── Rendering ──────────────────────────────────────────────────────────────

/// Two spaces of indentation per level.
pub open spec fn indentation(level: nat) -> Seq<char> {
    repeat_seq("  "@, level)
}

/// The layout a pad selects: indented at `level` when there is a pad, compact
/// otherwise.
pub open spec fn layout(pad: Option<String>, level: nat) -> Option<nat> {
    if pad is Some {
        Some(level)
    } else {
        None
    }
}

/// A newline in indented form, nothing in compact form.
pub open spec fn line_break(indent: Option<nat>) -> Seq<char> {
    if indent is Some {
        seq!['\n']
    } else {
        seq![]
    }
}

/// What separates a key from its value.
pub open spec fn key_separator(indent: Option<nat>) -> Seq<char> {
    if indent is Some {
        seq![':', ' ']
    } else {
        seq![':']
    }
}

/// Indentation `extra` levels below `indent`; nothing in compact form.
pub open spec fn pad_below(indent: Option<nat>, extra: nat) -> Seq<char> {
    match indent {
        Some(level) => indentation(level + extra),
        None => seq![],
    }
}

/// The layout of a nested array's elements.
pub open spec fn nested(indent: Option<nat>) -> Option<nat> {
    match indent {
        Some(level) => Some(level + 2),
        None => None,
    }
}

/// A JSON string literal holding `s`.
pub open spec fn quoted(s: Seq<char>) -> Seq<char> {
    seq!['"'] + json_escaped(s) + seq!['"']
}

/// The start of an object member: its indentation, quoted key and separator.
pub open spec fn member_key(key: Seq<char>, indent: Option<nat>) -> Seq<char> {
    pad_below(indent, 1) + seq!['"'] + key + seq!['"'] + key_separator(indent)
}

/// An object member that is followed by another.
#[verifier::opaque]
pub open spec fn member(key: Seq<char>, value: Seq<char>, indent: Option<nat>) -> Seq<char> {
    member_key(key, indent) + value + seq![','] + line_break(indent)
}

/// The JSON form of a value: scalars as JSON scalars, symbols and other values
/// as strings, vectors as arrays.
#[verifier::opaque]
pub open spec fn value_json(v: TraceValue) -> Seq<char>
    decreases v, 1int,
{
    match v {
        TraceValue::Bool(b) => if b {
            "true"@
        } else {
            "false"@
        },
        TraceValue::Void => "null"@,
        TraceValue::U32(x) => decimal(x as nat),
        TraceValue::I32(x) => signed_decimal(x as int),
        TraceValue::U64(x) => decimal(x as nat),
        TraceValue::I64(x) => signed_decimal(x as int),
        TraceValue::Symbol(text) => quoted(text@),
        TraceValue::InvalidSymbol => "\"<invalid symbol>\""@,
        TraceValue::Vec(items) => seq!['['] + values_json(items@) + seq![']'],
        TraceValue::EmptyVec => "[]"@,
        TraceValue::Other(text) => quoted(text@),
    }
}

/// Values in JSON form, separated by commas.
#[verifier::opaque]
pub open spec fn values_json(vs: Seq<TraceValue>) -> Seq<char>
    decreases vs, 0int,
{
    if vs.len() == 0 {
        seq![]
    } else if vs.len() == 1 {
        value_json(vs[0])
    } else {
        values_json(vs.drop_last()) + seq![','] + value_json(vs.last())
    }
}

/// Appends a JSON string literal holding `s`.
fn push_quoted(out: &mut String, s: &str)
    ensures
        final(out)@ == old(out)@ + quoted(s@),
{
    let ghost start = out@;
    push_char(out, '"');
    push_json_escaped(out, s);
    push_char(out, '"');
    proof {
        assert(out@ =~= start + quoted(s@));
    }
}

/// Appends the JSON form of a value.
fn push_value_json(out: &mut String, v: &TraceValue)
    ensures
        final(out)@ == old(out)@ + value_json(*v),
    decreases *v, 1int,
{
    let ghost start = out@;
    match v {
        TraceValue::Bool(b) => {
            if *b {
                out.append("true");
            } else {
                out.append("false");
            }
        },
        TraceValue::Void => out.append("null"),
        TraceValue::U32(x) => push_u64(out, *x as u64),
        TraceValue::I32(x) => push_i64(out, *x as i64),
        TraceValue::U64(x) => push_u64(out, *x),
        TraceValue::I64(x) => push_i64(out, *x),
        TraceValue::Symbol(text) => push_quoted(out, text.as_str()),
        TraceValue::InvalidSymbol => out.append("\"<invalid symbol>\""),
        TraceValue::Vec(items) => {
            proof {
                assert(decreases_to!(*v => *items));
            }
            push_char(out, '[');
            push_values_json(out, items);
            push_char(out, ']');
            proof {
                reveal_with_fuel(value_json, 1);
                reveal_with_fuel(values_json, 1);
                assert(value_json(*v) == seq!['['] + values_json(items@) + seq![']']);
            }
            assert(out@ =~= start + value_json(*v));
        },
        TraceValue::EmptyVec => out.append("[]"),
        TraceValue::Other(text) => push_quoted(out, text.as_str()),
    }
    assert(out@ =~= start + value_json(*v)) by {
        reveal_with_fuel(value_json, 1);
        reveal_with_fuel(values_json, 1);
    }
}

/// Appends values in JSON form, separated by commas.
fn push_values_json(out: &mut String, vs: &Vec<TraceValue>)
    ensures
        final(out)@ == old(out)@ + values_json(vs@),
    decreases *vs, 0int,
{
    let ghost start = out@;
    proof {
        assert forall|i: int| 0 <= i < vs@.len() implies decreases_to!(*vs => #[trigger] vs@[i]) by {
            assert(decreases_to!(*vs => vs@));
        }
        assert(vs@.take(0) =~= Seq::<TraceValue>::empty());
        assert(values_json(Seq::<TraceValue>::empty()) == Seq::<char>::empty()) by {
            reveal_with_fuel(value_json, 1);
            reveal_with_fuel(values_json, 1);
        }
    }
    let mut i: usize = 0;
    while i < vs.len()
        invariant
            forall|k: int| 0 <= k < vs@.len() ==> decreases_to!(*vs => #[trigger] vs@[k]),
            i <= vs@.len(),
            out@ == start + values_json(vs@.take(i as int)),
        decreases vs@.len() - i,
    {
        let ghost before = out@;
        if i > 0 {
            push_char(out, ',');
        }
        push_value_json(out, &vs[i]);
        proof {
            let t = vs@.take(i + 1);
            assert(t.drop_last() =~= vs@.take(i as int));
            assert(out@ =~= start + values_json(t)) by {
                reveal_with_fuel(value_json, 1);
                reveal_with_fuel(values_json, 1);
            }
        }
        i = i + 1;
    }
    proof {
        assert(vs@.take(vs@.len() as int) =~= vs@);
    }
}

/// A frame's contract as JSON: its strkey, or `null`.
pub open spec fn contract_json(f: CallFrame) -> Seq<char> {
    match f.contract {
        Some(c) => quoted(c@),
        None => "null"@,
    }
}

/// A frame's return value as JSON, or `null` when it panicked.
pub open spec fn return_value_json(f: CallFrame) -> Seq<char> {
    match f.return_value {
        Some(v) => value_json(v),
        None => "null"@,
    }
}

/// Whether a frame panicked, as JSON.
pub open spec fn panicked_json(f: CallFrame) -> Seq<char> {
    if f.return_value is None {
        "true"@
    } else {
        "false"@
    }
}

/// The scalar members of a frame's JSON object, in order.
#[verifier::opaque]
pub open spec fn frame_members(f: CallFrame, indent: Option<nat>) -> Seq<char> {
    member("contract"@, contract_json(f), indent) + member("function"@, quoted(f.function@), indent) + member(
        "args"@,
        seq!['['] + values_json(f.args@) + seq![']'],
        indent,
    ) + member("return_value"@, return_value_json(f), indent) + member(
        "panicked"@,
        panicked_json(f),
        indent,
    ) + member("depth"@, decimal(f.depth as nat), indent) + member(
        "self_instructions"@,
        decimal(f.self_instructions as nat),
        indent,
    ) + member("cumulative_instructions"@, decimal(f.cumulative_instructions as nat), indent)
        + member("self_fee_stroops"@, signed_decimal(f.self_fee_stroops as int), indent) + member(
        "cumulative_fee_stroops"@,
        signed_decimal(f.cumulative_fee_stroops as int),
        indent,
    )
}

/// A frame and its subtree as a JSON object.
#[verifier::opaque]
pub open spec fn frame_json(f: CallFrame, indent: Option<nat>) -> Seq<char>
    decreases f, 2int,
{
    seq!['{'] + line_break(indent) + frame_members(f, indent) + member_key("children"@, indent)
        + array_json(f.children@, indent) + line_break(indent) + pad_below(indent, 0) + seq!['}']
}

/// Frames as a JSON array: `[]` when there are none, else one element per line
/// in indented form.
#[verifier::opaque]
pub open spec fn array_json(fs: Seq<CallFrame>, indent: Option<nat>) -> Seq<char>
    decreases fs, 1int,
{
    if fs.len() == 0 {
        "[]"@
    } else {
        seq!['['] + line_break(indent) + frames_joined(fs, nested(indent)) + line_break(indent)
            + pad_below(indent, 1) + seq![']']
    }
}

/// Frames as JSON objects, each after its indentation, separated by commas.
#[verifier::opaque]
pub open spec fn frames_joined(fs: Seq<CallFrame>, indent: Option<nat>) -> Seq<char>
    decreases fs, 0int,
{
    if fs.len() == 0 {
        seq![]
    } else if fs.len() == 1 {
        pad_below(indent, 0) + frame_json(fs[0], indent)
    } else {
        frames_joined(fs.drop_last(), indent) + seq![','] + line_break(indent) + pad_below(indent, 0)
            + frame_json(fs.last(), indent)
    }
}

/// Appends a newline in indented form.
fn push_line_break(out: &mut String, pad: &Option<String>, Ghost(level): Ghost<nat>)
    ensures
        final(out)@ == old(out)@ + line_break(layout(*pad, level)),
{
    if pad.is_some() {
        push_char(out, '\n');
    }
    proof {
        assert(final(out)@ =~= old(out)@ + line_break(layout(*pad, level)));
    }
}

/// Appends the indentation `extra` levels below the pad (one or none).
fn push_pad_below(out: &mut String, pad: &Option<String>, one_more: bool, Ghost(level): Ghost<nat>)
    requires
        *pad matches Some(p) ==> p@ == indentation(level),
    ensures
        final(out)@ == old(out)@ + pad_below(layout(*pad, level), if one_more {
            1
        } else {
            0
        }),
{
    let ghost start = out@;
    match pad {
        Some(p) => {
            out.append(p.as_str());
            if one_more {
                out.append("  ");
            }
            proof {
                if one_more {
                    assert(indentation(level + 1) == indentation(level) + "  "@);
                }
                assert(out@ =~= start + pad_below(layout(*pad, level), if one_more {
                    1
                } else {
                    0
                }));
            }
        },
        None => {
            proof {
                assert(out@ =~= start + pad_below(layout(*pad, level), if one_more {
                    1
                } else {
                    0
                }));
            }
        },
    }
}

/// The pad of a nested array's elements.
fn nested_pad(pad: &Option<String>, Ghost(level): Ghost<nat>) -> (r: Option<String>)
    requires
        *pad matches Some(p) ==> p@ == indentation(level),
    ensures
        layout(r, (level + 2) as nat) == nested(layout(*pad, level)),
        r matches Some(q) ==> q@ == indentation(level + 2),
{
    match pad {
        Some(p) => {
            let mut q = p.clone();
            q.append("  ");
            q.append("  ");
            proof {
                assert(indentation(level + 1) == indentation(level) + "  "@);
                assert(indentation(level + 2) == indentation(level + 1) + "  "@);
                assert(q@ =~= indentation(level + 2));
            }
            Some(q)
        },
        None => None,
    }
}

/// Appends the start of an object member.
fn push_member_key(out: &mut String, key: &str, pad: &Option<String>, Ghost(level): Ghost<nat>)
    requires
        *pad matches Some(p) ==> p@ == indentation(level),
    ensures
        final(out)@ == old(out)@ + member_key(key@, layout(*pad, level)),
{
    let ghost start = out@;
    push_pad_below(out, pad, true, Ghost(level));
    push_char(out, '"');
    out.append(key);
    push_char(out, '"');
    push_char(out, ':');
    if pad.is_some() {
        push_char(out, ' ');
    }
    proof {
        assert(out@ =~= start + member_key(key@, layout(*pad, level)));
    }
}

/// Appends what follows a member that is not the last.
fn push_member_end(out: &mut String, pad: &Option<String>, Ghost(level): Ghost<nat>)
    ensures
        final(out)@ == old(out)@ + seq![','] + line_break(layout(*pad, level)),
{
    push_char(out, ',');
    push_line_break(out, pad, Ghost(level));
}

/// Appends a member whose value is the JSON string holding `text`.
fn push_member_quoted(out: &mut String, key: &str, text: &str, pad: &Option<String>, Ghost(level): Ghost<nat>)
    requires
        *pad matches Some(p) ==> p@ == indentation(level),
    ensures
        final(out)@ == old(out)@ + member(key@, quoted(text@), layout(*pad, level)),
{
    let ghost start = out@;
    push_member_key(out, key, pad, Ghost(level));
    push_quoted(out, text);
    push_member_end(out, pad, Ghost(level));
    assert(out@ =~= start + member(key@, quoted(text@), layout(*pad, level))) by {
        reveal(member);
    }
}

/// Appends a member whose value is the literal JSON text `value`.
fn push_member_text(out: &mut String, key: &str, value: &str, pad: &Option<String>, Ghost(level): Ghost<nat>)
    requires
        *pad matches Some(p) ==> p@ == indentation(level),
    ensures
        final(out)@ == old(out)@ + member(key@, value@, layout(*pad, level)),
{
    let ghost start = out@;
    push_member_key(out, key, pad, Ghost(level));
    out.append(value);
    push_member_end(out, pad, Ghost(level));
    assert(out@ =~= start + member(key@, value@, layout(*pad, level))) by {
        reveal(member);
    }
}

/// Appends a member whose value is an unsigned number.
fn push_member_u64(out: &mut String, key: &str, n: u64, pad: &Option<String>, Ghost(level): Ghost<nat>)
    requires
        *pad matches Some(p) ==> p@ == indentation(level),
    ensures
        final(out)@ == old(out)@ + member(key@, decimal(n as nat), layout(*pad, level)),
{
    let ghost start = out@;
    push_member_key(out, key, pad, Ghost(level));
    push_u64(out, n);
    push_member_end(out, pad, Ghost(level));
    assert(out@ =~= start + member(key@, decimal(n as nat), layout(*pad, level))) by {
        reveal(member);
    }
}

/// Appends a member whose value is a signed number.
fn push_member_i64(out: &mut String, key: &str, n: i64, pad: &Option<String>, Ghost(level): Ghost<nat>)
    requires
        *pad matches Some(p) ==> p@ == indentation(level),
    ensures
        final(out)@ == old(out)@ + member(key@, signed_decimal(n as int), layout(*pad, level)),
{
    let ghost start = out@;
    push_member_key(out, key, pad, Ghost(level));
    push_i64(out, n);
    push_member_end(out, pad, Ghost(level));
    assert(out@ =~= start + member(key@, signed_decimal(n as int), layout(*pad, level))) by {
        reveal(member);
    }
}

proof fn lemma_add_assoc(a: Seq<char>, b: Seq<char>, c: Seq<char>)
    ensures
        a + b + c == a + (b + c),
{
    assert(a + b + c =~= a + (b + c));
}

/// Appends the scalar members of a frame's JSON object.
#[verifier::spinoff_prover]
#[verifier::rlimit(40)]
fn push_frame_members(out: &mut String, f: &CallFrame, pad: &Option<String>, Ghost(level): Ghost<nat>)
    requires
        *pad matches Some(p) ==> p@ == indentation(level),
    ensures
        final(out)@ == old(out)@ + frame_members(*f, layout(*pad, level)),
{
    let ghost ind = layout(*pad, level);
    let ghost start = out@;
    let ghost m1 = member("contract"@, contract_json(*f), ind);
    match &f.contract {
        Some(c) => push_member_quoted(out, "contract", c.as_str(), pad, Ghost(level)),
        None => push_member_text(out, "contract", "null", pad, Ghost(level)),
    }
    let ghost acc1 = m1;
    push_member_quoted(out, "function", f.function.as_str(), pad, Ghost(level));
    let ghost m2 = member("function"@, quoted(f.function@), ind);
    proof { lemma_add_assoc(start, acc1, m2); }
    let ghost acc2 = acc1 + m2;
    // The argument list is rendered in place.
    let ghost k3 = out@;
    push_member_key(out, "args", pad, Ghost(level));
    push_char(out, '[');
    push_values_json(out, &f.args);
    push_char(out, ']');
    push_member_end(out, pad, Ghost(level));
    let ghost m3 = member("args"@, seq!['['] + values_json(f.args@) + seq![']'], ind);
    assert(out@ =~= k3 + m3) by {
        reveal(member);
    }
    proof { lemma_add_assoc(start, acc2, m3); }
    let ghost acc3 = acc2 + m3;
    let ghost k4 = out@;
    push_member_key(out, "return_value", pad, Ghost(level));
    match &f.return_value {
        Some(v) => push_value_json(out, v),
        None => out.append("null"),
    }
    push_member_end(out, pad, Ghost(level));
    let ghost m4 = member("return_value"@, return_value_json(*f), ind);
    assert(out@ =~= k4 + m4) by {
        reveal(member);
    }
    proof { lemma_add_assoc(start, acc3, m4); }
    let ghost acc4 = acc3 + m4;
    if f.panicked() {
        push_member_text(out, "panicked", "true", pad, Ghost(level));
    } else {
        push_member_text(out, "panicked", "false", pad, Ghost(level));
    }
    let ghost m5 = member("panicked"@, panicked_json(*f), ind);
    proof { lemma_add_assoc(start, acc4, m5); }
    let ghost acc5 = acc4 + m5;
    push_member_u64(out, "depth", f.depth as u64, pad, Ghost(level));
    let ghost m6 = member("depth"@, decimal(f.depth as nat), ind);
    proof { lemma_add_assoc(start, acc5, m6); }
    let ghost acc6 = acc5 + m6;
    push_member_u64(out, "self_instructions", f.self_instructions, pad, Ghost(level));
    let ghost m7 = member("self_instructions"@, decimal(f.self_instructions as nat), ind);
    proof { lemma_add_assoc(start, acc6, m7); }
    let ghost acc7 = acc6 + m7;
    push_member_u64(out, "cumulative_instructions", f.cumulative_instructions, pad, Ghost(level));
    let ghost m8 = member("cumulative_instructions"@, decimal(f.cumulative_instructions as nat), ind);
    proof { lemma_add_assoc(start, acc7, m8); }
    let ghost acc8 = acc7 + m8;
    push_member_i64(out, "self_fee_stroops", f.self_fee_stroops, pad, Ghost(level));
    let ghost m9 = member("self_fee_stroops"@, signed_decimal(f.self_fee_stroops as int), ind);
    proof { lemma_add_assoc(start, acc8, m9); }
    let ghost acc9 = acc8 + m9;
    push_member_i64(out, "cumulative_fee_stroops", f.cumulative_fee_stroops, pad, Ghost(level));
    let ghost m10 = member(
        "cumulative_fee_stroops"@,
        signed_decimal(f.cumulative_fee_stroops as int),
        ind,
    );
    proof { lemma_add_assoc(start, acc9, m10); }
    assert(acc9 + m10 == frame_members(*f, ind)) by {
        reveal(frame_members);
    }
}

impl CallFrame {
    /// Appends this frame and its subtree as a JSON object, indented at `level`
    /// when there is a pad, compact otherwise.
    fn write_json(&self, out: &mut String, pad: &Option<String>, Ghost(level): Ghost<nat>)
        requires
            *pad matches Some(p) ==> p@ == indentation(level),
        ensures
            final(out)@ == old(out)@ + frame_json(*self, layout(*pad, level)),
        decreases *self, 2int,
    {
        let ghost ind = layout(*pad, level);
        let ghost start = out@;
        push_char(out, '{');
        push_line_break(out, pad, Ghost(level));
        push_frame_members(out, self, pad, Ghost(level));
        push_member_key(out, "children", pad, Ghost(level));
        proof {
            assert(decreases_to!(*self => self.children));
        }
        push_array_json(out, &self.children, pad, Ghost(level));
        push_line_break(out, pad, Ghost(level));
        push_pad_below(out, pad, false, Ghost(level));
        push_char(out, '}');
        assert(out@ =~= start + frame_json(*self, ind)) by {
            reveal_with_fuel(frame_json, 1);
            reveal_with_fuel(array_json, 1);
            reveal_with_fuel(frames_joined, 1);
        }
    }
}

/// Appends frames as a JSON array.
fn push_array_json(out: &mut String, fs: &Vec<CallFrame>, pad: &Option<String>, Ghost(level): Ghost<nat>)
    requires
        *pad matches Some(p) ==> p@ == indentation(level),
    ensures
        final(out)@ == old(out)@ + array_json(fs@, layout(*pad, level)),
    decreases *fs, 1int,
{
    let ghost start = out@;
    if fs.len() == 0 {
        out.append("[]");
        assert(out@ =~= start + array_json(fs@, layout(*pad, level))) by {
            reveal_with_fuel(frame_json, 1);
            reveal_with_fuel(array_json, 1);
            reveal_with_fuel(frames_joined, 1);
        }
    } else {
        push_char(out, '[');
        push_line_break(out, pad, Ghost(level));
        let inner = nested_pad(pad, Ghost(level));
        push_frames_joined(out, fs, &inner, Ghost((level + 2) as nat));
        push_line_break(out, pad, Ghost(level));
        push_pad_below(out, pad, true, Ghost(level));
        push_char(out, ']');
        assert(out@ =~= start + array_json(fs@, layout(*pad, level))) by {
            reveal_with_fuel(frame_json, 1);
            reveal_with_fuel(array_json, 1);
            reveal_with_fuel(frames_joined, 1);
        }
    }
}

/// Appends frames as JSON objects, each after its indentation, separated by
/// commas.
fn push_frames_joined(out: &mut String, fs: &Vec<CallFrame>, pad: &Option<String>, Ghost(level): Ghost<nat>)
    requires
        *pad matches Some(p) ==> p@ == indentation(level),
    ensures
        final(out)@ == old(out)@ + frames_joined(fs@, layout(*pad, level)),
    decreases *fs, 0int,
{
    let ghost ind = layout(*pad, level);
    let ghost start = out@;
    proof {
        assert forall|i: int| 0 <= i < fs@.len() implies decreases_to!(*fs => #[trigger] fs@[i]) by {
            assert(decreases_to!(*fs => fs@));
        }
        assert(fs@.take(0) =~= Seq::<CallFrame>::empty());
    }
    assert(frames_joined(Seq::<CallFrame>::empty(), ind) == Seq::<char>::empty()) by {
        reveal_with_fuel(frame_json, 1);
        reveal_with_fuel(array_json, 1);
        reveal_with_fuel(frames_joined, 1);
    }
    let mut i: usize = 0;
    while i < fs.len()
        invariant
            forall|k: int| 0 <= k < fs@.len() ==> decreases_to!(*fs => #[trigger] fs@[k]),
            *pad matches Some(p) ==> p@ == indentation(level),
            ind == layout(*pad, level),
            i <= fs@.len(),
            out@ == start + frames_joined(fs@.take(i as int), ind),
        decreases fs@.len() - i,
    {
        if i > 0 {
            push_char(out, ',');
            push_line_break(out, pad, Ghost(level));
        }
        push_pad_below(out, pad, false, Ghost(level));
        fs[i].write_json(out, pad, Ghost(level));
        proof {
            let t = fs@.take(i + 1);
            assert(t.drop_last() =~= fs@.take(i as int));
            assert(out@ =~= start + frames_joined(t, ind)) by {
                reveal_with_fuel(frame_json, 1);
                reveal_with_fuel(array_json, 1);
                reveal_with_fuel(frames_joined, 1);
            }
        }
        i = i + 1;
    }
    proof {
        assert(fs@.take(fs@.len() as int) =~= fs@);
    }
}

/// The whole trace as a JSON document: the totals, the frame count and
/// maximum depth, then the roots.
pub open spec fn document_json(t: CallTrace, indent: Option<nat>) -> Seq<char> {
    seq!['{'] + line_break(indent) + member(
        "total_instructions"@,
        decimal(t.instructions_total() as nat),
        indent,
    ) + member("total_fee_stroops"@, signed_decimal(t.fee_total() as int), indent) + member(
        "frame_count"@,
        decimal(preorder_list(t.roots_seq()).len()),
        indent,
    ) + member("max_depth"@, decimal(deepest_list(t.roots_seq()) as nat), indent) + member_key(
        "roots"@,
        indent,
    ) + array_json(t.roots_seq(), indent) + line_break(indent) + seq!['}']
}

/// One line of the text rendering of a frame.
pub open spec fn frame_line(f: CallFrame, level: nat) -> Seq<char> {
    indentation(level) + (match f.contract {
        Some(c) => c@,
        None => "<unknown>"@,
    }) + "::"@ + f.function@ + seq!['('] + decimal(f.args@.len()) + " args) -> "@ + (if f.return_value is None {
        "PANICKED"@
    } else {
        "ok"@
    }) + " [self "@ + decimal(f.self_instructions as nat) + " insns, "@ + signed_decimal(
        f.self_fee_stroops as int,
    ) + " stroops]\n"@
}

/// The text rendering of a frame and its subtree, one line per frame, each
/// child indented one level below its parent.
#[verifier::opaque]
pub open spec fn tree_text(f: CallFrame, level: nat) -> Seq<char>
    decreases f, 1int,
{
    frame_line(f, level) + forest_text(f.children@, level + 1)
}

/// The text rendering of a forest, tree after tree.
#[verifier::opaque]
pub open spec fn forest_text(fs: Seq<CallFrame>, level: nat) -> Seq<char>
    decreases fs, 0int,
{
    if fs.len() == 0 {
        seq![]
    } else {
        forest_text(fs.drop_last(), level) + tree_text(fs.last(), level)
    }
}

impl CallFrame {
    /// Appends the text rendering of this frame's subtree at `level`.
    fn write_tree(&self, out: &mut String, pad: &String, Ghost(level): Ghost<nat>)
        requires
            pad@ == indentation(level),
        ensures
            final(out)@ == old(out)@ + tree_text(*self, level),
        decreases *self, 1int,
    {
        let ghost start = out@;
        out.append(pad.as_str());
        match &self.contract {
            Some(c) => out.append(c.as_str()),
            None => out.append("<unknown>"),
        }
        out.append("::");
        out.append(self.function.as_str());
        push_char(out, '(');
        push_u64(out, self.args.len() as u64);
        out.append(" args) -> ");
        if self.panicked() {
            out.append("PANICKED");
        } else {
            out.append("ok");
        }
        out.append(" [self ");
        push_u64(out, self.self_instructions);
        out.append(" insns, ");
        push_i64(out, self.self_fee_stroops);
        out.append(" stroops]\n");
        proof {
            assert(out@ =~= start + frame_line(*self, level));
            assert(decreases_to!(*self => self.children));
        }
        let mut child_pad = pad.clone();
        child_pad.append("  ");
        proof {
            assert(indentation(level + 1) == indentation(level) + "  "@);
        }
        write_forest_text(out, &self.children, &child_pad, Ghost(level + 1));
        assert(out@ =~= start + tree_text(*self, level)) by {
            reveal_with_fuel(tree_text, 1);
            reveal_with_fuel(forest_text, 1);
        }
    }
}

/// Appends the text rendering of a forest at `level`.
fn write_forest_text(out: &mut String, fs: &Vec<CallFrame>, pad: &String, Ghost(level): Ghost<nat>)
    requires
        pad@ == indentation(level),
    ensures
        final(out)@ == old(out)@ + forest_text(fs@, level),
    decreases *fs, 0int,
{
    let ghost start = out@;
    proof {
        assert forall|i: int| 0 <= i < fs@.len() implies decreases_to!(*fs => #[trigger] fs@[i]) by {
            assert(decreases_to!(*fs => fs@));
        }
        assert(fs@.take(0) =~= Seq::<CallFrame>::empty());
    }
    assert(forest_text(Seq::<CallFrame>::empty(), level) == Seq::<char>::empty()) by {
        reveal_with_fuel(tree_text, 1);
        reveal_with_fuel(forest_text, 1);
    }
    let mut i: usize = 0;
    while i < fs.len()
        invariant
            forall|k: int| 0 <= k < fs@.len() ==> decreases_to!(*fs => #[trigger] fs@[k]),
            pad@ == indentation(level),
            i <= fs@.len(),
            out@ == start + forest_text(fs@.take(i as int), level),
        decreases fs@.len() - i,
    {
        fs[i].write_tree(out, pad, Ghost(level));
        proof {
            let t = fs@.take(i + 1);
            assert(t.drop_last() =~= fs@.take(i as int));
            assert(out@ =~= start + forest_text(t, level)) by {
                reveal_with_fuel(tree_text, 1);
                reveal_with_fuel(forest_text, 1);
            }
        }
        i = i + 1;
    }
    proof {
        assert(fs@.take(fs@.len() as int) =~= fs@);
    }
}

impl CallTrace {
    /// The top-level invocations recorded, in execution order.
    pub fn roots(&self) -> (r: &[CallFrame])
        ensures
            r@ == self.roots_seq(),
    {
        self.roots.as_slice()
    }

    /// The first top-level invocation, or `None` if no contract call was
    /// recorded.
    pub fn root(&self) -> (r: Option<&CallFrame>)
        ensures
            r is None <==> self.roots_seq().len() == 0,
            r matches Some(f) ==> *f == self.roots_seq()[0],
    {
        if self.roots.len() == 0 {
            None
        } else {
            Some(&self.roots[0])
        }
    }

    /// Total CPU instructions consumed by the traced work.
    pub fn total_instructions(&self) -> (r: u64)
        ensures
            r == self.instructions_total(),
    {
        self.total_instructions
    }

    /// Total fee in stroops for the traced work.
    pub fn total_fee_stroops(&self) -> (r: i64)
        ensures
            r == self.fee_total(),
    {
        self.total_fee_stroops
    }

    /// Total number of frames across the whole forest.
    pub fn frame_count(&self) -> (r: usize)
        ensures
            r == preorder_list(self.roots_seq()).len(),
    {
        proof {
            use_type_invariant(self);
        }
        forest_frame_count(&self.roots)
    }

    /// Depth of the deepest frame, where a top-level call is depth `0`; `0` for
    /// an empty trace.
    pub fn max_depth(&self) -> (r: u32)
        ensures
            r == deepest_list(self.roots_seq()),
    {
        let n = self.roots.len();
        let mut best: u32 = 0;
        let mut i: usize = 0;
        proof {
            assert(self.roots@.take(0) =~= Seq::<CallFrame>::empty());
        }
        while i < n
            invariant
                n == self.roots@.len(),
                i <= n,
                best == deepest_list(self.roots@.take(i as int)),
            decreases n - i,
        {
            let d = self.roots[i].max_depth();
            proof {
                assert(self.roots@.take(i + 1).drop_last() =~= self.roots@.take(i as int));
                if i == 0 {
                    assert(self.roots@.take(1)[0] == self.roots@[0]);
                }
            }
            if i == 0 || d > best {
                best = d;
            }
            i = i + 1;
        }
        proof {
            assert(self.roots@.take(n as int) =~= self.roots@);
        }
        best
    }

    /// `true` when no contract invocation was recorded.
    pub fn is_empty(&self) -> (r: bool)
        ensures
            r == (self.roots_seq().len() == 0),
    {
        self.roots.len() == 0
    }

    /// Every frame of the forest, in execution order.
    pub fn frames(&self) -> (r: Vec<&CallFrame>)
        ensures
            r@.map_values(|g: &CallFrame| *g) == preorder_list(self.roots_seq()),
    {
        let mut out: Vec<&CallFrame> = Vec::new();
        let mut i: usize = 0;
        proof {
            assert(self.roots@.take(0) =~= Seq::<CallFrame>::empty());
            assert(out@.map_values(|g: &CallFrame| *g) =~= Seq::<CallFrame>::empty());
        }
        while i < self.roots.len()
            invariant
                i <= self.roots@.len(),
                out@.map_values(|g: &CallFrame| *g) == preorder_list(self.roots@.take(i as int)),
            decreases self.roots@.len() - i,
        {
            let sub = self.roots[i].frames();
            let ghost before = out@;
            let mut j: usize = 0;
            while j < sub.len()
                invariant
                    j <= sub@.len(),
                    out@ == before + sub@.take(j as int),
                decreases sub@.len() - j,
            {
                out.push(sub[j]);
                proof {
                    assert(sub@.take(j + 1) =~= sub@.take(j as int).push(sub@[j as int]));
                }
                j = j + 1;
            }
            proof {
                assert(sub@.take(sub@.len() as int) =~= sub@);
                let t = self.roots@.take(i as int);
                assert(self.roots@.take(i + 1) =~= t.push(self.roots@[i as int]));
                lemma_preorder_list_push(t, self.roots@[i as int]);
                assert(out@.map_values(|g: &CallFrame| *g) =~= before.map_values(
                    |g: &CallFrame| *g,
                ) + sub@.map_values(|g: &CallFrame| *g));
            }
            i = i + 1;
        }
        proof {
            assert(self.roots@.take(self.roots@.len() as int) =~= self.roots@);
        }
        out
    }

    /// Every frame of the forest whose function name is `function`, in
    /// execution order.
    pub fn find_by_function(&self, function: &str) -> (r: Vec<&CallFrame>)
        ensures
            r@.map_values(|g: &CallFrame| *g) == preorder_list(self.roots_seq()).filter(
                |g: CallFrame| g.function@ == function@,
            ),
    {
        select_by_function(self.frames(), function)
    }

    /// Every frame that panicked, outermost first.
    pub fn panicked_frames(&self) -> (r: Vec<&CallFrame>)
        ensures
            r@.map_values(|g: &CallFrame| *g) == preorder_list(self.roots_seq()).filter(
                |g: CallFrame| g.return_value is None,
            ),
    {
        select_panicked(self.frames())
    }

    /// The invocation tree as indented text, one line per frame.
    pub fn to_tree_string(&self) -> (r: String)
        ensures
            r@ == forest_text(self.roots_seq(), 0),
    {
        let mut out = String::new();
        let pad = String::new();
        proof {
            assert(indentation(0) =~= pad@);
        }
        write_forest_text(&mut out, &self.roots, &pad, Ghost(0));
        proof {
            assert(out@ =~= forest_text(self.roots_seq(), 0));
        }
        out
    }

    /// Checks that the trace holds a frame for `function`; otherwise the error
    /// carries the rendered call tree, so the failure shows what was invoked.
    pub fn assert_called(&self, function: &str) -> (r: Result<(), String>)
        ensures
            r is Ok <==> preorder_list(self.roots_seq()).filter(
                |g: CallFrame| g.function@ == function@,
            ).len() > 0,
            r matches Err(m) ==> m@ == "no frame for function '"@ + function@
                + "' in the recorded call tree:\n"@ + forest_text(self.roots_seq(), 0),
    {
        let found = self.find_by_function(function);
        if found.len() == 0 {
            let mut m = String::new();
            m.append("no frame for function '");
            m.append(function);
            m.append("' in the recorded call tree:\n");
            let tree = self.to_tree_string();
            m.append(tree.as_str());
            proof {
                assert(m@ =~= "no frame for function '"@ + function@
                    + "' in the recorded call tree:\n"@ + forest_text(self.roots_seq(), 0));
            }
            Err(m)
        } else {
            Ok(())
        }
    }

    /// Checks that `function` was invoked exactly `expected` times; otherwise
    /// the error carries both counts and the rendered call tree.
    pub fn assert_call_count(&self, function: &str, expected: usize) -> (r: Result<(), String>)
        ensures
            r is Ok <==> preorder_list(self.roots_seq()).filter(
                |g: CallFrame| g.function@ == function@,
            ).len() == expected,
            r matches Err(m) ==> m@ == "expected "@ + decimal(expected as nat) + " call(s) to '"@
                + function@ + "', found "@ + decimal(
                preorder_list(self.roots_seq()).filter(|g: CallFrame| g.function@ == function@).len(),
            ) + ", in the recorded call tree:\n"@ + forest_text(self.roots_seq(), 0),
    {
        let found = self.find_by_function(function);
        let actual = found.len();
        proof {
            assert(found@.map_values(|g: &CallFrame| *g).len() == found@.len());
        }
        if actual != expected {
            let mut m = String::new();
            m.append("expected ");
            push_u64(&mut m, expected as u64);
            m.append(" call(s) to '");
            m.append(function);
            m.append("', found ");
            push_u64(&mut m, actual as u64);
            m.append(", in the recorded call tree:\n");
            let tree = self.to_tree_string();
            m.append(tree.as_str());
            proof {
                assert(m@ =~= "expected "@ + decimal(expected as nat) + " call(s) to '"@ + function@
                    + "', found "@ + decimal(actual as nat) + ", in the recorded call tree:\n"@
                    + forest_text(self.roots_seq(), 0));
            }
            Err(m)
        } else {
            Ok(())
        }
    }

    /// The call tree as compact hierarchical JSON: the totals, the frame count,
    /// the maximum depth and the roots, every frame carrying its own and its
    /// subtree's instruction and stroop figures.
    pub fn to_json(&self) -> (r: String)
        ensures
            r@ == document_json(*self, None),
    {
        self.write_document(&None, Ghost(0))
    }

    /// The same document as [`to_json`](Self::to_json), indented two spaces per
    /// level.
    pub fn to_json_pretty(&self) -> (r: String)
        ensures
            r@ == document_json(*self, Some(0)),
    {
        self.write_document(&Some(String::new()), Ghost(0))
    }

    fn write_document(&self, pad: &Option<String>, Ghost(level): Ghost<nat>) -> (r: String)
        requires
            level == 0,
            *pad matches Some(p) ==> p@ == indentation(level),
        ensures
            r@ == document_json(*self, layout(*pad, level)),
    {
        let ghost ind = layout(*pad, level);
        let mut out = String::new();
        push_char(&mut out, '{');
        push_line_break(&mut out, pad, Ghost(level));
        let ghost s0 = out@;
        push_member_u64(&mut out, "total_instructions", self.total_instructions, pad, Ghost(level));
        push_member_i64(&mut out, "total_fee_stroops", self.total_fee_stroops, pad, Ghost(level));
        let count = self.frame_count();
        push_member_u64(&mut out, "frame_count", count as u64, pad, Ghost(level));
        let depth = self.max_depth();
        push_member_u64(&mut out, "max_depth", depth as u64, pad, Ghost(level));
        push_member_key(&mut out, "roots", pad, Ghost(level));
        push_array_json(&mut out, &self.roots, pad, Ghost(level));
        push_line_break(&mut out, pad, Ghost(level));
        push_char(&mut out, '}');
        proof {
            assert(out@ =~= document_json(*self, ind));
        }
        out
    }
}

// ── Laws of the apportioned costs ───────────────────────────────────────────

/// The cumulative instructions of a forest's trees, added up.
pub open spec fn cumulative_instructions_sum(fs: Seq<CallFrame>) -> int
    decreases fs.len(),
{
    if fs.len() == 0 {
        0
    } else {
        cumulative_instructions_sum(fs.drop_last()) + fs.last().cumulative_instructions
    }
}

/// The cumulative fees of a forest's trees, added up.
pub open spec fn cumulative_fee_sum(fs: Seq<CallFrame>) -> int
    decreases fs.len(),
{
    if fs.len() == 0 {
        0
    } else {
        cumulative_fee_sum(fs.drop_last()) + fs.last().cumulative_fee_stroops
    }
}

/// The trees of an apportioned forest together carry one share per frame.
pub proof fn lemma_forest_cumulative(fs: Seq<CallFrame>, per_instructions: int, per_fee: int)
    requires
        apportioned(fs, per_instructions, per_fee),
    ensures
        cumulative_instructions_sum(fs) == per_instructions * preorder_list(fs).len(),
        cumulative_fee_sum(fs) == per_fee * preorder_list(fs).len(),
    decreases fs.len(),
{
    if fs.len() > 0 {
        let init = fs.drop_last();
        let last = fs.last();
        assert(init.push(last) =~= fs);
        lemma_preorder_list_push(init, last);
        let before = preorder_list(init).len() as int;
        assert(apportioned(init, per_instructions, per_fee)) by {
            assert forall|k: int| 0 <= k < preorder_list(init).len() implies {
                let g = #[trigger] preorder_list(init)[k];
                &&& g.self_instructions == per_instructions
                &&& g.cumulative_instructions == per_instructions * count_frames(g)
                &&& g.self_fee_stroops == per_fee
                &&& g.cumulative_fee_stroops == per_fee * count_frames(g)
            } by {
                assert(preorder_list(fs)[k] == preorder_list(init)[k]);
            }
        }
        lemma_forest_cumulative(init, per_instructions, per_fee);
        assert(preorder_list(fs)[before] == preorder(last)[0]);
        let c = count_frames(last) as int;
        assert(per_instructions * before + per_instructions * c == per_instructions * (before + c))
            by (nonlinear_arith);
        assert(per_fee * before + per_fee * c == per_fee * (before + c)) by (nonlinear_arith);
    }
}

/// In an apportioned tree, a frame's cumulative figure is its own share plus
/// its children's cumulative figures: a parent never costs less than the sum
/// of its children.
pub proof fn lemma_cumulative_is_self_plus_children(f: CallFrame, per_instructions: int, per_fee: int)
    requires
        apportioned(seq![f], per_instructions, per_fee),
    ensures
        f.cumulative_instructions == f.self_instructions + cumulative_instructions_sum(
            f.children@,
        ),
        f.cumulative_fee_stroops == f.self_fee_stroops + cumulative_fee_sum(f.children@),
        per_instructions >= 0 ==> f.cumulative_instructions >= cumulative_instructions_sum(
            f.children@,
        ),
{
    lemma_single(f);
    let kids = f.children@;
    let n = preorder_list(kids).len() as int;
    assert(preorder(f)[0] == f);
    assert(apportioned(kids, per_instructions, per_fee)) by {
        assert forall|k: int| 0 <= k < preorder_list(kids).len() implies {
            let g = #[trigger] preorder_list(kids)[k];
            &&& g.self_instructions == per_instructions
            &&& g.cumulative_instructions == per_instructions * count_frames(g)
            &&& g.self_fee_stroops == per_fee
            &&& g.cumulative_fee_stroops == per_fee * count_frames(g)
        } by {
            assert(preorder(f)[k + 1] == preorder_list(kids)[k]);
        }
    }
    lemma_forest_cumulative(kids, per_instructions, per_fee);
    assert(per_instructions * (1 + n) == per_instructions + per_instructions * n) by (
    nonlinear_arith);
    assert(per_fee * (1 + n) == per_fee + per_fee * n) by (nonlinear_arith);
}

/// When every frame gets `total / frames` instructions, the roots' cumulative
/// figures add up to the measured total less its remainder; they equal the
/// total exactly when the frame count divides it.
pub proof fn lemma_roots_account_for_total(roots: Seq<CallFrame>, total: nat, per_fee: int)
    requires
        preorder_list(roots).len() > 0,
        apportioned(roots, total as int / preorder_list(roots).len() as int, per_fee),
    ensures
        cumulative_instructions_sum(roots) == total - total % preorder_list(roots).len(),
        cumulative_instructions_sum(roots) <= total,
        total % preorder_list(roots).len() == 0 ==> cumulative_instructions_sum(roots) == total,
{
    let n = preorder_list(roots).len() as int;
    lemma_forest_cumulative(roots, total as int / n, per_fee);
    lemma_fundamental_div_mod(total as int, n);
    lemma_mod_bound(total as int, n);
    assert((total as int / n) * n == n * (total as int / n)) by (nonlinear_arith);
}

} // verus!
