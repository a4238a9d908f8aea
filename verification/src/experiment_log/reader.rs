//! Reading a run log back: which lines open and close actions, and the tree
//! of actions that the `depth` field encodes.
//!
//! A record here holds what the tree is built from: its sequence number and
//! what kind of line it is, with the action's name, depth and error. The
//! rest of a line (timestamps, parameters, outputs) stays with the caller,
//! which finds it again through the record's position: every node names the
//! position of the line that started it and of the line that ended it.
use crate::nanonis::protocol::{trim, trim_str};
use crate::text::{lines, lines_of, texts};
use vstd::prelude::*;
use vstd::string::*;

verus! {

/// What a line says, by its `type`.
pub enum Body {
    RunStarted,
    RunFinished,
    ActionStarted { action: String, depth: usize },
    ActionCompleted { action: String, depth: usize },
    ActionFailed { action: String, error: String, depth: usize },
    DataCollected { label: String },
    Custom { kind: String },
}

/// One line of a log.
pub struct Record {
    pub seq: u64,
    pub body: Body,
}

/// A parsed log: its records in order, and the lines that did not parse,
/// with their 1-based line numbers and the reason.
pub struct Log {
    pub records: Vec<Record>,
    pub skipped: Vec<(usize, String)>,
}

/// One action in the tree.
pub struct ActionNode {
    /// Position in the log of the line that started the action.
    pub record: usize,
    pub seq: u64,
    pub name: String,
    pub depth: usize,
    /// Position of the line that completed or failed it; `None` when the
    /// log ends before the action did.
    pub end: Option<usize>,
    pub error: Option<String>,
    pub children: Vec<ActionNode>,
}

/// An action node as a value.
pub ghost struct NodeModel {
    pub record: nat,
    pub seq: u64,
    pub name: Seq<char>,
    pub depth: nat,
    pub end: Option<nat>,
    pub error: Option<Seq<char>>,
    pub children: Seq<NodeModel>,
}

pub open spec fn opt_nat(o: Option<usize>) -> Option<nat> {
    match o {
        Some(j) => Some(j as nat),
        None => None,
    }
}

pub open spec fn opt_text(o: Option<String>) -> Option<Seq<char>> {
    match o {
        Some(e) => Some(e@),
        None => None,
    }
}

pub open spec fn model_of(n: ActionNode) -> NodeModel
    decreases n,
{
    NodeModel {
        record: n.record as nat,
        seq: n.seq,
        name: n.name@,
        depth: n.depth as nat,
        end: opt_nat(n.end),
        error: opt_text(n.error),
        children: Seq::new(
            n.children@.len(),
            |i: int|
                if 0 <= i < n.children@.len() {
                    model_of(n.children@[i])
                } else {
                    NodeModel {
                        record: 0,
                        seq: 0,
                        name: Seq::empty(),
                        depth: 0,
                        end: None,
                        error: None,
                        children: Seq::empty(),
                    }
                },
        ),
    }
}

pub open spec fn models(s: Seq<ActionNode>) -> Seq<NodeModel> {
    Seq::new(s.len(), |i: int| model_of(s[i]))
}

/// The tree as it is being built: the finished top-level actions, and the
/// actions still open, innermost last.
pub ghost struct Forest {
    pub roots: Seq<NodeModel>,
    pub open: Seq<NodeModel>,
}

/// `node` placed as the last child of the innermost open action, or as the
/// last root when none is open.
pub open spec fn attach(st: Forest, node: NodeModel) -> Forest {
    if st.open.len() > 0 {
        let p = st.open.last();
        Forest {
            roots: st.roots,
            open: st.open.drop_last().push(NodeModel { children: p.children.push(node), ..p }),
        }
    } else {
        Forest { roots: st.roots.push(node), open: st.open }
    }
}

/// The innermost open action closed as it stands.
pub open spec fn close_top(st: Forest) -> Forest {
    attach(Forest { roots: st.roots, open: st.open.drop_last() }, st.open.last())
}

/// Open actions at `depth` or deeper closed, innermost first.
pub open spec fn close_deeper(st: Forest, depth: nat) -> Forest
    decreases st.open.len(),
{
    if st.open.len() > 0 && st.open.last().depth >= depth {
        close_deeper(close_top(st), depth)
    } else {
        st
    }
}

/// Open actions closed, innermost first, until `k` are left.
pub open spec fn close_until(st: Forest, k: nat) -> Forest
    decreases st.open.len(),
{
    if st.open.len() > k {
        close_until(close_top(st), k)
    } else {
        st
    }
}

/// The position of the innermost open action named `name`, or -1.
pub open spec fn last_named(open: Seq<NodeModel>, name: Seq<char>) -> int
    decreases open.len(),
{
    if open.len() == 0 {
        -1
    } else if open.last().name == name {
        open.len() - 1
    } else {
        last_named(open.drop_last(), name)
    }
}

/// The line at `i` ends the innermost open action named `name`: whatever
/// was opened inside it is closed as cut off, and it is closed with its end
/// and error. A name with no open action changes nothing.
pub open spec fn end_action(st: Forest, i: nat, name: Seq<char>, error: Option<Seq<char>>) -> Forest {
    let pos = last_named(st.open, name);
    if pos < 0 {
        st
    } else {
        let s1 = close_until(st, (pos + 1) as nat);
        let n = s1.open.last();
        attach(
            Forest { roots: s1.roots, open: s1.open.drop_last() },
            NodeModel { end: Some(i), error: error, ..n },
        )
    }
}

/// A fresh node for the action that the line at `i` starts.
pub open spec fn started_node(i: nat, seq: u64, name: Seq<char>, depth: nat) -> NodeModel {
    NodeModel {
        record: i,
        seq: seq,
        name: name,
        depth: depth,
        end: None,
        error: None,
        children: Seq::empty(),
    }
}

/// What the line at `i` does to the tree. A start closes, as cut off, every
/// open action at its depth or deeper, then opens itself.
pub open spec fn step(st: Forest, i: nat, r: Record) -> Forest {
    match r.body {
        Body::ActionStarted { action, depth } => {
            let s1 = close_deeper(st, depth as nat);
            Forest {
                roots: s1.roots,
                open: s1.open.push(started_node(i, r.seq, action@, depth as nat)),
            }
        },
        Body::ActionCompleted { action, .. } => end_action(st, i, action@, None),
        Body::ActionFailed { action, error, .. } => end_action(st, i, action@, Some(error@)),
        _ => st,
    }
}

pub open spec fn empty_forest() -> Forest {
    Forest { roots: Seq::empty(), open: Seq::empty() }
}

/// The tree after the first `k` records.
pub open spec fn run(records: Seq<Record>, k: nat) -> Forest
    decreases k,
{
    if k == 0 || k > records.len() {
        empty_forest()
    } else {
        step(run(records, (k - 1) as nat), (k - 1) as nat, records[k - 1])
    }
}

/// The action tree of a log: every record read in turn, then the actions
/// still open closed as cut off.
pub open spec fn action_tree_of(records: Seq<Record>) -> Seq<NodeModel> {
    close_until(run(records, records.len()), 0).roots
}

proof fn lemma_attach_open_len(st: Forest, node: NodeModel)
    ensures
        attach(st, node).open.len() == st.open.len(),
{
}

proof fn lemma_close_until_len(st: Forest, k: nat)
    ensures
        close_until(st, k).open.len() == if st.open.len() > k {
            k
        } else {
            st.open.len()
        },
    decreases st.open.len(),
{
    if st.open.len() > k {
        lemma_close_until_len(close_top(st), k);
    }
}

proof fn lemma_last_named_range(open: Seq<NodeModel>, name: Seq<char>)
    ensures
        -1 <= last_named(open, name) < open.len(),
        last_named(open, name) >= 0 ==> open[last_named(open, name)].name == name,
    decreases open.len(),
{
    if open.len() > 0 {
        lemma_last_named_range(open.drop_last(), name);
    }
}

/// The forest that `roots` and `open` hold.
pub open spec fn forest_of(roots: Seq<ActionNode>, open: Seq<ActionNode>) -> Forest {
    Forest { roots: models(roots), open: models(open) }
}

fn adopt(parent: ActionNode, child: ActionNode) -> (r: ActionNode)
    ensures
        model_of(r) == (NodeModel {
            children: model_of(parent).children.push(model_of(child)),
            ..model_of(parent)
        }),
{
    let mut p = parent;
    p.children.push(child);
    proof {
        assert(model_of(p).children =~= model_of(parent).children.push(model_of(child)));
    }
    p
}

fn attach_node(roots: &mut Vec<ActionNode>, open: &mut Vec<ActionNode>, node: ActionNode)
    ensures
        forest_of(final(roots)@, final(open)@) == attach(
            forest_of(old(roots)@, old(open)@),
            model_of(node),
        ),
{
    let ghost m = model_of(node);
    let ghost st = forest_of(roots@, open@);
    match open.pop() {
        Some(parent) => {
            let p = adopt(parent, node);
            open.push(p);
            proof {
                assert(models(open@) =~= st.open.drop_last().push(
                    NodeModel { children: st.open.last().children.push(m), ..st.open.last() },
                ));
            }
        },
        None => {
            roots.push(node);
            proof {
                assert(models(roots@) =~= st.roots.push(m));
                assert(models(open@) =~= st.open);
            }
        },
    }
}

fn close_top_node(roots: &mut Vec<ActionNode>, open: &mut Vec<ActionNode>)
    requires
        old(open)@.len() > 0,
    ensures
        forest_of(final(roots)@, final(open)@) == close_top(forest_of(old(roots)@, old(open)@)),
{
    let ghost st = forest_of(roots@, open@);
    let node = open.pop().unwrap();
    proof {
        assert(models(open@) =~= st.open.drop_last());
    }
    attach_node(roots, open, node);
}

fn close_deeper_nodes(roots: &mut Vec<ActionNode>, open: &mut Vec<ActionNode>, depth: usize)
    ensures
        forest_of(final(roots)@, final(open)@) == close_deeper(
            forest_of(old(roots)@, old(open)@),
            depth as nat,
        ),
{
    let ghost st0 = forest_of(roots@, open@);
    while open.len() > 0 && open[open.len() - 1].depth >= depth
        invariant
            close_deeper(forest_of(roots@, open@), depth as nat) == close_deeper(
                st0,
                depth as nat,
            ),
        decreases open@.len(),
    {
        let ghost before = forest_of(roots@, open@);
        proof {
            assert(before.open.last() == model_of(open@.last()));
        }
        close_top_node(roots, open);
        proof {
            lemma_attach_open_len(
                Forest { roots: before.roots, open: before.open.drop_last() },
                before.open.last(),
            );
        }
    }
    proof {
        let st = forest_of(roots@, open@);
        if open@.len() > 0 {
            assert(st.open.last() == model_of(open@.last()));
        }
    }
}

fn close_until_nodes(roots: &mut Vec<ActionNode>, open: &mut Vec<ActionNode>, k: usize)
    ensures
        forest_of(final(roots)@, final(open)@) == close_until(
            forest_of(old(roots)@, old(open)@),
            k as nat,
        ),
{
    let ghost st0 = forest_of(roots@, open@);
    while open.len() > k
        invariant
            close_until(forest_of(roots@, open@), k as nat) == close_until(st0, k as nat),
        decreases open@.len(),
    {
        let ghost before = forest_of(roots@, open@);
        close_top_node(roots, open);
        proof {
            lemma_attach_open_len(
                Forest { roots: before.roots, open: before.open.drop_last() },
                before.open.last(),
            );
        }
    }
}

fn find_open(open: &Vec<ActionNode>, name: &String) -> (r: Option<usize>)
    ensures
        last_named(models(open@), name@) >= 0 ==> r == Some(
            last_named(models(open@), name@) as usize,
        ),
        last_named(models(open@), name@) < 0 ==> r is None,
{
    let mut i = open.len();
    proof {
        assert(models(open@).take(i as int) =~= models(open@));
    }
    while i > 0
        invariant
            i <= open@.len(),
            last_named(models(open@), name@) == last_named(models(open@).take(i as int), name@),
        decreases i,
    {
        let ghost v = models(open@);
        proof {
            assert(v.take(i as int).drop_last() =~= v.take(i - 1));
            assert(v.take(i as int).last() == model_of(open@[i - 1]));
        }
        if open[i - 1].name == *name {
            return Some(i - 1);
        }
        i = i - 1;
    }
    proof {
        assert(models(open@).take(0) =~= Seq::<NodeModel>::empty());
    }
    None
}

fn end_open_action(
    roots: &mut Vec<ActionNode>,
    open: &mut Vec<ActionNode>,
    i: usize,
    name: &String,
    error: Option<String>,
)
    ensures
        forest_of(final(roots)@, final(open)@) == end_action(
            forest_of(old(roots)@, old(open)@),
            i as nat,
            name@,
            opt_text(error),
        ),
{
    let ghost st = forest_of(roots@, open@);
    match find_open(open, name) {
        None => {},
        Some(pos) => {
            // The length bounds `pos + 1`.
            let _len = open.len();
            proof {
                lemma_last_named_range(st.open, name@);
            }
            close_until_nodes(roots, open, pos + 1);
            proof {
                lemma_close_until_len(st, (pos + 1) as nat);
            }
            let ghost s1 = forest_of(roots@, open@);
            let mut node = open.pop().unwrap();
            proof {
                assert(models(open@) =~= s1.open.drop_last());
                assert(model_of(node) == s1.open.last());
            }
            let ghost before = model_of(node);
            node.end = Some(i);
            node.error = error;
            proof {
                assert(model_of(node).children =~= before.children);
                assert(model_of(node) == (NodeModel {
                    end: Some(i as nat),
                    error: opt_text(error),
                    ..before
                }));
            }
            attach_node(roots, open, node);
        },
    }
}

fn read_record(roots: &mut Vec<ActionNode>, open: &mut Vec<ActionNode>, i: usize, r: &Record)
    ensures
        forest_of(final(roots)@, final(open)@) == step(
            forest_of(old(roots)@, old(open)@),
            i as nat,
            *r,
        ),
{
    match &r.body {
        Body::ActionStarted { action, depth } => {
            close_deeper_nodes(roots, open, *depth);
            let ghost s1 = forest_of(roots@, open@);
            let node = ActionNode {
                record: i,
                seq: r.seq,
                name: action.clone(),
                depth: *depth,
                end: None,
                error: None,
                children: Vec::new(),
            };
            open.push(node);
            proof {
                assert(model_of(node).children =~= Seq::<NodeModel>::empty());
                assert(models(open@) =~= s1.open.push(
                    started_node(i as nat, r.seq, action@, *depth as nat),
                ));
            }
        },
        Body::ActionCompleted { action, .. } => {
            end_open_action(roots, open, i, action, None);
        },
        Body::ActionFailed { action, error, .. } => {
            end_open_action(roots, open, i, action, Some(error.clone()));
        },
        _ => {},
    }
}

impl Log {
    /// The actions as a tree, rebuilt from `depth`. An action started and
    /// never completed (the run was cut off) is kept, with no end.
    pub fn action_tree(&self) -> (r: Vec<ActionNode>)
        ensures
            models(r@) == action_tree_of(self.records@),
    {
        let mut roots: Vec<ActionNode> = Vec::new();
        let mut open: Vec<ActionNode> = Vec::new();
        let n = self.records.len();
        proof {
            assert(models(roots@) =~= Seq::<NodeModel>::empty());
            assert(models(open@) =~= Seq::<NodeModel>::empty());
            assert(forest_of(roots@, open@) == empty_forest());
        }
        let mut i: usize = 0;
        while i < n
            invariant
                n == self.records@.len(),
                i <= n,
                forest_of(roots@, open@) == run(self.records@, i as nat),
            decreases n - i,
        {
            read_record(&mut roots, &mut open, i, &self.records[i]);
            i = i + 1;
        }
        close_until_nodes(&mut roots, &mut open, 0);
        roots
    }
}

/// The nodes of the tree under `n`, `n` first, in depth-first order.
pub open spec fn preorder(n: NodeModel) -> Seq<NodeModel>
    decreases n, 0nat,
{
    seq![n] + preorder_upto(n.children, n.children.len())
}

/// The nodes of the first `k` trees of `s`, in depth-first order.
pub open spec fn preorder_upto(s: Seq<NodeModel>, k: nat) -> Seq<NodeModel>
    decreases s, k,
{
    if k == 0 || k > s.len() {
        Seq::empty()
    } else {
        preorder_upto(s, (k - 1) as nat) + preorder(s[k - 1])
    }
}

/// Every node of the forest `s`, in depth-first order.
pub open spec fn all_nodes(s: Seq<NodeModel>) -> Seq<NodeModel> {
    preorder_upto(s, s.len())
}

/// The starting positions of `nodes`.
pub open spec fn starts(nodes: Seq<NodeModel>) -> Seq<nat> {
    nodes.map_values(|n: NodeModel| n.record)
}

/// The positions, among the first `k` lines, of the lines that start an
/// action.
pub open spec fn started_upto(records: Seq<Record>, k: nat) -> Seq<nat>
    decreases k,
{
    if k == 0 || k > records.len() {
        Seq::empty()
    } else {
        let prev = started_upto(records, (k - 1) as nat);
        if records[k - 1].body is ActionStarted {
            prev.push((k - 1) as nat)
        } else {
            prev
        }
    }
}

/// `n` agrees with the lines it names: the line at `n.record` starts an
/// action of its name, depth and sequence number; a node with an end was
/// ended by a later line that completes or fails an action of the same
/// name, and carries an error exactly when that line is a failure, the
/// failure's own; a node without an end carries no error.
pub open spec fn faithful(records: Seq<Record>, n: NodeModel) -> bool {
    &&& n.record < records.len()
    &&& match records[n.record as int].body {
        Body::ActionStarted { action, depth } => {
            &&& action@ == n.name
            &&& depth as nat == n.depth
            &&& records[n.record as int].seq == n.seq
        },
        _ => false,
    }
    &&& match n.end {
        None => n.error is None,
        Some(j) => {
            &&& n.record < j < records.len()
            &&& match records[j as int].body {
                Body::ActionCompleted { action, .. } => action@ == n.name && n.error is None,
                Body::ActionFailed { action, error, .. } => action@ == n.name && n.error == Some(
                    error@,
                ),
                _ => false,
            }
        },
    }
}

spec fn nodes_of(st: Forest) -> Seq<NodeModel> {
    all_nodes(st.roots) + all_nodes(st.open)
}

spec fn inv(records: Seq<Record>, st: Forest, k: nat) -> bool {
    &&& k <= records.len()
    &&& starts(nodes_of(st)) == started_upto(records, k)
    &&& forall|j: int|
        0 <= j < nodes_of(st).len() ==> faithful(records, #[trigger] nodes_of(st)[j])
            && nodes_of(st)[j].record < k
}

spec fn same_but_children(a: NodeModel, b: NodeModel) -> bool {
    &&& a.record == b.record
    &&& a.seq == b.seq
    &&& a.name == b.name
    &&& a.depth == b.depth
    &&& a.end == b.end
    &&& a.error == b.error
}

proof fn lemma_upto_push(s: Seq<NodeModel>, x: NodeModel, k: nat)
    requires
        k <= s.len(),
    ensures
        preorder_upto(s.push(x), k) == preorder_upto(s, k),
    decreases k,
{
    if k > 0 {
        lemma_upto_push(s, x, (k - 1) as nat);
        assert(s.push(x)[k - 1] == s[k - 1]);
    }
}

proof fn lemma_all_nodes_push(s: Seq<NodeModel>, x: NodeModel)
    ensures
        all_nodes(s.push(x)) == all_nodes(s) + preorder(x),
{
    lemma_upto_push(s, x, s.len());
    assert(s.push(x)[s.len() as int] == x);
}

proof fn lemma_all_nodes_last(s: Seq<NodeModel>)
    requires
        s.len() > 0,
    ensures
        all_nodes(s) == all_nodes(s.drop_last()) + preorder(s.last()),
{
    lemma_all_nodes_push(s.drop_last(), s.last());
    assert(s.drop_last().push(s.last()) =~= s);
}

/// A forest's open actions, the innermost replaced by `y`.
spec fn replace_top(st: Forest, y: NodeModel) -> Forest {
    Forest { roots: st.roots, open: st.open.drop_last().push(y) }
}

/// The innermost open action sits in the walk right after everything
/// before it, followed by what it holds.
proof fn lemma_top_in_nodes(st: Forest)
    requires
        st.open.len() > 0,
    ensures
        nodes_of(st) =~= (all_nodes(st.roots) + all_nodes(st.open.drop_last())) + (seq![st.open.last()]
            + all_nodes(st.open.last().children)),
{
    lemma_all_nodes_last(st.open);
}

proof fn lemma_retag_top(records: Seq<Record>, st: Forest, k: nat, y: NodeModel)
    requires
        inv(records, st, k),
        st.open.len() > 0,
        y.children == st.open.last().children,
        y.record == st.open.last().record,
        faithful(records, y),
    ensures
        inv(records, replace_top(st, y), k),
{
    let st2 = replace_top(st, y);
    let a = all_nodes(st.roots) + all_nodes(st.open.drop_last());
    let b = all_nodes(y.children);
    lemma_top_in_nodes(st);
    lemma_top_in_nodes(st2);
    assert(st2.open.drop_last() =~= st.open.drop_last());
    assert(nodes_of(st2) =~= nodes_of(st).update(a.len() as int, y));
    assert(starts(nodes_of(st2)) =~= starts(nodes_of(st)));
    assert forall|j: int| 0 <= j < nodes_of(st2).len() implies faithful(
        records,
        #[trigger] nodes_of(st2)[j],
    ) && nodes_of(st2)[j].record < k by {
        if j != a.len() {
            assert(nodes_of(st2)[j] == nodes_of(st)[j]);
        } else {
            assert(nodes_of(st)[j] == st.open.last());
        }
    }
}

proof fn lemma_close_top(records: Seq<Record>, st: Forest, k: nat)
    requires
        inv(records, st, k),
        st.open.len() > 0,
    ensures
        inv(records, close_top(st), k),
        close_top(st).open.len() == st.open.len() - 1,
        forall|j: int|
            0 <= j < st.open.len() - 1 ==> same_but_children(
                #[trigger] close_top(st).open[j],
                st.open[j],
            ),
{
    let st2 = close_top(st);
    let n = st.open.last();
    let rest = st.open.drop_last();
    let r = all_nodes(st.roots);
    lemma_all_nodes_last(st.open);
    if rest.len() > 0 {
        let p = rest.last();
        let o = rest.drop_last();
        let p2 = NodeModel { children: p.children.push(n), ..p };
        lemma_all_nodes_last(rest);
        lemma_all_nodes_push(o, p2);
        lemma_all_nodes_push(p.children, n);
        assert(st2.open =~= o.push(p2));
        let a = r + all_nodes(o);
        let b = all_nodes(p.children);
        let c = preorder(n);
        assert(nodes_of(st) =~= a + seq![p] + b + c);
        assert(nodes_of(st2) =~= a + seq![p2] + b + c);
        assert(nodes_of(st2) =~= nodes_of(st).update(a.len() as int, p2));
        assert(starts(nodes_of(st2)) =~= starts(nodes_of(st)));
        assert forall|j: int| 0 <= j < nodes_of(st2).len() implies faithful(
            records,
            #[trigger] nodes_of(st2)[j],
        ) && nodes_of(st2)[j].record < k by {
            if j != a.len() {
                assert(nodes_of(st2)[j] == nodes_of(st)[j]);
            } else {
                assert(nodes_of(st)[j] == p);
            }
        }
    } else {
        lemma_all_nodes_push(st.roots, n);
        assert(all_nodes(rest) =~= Seq::<NodeModel>::empty());
        assert(nodes_of(st2) =~= nodes_of(st));
    }
}

proof fn lemma_close_until(records: Seq<Record>, st: Forest, k: nat, m: nat)
    requires
        inv(records, st, k),
    ensures
        inv(records, close_until(st, m), k),
        forall|j: int|
            0 <= j < m && j < st.open.len() ==> same_but_children(
                #[trigger] close_until(st, m).open[j],
                st.open[j],
            ),
    decreases st.open.len(),
{
    if st.open.len() > m {
        lemma_close_top(records, st, k);
        lemma_close_until(records, close_top(st), k, m);
        assert forall|j: int| 0 <= j < m && j < st.open.len() implies same_but_children(
            #[trigger] close_until(st, m).open[j],
            st.open[j],
        ) by {
            assert(same_but_children(close_top(st).open[j], st.open[j]));
        }
    }
}

proof fn lemma_close_deeper(records: Seq<Record>, st: Forest, k: nat, depth: nat)
    requires
        inv(records, st, k),
    ensures
        inv(records, close_deeper(st, depth), k),
    decreases st.open.len(),
{
    if st.open.len() > 0 && st.open.last().depth >= depth {
        lemma_close_top(records, st, k);
        lemma_close_deeper(records, close_top(st), k, depth);
    }
}

/// The line at `i` completes (`error` empty) or fails (with `error`) an
/// action named `name`.
pub open spec fn ends_as(r: Record, name: Seq<char>, error: Option<Seq<char>>) -> bool {
    match r.body {
        Body::ActionCompleted { action, .. } => action@ == name && error is None,
        Body::ActionFailed { action, error: e, .. } => action@ == name && error == Some(e@),
        _ => false,
    }
}

proof fn lemma_end_action(
    records: Seq<Record>,
    st: Forest,
    i: nat,
    name: Seq<char>,
    error: Option<Seq<char>>,
)
    requires
        inv(records, st, i),
        i < records.len(),
        ends_as(records[i as int], name, error),
    ensures
        inv(records, end_action(st, i, name, error), i),
{
    let pos = last_named(st.open, name);
    lemma_last_named_range(st.open, name);
    if pos >= 0 {
        let m = (pos + 1) as nat;
        let s1 = close_until(st, m);
        lemma_close_until(records, st, i, m);
        lemma_close_until_len(st, m);
        assert(same_but_children(s1.open[pos], st.open[pos]));
        let n = s1.open.last();
        let a = all_nodes(s1.roots) + all_nodes(s1.open.drop_last());
        lemma_top_in_nodes(s1);
        assert(nodes_of(s1)[a.len() as int] == n);
        let n2 = NodeModel { end: Some(i), error: error, ..n };
        lemma_retag_top(records, s1, i, n2);
        let s2 = replace_top(s1, n2);
        assert(s2.open.drop_last() =~= s1.open.drop_last());
        lemma_close_top(records, s2, i);
    }
}

/// Reading a line that starts no action keeps the invariant for one more
/// line.
proof fn lemma_advance(records: Seq<Record>, st: Forest, i: nat)
    requires
        inv(records, st, i),
        i < records.len(),
        !(records[i as int].body is ActionStarted),
    ensures
        inv(records, st, i + 1),
{
}

proof fn lemma_step(records: Seq<Record>, st: Forest, i: nat)
    requires
        inv(records, st, i),
        i < records.len(),
    ensures
        inv(records, step(st, i, records[i as int]), i + 1),
{
    let r = records[i as int];
    match r.body {
        Body::ActionStarted { action, depth } => {
            let s1 = close_deeper(st, depth as nat);
            lemma_close_deeper(records, st, i, depth as nat);
            let x = started_node(i, r.seq, action@, depth as nat);
            let s2 = step(st, i, r);
            lemma_all_nodes_push(s1.open, x);
            assert(all_nodes(x.children) =~= Seq::<NodeModel>::empty());
            assert(preorder(x) =~= seq![x]);
            assert(nodes_of(s2) =~= nodes_of(s1).push(x));
            assert(starts(nodes_of(s2)) =~= starts(nodes_of(s1)).push(i));
            assert forall|j: int| 0 <= j < nodes_of(s2).len() implies faithful(
                records,
                #[trigger] nodes_of(s2)[j],
            ) && nodes_of(s2)[j].record < i + 1 by {
                if j < nodes_of(s1).len() {
                    assert(nodes_of(s2)[j] == nodes_of(s1)[j]);
                }
            }
        },
        Body::ActionCompleted { action, .. } => {
            lemma_end_action(records, st, i, action@, None);
            lemma_advance(records, step(st, i, r), i);
        },
        Body::ActionFailed { action, error, .. } => {
            lemma_end_action(records, st, i, action@, Some(error@));
            lemma_advance(records, step(st, i, r), i);
        },
        _ => {
            lemma_advance(records, st, i);
        },
    }
}

proof fn lemma_run(records: Seq<Record>, k: nat)
    requires
        k <= records.len(),
    ensures
        inv(records, run(records, k), k),
    decreases k,
{
    if k == 0 {
        assert(all_nodes(Seq::<NodeModel>::empty()) =~= Seq::<NodeModel>::empty());
        assert(nodes_of(empty_forest()) =~= Seq::<NodeModel>::empty());
        assert(starts(nodes_of(empty_forest())) =~= Seq::<nat>::empty());
    } else {
        lemma_run(records, (k - 1) as nat);
        lemma_step(records, run(records, (k - 1) as nat), (k - 1) as nat);
    }
}

proof fn lemma_tree(records: Seq<Record>)
    ensures
        inv(
            records,
            Forest { roots: action_tree_of(records), open: Seq::empty() },
            records.len(),
        ),
{
    let st = run(records, records.len());
    lemma_run(records, records.len());
    lemma_close_until(records, st, records.len(), 0);
    lemma_close_until_len(st, 0);
    assert(close_until(st, 0).open =~= Seq::<NodeModel>::empty());
}

/// Every action that the log starts is in the tree exactly once, and a
/// depth-first walk of the tree meets the actions in the order the log
/// started them.
pub proof fn law_every_started_action_appears_once_in_order(records: Seq<Record>)
    ensures
        starts(all_nodes(action_tree_of(records))) == started_upto(records, records.len()),
{
    lemma_tree(records);
    let st = Forest { roots: action_tree_of(records), open: Seq::empty() };
    assert(all_nodes(st.open) =~= Seq::<NodeModel>::empty());
    assert(nodes_of(st) =~= all_nodes(action_tree_of(records)));
}

/// Every node of the tree agrees with the lines of the log: it was started
/// by the line it names, under that line's name, depth and sequence number,
/// and a node with an end was completed or failed by that later line, under
/// the same name, carrying the failure's error exactly when it failed.
pub proof fn law_nodes_agree_with_their_lines(records: Seq<Record>)
    ensures
        forall|j: int|
            0 <= j < all_nodes(action_tree_of(records)).len() ==> faithful(
                records,
                #[trigger] all_nodes(action_tree_of(records))[j],
            ),
{
    lemma_tree(records);
    let st = Forest { roots: action_tree_of(records), open: Seq::empty() };
    assert(all_nodes(st.open) =~= Seq::<NodeModel>::empty());
    assert(nodes_of(st) =~= all_nodes(action_tree_of(records)));
}

/// The lines among the first `k` of `ls` that hold more than white space,
/// each with its 1-based line number.
pub open spec fn content_upto(ls: Seq<Seq<char>>, k: nat) -> Seq<(nat, Seq<char>)>
    decreases k,
{
    if k == 0 || k > ls.len() {
        Seq::empty()
    } else {
        let prev = content_upto(ls, (k - 1) as nat);
        if trim(ls[k - 1]).len() > 0 {
            prev.push((k, ls[k - 1]))
        } else {
            prev
        }
    }
}

/// The lines of `t` that hold more than white space, with their 1-based
/// line numbers: the lines a log is parsed from.
pub open spec fn content_lines_of(t: Seq<char>) -> Seq<(nat, Seq<char>)> {
    content_upto(lines_of(t), lines_of(t).len())
}

pub open spec fn numbered_texts(v: Seq<(usize, String)>) -> Seq<(nat, Seq<char>)> {
    v.map_values(|p: (usize, String)| (p.0 as nat, p.1@))
}

/// The lines of `text` that hold more than white space, each with its
/// 1-based line number.
pub fn content_lines(text: &str) -> (r: Vec<(usize, String)>)
    ensures
        numbered_texts(r@) == content_lines_of(text@),
{
    let ls = lines(text);
    let ghost lv = texts(ls@);
    let mut out: Vec<(usize, String)> = Vec::new();
    let mut i: usize = 0;
    proof {
        assert(numbered_texts(out@) =~= Seq::<(nat, Seq<char>)>::empty());
    }
    while i < ls.len()
        invariant
            i <= ls@.len(),
            lv == texts(ls@),
            lv == lines_of(text@),
            numbered_texts(out@) == content_upto(lv, i as nat),
        decreases ls@.len() - i,
    {
        let line = &ls[i];
        proof {
            assert(lv[i as int] == line@);
        }
        let t = trim_str(line.as_str());
        if t.as_str().unicode_len() > 0 {
            let ghost before = out@;
            let copy = line.clone();
            out.push((i + 1, copy));
            proof {
                assert(numbered_texts(out@) =~= numbered_texts(before).push(((i + 1) as nat, line@)));
            }
        }
        i = i + 1;
    }
    out
}

/// The first line of `t` that holds more than white space, and the last
/// one after it.
pub open spec fn bookends_of(t: Seq<char>) -> (Option<Seq<char>>, Option<Seq<char>>) {
    let c = content_lines_of(t);
    (
        if c.len() > 0 {
            Some(c[0].1)
        } else {
            None
        },
        if c.len() > 1 {
            Some(c.last().1)
        } else {
            None
        },
    )
}

/// The first line of `text` that holds more than white space, and the last
/// one after it: all that is needed of a log for its header and how it
/// finished.
pub fn bookends(text: &str) -> (r: (Option<String>, Option<String>))
    ensures
        (opt_text(r.0), opt_text(r.1)) == bookends_of(text@),
{
    let c = content_lines(text);
    let ghost cv = numbered_texts(c@);
    let n = c.len();
    let first = if n > 0 {
        proof {
            assert(cv[0].1 == c@[0].1@);
        }
        Some(c[0].1.clone())
    } else {
        None
    };
    let last = if n > 1 {
        proof {
            assert(cv.last().1 == c@[n - 1].1@);
        }
        Some(c[n - 1].1.clone())
    } else {
        None
    };
    (first, last)
}

} // verus!
