//! The graph of a model: its nodes, how they are wired, and the order in
//! which they are evaluated.

use vstd::prelude::*;
use vstd::string::StringExecFns;
use crate::errors::Error;
use crate::ops::konst::const_value_of;
use crate::ops::{OpBuilder, OpKind, Operator, builds, kind_of};
use crate::tfpb::node_def::{NodeDef, attr_datatype_of, attr_int_of, attr_list_int_of};

verus! {

/// A node of the graph: one invocation of an operator.
#[derive(Debug)]
pub struct Node {
    /// The place of the node in the graph.
    pub id: usize,
    /// The unique name of the node.
    pub name: String,
    /// The name of the node's operator.
    pub op_name: String,
    /// The outputs that the node reads, in order: the id of the producer
    /// and the slot among its outputs.
    pub inputs: Vec<(usize, usize)>,
    /// The operator.
    pub op: Operator,
    /// The number of outputs of the node.
    pub arity: usize,
}

/// The producer of the `k`-th input of the node `node`.
pub open spec fn input_of(nodes: Seq<Node>, node: int, k: int) -> usize {
    nodes[node].inputs@[k].0
}

/// Whether the nodes are wired well: each knows its place, reads only
/// outputs that exist, and lies deeper than every node that it reads from.
/// The depths witness that no node depends on itself.
pub open spec fn wired(nodes: Seq<Node>, depths: Seq<usize>) -> bool {
    &&& depths.len() == nodes.len()
    &&& forall|i: int| 0 <= i < nodes.len() ==> (#[trigger] nodes[i]).id == i
    &&& forall|i: int, k: int|
        0 <= i < nodes.len() && 0 <= k < nodes[i].inputs@.len() ==> {
            let from = #[trigger] input_of(nodes, i, k);
            &&& from < nodes.len()
            &&& nodes[i].inputs@[k].1 < nodes[from as int].arity
            &&& depths[from as int] < depths[i]
        }
}

/// Whether `node` stands in `plan` before the place `p`.
pub open spec fn placed_before(plan: Seq<usize>, p: int, node: usize) -> bool {
    exists|q: int| 0 <= q < p && #[trigger] plan[q] == node
}

/// Whether `plan` is an execution plan for the graph: it names nodes, none
/// of them twice, and each of them after every node that it reads from.
pub open spec fn is_plan(nodes: Seq<Node>, plan: Seq<usize>) -> bool {
    &&& forall|p: int| 0 <= p < plan.len() ==> #[trigger] plan[p] < nodes.len()
    &&& plan.no_duplicates()
    &&& forall|p: int, k: int|
        0 <= p < plan.len() && 0 <= k < nodes[plan[p] as int].inputs@.len() ==> placed_before(
            plan,
            p,
            #[trigger] input_of(nodes, plan[p] as int, k),
        )
}

/// The plan after a depth-first visit of `node`: unchanged where the plan
/// holds the node already; else the node's inputs are visited in their
/// order, and the node comes after them.
pub open spec fn visited(nodes: Seq<Node>, depths: Seq<usize>, node: usize, plan: Seq<usize>) -> Seq<
    usize,
>
    decreases depths[node as int], nodes[node as int].inputs@.len() + 1,
{
    if plan.contains(node) {
        plan
    } else {
        visited_inputs(nodes, depths, node, nodes[node as int].inputs@.len(), plan).push(node)
    }
}

/// The plan after a depth-first visit of the first `k` inputs of `node`.
pub open spec fn visited_inputs(
    nodes: Seq<Node>,
    depths: Seq<usize>,
    node: usize,
    k: nat,
    plan: Seq<usize>,
) -> Seq<usize>
    decreases depths[node as int], k,
{
    if k == 0 {
        plan
    } else {
        let before = visited_inputs(nodes, depths, node, (k - 1) as nat, plan);
        let from = input_of(nodes, node as int, k - 1);
        if depths[from as int] < depths[node as int] {
            visited(nodes, depths, from, before)
        } else {
            before
        }
    }
}

/// Whether the nodes know their places and read only outputs that exist.
pub open spec fn edges_exist(nodes: Seq<Node>) -> bool {
    &&& forall|i: int| 0 <= i < nodes.len() ==> (#[trigger] nodes[i]).id == i
    &&& forall|i: int, k: int|
        0 <= i < nodes.len() && 0 <= k < nodes[i].inputs@.len() ==> {
            let from = #[trigger] input_of(nodes, i, k);
            &&& from < nodes.len()
            &&& nodes[i].inputs@[k].1 < nodes[from as int].arity
        }
}

/// Whether every node lies deeper than every node that it reads from.
pub open spec fn deepening(nodes: Seq<Node>, depths: Seq<usize>) -> bool {
    &&& depths.len() == nodes.len()
    &&& forall|i: int, k: int|
        0 <= i < nodes.len() && 0 <= k < nodes[i].inputs@.len() ==> depths[#[trigger] input_of(
            nodes,
            i,
            k,
        ) as int] < depths[i]
}

/// Whether no node depends on itself: the nodes can be given depths such
/// that each lies deeper than every node that it reads from.
pub open spec fn acyclic(nodes: Seq<Node>) -> bool {
    exists|depths: Seq<usize>| deepening(nodes, depths)
}

/// How many entries of a list are still missing.
pub open spec fn count_none(levels: Seq<Option<usize>>) -> nat
    decreases levels.len(),
{
    if levels.len() == 0 {
        0
    } else {
        count_none(levels.drop_last()) + if levels.last() is None {
            1nat
        } else {
            0nat
        }
    }
}

/// No more entries are missing than there are entries.
proof fn lemma_count_none_bound(levels: Seq<Option<usize>>)
    ensures
        count_none(levels) <= levels.len(),
    decreases levels.len(),
{
    if levels.len() > 0 {
        lemma_count_none_bound(levels.drop_last());
    }
}

/// Filling in a missing entry leaves one entry less missing.
proof fn lemma_count_none_filled(levels: Seq<Option<usize>>, at: int, level: usize)
    requires
        0 <= at < levels.len(),
        levels[at] is None,
    ensures
        count_none(levels.update(at, Some(level))) + 1 == count_none(levels),
    decreases levels.len(),
{
    let filled = levels.update(at, Some(level));
    if at == levels.len() - 1 {
        assert(filled.drop_last() == levels.drop_last());
    } else {
        assert(filled.drop_last() == levels.drop_last().update(at, Some(level)));
        assert(filled.last() == levels.last());
        lemma_count_none_filled(levels.drop_last(), at, level);
    }
}

/// Where a missing entry is left, the count of missing entries is not zero.
proof fn lemma_count_none_positive(levels: Seq<Option<usize>>, at: int)
    requires
        0 <= at < levels.len(),
        levels[at] is None,
    ensures
        count_none(levels) > 0,
    decreases levels.len(),
{
    if at < levels.len() - 1 {
        assert(levels.drop_last()[at] is None);
        lemma_count_none_positive(levels.drop_last(), at);
    }
}

/// Whether each node without a level reads from a node without a level.
pub open spec fn stuck(nodes: Seq<Node>, levels: Seq<Option<usize>>) -> bool {
    forall|j: int|
        0 <= j < nodes.len() && (#[trigger] levels[j]) is None ==> exists|k: int|
            0 <= k < nodes[j].inputs@.len() && levels[#[trigger] input_of(nodes, j, k) as int] is None
}

/// Where each node of a set reads from a node of the set, the nodes cannot
/// be given depths: following the inputs from a node of the set would lead
/// to ever smaller depths.
proof fn lemma_stuck_is_cyclic(
    nodes: Seq<Node>,
    levels: Seq<Option<usize>>,
    depths: Seq<usize>,
    at: int,
)
    requires
        edges_exist(nodes),
        levels.len() == nodes.len(),
        stuck(nodes, levels),
        0 <= at < nodes.len(),
        levels[at] is None,
    ensures
        !deepening(nodes, depths),
    decreases depths[at],
{
    if deepening(nodes, depths) {
        let k = choose|k: int|
            0 <= k < nodes[at].inputs@.len() && levels[#[trigger] input_of(nodes, at, k) as int] is None;
        let from = input_of(nodes, at, k);
        assert(from < nodes.len());
        assert(depths[from as int] < depths[at]);
        lemma_stuck_is_cyclic(nodes, levels, depths, from as int);
    }
}

/// The kind of operator that the engine has for a name.
pub open spec fn engine_kind(name: Seq<char>) -> Option<OpKind> {
    kind_of(crate::ops::engine_ops(), name)
}

/// Whether the operator of a serialized node can be built: the engine does
/// not know its name, or the node has the attributes that the operator
/// reads.
pub open spec fn buildable(pb: NodeDef) -> bool {
    match engine_kind(pb.op@) {
        None => true,
        Some(OpKind::ConcatV2) => attr_int_of(pb.attr@, "N"@) is Ok,
        Some(OpKind::Const) => const_value_of(pb) is Ok,
        Some(OpKind::MaxPool) => crate::ops::nn::pool_of(pb) is Ok,
        Some(OpKind::Pack) => attr_int_of(pb.attr@, "N"@) is Ok && crate::tfpb::node_def::attr_signed_of(
            pb.attr@,
            "axis"@,
            0,
        ) is Ok,
        Some(OpKind::Placeholder) => attr_datatype_of(pb.attr@, "dtype"@) is Ok,
        Some(OpKind::Squeeze) => attr_list_int_of(pb.attr@, "squeeze_dims"@) is Ok,
        Some(_) => true,
    }
}

/// Whether `op` is the operator of the serialized node `pb`.
pub open spec fn operator_of(pb: NodeDef, op: Operator) -> bool {
    match engine_kind(pb.op@) {
        None => op matches Operator::Unimplemented(u) && u.0@ == pb.op@,
        Some(kind) => builds(kind, pb, Ok(op)),
    }
}

/// The place of the first serialized node with the given name.
pub open spec fn index_of_name(defs: Seq<NodeDef>, name: Seq<char>) -> Option<usize>
    decreases defs.len(),
{
    if defs.len() == 0 {
        None
    } else {
        match index_of_name(defs.drop_last(), name) {
            Some(i) => Some(i),
            None => if defs.last().name@ == name {
                Some((defs.len() - 1) as usize)
            } else {
                None
            },
        }
    }
}

/// Whether no two serialized nodes have the same name.
pub open spec fn names_unique(defs: Seq<NodeDef>) -> bool {
    forall|i: int, j: int|
        0 <= i < defs.len() && 0 <= j < defs.len() && i != j ==> (#[trigger] defs[i]).name@ != (
        #[trigger] defs[j]).name@
}

/// Whether every input of every serialized node names a node of the graph
/// and its first output, the only one that the operators of the engine have.
pub open spec fn resolvable(defs: Seq<NodeDef>) -> bool {
    forall|i: int, k: int|
        0 <= i < defs.len() && 0 <= k < defs[i].input@.len() ==> index_of_name(
            defs,
            (#[trigger] defs[i].input@[k]).node@,
        ) is Some && defs[i].input@[k].slot == 0
}

/// Whether `node` is what the serialized node at place `i` describes.
pub open spec fn describes(defs: Seq<NodeDef>, i: int, node: Node) -> bool {
    &&& node.id == i
    &&& node.name@ == defs[i].name@
    &&& node.op_name@ == defs[i].op@
    &&& node.arity == 1
    &&& operator_of(defs[i], node.op)
    &&& node.inputs@.len() == defs[i].input@.len()
    &&& forall|k: int|
        0 <= k < node.inputs@.len() ==> index_of_name(defs, defs[i].input@[k].node@) == Some(
            (#[trigger] node.inputs@[k]).0,
        ) && node.inputs@[k].1 == 0 && defs[i].input@[k].slot == 0
}

/// Whether `nodes` are what the serialized nodes describe.
pub open spec fn all_described(defs: Seq<NodeDef>, nodes: Seq<Node>) -> bool {
    &&& nodes.len() == defs.len()
    &&& forall|i: int| 0 <= i < nodes.len() ==> describes(defs, i, #[trigger] nodes[i])
}

/// The graph of a model.
#[derive(Debug)]
pub struct Model {
    nodes: Vec<Node>,
    depths: Vec<usize>,
}

impl Model {
    /// The nodes of the model, in the order of their definition.
    pub closed spec fn nodes(&self) -> Seq<Node> {
        self.nodes@
    }

    /// For each node its depth: a number greater than the depth of every
    /// node that it reads from.
    pub closed spec fn depths(&self) -> Seq<usize> {
        self.depths@
    }

    /// What holds of every model.
    #[verifier::type_invariant]
    pub open spec fn well_formed(&self) -> bool {
        wired(self.nodes(), self.depths())
    }

    /// The number of nodes.
    pub fn len(&self) -> (r: usize)
        ensures
            r == self.nodes().len(),
            wired(self.nodes(), self.depths()),
    {
        proof {
            use_type_invariant(self);
        }
        self.nodes.len()
    }

    /// The node with the given id.  Fails with `UnknownNode` where there is
    /// none.
    pub fn get_node_by_id(&self, id: usize) -> (r: Result<&Node, Error>)
        ensures
            match r {
                Ok(node) => id < self.nodes().len() && *node == self.nodes()[id as int] && node.id
                    == id,
                Err(e) => id >= self.nodes().len() && e == Error::UnknownNode,
            },
    {
        proof {
            use_type_invariant(self);
        }
        if id < self.nodes.len() {
            Ok(&self.nodes[id])
        } else {
            Err(Error::UnknownNode)
        }
    }

    /// The id of the first node with the given name.  Fails with
    /// `UnknownNode` where there is none.
    pub fn node_id_by_name(&self, name: &str) -> (r: Result<usize, Error>)
        ensures
            match r {
                Ok(id) => id < self.nodes().len() && self.nodes()[id as int].name@ == name@
                    && forall|j: int| 0 <= j < id ==> (#[trigger] self.nodes()[j]).name@ != name@,
                Err(e) => e == Error::UnknownNode && forall|j: int|
                    0 <= j < self.nodes().len() ==> (#[trigger] self.nodes()[j]).name@ != name@,
            },
    {
        let wanted = String::from_str(name);
        let mut i: usize = 0;
        while i < self.nodes.len()
            invariant
                i <= self.nodes.len(),
                wanted@ == name@,
                forall|j: int| 0 <= j < i ==> (#[trigger] self.nodes()[j]).name@ != name@,
            decreases self.nodes.len() - i,
        {
            if self.nodes[i].name == wanted {
                return Ok(i);
            }
            i += 1;
        }
        Err(Error::UnknownNode)
    }

    /// The node with the given name.  Fails with `UnknownNode` where there
    /// is none.
    pub fn get_node(&self, name: &str) -> (r: Result<&Node, Error>)
        ensures
            match r {
                Ok(node) => node.id < self.nodes().len() && *node == self.nodes()[node.id as int]
                    && node.name@ == name@,
                Err(e) => e == Error::UnknownNode && forall|j: int|
                    0 <= j < self.nodes().len() ==> (#[trigger] self.nodes()[j]).name@ != name@,
            },
    {
        match self.node_id_by_name(name) {
            Ok(id) => self.get_node_by_id(id),
            Err(e) => Err(e),
        }
    }

    /// Whether no two serialized nodes have the same name.
    fn unique_names(graph: &Vec<NodeDef>) -> (r: bool)
        ensures
            r == names_unique(graph@),
    {
        let n = graph.len();
        let mut i: usize = 0;
        while i < n
            invariant
                i <= n,
                n == graph@.len(),
                forall|a: int, b: int|
                    0 <= a < i && 0 <= b < n && a != b ==> (#[trigger] graph@[a]).name@ != (
                    #[trigger] graph@[b]).name@,
            decreases n - i,
        {
            let mut j: usize = 0;
            while j < n
                invariant
                    j <= n,
                    i < n,
                    n == graph@.len(),
                    forall|b: int| 0 <= b < j && b != i ==> graph@[i as int].name@ != (
                    #[trigger] graph@[b]).name@,
                decreases n - j,
            {
                if j != i && graph[i].name == graph[j].name {
                    return false;
                }
                j += 1;
            }
            i += 1;
        }
        true
    }

    /// The place of the first serialized node with the given name.
    fn find_name(graph: &Vec<NodeDef>, name: &String) -> (r: Option<usize>)
        ensures
            r == index_of_name(graph@, name@),
    {
        let n = graph.len();
        let mut i: usize = 0;
        assert(graph@.take(0).len() == 0);
        while i < n
            invariant
                i <= n,
                n == graph@.len(),
                index_of_name(graph@.take(i as int), name@) is None,
            decreases n - i,
        {
            proof {
                assert(graph@.take(i + 1).drop_last() == graph@.take(i as int));
                assert(graph@.take(i + 1).last() == graph@[i as int]);
            }
            if graph[i].name == *name {
                proof {
                    lemma_index_found(graph@, i + 1, name@);
                }
                return Some(i);
            }
            i += 1;
        }
        assert(graph@.take(n as int) == graph@);
        None
    }

    /// The inputs of the serialized node at place `i`, each as the id of its
    /// producer and the slot among the producer's outputs, or nothing where
    /// one of them names no node or another slot than the first.
    fn resolve(graph: &Vec<NodeDef>, i: usize) -> (r: Option<Vec<(usize, usize)>>)
        requires
            i < graph@.len(),
        ensures
            match r {
                Some(inputs) => {
                    &&& inputs@.len() == graph@[i as int].input@.len()
                    &&& forall|k: int|
                        0 <= k < inputs@.len() ==> index_of_name(
                            graph@,
                            graph@[i as int].input@[k].node@,
                        ) == Some((#[trigger] inputs@[k]).0) && inputs@[k].1 == 0
                            && graph@[i as int].input@[k].slot == 0
                },
                None => !resolvable(graph@),
            },
    {
        let def = &graph[i];
        let mut inputs: Vec<(usize, usize)> = Vec::new();
        let mut k: usize = 0;
        while k < def.input.len()
            invariant
                k <= def.input.len(),
                i < graph@.len(),
                *def == graph@[i as int],
                inputs@.len() == k,
                forall|t: int|
                    0 <= t < k ==> index_of_name(graph@, def.input@[t].node@) == Some(
                        (#[trigger] inputs@[t]).0,
                    ) && inputs@[t].1 == 0 && def.input@[t].slot == 0,
            decreases def.input.len() - k,
        {
            let from = match Self::find_name(graph, &def.input[k].node) {
                Some(from) => from,
                None => {
                    assert(index_of_name(graph@, (graph@[i as int].input@[k as int]).node@) is None);
                    return None;
                },
            };
            if def.input[k].slot != 0 {
                assert(graph@[i as int].input@[k as int].slot != 0);
                return None;
            }
            inputs.push((from, 0));
            k += 1;
        }
        Some(inputs)
    }

    /// Whether the node `j` can be given the level `round`: all the nodes
    /// that it reads from have a smaller level.
    fn ready(nodes: &Vec<Node>, levels: &Vec<Option<usize>>, j: usize, round: usize) -> (r: bool)
        requires
            edges_exist(nodes@),
            levels@.len() == nodes@.len(),
            j < nodes@.len(),
        ensures
            r <==> forall|k: int|
                0 <= k < nodes@[j as int].inputs@.len() ==> {
                    let from = #[trigger] input_of(nodes@, j as int, k);
                    levels@[from as int] matches Some(l) && l < round
                },
    {
        let count = nodes[j].inputs.len();
        let mut k: usize = 0;
        while k < count
            invariant
                k <= count,
                edges_exist(nodes@),
                levels@.len() == nodes@.len(),
                j < nodes@.len(),
                count == nodes@[j as int].inputs@.len(),
                forall|t: int|
                    0 <= t < k ==> {
                        let from = #[trigger] input_of(nodes@, j as int, t);
                        levels@[from as int] matches Some(l) && l < round
                    },
            decreases count - k,
        {
            let from = nodes[j].inputs[k].0;
            assert(from == input_of(nodes@, j as int, k as int));
            match levels[from] {
                Some(l) => {
                    if l >= round {
                        return false;
                    }
                },
                None => {
                    return false;
                },
            }
            k += 1;
        }
        true
    }

    /// Depths for the nodes, each deeper than every node that it reads from,
    /// or nothing where a node depends on itself.  The nodes that read from
    /// no node get depth zero; round by round, the nodes whose inputs all
    /// have a depth get the next one.
    fn depths_of(nodes: &Vec<Node>) -> (r: Option<Vec<usize>>)
        requires
            edges_exist(nodes@),
        ensures
            match r {
                Some(depths) => deepening(nodes@, depths@),
                None => !acyclic(nodes@),
            },
    {
        let n = nodes.len();
        let mut levels: Vec<Option<usize>> = Vec::new();
        let mut i: usize = 0;
        while i < n
            invariant
                i <= n,
                levels@.len() == i,
                forall|j: int| 0 <= j < i ==> (#[trigger] levels@[j]) is None,
            decreases n - i,
        {
            levels.push(None);
            i += 1;
        }
        proof {
            lemma_count_none_bound(levels@);
        }
        let mut round: usize = 0;
        loop
            invariant
                n == nodes@.len(),
                edges_exist(nodes@),
                levels@.len() == n,
                round + count_none(levels@) <= n,
                forall|j: int| 0 <= j < n ==> ((#[trigger] levels@[j]) matches Some(l) ==> l < round),
                forall|j: int, k: int|
                    0 <= j < n && 0 <= k < nodes@[j].inputs@.len() && levels@[j] is Some ==> {
                        let from = #[trigger] input_of(nodes@, j, k);
                        levels@[from as int] matches Some(l) && l < levels@[j].unwrap()
                    },
            ensures
                levels@.len() == n,
                stuck(nodes@, levels@),
                forall|j: int, k: int|
                    0 <= j < n && 0 <= k < nodes@[j].inputs@.len() && levels@[j] is Some ==> {
                        let from = #[trigger] input_of(nodes@, j, k);
                        levels@[from as int] matches Some(l) && l < levels@[j].unwrap()
                    },
            decreases count_none(levels@),
        {
            let ghost at_start = levels@;
            let mut changed = false;
            let mut j: usize = 0;
            while j < n
                invariant
                    j <= n,
                    n == nodes@.len(),
                    edges_exist(nodes@),
                    levels@.len() == n,
                    at_start.len() == n,
                    round + count_none(at_start) <= n,
                    changed ==> count_none(levels@) < count_none(at_start),
                    !changed ==> levels@ == at_start,
                    forall|t: int| 0 <= t < n ==> ((#[trigger] at_start[t]) matches Some(l) ==> l < round),
                    forall|t: int| 0 <= t < n ==> ((#[trigger] levels@[t]) matches Some(l) ==> l <= round),
                    count_none(levels@) <= count_none(at_start),
                    forall|t: int, k: int|
                        0 <= t < n && 0 <= k < nodes@[t].inputs@.len() && levels@[t] is Some ==> {
                            let from = #[trigger] input_of(nodes@, t, k);
                            levels@[from as int] matches Some(l) && l < levels@[t].unwrap()
                        },
                    !changed ==> forall|t: int|
                        0 <= t < j && (#[trigger] levels@[t]) is None ==> exists|k: int|
                            0 <= k < nodes@[t].inputs@.len() && levels@[#[trigger] input_of(
                                nodes@,
                                t,
                                k,
                            ) as int] is None,
                decreases n - j,
            {
                if levels[j].is_none() {
                    if Self::ready(nodes, &levels, j, round) {
                        let ghost before = levels@;
                        levels.set(j, Some(round));
                        proof {
                            lemma_count_none_filled(before, j as int, round);
                            assert forall|t: int, k: int|
                                0 <= t < n && 0 <= k < nodes@[t].inputs@.len()
                                    && levels@[t] is Some implies {
                                let from = #[trigger] input_of(nodes@, t, k);
                                levels@[from as int] matches Some(l) && l < levels@[t].unwrap()
                            } by {
                                let from = input_of(nodes@, t, k);
                                if t == j {
                                    assert(before[from as int] matches Some(l) && l < round);
                                    assert(from != j);
                                } else {
                                    assert(before[t] is Some);
                                    assert(before[from as int] matches Some(l) && l
                                        < before[t].unwrap());
                                    assert(from != j);
                                }
                            }
                        }
                        changed = true;
                    } else {
                        proof {
                            if !changed {
                                let k = choose|k: int|
                                    0 <= k < nodes@[j as int].inputs@.len() && !({
                                        let from = #[trigger] input_of(nodes@, j as int, k);
                                        levels@[from as int] matches Some(l) && l < round
                                    });
                                let from = input_of(nodes@, j as int, k);
                                assert(from < n);
                                assert(at_start[from as int] matches Some(l) ==> l < round);
                                assert(levels@[from as int] is None);
                            }
                        }
                    }
                }
                j += 1;
            }
            if !changed {
                break ;
            }
            round += 1;
        }
        let mut depths: Vec<usize> = Vec::new();
        let mut t: usize = 0;
        while t < n
            invariant
                t <= n,
                n == nodes@.len(),
                edges_exist(nodes@),
                levels@.len() == n,
                stuck(nodes@, levels@),
                depths@.len() == t,
                forall|q: int| 0 <= q < t ==> levels@[q] == Some(#[trigger] depths@[q]),
            decreases n - t,
        {
            match levels[t] {
                Some(level) => {
                    depths.push(level);
                },
                None => {
                    proof {
                        if acyclic(nodes@) {
                            let witness = choose|d: Seq<usize>| deepening(nodes@, d);
                            lemma_stuck_is_cyclic(nodes@, levels@, witness, t as int);
                        }
                    }
                    return None;
                },
            }
            t += 1;
        }
        proof {
            assert forall|a: int, k: int|
                0 <= a < nodes@.len() && 0 <= k < nodes@[a].inputs@.len() implies depths@[#[trigger] input_of(
                nodes@,
                a,
                k,
            ) as int] < depths@[a] by {
                let from = input_of(nodes@, a, k);
                assert(levels@[a] == Some(depths@[a]));
                assert(from < n);
                assert(levels@[from as int] == Some(depths@[from as int]));
            }
        }
        Some(depths)
    }

    /// Loads a graph: builds the operator of every serialized node and
    /// resolves the names of its inputs.  Fails with `CyclicGraph` where a
    /// node depends on itself, and with `InvalidGraph` or the error of an
    /// operator's builder where the nodes cannot be made at all: two share
    /// a name, one lacks an attribute that its operator reads, or one reads
    /// an output that does not exist.
    pub fn new(graph: &Vec<NodeDef>) -> (r: Result<Model, Error>)
        ensures
            match r {
                Ok(model) => {
                    &&& names_unique(graph@)
                    &&& all_described(graph@, model.nodes())
                    &&& wired(model.nodes(), model.depths())
                },
                Err(e) => {
                    let makeable = {
                        &&& names_unique(graph@)
                        &&& resolvable(graph@)
                        &&& forall|i: int| 0 <= i < graph@.len() ==> buildable(#[trigger] graph@[i])
                    };
                    &&& e == Error::CyclicGraph <==> makeable
                    &&& makeable ==> forall|nodes: Seq<Node>|
                        all_described(graph@, nodes) ==> !acyclic(nodes)
                },
            },
    {
        if !Self::unique_names(graph) {
            return Err(Error::InvalidGraph);
        }
        let builder = OpBuilder::new();
        let n = graph.len();
        let mut nodes: Vec<Node> = Vec::new();
        let mut i: usize = 0;
        while i < n
            invariant
                i <= n,
                n == graph@.len(),
                names_unique(graph@),
                builder.0@ == crate::ops::engine_ops(),
                nodes@.len() == i,
                forall|j: int| 0 <= j < i ==> describes(graph@, j, #[trigger] nodes@[j]),
                forall|j: int| 0 <= j < i ==> buildable(#[trigger] graph@[j]),
            decreases n - i,
        {
            let def = &graph[i];
            let op = match builder.build(def) {
                Ok(op) => op,
                Err(e) => {
                    assert(!buildable(graph@[i as int]));
                    assert(e != Error::CyclicGraph);
                    return Err(e);
                },
            };
            let inputs = match Self::resolve(graph, i) {
                Some(inputs) => inputs,
                None => {
                    return Err(Error::InvalidGraph);
                },
            };
            nodes.push(
                Node {
                    id: i,
                    name: def.name.clone(),
                    op_name: def.op.clone(),
                    inputs,
                    op,
                    arity: 1,
                },
            );
            i += 1;
        }
        proof {
            lemma_described_edges(graph@, nodes@);
            assert(resolvable(graph@)) by {
                assert forall|a: int, k: int|
                    0 <= a < graph@.len() && 0 <= k < graph@[a].input@.len() implies index_of_name(
                    graph@,
                    (#[trigger] graph@[a].input@[k]).node@,
                ) is Some && graph@[a].input@[k].slot == 0 by {
                    assert(describes(graph@, a, nodes@[a]));
                    assert(nodes@[a].inputs@[k].1 == 0);
                }
            }
        }
        match Self::depths_of(&nodes) {
            Some(depths) => {
                assert(wired(nodes@, depths@));
                let model = Model { nodes, depths };
                assert(all_described(graph@, model.nodes()));
                Ok(model)
            },
            None => {
                proof {
                    lemma_described_alike(graph@, nodes@);
                }
                Err(Error::CyclicGraph)
            },
        }
    }

    /// Whether `plan` holds `node`.
    fn in_plan(plan: &Vec<usize>, node: usize) -> (r: bool)
        ensures
            r == plan@.contains(node),
    {
        let mut i: usize = 0;
        while i < plan.len()
            invariant
                i <= plan.len(),
                forall|j: int| 0 <= j < i ==> plan@[j] != node,
            decreases plan.len() - i,
        {
            if plan[i] == node {
                return true;
            }
            i += 1;
        }
        false
    }

    /// Visits `node` depth first: its inputs in their order, then the node
    /// itself, each unless the plan holds it already.
    fn visit(&self, node: usize, plan: &mut Vec<usize>)
        requires
            node < self.nodes().len(),
            is_plan(self.nodes(), old(plan)@),
        ensures
            final(plan)@ == visited(self.nodes(), self.depths(), node, old(plan)@),
            is_plan(self.nodes(), final(plan)@),
            final(plan)@.contains(node),
            old(plan)@.len() <= final(plan)@.len(),
            final(plan)@.take(old(plan)@.len() as int) == old(plan)@,
            !old(plan)@.contains(node) ==> final(plan)@.last() == node,
        decreases self.depths()[node as int],
    {
        proof {
            use_type_invariant(self);
        }
        if Self::in_plan(plan, node) {
            assert(plan@.take(plan@.len() as int) == plan@);
            return ;
        }
        let ghost nodes = self.nodes();
        let ghost depths = self.depths();
        let ghost start = plan@;
        let count = self.nodes[node].inputs.len();
        let mut k: usize = 0;
        while k < count
            invariant
                k <= count,
                node < nodes.len(),
                nodes == self.nodes(),
                depths == self.depths(),
                wired(nodes, depths),
                count == nodes[node as int].inputs@.len(),
                plan@ == visited_inputs(nodes, depths, node, k as nat, start),
                is_plan(nodes, plan@),
                start.len() <= plan@.len(),
                plan@.take(start.len() as int) == start,
                !start.contains(node),
                !plan@.contains(node),
                forall|j: int| 0 <= j < k ==> plan@.contains(input_of(nodes, node as int, j)),
            decreases count - k,
        {
            let from = self.nodes[node].inputs[k].0;
            let ghost before = plan@;
            proof {
                assert(from == input_of(nodes, node as int, k as int));
                assert(depths[from as int] < depths[node as int]);
            }
            self.visit(from, plan);
            proof {
                // What the plan held, it still holds.
                assert forall|j: int| 0 <= j < k implies plan@.contains(
                    input_of(nodes, node as int, j),
                ) by {
                    let v = input_of(nodes, node as int, j);
                    let q = choose|q: int| 0 <= q < before.len() && before[q] == v;
                    assert(plan@.take(before.len() as int)[q] == v);
                    assert(plan@[q] == v);
                }
                assert(plan@.take(start.len() as int) == start) by {
                    assert(plan@.take(before.len() as int).take(start.len() as int) == plan@.take(
                        start.len() as int,
                    ));
                }
                // The node itself was not visited: it lies deeper than its input.
                lemma_visit_stays_shallow(nodes, depths, from, before, node);
            }
            k += 1;
        }
        let ghost inputs_done = plan@;
        plan.push(node);
        proof {
            assert(plan@.take(start.len() as int) == start) by {
                assert(inputs_done.take(start.len() as int) == start);
            }
            assert forall|p: int| 0 <= p < plan@.len() implies #[trigger] plan@[p] < nodes.len() by {
                if p < inputs_done.len() {
                    assert(plan@[p] == inputs_done[p]);
                }
            }
            assert(plan@.no_duplicates()) by {
                assert forall|a: int, b: int|
                    0 <= a < plan@.len() && 0 <= b < plan@.len() && a != b implies plan@[a]
                    != plan@[b] by {
                    if a < inputs_done.len() && b < inputs_done.len() {
                        assert(inputs_done[a] != inputs_done[b]);
                    } else if a < inputs_done.len() {
                        assert(inputs_done.contains(inputs_done[a]));
                    } else {
                        assert(inputs_done.contains(inputs_done[b]));
                    }
                }
            }
            assert forall|p: int, j: int|
                0 <= p < plan@.len() && 0 <= j < nodes[plan@[p] as int].inputs@.len() implies placed_before(
                plan@,
                p,
                #[trigger] input_of(nodes, plan@[p] as int, j),
            ) by {
                if p < inputs_done.len() {
                    assert(plan@[p] == inputs_done[p]);
                    assert(placed_before(inputs_done, p, input_of(nodes, inputs_done[p] as int, j)));
                    let q = choose|q: int|
                        0 <= q < p && #[trigger] inputs_done[q] == input_of(
                            nodes,
                            inputs_done[p] as int,
                            j,
                        );
                    assert(plan@[q] == inputs_done[q]);
                } else {
                    let v = input_of(nodes, node as int, j);
                    assert(inputs_done.contains(v));
                    let q = choose|q: int| 0 <= q < inputs_done.len() && inputs_done[q] == v;
                    assert(plan@[q] == v);
                }
            }
            assert(plan@[plan@.len() - 1] == node);
        }
    }

    /// The execution plan for `target`: the nodes that `target` depends on
    /// and `target` itself, each once and after every node that it reads
    /// from, in the order of a depth-first visit that follows the inputs of
    /// each node in their order.  Fails with `UnknownNode` where the graph
    /// has no node `target`.
    pub fn eval_order(&self, target: usize) -> (r: Result<Vec<usize>, Error>)
        ensures
            match r {
                Ok(plan) => {
                    &&& target < self.nodes().len()
                    &&& plan@ == visited(
                        self.nodes(),
                        self.depths(),
                        target,
                        Seq::<usize>::empty(),
                    )
                    &&& is_plan(self.nodes(), plan@)
                    &&& plan@.len() > 0
                    &&& plan@.last() == target
                },
                Err(e) => target >= self.nodes().len() && e == Error::UnknownNode,
            },
    {
        if target >= self.nodes.len() {
            return Err(Error::UnknownNode);
        }
        let mut plan: Vec<usize> = Vec::new();
        self.visit(target, &mut plan);
        Ok(plan)
    }
}

/// A visit adds to the plan only nodes that are at most as deep as the node
/// visited.
pub proof fn lemma_visit_stays_shallow(
    nodes: Seq<Node>,
    depths: Seq<usize>,
    node: usize,
    plan: Seq<usize>,
    other: usize,
)
    requires
        wired(nodes, depths),
        node < nodes.len(),
        other < nodes.len(),
        depths[other as int] > depths[node as int],
        !plan.contains(other),
    ensures
        !visited(nodes, depths, node, plan).contains(other),
    decreases depths[node as int], nodes[node as int].inputs@.len() + 1,
{
    if !plan.contains(node) {
        let count = nodes[node as int].inputs@.len();
        lemma_visit_inputs_stay_shallow(nodes, depths, node, count, plan, other);
        let before = visited_inputs(nodes, depths, node, count, plan);
        let after = before.push(node);
        if after.contains(other) {
            let q = choose|q: int| 0 <= q < after.len() && after[q] == other;
            if q < before.len() {
                assert(before[q] == other);
                assert(before.contains(other));
            }
        }
    }
}

/// A visit of the inputs of a node adds to the plan only nodes that are less
/// deep than the node.
pub proof fn lemma_visit_inputs_stay_shallow(
    nodes: Seq<Node>,
    depths: Seq<usize>,
    node: usize,
    k: nat,
    plan: Seq<usize>,
    other: usize,
)
    requires
        wired(nodes, depths),
        node < nodes.len(),
        other < nodes.len(),
        k <= nodes[node as int].inputs@.len(),
        depths[other as int] >= depths[node as int],
        !plan.contains(other),
    ensures
        !visited_inputs(nodes, depths, node, k, plan).contains(other),
    decreases depths[node as int], k,
{
    if k > 0 {
        lemma_visit_inputs_stay_shallow(nodes, depths, node, (k - 1) as nat, plan, other);
        let before = visited_inputs(nodes, depths, node, (k - 1) as nat, plan);
        let from = input_of(nodes, node as int, k - 1);
        assert(from < nodes.len() && depths[from as int] < depths[node as int]);
        lemma_visit_stays_shallow(nodes, depths, from, before, other);
    }
}

/// Where a prefix of the serialized nodes ends with a node of the wanted
/// name and holds no other, the place of that node is the place of the name.
proof fn lemma_index_found(defs: Seq<NodeDef>, k: int, name: Seq<char>)
    requires
        0 < k <= defs.len(),
        k - 1 <= usize::MAX,
        index_of_name(defs.take(k - 1), name) is None,
        defs[k - 1].name@ == name,
    ensures
        index_of_name(defs, name) == Some((k - 1) as usize),
    decreases defs.len() - k,
{
    assert(defs.take(k).drop_last() == defs.take(k - 1));
    assert(defs.take(k).last() == defs[k - 1]);
    assert(index_of_name(defs.take(k), name) == Some((k - 1) as usize));
    lemma_index_kept(defs, k, name);
}

/// The place that a prefix of the serialized nodes has for a name is the
/// place that all of them have for it.
proof fn lemma_index_kept(defs: Seq<NodeDef>, k: int, name: Seq<char>)
    requires
        0 <= k <= defs.len(),
        index_of_name(defs.take(k), name) is Some,
    ensures
        index_of_name(defs, name) == index_of_name(defs.take(k), name),
    decreases defs.len() - k,
{
    if k == defs.len() {
        assert(defs.take(k) == defs);
    } else {
        assert(defs.take(k + 1).drop_last() == defs.take(k));
        lemma_index_kept(defs, k + 1, name);
    }
}

/// The place of a name is a place of the graph.
pub proof fn lemma_index_in_range(defs: Seq<NodeDef>, name: Seq<char>)
    requires
        defs.len() <= usize::MAX,
    ensures
        index_of_name(defs, name) matches Some(i) ==> i < defs.len() && defs[i as int].name@ == name,
    decreases defs.len(),
{
    if defs.len() > 0 {
        lemma_index_in_range(defs.drop_last(), name);
        match index_of_name(defs.drop_last(), name) {
            Some(i) => {
                assert(defs.drop_last()[i as int] == defs[i as int]);
            },
            None => {},
        }
    }
}

/// The nodes that serialized nodes describe know their places and read only
/// outputs that exist.
pub proof fn lemma_described_edges(defs: Seq<NodeDef>, nodes: Seq<Node>)
    requires
        all_described(defs, nodes),
        defs.len() <= usize::MAX,
    ensures
        edges_exist(nodes),
{
    assert forall|i: int, k: int| 0 <= i < nodes.len() && 0 <= k < nodes[i].inputs@.len() implies {
        let from = #[trigger] input_of(nodes, i, k);
        &&& from < nodes.len()
        &&& nodes[i].inputs@[k].1 < nodes[from as int].arity
    } by {
        assert(describes(defs, i, nodes[i]));
        let from = nodes[i].inputs@[k].0;
        lemma_index_in_range(defs, defs[i].input@[k].node@);
        assert(describes(defs, from as int, nodes[from as int]));
    }
    assert forall|i: int| 0 <= i < nodes.len() implies (#[trigger] nodes[i]).id == i by {
        assert(describes(defs, i, nodes[i]));
    }
}

/// All the lists of nodes that serialized nodes describe are wired alike:
/// where one of them has a node that depends on itself, each has.
pub proof fn lemma_described_alike(defs: Seq<NodeDef>, nodes: Seq<Node>)
    requires
        all_described(defs, nodes),
        !acyclic(nodes),
    ensures
        forall|others: Seq<Node>| all_described(defs, others) ==> !acyclic(others),
{
    assert forall|others: Seq<Node>| all_described(defs, others) implies !acyclic(others) by {
        if acyclic(others) {
            let depths = choose|d: Seq<usize>| deepening(others, d);
            assert forall|i: int, k: int|
                0 <= i < nodes.len() && 0 <= k < nodes[i].inputs@.len() implies depths[#[trigger] input_of(
                nodes,
                i,
                k,
            ) as int] < depths[i] by {
                assert(describes(defs, i, nodes[i]));
                assert(describes(defs, i, others[i]));
                assert(others[i].inputs@[k].0 == nodes[i].inputs@[k].0);
                assert(input_of(others, i, k) == input_of(nodes, i, k));
            }
            assert(deepening(nodes, depths));
        }
    }
}

} // verus!
