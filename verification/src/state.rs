//! The state of an evaluation: the outputs that the nodes of a model have
//! so far.

use std::sync::Arc;
use vstd::prelude::*;
use crate::errors::Error;
use crate::matrix::{Matrix, MatrixView};
use crate::model::{Model, Node, input_of, is_plan, visited, wired};
use crate::ops::{Input, Op, share, views_of};

verus! {

/// The outputs of the nodes as mathematical data: for each node nothing, or
/// the list of its outputs.
pub type Outputs = Seq<Option<Seq<MatrixView>>>;

/// An evaluation that failed: at which node, and why.
#[derive(Debug, Clone, PartialEq, Eq)]
pub struct NodeError {
    pub node: usize,
    pub error: Error,
}

/// Whether every node that has outputs has as many as its arity says.
pub open spec fn arities_kept(nodes: Seq<Node>, outputs: Outputs) -> bool {
    &&& outputs.len() == nodes.len()
    &&& forall|i: int|
        0 <= i < nodes.len() ==> ((#[trigger] outputs[i]) matches Some(list) ==> list.len()
            == nodes[i].arity)
}

/// Whether every node that the node `id` reads from has outputs.
pub open spec fn inputs_present(nodes: Seq<Node>, outputs: Outputs, id: int) -> bool {
    forall|k: int|
        0 <= k < nodes[id].inputs@.len() ==> outputs[#[trigger] input_of(nodes, id, k) as int] is Some
}

/// The tensors that the node `id` reads, in the order of its inputs.
pub open spec fn input_values(nodes: Seq<Node>, outputs: Outputs, id: int) -> Seq<MatrixView> {
    Seq::new(
        nodes[id].inputs@.len(),
        |k: int| outputs[input_of(nodes, id, k) as int].unwrap()[nodes[id].inputs@[k].1 as int],
    )
}

/// What the evaluation of the node `id` does to the outputs: it installs
/// what the node's operator computes from the outputs of the nodes that the
/// node reads from.  It is an `UnknownNode` where the graph has no such
/// node, a `PrecondMissing` where a node that it reads from has no outputs,
/// the operator's error where the operator fails, and an `InvalidGraph`
/// where the operator gives another number of outputs than the arity of the
/// node.
pub open spec fn step(nodes: Seq<Node>, outputs: Outputs, id: usize) -> Result<Outputs, Error> {
    if id >= nodes.len() {
        Err(Error::UnknownNode)
    } else if !inputs_present(nodes, outputs, id as int) {
        Err(Error::PrecondMissing)
    } else {
        match nodes[id as int].op.eval_spec(input_values(nodes, outputs, id as int)) {
            Err(e) => Err(e),
            Ok(computed) => if computed.len() != nodes[id as int].arity {
                Err(Error::InvalidGraph)
            } else {
                Ok(outputs.update(id as int, Some(computed)))
            },
        }
    }
}

/// What the evaluation of a plan does to the outputs: node by node, each
/// node that has no outputs yet is evaluated, until one fails.  The result
/// is the outputs at the end and, where a node failed, the node and its
/// error.
pub open spec fn run(nodes: Seq<Node>, outputs: Outputs, plan: Seq<usize>) -> (Outputs, Option<
    (usize, Error),
>)
    decreases plan.len(),
{
    if plan.len() == 0 {
        (outputs, None)
    } else {
        let (before, failed) = run(nodes, outputs, plan.drop_last());
        if failed is Some || before[plan.last() as int] is Some {
            (before, failed)
        } else {
            match step(nodes, before, plan.last()) {
                Ok(after) => (after, None),
                Err(e) => (before, Some((plan.last(), e))),
            }
        }
    }
}

/// An evaluation of a plan keeps the outputs that the nodes had, and keeps
/// to the arities of the nodes.
pub proof fn lemma_run_keeps(nodes: Seq<Node>, outputs: Outputs, plan: Seq<usize>)
    requires
        arities_kept(nodes, outputs),
        forall|p: int| 0 <= p < plan.len() ==> #[trigger] plan[p] < nodes.len(),
    ensures
        arities_kept(nodes, run(nodes, outputs, plan).0),
        forall|i: int|
            0 <= i < nodes.len() && (#[trigger] outputs[i]) is Some ==> run(nodes, outputs, plan).0[i]
                == outputs[i],
    decreases plan.len(),
{
    if plan.len() > 0 {
        assert forall|p: int| 0 <= p < plan.drop_last().len() implies #[trigger] plan.drop_last()[p]
            < nodes.len() by {
            assert(plan.drop_last()[p] == plan[p]);
        }
        lemma_run_keeps(nodes, outputs, plan.drop_last());
        assert(plan[plan.len() - 1] < nodes.len());
    }
}

/// After an evaluation of a plan that did not fail, every node of the plan
/// has outputs.
pub proof fn lemma_run_computes(nodes: Seq<Node>, outputs: Outputs, plan: Seq<usize>)
    requires
        arities_kept(nodes, outputs),
        forall|p: int| 0 <= p < plan.len() ==> #[trigger] plan[p] < nodes.len(),
        run(nodes, outputs, plan).1 is None,
    ensures
        forall|p: int| 0 <= p < plan.len() ==> run(nodes, outputs, plan).0[#[trigger] plan[p] as int] is Some,
    decreases plan.len(),
{
    if plan.len() > 0 {
        let rest = plan.drop_last();
        assert forall|p: int| 0 <= p < rest.len() implies #[trigger] rest[p] < nodes.len() by {
            assert(rest[p] == plan[p]);
        }
        lemma_run_computes(nodes, outputs, rest);
        lemma_run_keeps(nodes, outputs, rest);
        let before = run(nodes, outputs, rest).0;
        let last = plan.last();
        assert(plan[plan.len() - 1] < nodes.len());
        assert forall|p: int| 0 <= p < plan.len() implies run(nodes, outputs, plan).0[#[trigger] plan[p] as int] is Some by {
            if p < rest.len() {
                assert(rest[p] == plan[p]);
                assert(before[rest[p] as int] is Some);
            }
        }
    }
}

/// The state of an evaluation of a model.
pub struct ModelState<'a> {
    model: &'a Model,
    outputs: Vec<Option<Vec<Arc<Matrix>>>>,
}

/// The tensors that a list of shared handles points to.
pub open spec fn shared_views(list: Seq<Arc<Matrix>>) -> Seq<MatrixView> {
    Seq::new(list.len(), |i: int| list[i]@)
}

impl<'a> ModelState<'a> {
    /// The model that is evaluated.
    pub closed spec fn model(&self) -> Model {
        *self.model
    }

    /// The outputs that the nodes have so far.
    pub closed spec fn outputs(&self) -> Outputs {
        Seq::new(
            self.outputs@.len(),
            |i: int|
                match self.outputs@[i] {
                    Some(list) => Some(shared_views(list@)),
                    None => None,
                },
        )
    }

    /// What holds of every state that the functions of this file make: the
    /// model is wired well, and each node that has outputs has as many as
    /// its arity says.
    pub open spec fn well_formed(&self) -> bool {
        &&& wired(self.model().nodes(), self.model().depths())
        &&& arities_kept(self.model().nodes(), self.outputs())
    }

    /// A state in which no node of `model` has outputs.
    pub fn new(model: &'a Model) -> (r: ModelState<'a>)
        ensures
            r.well_formed(),
            r.model() == *model,
            r.outputs().len() == model.nodes().len(),
            forall|i: int| 0 <= i < r.outputs().len() ==> (#[trigger] r.outputs()[i]) is None,
    {
        let n = model.len();
        let mut outputs: Vec<Option<Vec<Arc<Matrix>>>> = Vec::new();
        let mut i: usize = 0;
        while i < n
            invariant
                i <= n,
                outputs@.len() == i,
                forall|j: int| 0 <= j < i ==> (#[trigger] outputs@[j]) is None,
            decreases n - i,
        {
            outputs.push(None);
            i += 1;
        }
        ModelState { model, outputs }
    }

    /// The outputs of the node `id`, if it has any.
    pub fn get_outputs(&self, id: usize) -> (r: Option<&Vec<Arc<Matrix>>>)
        ensures
            match r {
                Some(list) => id < self.outputs().len() && self.outputs()[id as int] == Some(
                    shared_views(list@),
                ),
                None => id >= self.outputs().len() || self.outputs()[id as int] is None,
            },
    {
        if id >= self.outputs.len() {
            return None;
        }
        match &self.outputs[id] {
            Some(list) => Some(list),
            None => None,
        }
    }

    /// Installs the full output list of a node.  Fails with `UnknownNode`
    /// where the graph has no node `id`, and with `InvalidGraph` where the
    /// list has not as many tensors as the arity of the node says; the state
    /// is then as before.
    pub fn set_outputs(&mut self, id: usize, values: Vec<Matrix>) -> (r: Result<(), Error>)
        requires
            old(self).well_formed(),
        ensures
            final(self).well_formed(),
            final(self).model() == old(self).model(),
            match r {
                Ok(_) => {
                    &&& id < old(self).outputs().len()
                    &&& values@.len() == old(self).model().nodes()[id as int].arity
                    &&& final(self).outputs() == old(self).outputs().update(
                        id as int,
                        Some(Seq::new(values@.len(), |i: int| values@[i]@)),
                    )
                },
                Err(e) => {
                    &&& final(self).outputs() == old(self).outputs()
                    &&& if id >= old(self).outputs().len() {
                        e == Error::UnknownNode
                    } else {
                        e == Error::InvalidGraph && values@.len() != old(
                            self,
                        ).model().nodes()[id as int].arity
                    }
                },
            },
    {
        let node = match self.model.get_node_by_id(id) {
            Ok(node) => node,
            Err(e) => {
                return Err(e);
            },
        };
        if values.len() != node.arity {
            return Err(Error::InvalidGraph);
        }
        let mut values = values;
        let ghost given = values@;
        let mut shared: Vec<Arc<Matrix>> = Vec::new();
        while values.len() > 0
            invariant
                values@.len() + shared@.len() == given.len(),
                values@ == given.take(values@.len() as int),
                forall|i: int|
                    0 <= i < shared@.len() ==> (#[trigger] shared@[i])@ == given[given.len() - 1
                        - i]@,
            decreases values.len(),
        {
            let m = values.pop().unwrap();
            shared.push(Arc::new(m));
        }
        // The tensors were taken from the end: put them back in order.
        let mut ordered: Vec<Arc<Matrix>> = Vec::new();
        while shared.len() > 0
            invariant
                ordered@.len() + shared@.len() == given.len(),
                forall|i: int|
                    0 <= i < shared@.len() ==> (#[trigger] shared@[i])@ == given[given.len() - 1
                        - i]@,
                forall|i: int| 0 <= i < ordered@.len() ==> (#[trigger] ordered@[i])@ == given[i]@,
            decreases shared.len(),
        {
            let m = shared.pop().unwrap();
            ordered.push(m);
        }
        let ghost before = self.outputs();
        self.outputs.set(id, Some(ordered));
        proof {
            assert(shared_views(ordered@) =~= Seq::new(given.len(), |i: int| given[i]@));
            assert(self.outputs() =~= before.update(
                id as int,
                Some(Seq::new(given.len(), |i: int| given[i]@)),
            ));
        }
        Ok(())
    }

    /// Installs a tensor as the single output of a node: the value of a
    /// placeholder, or another value for a node of arity one.
    pub fn set_value(&mut self, id: usize, value: Matrix) -> (r: Result<(), Error>)
        requires
            old(self).well_formed(),
        ensures
            final(self).well_formed(),
            final(self).model() == old(self).model(),
            match r {
                Ok(_) => {
                    &&& id < old(self).outputs().len()
                    &&& old(self).model().nodes()[id as int].arity == 1
                    &&& final(self).outputs() == old(self).outputs().update(
                        id as int,
                        Some(seq![value@]),
                    )
                },
                Err(e) => {
                    &&& final(self).outputs() == old(self).outputs()
                    &&& if id >= old(self).outputs().len() {
                        e == Error::UnknownNode
                    } else {
                        e == Error::InvalidGraph && old(self).model().nodes()[id as int].arity
                            != 1
                    }
                },
            },
    {
        let mut values: Vec<Matrix> = Vec::new();
        values.push(value);
        let r = self.set_outputs(id, values);
        proof {
            assert(Seq::new(1, |i: int| values@[i]@) =~= seq![value@]);
        }
        r
    }

    /// Evaluates the node `id` from the outputs of the nodes that it reads
    /// from, and installs what its operator computes.  Where it fails, the
    /// state is as before.
    pub fn compute_one(&mut self, id: usize) -> (r: Result<(), Error>)
        requires
            old(self).well_formed(),
        ensures
            final(self).well_formed(),
            final(self).model() == old(self).model(),
            match r {
                Ok(_) => step(old(self).model().nodes(), old(self).outputs(), id) == Ok::<
                    Outputs,
                    Error,
                >(final(self).outputs()),
                Err(e) => step(old(self).model().nodes(), old(self).outputs(), id) == Err::<
                    Outputs,
                    Error,
                >(e) && final(self).outputs() == old(self).outputs(),
            },
    {
        proof {
            use_type_invariant(self.model);
        }
        let node = match self.model.get_node_by_id(id) {
            Ok(node) => node,
            Err(e) => {
                return Err(e);
            },
        };
        let ghost nodes = self.model().nodes();
        let ghost outputs = self.outputs();
        let count = node.inputs.len();
        let mut inputs: Vec<Input> = Vec::new();
        let mut k: usize = 0;
        while k < count
            invariant
                k <= count,
                id < nodes.len(),
                nodes == self.model().nodes(),
                outputs == self.outputs(),
                wired(nodes, self.model().depths()),
                arities_kept(nodes, outputs),
                *node == nodes[id as int],
                count == nodes[id as int].inputs@.len(),
                inputs@.len() == k,
                forall|t: int|
                    0 <= t < k ==> outputs[#[trigger] input_of(nodes, id as int, t) as int] is Some,
                forall|t: int|
                    0 <= t < k ==> (#[trigger] inputs@[t])@ == input_values(
                        nodes,
                        outputs,
                        id as int,
                    )[t],
            decreases count - k,
        {
            let from = node.inputs[k].0;
            let slot = node.inputs[k].1;
            assert(from == input_of(nodes, id as int, k as int));
            assert(from < nodes.len() && slot < nodes[from as int].arity);
            match &self.outputs[from] {
                None => {
                    assert(outputs[from as int] is None);
                    return Err(Error::PrecondMissing);
                },
                Some(list) => {
                    assert(outputs[from as int] == Some(shared_views(list@)));
                    inputs.push(Input::Shared(share(&list[slot])));
                },
            }
            k += 1;
        }
        assert(inputs_present(nodes, outputs, id as int));
        assert(views_of(inputs@) =~= input_values(nodes, outputs, id as int));
        let computed = match node.op.eval(inputs) {
            Ok(computed) => computed,
            Err(e) => {
                return Err(e);
            },
        };
        if computed.len() != node.arity {
            return Err(Error::InvalidGraph);
        }
        let ghost expected = views_of(computed@);
        let mut shared: Vec<Arc<Matrix>> = Vec::new();
        let mut t: usize = 0;
        while t < computed.len()
            invariant
                t <= computed.len(),
                shared@.len() == t,
                expected == views_of(computed@),
                forall|i: int| 0 <= i < t ==> (#[trigger] shared@[i])@ == expected[i],
            decreases computed.len() - t,
        {
            shared.push(Arc::new(computed[t].as_matrix().clone()));
            t += 1;
        }
        self.outputs.set(id, Some(shared));
        proof {
            assert(shared_views(shared@) =~= expected);
            assert(self.outputs() =~= outputs.update(id as int, Some(expected)));
        }
        Ok(())
    }

    /// Evaluates `target`: computes its execution plan and evaluates, in the
    /// order of the plan, every node that has no outputs yet.  Returns the
    /// outputs of `target`; where a node fails, says which one and why.
    pub fn compute(&mut self, target: usize) -> (r: Result<Vec<Arc<Matrix>>, NodeError>)
        requires
            old(self).well_formed(),
        ensures
            final(self).well_formed(),
            final(self).model() == old(self).model(),
            ({
                let nodes = old(self).model().nodes();
                let plan = visited(nodes, old(self).model().depths(), target, Seq::<usize>::empty());
                match r {
                    Ok(list) => {
                        &&& target < nodes.len()
                        &&& run(nodes, old(self).outputs(), plan) == (final(self).outputs(), None::<
                            (usize, Error),
                        >)
                        &&& final(self).outputs()[target as int] == Some(shared_views(list@))
                    },
                    Err(failed) => if target >= nodes.len() {
                        &&& failed.node == target
                        &&& failed.error == Error::UnknownNode
                        &&& final(self).outputs() == old(self).outputs()
                    } else {
                        run(nodes, old(self).outputs(), plan) == (
                            final(self).outputs(),
                            Some((failed.node, failed.error)),
                        )
                    },
                }
            }),
    {
        let plan = match self.model.eval_order(target) {
            Ok(plan) => plan,
            Err(e) => {
                return Err(NodeError { node: target, error: e });
            },
        };
        let ghost nodes = self.model().nodes();
        let ghost start = self.outputs();
        let mut p: usize = 0;
        assert(plan@.take(0).len() == 0);
        while p < plan.len()
            invariant
                p <= plan.len(),
                nodes == self.model().nodes(),
                self.model() == old(self).model(),
                self.well_formed(),
                start == old(self).outputs(),
                target < nodes.len(),
                plan@ == visited(nodes, self.model().depths(), target, Seq::<usize>::empty()),
                plan@.len() > 0,
                plan@.last() == target,
                is_plan(nodes, plan@),
                arities_kept(nodes, start),
                run(nodes, start, plan@.take(p as int)) == (self.outputs(), None::<(usize, Error)>),
            decreases plan.len() - p,
        {
            let id = plan[p];
            proof {
                assert(plan@.take(p + 1).drop_last() == plan@.take(p as int));
                assert(plan@.take(p + 1).last() == id);
            }
            if self.get_outputs(id).is_none() {
                match self.compute_one(id) {
                    Ok(_) => {},
                    Err(e) => {
                        proof {
                            lemma_run_fails(nodes, start, plan@, p + 1);
                        }
                        return Err(NodeError { node: id, error: e });
                    },
                }
            }
            p += 1;
        }
        assert(plan@.take(plan@.len() as int) == plan@);
        proof {
            lemma_run_computes(nodes, start, plan@);
        }
        assert(plan@[plan@.len() - 1] == target);
        assert(self.outputs()[target as int] is Some);
        match self.get_outputs(target) {
            Some(list) => {
                let mut copies: Vec<Arc<Matrix>> = Vec::new();
                let mut i: usize = 0;
                while i < list.len()
                    invariant
                        i <= list.len(),
                        copies@.len() == i,
                        forall|j: int| 0 <= j < i ==> (#[trigger] copies@[j])@ == list@[j]@,
                    decreases list.len() - i,
                {
                    copies.push(share(&list[i]));
                    i += 1;
                }
                assert(shared_views(copies@) =~= shared_views(list@));
                Ok(copies)
            },
            None => Err(NodeError { node: target, error: Error::PrecondMissing }),
        }
    }
}

/// Once a node of a plan has failed, the rest of the plan changes nothing.
pub proof fn lemma_run_fails(nodes: Seq<Node>, outputs: Outputs, plan: Seq<usize>, k: int)
    requires
        0 <= k <= plan.len(),
        run(nodes, outputs, plan.take(k)).1 is Some,
    ensures
        run(nodes, outputs, plan) == run(nodes, outputs, plan.take(k)),
    decreases plan.len() - k,
{
    if k == plan.len() {
        assert(plan.take(k) == plan);
    } else {
        assert(plan.take(k + 1).drop_last() == plan.take(k));
        lemma_run_fails(nodes, outputs, plan, k + 1);
    }
}

impl Model {
    /// A state for an evaluation of the model, in which no node has outputs.
    pub fn state(&self) -> (r: ModelState<'_>)
        ensures
            r.well_formed(),
            r.model() == *self,
            r.outputs().len() == self.nodes().len(),
            forall|i: int| 0 <= i < r.outputs().len() ==> (#[trigger] r.outputs()[i]) is None,
    {
        ModelState::new(self)
    }
}

/// To evaluate a node whose operator the engine does not implement is to
/// fail with `UnimplementedOperator` and the operator's name, once the nodes
/// that it reads from have outputs.
pub proof fn lemma_unimplemented_fails(nodes: Seq<Node>, outputs: Outputs, id: usize)
    requires
        id < nodes.len(),
        inputs_present(nodes, outputs, id as int),
        nodes[id as int].op is Unimplemented,
    ensures
        step(nodes, outputs, id) == Err::<Outputs, Error>(
            Error::UnimplementedOperator(nodes[id as int].op->Unimplemented_0.0),
        ),
{
}

/// To evaluate a placeholder is to fail with `PrecondMissing`: its value is
/// for the caller to supply.
pub proof fn lemma_placeholder_fails(nodes: Seq<Node>, outputs: Outputs, id: usize)
    requires
        id < nodes.len(),
        inputs_present(nodes, outputs, id as int),
        nodes[id as int].op is Placeholder,
    ensures
        step(nodes, outputs, id) == Err::<Outputs, Error>(Error::PrecondMissing),
{
}

/// A step of an evaluation keeps to the arities of the nodes.
pub proof fn lemma_step_keeps_arities(nodes: Seq<Node>, outputs: Outputs, id: usize)
    requires
        arities_kept(nodes, outputs),
        step(nodes, outputs, id) is Ok,
    ensures
        arities_kept(nodes, step(nodes, outputs, id)->Ok_0),
{
}

} // verus!
