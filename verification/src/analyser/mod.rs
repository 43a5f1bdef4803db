//! The abstract interpretation of a graph: what is known of the tensors on
//! its edges without running it.
//!
//! Every output of every node starts with the most general abstract tensor.
//! A round of the analysis goes through the nodes in their order and lets
//! each operator infer its outputs from its inputs; then it goes through
//! them in reverse order and lets each operator infer its inputs from its
//! outputs.  What an operator infers is met with what was known before.
//! The analysis ends when a round changes nothing, or with the first error.

pub mod types;

use vstd::prelude::*;
use crate::analyser::types::{ATensor, ATensorView, meet_tensor};
use crate::errors::Error;
use crate::model::{Model, Node, input_of, wired};
use crate::ops::{Op, facts_of, facts_of_refs};

verus! {

/// What is known of the outputs of the nodes: for each node, an abstract
/// tensor for each of its outputs.
pub type Facts = Seq<Seq<ATensorView>>;

/// What a list of lists of abstract tensors says, as mathematical data.
pub open spec fn facts_view(edges: Seq<Vec<ATensor>>) -> Facts {
    Seq::new(edges.len(), |i: int| facts_of(edges[i]@))
}

/// Whether there is an abstract tensor for each output of each node.
pub open spec fn shaped(nodes: Seq<Node>, facts: Facts) -> bool {
    &&& facts.len() == nodes.len()
    &&& forall|i: int| 0 <= i < nodes.len() ==> (#[trigger] facts[i]).len() == nodes[i].arity
}

/// Nothing is known: the most general abstract tensor for each output of
/// each node.
pub open spec fn nothing_known(nodes: Seq<Node>) -> Facts {
    Seq::new(
        nodes.len(),
        |i: int| Seq::new(nodes[i].arity as nat, |s: int| ATensorView::any()),
    )
}

/// What is known of the tensors that the node `id` reads, in the order of
/// its inputs.
pub open spec fn input_facts(nodes: Seq<Node>, facts: Facts, id: int) -> Seq<ATensorView> {
    Seq::new(
        nodes[id].inputs@.len(),
        |k: int| facts[input_of(nodes, id, k) as int][nodes[id].inputs@[k].1 as int],
    )
}

/// The meets, place by place, of the first `k` abstract tensors of two lists.
/// A place where the two contradict each other is an `InferenceConflict`.
pub open spec fn meet_first(a: Seq<ATensorView>, b: Seq<ATensorView>, k: nat) -> Result<
    Seq<ATensorView>,
    Error,
>
    decreases k,
{
    if k == 0 {
        Ok(Seq::empty())
    } else {
        match meet_first(a, b, (k - 1) as nat) {
            Err(e) => Err(e),
            Ok(met) => match meet_tensor(a[k - 1], b[k - 1]) {
                Err(e) => Err(e),
                Ok(t) => Ok(met.push(t)),
            },
        }
    }
}

/// The meets, place by place, of two lists of abstract tensors.  Lists of
/// different lengths are an `InvalidGraph`.
pub open spec fn meet_all(a: Seq<ATensorView>, b: Seq<ATensorView>) -> Result<
    Seq<ATensorView>,
    Error,
> {
    if a.len() != b.len() {
        Err(Error::InvalidGraph)
    } else {
        meet_first(a, b, a.len())
    }
}

/// What the forward inference of the node `id` does to what is known: what
/// the operator infers of the outputs from what is known of the inputs is
/// met with what was known of the outputs.
pub open spec fn forward_step(nodes: Seq<Node>, facts: Facts, id: int) -> Result<Facts, Error> {
    match nodes[id].op.infer_forward_spec(input_facts(nodes, facts, id)) {
        Err(e) => Err(e),
        Ok(inferred) => match meet_all(facts[id], inferred) {
            Err(e) => Err(e),
            Ok(met) => Ok(facts.update(id, met)),
        },
    }
}

/// What is known after the first `k` inputs of the node `id` have been met
/// with what the operator inferred of them.
pub open spec fn meet_inputs(
    nodes: Seq<Node>,
    facts: Facts,
    id: int,
    inferred: Seq<ATensorView>,
    k: nat,
) -> Result<Facts, Error>
    decreases k,
{
    if k == 0 {
        Ok(facts)
    } else {
        match meet_inputs(nodes, facts, id, inferred, (k - 1) as nat) {
            Err(e) => Err(e),
            Ok(before) => {
                let from = input_of(nodes, id, k - 1) as int;
                let slot = nodes[id].inputs@[k - 1].1 as int;
                match meet_tensor(before[from][slot], inferred[k - 1]) {
                    Err(e) => Err(e),
                    Ok(t) => Ok(before.update(from, before[from].update(slot, t))),
                }
            },
        }
    }
}

/// What the backward inference of the node `id` does to what is known: what
/// the operator infers of the inputs from what is known of the outputs is
/// met with what was known of the inputs.  A node without inputs changes
/// nothing; an operator that infers another number of inputs than the node
/// has is an `InvalidGraph`.
pub open spec fn backward_step(nodes: Seq<Node>, facts: Facts, id: int) -> Result<Facts, Error> {
    if nodes[id].inputs@.len() == 0 {
        Ok(facts)
    } else {
        match nodes[id].op.infer_backward_spec(facts[id]) {
            Err(e) => Err(e),
            Ok(inferred) => if inferred.len() != nodes[id].inputs@.len() {
                Err(Error::InvalidGraph)
            } else {
                meet_inputs(nodes, facts, id, inferred, inferred.len())
            },
        }
    }
}

/// What is known after the forward inference of the first `k` nodes.
pub open spec fn forward_sweep(nodes: Seq<Node>, facts: Facts, k: nat) -> Result<Facts, Error>
    decreases k,
{
    if k == 0 {
        Ok(facts)
    } else {
        match forward_sweep(nodes, facts, (k - 1) as nat) {
            Err(e) => Err(e),
            Ok(before) => forward_step(nodes, before, k - 1),
        }
    }
}

/// What is known after the backward inference of the last `k` nodes, the
/// last node first.
pub open spec fn backward_sweep(nodes: Seq<Node>, facts: Facts, k: nat) -> Result<Facts, Error>
    decreases k,
{
    if k == 0 {
        Ok(facts)
    } else {
        match backward_sweep(nodes, facts, (k - 1) as nat) {
            Err(e) => Err(e),
            Ok(before) => backward_step(nodes, before, nodes.len() - k),
        }
    }
}

/// What is known after one round: a forward sweep through all the nodes,
/// then a backward sweep through all of them.
pub open spec fn round(nodes: Seq<Node>, facts: Facts) -> Result<Facts, Error> {
    match forward_sweep(nodes, facts, nodes.len()) {
        Err(e) => Err(e),
        Ok(forward) => backward_sweep(nodes, forward, nodes.len()),
    }
}

/// What is known after at most `k` rounds, and whether the last round
/// changed nothing.
pub open spec fn rounds(nodes: Seq<Node>, facts: Facts, k: nat) -> Result<(Facts, bool), Error>
    decreases k,
{
    if k == 0 {
        Ok((facts, false))
    } else {
        match round(nodes, facts) {
            Err(e) => Err(e),
            Ok(next) => if next == facts {
                Ok((facts, true))
            } else {
                rounds(nodes, next, (k - 1) as nat)
            },
        }
    }
}

/// The outcome of an analysis.
#[derive(Debug)]
pub struct Analysis {
    /// For each node, what is known of each of its outputs.
    pub edges: Vec<Vec<ATensor>>,
    /// Whether the analysis reached a fixed point: a further round would
    /// change nothing.
    pub stable: bool,
}

/// A fixed point is what its name says: a further round gives it back.
pub proof fn lemma_stable_is_fixed(nodes: Seq<Node>, facts: Facts, k: nat)
    requires
        rounds(nodes, facts, k) matches Ok(outcome) && outcome.1,
    ensures
        round(nodes, rounds(nodes, facts, k)->Ok_0.0) == Ok::<Facts, Error>(
            rounds(nodes, facts, k)->Ok_0.0,
        ),
    decreases k,
{
    if k > 0 {
        let next = round(nodes, facts)->Ok_0;
        if next != facts {
            lemma_stable_is_fixed(nodes, next, (k - 1) as nat);
        }
    }
}

/// Whether two lists of abstract tensors say the same.
fn same_facts(a: &Vec<ATensor>, b: &Vec<ATensor>) -> (r: bool)
    ensures
        r == (facts_of(a@) == facts_of(b@)),
{
    if a.len() != b.len() {
        assert(facts_of(a@).len() != facts_of(b@).len());
        return false;
    }
    let mut i: usize = 0;
    while i < a.len()
        invariant
            i <= a.len(),
            a.len() == b.len(),
            forall|j: int| 0 <= j < i ==> a@[j]@ == b@[j]@,
        decreases a.len() - i,
    {
        if !a[i].same_as(&b[i]) {
            assert(facts_of(a@)[i as int] != facts_of(b@)[i as int]);
            return false;
        }
        i += 1;
    }
    assert(facts_of(a@) =~= facts_of(b@));
    true
}

/// Whether two tables of abstract tensors say the same.
fn same_edges(a: &Vec<Vec<ATensor>>, b: &Vec<Vec<ATensor>>) -> (r: bool)
    ensures
        r == (facts_view(a@) == facts_view(b@)),
{
    if a.len() != b.len() {
        assert(facts_view(a@).len() != facts_view(b@).len());
        return false;
    }
    let mut i: usize = 0;
    while i < a.len()
        invariant
            i <= a.len(),
            a.len() == b.len(),
            forall|j: int| 0 <= j < i ==> facts_of(a@[j]@) == facts_of(b@[j]@),
        decreases a.len() - i,
    {
        if !same_facts(&a[i], &b[i]) {
            assert(facts_view(a@)[i as int] != facts_view(b@)[i as int]);
            return false;
        }
        i += 1;
    }
    assert(facts_view(a@) =~= facts_view(b@));
    true
}

/// A copy of a list of abstract tensors.
fn copy_facts(list: &Vec<ATensor>) -> (r: Vec<ATensor>)
    ensures
        facts_of(r@) == facts_of(list@),
{
    let mut copy: Vec<ATensor> = Vec::new();
    let mut i: usize = 0;
    while i < list.len()
        invariant
            i <= list.len(),
            copy@.len() == i,
            forall|j: int| 0 <= j < i ==> (#[trigger] copy@[j])@ == list@[j]@,
        decreases list.len() - i,
    {
        copy.push(list[i].clone());
        i += 1;
    }
    assert(facts_of(copy@) =~= facts_of(list@));
    copy
}

/// A copy of a table of abstract tensors.
fn copy_edges(edges: &Vec<Vec<ATensor>>) -> (r: Vec<Vec<ATensor>>)
    ensures
        facts_view(r@) == facts_view(edges@),
{
    let mut copy: Vec<Vec<ATensor>> = Vec::new();
    let mut i: usize = 0;
    while i < edges.len()
        invariant
            i <= edges.len(),
            copy@.len() == i,
            forall|j: int| 0 <= j < i ==> facts_of((#[trigger] copy@[j])@) == facts_of(edges@[j]@),
        decreases edges.len() - i,
    {
        copy.push(copy_facts(&edges[i]));
        i += 1;
    }
    assert(facts_view(copy@) =~= facts_view(edges@));
    copy
}

/// The meets, place by place, of two lists of abstract tensors.
fn meet_lists(a: &Vec<ATensor>, b: &Vec<ATensor>) -> (r: Result<Vec<ATensor>, Error>)
    ensures
        match r {
            Ok(met) => meet_all(facts_of(a@), facts_of(b@)) == Ok::<Seq<ATensorView>, Error>(
                facts_of(met@),
            ),
            Err(e) => meet_all(facts_of(a@), facts_of(b@)) == Err::<Seq<ATensorView>, Error>(e),
        },
{
    if a.len() != b.len() {
        return Err(Error::InvalidGraph);
    }
    let mut met: Vec<ATensor> = Vec::new();
    let mut i: usize = 0;
    assert(facts_of(met@) =~= Seq::<ATensorView>::empty());
    while i < a.len()
        invariant
            i <= a.len(),
            a.len() == b.len(),
            met@.len() == i,
            meet_first(facts_of(a@), facts_of(b@), i as nat) == Ok::<Seq<ATensorView>, Error>(
                facts_of(met@),
            ),
        decreases a.len() - i,
    {
        let ghost before = facts_of(met@);
        match a[i].meet(&b[i]) {
            Ok(t) => {
                met.push(t);
                assert(facts_of(met@) =~= before.push(t@));
            },
            Err(e) => {
                proof {
                    lemma_meet_first_fails(facts_of(a@), facts_of(b@), i as nat + 1, a.len() as nat);
                }
                return Err(e);
            },
        }
        i += 1;
    }
    Ok(met)
}

/// Where the meets of the first places fail, the meets of more places fail
/// alike.
proof fn lemma_meet_first_fails(a: Seq<ATensorView>, b: Seq<ATensorView>, k: nat, n: nat)
    requires
        k <= n,
        meet_first(a, b, k) is Err,
    ensures
        meet_first(a, b, n) == meet_first(a, b, k),
    decreases n - k,
{
    if k < n {
        lemma_meet_first_fails(a, b, k, (n - 1) as nat);
    }
}

/// A list of abstract tensors with another one at the place `slot`.
fn with_fact(list: &Vec<ATensor>, slot: usize, t: ATensor) -> (r: Vec<ATensor>)
    requires
        slot < list@.len(),
    ensures
        facts_of(r@) == facts_of(list@).update(slot as int, t@),
{
    let mut copy: Vec<ATensor> = Vec::new();
    let mut i: usize = 0;
    let ghost wanted = facts_of(list@).update(slot as int, t@);
    let mut t = Some(t);
    while i < list.len()
        invariant
            i <= list.len(),
            slot < list@.len(),
            copy@.len() == i,
            wanted.len() == list@.len(),
            i <= slot ==> t is Some && wanted[slot as int] == t.unwrap()@,
            forall|j: int| 0 <= j < list@.len() && j != slot ==> wanted[j] == list@[j]@,
            forall|j: int| 0 <= j < i ==> (#[trigger] copy@[j])@ == wanted[j],
        decreases list.len() - i,
    {
        if i == slot {
            let taken = t.take();
            copy.push(taken.unwrap());
        } else {
            copy.push(list[i].clone());
        }
        i += 1;
    }
    assert(facts_of(copy@) =~= wanted);
    copy
}

/// The forward inference of one node.
fn infer_node_forward(model: &Model, edges: &mut Vec<Vec<ATensor>>, id: usize) -> (r: Result<
    (),
    Error,
>)
    requires
        id < model.nodes().len(),
        shaped(model.nodes(), facts_view(old(edges)@)),
    ensures
        match r {
            Ok(_) => forward_step(model.nodes(), facts_view(old(edges)@), id as int) == Ok::<
                Facts,
                Error,
            >(facts_view(final(edges)@)) && shaped(model.nodes(), facts_view(final(edges)@)),
            Err(e) => forward_step(model.nodes(), facts_view(old(edges)@), id as int) == Err::<
                Facts,
                Error,
            >(e),
        },
{
    proof {
        use_type_invariant(model);
    }
    let node = match model.get_node_by_id(id) {
        Ok(node) => node,
        Err(e) => {
            return Err(e);
        },
    };
    let ghost nodes = model.nodes();
    let ghost facts = facts_view(edges@);
    let count = node.inputs.len();
    let mut inputs: Vec<&ATensor> = Vec::new();
    let mut k: usize = 0;
    while k < count
        invariant
            k <= count,
            id < nodes.len(),
            nodes == model.nodes(),
            facts == facts_view(edges@),
            wired(nodes, model.depths()),
            shaped(nodes, facts),
            *node == nodes[id as int],
            count == nodes[id as int].inputs@.len(),
            inputs@.len() == k,
            forall|t: int| 0 <= t < k ==> (#[trigger] inputs@[t])@ == input_facts(nodes, facts, id as int)[t],
        decreases count - k,
    {
        let from = node.inputs[k].0;
        let slot = node.inputs[k].1;
        assert(from == input_of(nodes, id as int, k as int));
        assert(from < nodes.len() && slot < nodes[from as int].arity);
        assert(facts[from as int].len() == nodes[from as int].arity);
        inputs.push(&edges[from][slot]);
        k += 1;
    }
    assert(facts_of_refs(inputs@) =~= input_facts(nodes, facts, id as int));
    let inferred = match node.op.infer_forward(inputs) {
        Ok(inferred) => inferred,
        Err(e) => {
            return Err(e);
        },
    };
    let met = match meet_lists(&edges[id], &inferred) {
        Ok(met) => met,
        Err(e) => {
            return Err(e);
        },
    };
    proof {
        lemma_meet_first_len(facts[id as int], facts_of(inferred@), facts[id as int].len());
    }
    edges.set(id, met);
    proof {
        assert(facts_view(edges@) =~= facts.update(id as int, facts_of(met@)));
    }
    Ok(())
}

/// The meets of the first `k` places are `k` abstract tensors.
proof fn lemma_meet_first_len(a: Seq<ATensorView>, b: Seq<ATensorView>, k: nat)
    ensures
        meet_first(a, b, k) matches Ok(met) ==> met.len() == k,
    decreases k,
{
    if k > 0 {
        lemma_meet_first_len(a, b, (k - 1) as nat);
    }
}

/// Meeting inputs with what was inferred of them leaves an abstract tensor
/// for each output of each node.
proof fn lemma_meet_inputs_shaped(
    nodes: Seq<Node>,
    depths: Seq<usize>,
    facts: Facts,
    id: int,
    inferred: Seq<ATensorView>,
    k: nat,
)
    requires
        wired(nodes, depths),
        shaped(nodes, facts),
        0 <= id < nodes.len(),
        k <= nodes[id].inputs@.len(),
    ensures
        meet_inputs(nodes, facts, id, inferred, k) matches Ok(after) ==> shaped(nodes, after),
    decreases k,
{
    if k > 0 {
        lemma_meet_inputs_shaped(nodes, depths, facts, id, inferred, (k - 1) as nat);
        match meet_inputs(nodes, facts, id, inferred, (k - 1) as nat) {
            Ok(before) => {
                let from = input_of(nodes, id, k - 1);
                assert(from < nodes.len());
            },
            Err(_) => {},
        }
    }
}

/// Where meeting the first inputs fails, meeting more of them fails alike.
proof fn lemma_meet_inputs_fails(
    nodes: Seq<Node>,
    facts: Facts,
    id: int,
    inferred: Seq<ATensorView>,
    k: nat,
    n: nat,
)
    requires
        k <= n,
        meet_inputs(nodes, facts, id, inferred, k) is Err,
    ensures
        meet_inputs(nodes, facts, id, inferred, n) == meet_inputs(nodes, facts, id, inferred, k),
    decreases n - k,
{
    if k < n {
        lemma_meet_inputs_fails(nodes, facts, id, inferred, k, (n - 1) as nat);
    }
}

/// The backward inference of one node.
fn infer_node_backward(model: &Model, edges: &mut Vec<Vec<ATensor>>, id: usize) -> (r: Result<
    (),
    Error,
>)
    requires
        id < model.nodes().len(),
        shaped(model.nodes(), facts_view(old(edges)@)),
    ensures
        match r {
            Ok(_) => backward_step(model.nodes(), facts_view(old(edges)@), id as int) == Ok::<
                Facts,
                Error,
            >(facts_view(final(edges)@)) && shaped(model.nodes(), facts_view(final(edges)@)),
            Err(e) => backward_step(model.nodes(), facts_view(old(edges)@), id as int) == Err::<
                Facts,
                Error,
            >(e),
        },
{
    proof {
        use_type_invariant(model);
    }
    let node = match model.get_node_by_id(id) {
        Ok(node) => node,
        Err(e) => {
            return Err(e);
        },
    };
    let ghost nodes = model.nodes();
    let ghost facts = facts_view(edges@);
    let count = node.inputs.len();
    if count == 0 {
        return Ok(());
    }
    let mut outputs: Vec<&ATensor> = Vec::new();
    let mut s: usize = 0;
    while s < edges[id].len()
        invariant
            s <= edges@[id as int]@.len(),
            id < edges@.len(),
            outputs@.len() == s,
            forall|t: int| 0 <= t < s ==> (#[trigger] outputs@[t])@ == edges@[id as int]@[t]@,
        decreases edges@[id as int]@.len() - s,
    {
        outputs.push(&edges[id][s]);
        s += 1;
    }
    assert(facts_of_refs(outputs@) =~= facts[id as int]);
    let inferred = match node.op.infer_backward(outputs) {
        Ok(inferred) => inferred,
        Err(e) => {
            return Err(e);
        },
    };
    if inferred.len() != count {
        return Err(Error::InvalidGraph);
    }
    let ghost wanted = facts_of(inferred@);
    let mut k: usize = 0;
    while k < count
        invariant
            k <= count,
            id < nodes.len(),
            nodes == model.nodes(),
            wired(nodes, model.depths()),
            shaped(nodes, facts),
            shaped(nodes, facts_view(edges@)),
            *node == nodes[id as int],
            count == nodes[id as int].inputs@.len(),
            count == inferred@.len(),
            count > 0,
            wanted == facts_of(inferred@),
            facts == facts_view(old(edges)@),
            nodes[id as int].op.infer_backward_spec(facts[id as int]) == Ok::<
                Seq<ATensorView>,
                Error,
            >(wanted),
            meet_inputs(nodes, facts, id as int, wanted, k as nat) == Ok::<Facts, Error>(
                facts_view(edges@),
            ),
        decreases count - k,
    {
        let from = node.inputs[k].0;
        let slot = node.inputs[k].1;
        let ghost before = facts_view(edges@);
        assert(from == input_of(nodes, id as int, k as int));
        assert(from < nodes.len() && slot < nodes[from as int].arity);
        assert(before[from as int].len() == nodes[from as int].arity);
        let met = match edges[from][slot].meet(&inferred[k]) {
            Ok(met) => met,
            Err(e) => {
                proof {
                    lemma_meet_inputs_fails(
                        nodes,
                        facts,
                        id as int,
                        wanted,
                        k as nat + 1,
                        count as nat,
                    );
                }
                return Err(e);
            },
        };
        let ghost met_view = met@;
        let list = with_fact(&edges[from], slot, met);
        edges.set(from, list);
        proof {
            assert(facts_view(edges@) =~= before.update(
                from as int,
                before[from as int].update(slot as int, met_view),
            ));
            lemma_meet_inputs_shaped(
                nodes,
                model.depths(),
                facts,
                id as int,
                wanted,
                k as nat + 1,
            );
        }
        k += 1;
    }
    Ok(())
}

/// Where a forward sweep fails at some node, it fails alike however many
/// nodes it is meant to go through.
proof fn lemma_forward_sweep_fails(nodes: Seq<Node>, facts: Facts, k: nat, n: nat)
    requires
        k <= n,
        forward_sweep(nodes, facts, k) is Err,
    ensures
        forward_sweep(nodes, facts, n) == forward_sweep(nodes, facts, k),
    decreases n - k,
{
    if k < n {
        lemma_forward_sweep_fails(nodes, facts, k, (n - 1) as nat);
    }
}

/// Where a backward sweep fails at some node, it fails alike however many
/// nodes it is meant to go through.
proof fn lemma_backward_sweep_fails(nodes: Seq<Node>, facts: Facts, k: nat, n: nat)
    requires
        k <= n,
        backward_sweep(nodes, facts, k) is Err,
    ensures
        backward_sweep(nodes, facts, n) == backward_sweep(nodes, facts, k),
    decreases n - k,
{
    if k < n {
        lemma_backward_sweep_fails(nodes, facts, k, (n - 1) as nat);
    }
}

/// One round of the analysis.
fn analyse_round(model: &Model, edges: &mut Vec<Vec<ATensor>>) -> (r: Result<(), Error>)
    requires
        shaped(model.nodes(), facts_view(old(edges)@)),
    ensures
        match r {
            Ok(_) => round(model.nodes(), facts_view(old(edges)@)) == Ok::<Facts, Error>(
                facts_view(final(edges)@),
            ) && shaped(model.nodes(), facts_view(final(edges)@)),
            Err(e) => round(model.nodes(), facts_view(old(edges)@)) == Err::<Facts, Error>(e),
        },
{
    let n = model.len();
    let ghost nodes = model.nodes();
    let ghost start = facts_view(edges@);
    let mut i: usize = 0;
    while i < n
        invariant
            i <= n,
            n == nodes.len(),
            nodes == model.nodes(),
            shaped(nodes, facts_view(edges@)),
            start == facts_view(old(edges)@),
            forward_sweep(nodes, start, i as nat) == Ok::<Facts, Error>(facts_view(edges@)),
        decreases n - i,
    {
        match infer_node_forward(model, edges, i) {
            Ok(_) => {},
            Err(e) => {
                proof {
                    lemma_forward_sweep_fails(nodes, start, i as nat + 1, n as nat);
                }
                return Err(e);
            },
        }
        i += 1;
    }
    let ghost forward = facts_view(edges@);
    let mut k: usize = 0;
    while k < n
        invariant
            k <= n,
            n == nodes.len(),
            nodes == model.nodes(),
            shaped(nodes, facts_view(edges@)),
            start == facts_view(old(edges)@),
            forward_sweep(nodes, start, n as nat) == Ok::<Facts, Error>(forward),
            backward_sweep(nodes, forward, k as nat) == Ok::<Facts, Error>(facts_view(edges@)),
        decreases n - k,
    {
        match infer_node_backward(model, edges, n - 1 - k) {
            Ok(_) => {},
            Err(e) => {
                proof {
                    lemma_backward_sweep_fails(nodes, forward, k as nat + 1, n as nat);
                }
                return Err(e);
            },
        }
        k += 1;
    }
    Ok(())
}

impl Model {
    /// Analyses the model: goes through at most `limit` rounds of inference,
    /// and stops earlier after a round that changed nothing.  Fails with the
    /// first error of an operator's inference, or with `InferenceConflict`
    /// where what an operator infers contradicts what was known.
    pub fn analyse(&self, limit: usize) -> (r: Result<Analysis, Error>)
        ensures
            match r {
                Ok(analysis) => rounds(self.nodes(), nothing_known(self.nodes()), limit as nat)
                    == Ok::<(Facts, bool), Error>((facts_view(analysis.edges@), analysis.stable))
                    && shaped(self.nodes(), facts_view(analysis.edges@)),
                Err(e) => rounds(self.nodes(), nothing_known(self.nodes()), limit as nat) == Err::<
                    (Facts, bool),
                    Error,
                >(e),
            },
    {
        let n = self.len();
        let ghost nodes = self.nodes();
        let mut edges: Vec<Vec<ATensor>> = Vec::new();
        let mut i: usize = 0;
        while i < n
            invariant
                i <= n,
                n == nodes.len(),
                nodes == self.nodes(),
                edges@.len() == i,
                forall|j: int| 0 <= j < i ==> facts_of((#[trigger] edges@[j])@) == nothing_known(nodes)[j],
            decreases n - i,
        {
            let arity = match self.get_node_by_id(i) {
                Ok(node) => node.arity,
                Err(_) => 0,
            };
            let mut list: Vec<ATensor> = Vec::new();
            let mut s: usize = 0;
            while s < arity
                invariant
                    s <= arity,
                    list@.len() == s,
                    forall|t: int| 0 <= t < s ==> (#[trigger] list@[t])@ == ATensorView::any(),
                decreases arity - s,
            {
                list.push(ATensor::new());
                s += 1;
            }
            assert(facts_of(list@) =~= nothing_known(nodes)[i as int]);
            edges.push(list);
            i += 1;
        }
        assert(facts_view(edges@) =~= nothing_known(nodes));
        let ghost start = facts_view(edges@);
        let mut left: usize = limit;
        while left > 0
            invariant
                nodes == self.nodes(),
                start == nothing_known(nodes),
                shaped(nodes, facts_view(edges@)),
                rounds(nodes, start, limit as nat) == rounds(nodes, facts_view(edges@), left as nat),
            decreases left,
        {
            let before = copy_edges(&edges);
            match analyse_round(self, &mut edges) {
                Ok(_) => {},
                Err(e) => {
                    return Err(e);
                },
            }
            if same_edges(&edges, &before) {
                return Ok(Analysis { edges: before, stable: true });
            }
            left -= 1;
        }
        Ok(Analysis { edges, stable: false })
    }
}

} // verus!
