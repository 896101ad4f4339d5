use vstd::prelude::*;

verus! {

/// A node in the graph rendering of a configuration: a step's name and the
/// names it consumes and produces.
pub struct StepNode {
    pub name: String,
    pub inputs: Vec<String>,
    pub outputs: Vec<String>,
}

pub ghost struct StepNodeView {
    pub name: Seq<char>,
    pub inputs: Seq<Seq<char>>,
    pub outputs: Seq<Seq<char>>,
}

impl View for StepNode {
    type V = StepNodeView;

    open spec fn view(&self) -> StepNodeView {
        StepNodeView {
            name: self.name@,
            inputs: Seq::new(self.inputs@.len(), |i: int| self.inputs@[i]@),
            outputs: Seq::new(self.outputs@.len(), |i: int| self.outputs@[i]@),
        }
    }
}

/// There is an edge from node `a` to node `b`: some output of `a` is an
/// input of `b`.
pub open spec fn node_edge(a: StepNodeView, b: StepNodeView) -> bool {
    exists|k: int| 0 <= k < a.outputs.len() && b.inputs.contains(a.outputs[k])
}

/// The edges leaving node `i` toward the first `m` nodes.
pub open spec fn edges_row_upto(nodes: Seq<StepNodeView>, i: int, m: int) -> Seq<(int, int)>
    decreases m,
{
    if m <= 0 {
        Seq::empty()
    } else {
        edges_row_upto(nodes, i, m - 1) + if node_edge(nodes[i], nodes[m - 1]) {
            seq![(i, m - 1)]
        } else {
            Seq::empty()
        }
    }
}

/// The edges leaving the first `n` nodes.
pub open spec fn edges_upto(nodes: Seq<StepNodeView>, n: int) -> Seq<(int, int)>
    decreases n,
{
    if n <= 0 {
        Seq::empty()
    } else {
        edges_upto(nodes, n - 1) + edges_row_upto(nodes, n - 1, nodes.len() as int)
    }
}

/// All edges of the rendered graph, one per ordered node pair that is
/// connected, row by row.
pub open spec fn graph_edge_pairs(nodes: Seq<StepNodeView>) -> Seq<(int, int)> {
    edges_upto(nodes, nodes.len() as int)
}

fn node_has_name(v: &Vec<String>, name: &String) -> (r: bool)
    ensures
        r == Seq::new(v@.len(), |i: int| v@[i]@).contains(name@),
{
    let ghost names = Seq::new(v@.len(), |i: int| v@[i]@);
    let mut i: usize = 0;
    while i < v.len()
        invariant
            i <= v.len(),
            names == Seq::new(v@.len(), |k: int| v@[k]@),
            forall|k: int| 0 <= k < i ==> names[k] != name@,
        decreases v.len() - i,
    {
        if v[i] == *name {
            assert(names[i as int] == name@);
            return true;
        }
        i = i + 1;
    }
    false
}

fn nodes_connected(a: &StepNode, b: &StepNode) -> (r: bool)
    ensures
        r == node_edge(a@, b@),
{
    let mut k: usize = 0;
    while k < a.outputs.len()
        invariant
            k <= a.outputs.len(),
            forall|kk: int| 0 <= kk < k ==> !b@.inputs.contains(a@.outputs[kk]),
        decreases a.outputs.len() - k,
    {
        if node_has_name(&b.inputs, &a.outputs[k]) {
            assert(b@.inputs.contains(a@.outputs[k as int]));
            return true;
        }
        k = k + 1;
    }
    false
}

/// Computes the directed edges of the graph the nodes declare: one edge per
/// ordered pair of nodes where some output of the first is an input of the
/// second. Rendering these edges is the embedder's job.
pub fn graph_edges(nodes: &Vec<StepNode>) -> (r: Vec<(usize, usize)>)
    ensures
        Seq::new(r@.len(), |k: int| (r@[k].0 as int, r@[k].1 as int)) == graph_edge_pairs(
            Seq::new(nodes@.len(), |i: int| nodes@[i]@),
        ),
{
    let ghost nv = Seq::new(nodes@.len(), |i: int| nodes@[i]@);
    let mut r: Vec<(usize, usize)> = Vec::new();
    let n = nodes.len();
    let mut i: usize = 0;
    while i < n
        invariant
            n == nodes@.len(),
            nv == Seq::new(nodes@.len(), |k: int| nodes@[k]@),
            i <= n,
            Seq::new(r@.len(), |k: int| (r@[k].0 as int, r@[k].1 as int)) == edges_upto(
                nv,
                i as int,
            ),
        decreases n - i,
    {
        let mut j: usize = 0;
        while j < n
            invariant
                n == nodes@.len(),
                nv == Seq::new(nodes@.len(), |k: int| nodes@[k]@),
                i < n,
                j <= n,
                Seq::new(r@.len(), |k: int| (r@[k].0 as int, r@[k].1 as int)) == edges_upto(
                    nv,
                    i as int,
                ) + edges_row_upto(nv, i as int, j as int),
            decreases n - j,
        {
            if nodes_connected(&nodes[i], &nodes[j]) {
                let ghost before = r@;
                r.push((i, j));
                assert(Seq::new(r@.len(), |k: int| (r@[k].0 as int, r@[k].1 as int)) =~= Seq::new(
                    before.len(),
                    |k: int| (before[k].0 as int, before[k].1 as int),
                ).push((i as int, j as int)));
                assert(Seq::new(r@.len(), |k: int| (r@[k].0 as int, r@[k].1 as int)) =~= edges_upto(
                    nv,
                    i as int,
                ) + edges_row_upto(nv, i as int, j as int + 1));
            } else {
                assert(Seq::new(r@.len(), |k: int| (r@[k].0 as int, r@[k].1 as int)) =~= edges_upto(
                    nv,
                    i as int,
                ) + edges_row_upto(nv, i as int, j as int + 1));
            }
            j = j + 1;
        }
        proof {
            assert(edges_upto(nv, i as int + 1) == edges_upto(nv, i as int) + edges_row_upto(
                nv,
                i as int,
                nv.len() as int,
            ));
        }
        i = i + 1;
    }
    proof {
        assert(Seq::new(r@.len(), |k: int| (r@[k].0 as int, r@[k].1 as int)) =~= graph_edge_pairs(
            nv,
        ));
    }
    r
}

} // verus!
