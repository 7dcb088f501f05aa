use vstd::prelude::*;

use crate::netlist::{
    in_subset, lemma_positions_members, positions, Branch, Netlist, NetlistModel, Subset,
};

verus! {

/// The factor by which an element's companion value enters a matrix entry.
///
/// For a Norton companion `{g, i}` the entries are `+g` or `-g`; for a
/// voltage-defined branch they are the constants `+1` or `-1`.
#[derive(Debug, Clone, Copy, PartialEq, Eq, Structural)]
pub enum Coefficient {
    Conductance,
    NegConductance,
    One,
    NegOne,
}

/// How an element's companion value enters the right-hand side.
#[derive(Debug, Clone, Copy, PartialEq, Eq, Structural)]
pub enum Injection {
    /// `b[row] -= i` for a Norton companion `{g, i}`.
    SubtractCurrent,
    /// `b[row] += i` for a Norton companion `{g, i}`.
    AddCurrent,
    /// `b[row] = v` for a voltage companion `{v}`.
    AssignVoltage,
}

/// One contribution to the system matrix: `A[row, col] += coeff`.
#[derive(Debug, Clone, Copy, PartialEq, Eq, Structural)]
pub struct Stamp {
    pub row: usize,
    pub col: usize,
    pub coeff: Coefficient,
}

/// One contribution to the right-hand side vector.
#[derive(Debug, Clone, Copy, PartialEq, Eq, Structural)]
pub struct SourceStamp {
    pub row: usize,
    pub op: Injection,
}

/// Matrix stamps of a Norton companion between anode `a` and cathode `c`.
pub open spec fn norton_stamps(a: usize, c: usize) -> Seq<Stamp> {
    seq![
        Stamp { row: a, col: a, coeff: Coefficient::Conductance },
        Stamp { row: c, col: c, coeff: Coefficient::Conductance },
        Stamp { row: a, col: c, coeff: Coefficient::NegConductance },
        Stamp { row: c, col: a, coeff: Coefficient::NegConductance },
    ]
}

/// Right-hand side stamps of a Norton companion between `a` and `c`.
pub open spec fn norton_sources(a: usize, c: usize) -> Seq<SourceStamp> {
    seq![
        SourceStamp { row: a, op: Injection::SubtractCurrent },
        SourceStamp { row: c, op: Injection::AddCurrent },
    ]
}

/// Matrix stamps of a voltage-defined branch between `a` and `c` whose
/// auxiliary current unknown sits at index `k`.
pub open spec fn voltage_stamps(a: usize, c: usize, k: usize) -> Seq<Stamp> {
    seq![
        Stamp { row: a, col: k, coeff: Coefficient::One },
        Stamp { row: c, col: k, coeff: Coefficient::NegOne },
        Stamp { row: k, col: a, coeff: Coefficient::One },
        Stamp { row: k, col: c, coeff: Coefficient::NegOne },
    ]
}

/// Right-hand side stamp of a voltage-defined branch with auxiliary index `k`.
pub open spec fn voltage_sources(k: usize) -> Seq<SourceStamp> {
    seq![SourceStamp { row: k, op: Injection::AssignVoltage }]
}

/// Where and how one element enters the MNA system.
pub struct BranchPattern {
    pub anode: usize,
    pub cathode: usize,
    /// Index of the auxiliary current unknown of a voltage-defined branch;
    /// `None` for a Norton branch, whose current is `g·(x[a] − x[c]) + i`.
    pub aux: Option<usize>,
    pub matrix: Vec<Stamp>,
    pub sources: Vec<SourceStamp>,
}

impl BranchPattern {
    /// This pattern is the one of branch `b` with auxiliary index `aux`.
    pub open spec fn describes(&self, b: Branch, aux: Option<usize>) -> bool {
        &&& self.anode == b.anode
        &&& self.cathode == b.cathode
        &&& self.aux == aux
        &&& match aux {
            None => self.matrix@ == norton_stamps(b.anode, b.cathode) && self.sources@
                == norton_sources(b.anode, b.cathode),
            Some(k) => self.matrix@ == voltage_stamps(b.anode, b.cathode, k) && self.sources@
                == voltage_sources(k),
        }
    }

    /// Every row and column this pattern touches is below `dim`.
    pub open spec fn within(&self, dim: nat) -> bool {
        &&& forall|j: int| 0 <= j < self.matrix@.len() ==> (#[trigger] self.matrix@[j]).row < dim
            && self.matrix@[j].col < dim
        &&& forall|j: int| 0 <= j < self.sources@.len() ==> (#[trigger] self.sources@[j]).row < dim
    }
}

/// The stamp pattern of one branch.
pub fn branch_pattern(b: &Branch, aux: Option<usize>) -> (r: BranchPattern)
    ensures
        r.describes(*b, aux),
{
    let a = b.anode;
    let c = b.cathode;
    match aux {
        None => {
            let matrix = vec![
                Stamp { row: a, col: a, coeff: Coefficient::Conductance },
                Stamp { row: c, col: c, coeff: Coefficient::Conductance },
                Stamp { row: a, col: c, coeff: Coefficient::NegConductance },
                Stamp { row: c, col: a, coeff: Coefficient::NegConductance },
            ];
            let sources = vec![
                SourceStamp { row: a, op: Injection::SubtractCurrent },
                SourceStamp { row: c, op: Injection::AddCurrent },
            ];
            assert(matrix@ =~= norton_stamps(a, c));
            assert(sources@ =~= norton_sources(a, c));
            BranchPattern { anode: a, cathode: c, aux, matrix, sources }
        },
        Some(k) => {
            let matrix = vec![
                Stamp { row: a, col: k, coeff: Coefficient::One },
                Stamp { row: c, col: k, coeff: Coefficient::NegOne },
                Stamp { row: k, col: a, coeff: Coefficient::One },
                Stamp { row: k, col: c, coeff: Coefficient::NegOne },
            ];
            let sources = vec![SourceStamp { row: k, op: Injection::AssignVoltage }];
            assert(matrix@ =~= voltage_stamps(a, c, k));
            assert(sources@ =~= voltage_sources(k));
            BranchPattern { anode: a, cathode: c, aux, matrix, sources }
        },
    }
}

/// The index layout of the MNA system of a circuit, with the stamp pattern
/// of every element.
///
/// Node `n` occupies row and column `n`; the `k`-th voltage-defined element
/// (in insertion order) owns the auxiliary row and column `N + k`.
pub struct AssemblyPlan {
    n_nodes: usize,
    dimension: usize,
    ground: usize,
    patterns: Vec<BranchPattern>,
}

/// Mathematical model of an assembly plan.
pub struct PlanModel {
    pub n_nodes: nat,
    pub dimension: nat,
    pub ground: usize,
    pub patterns: Seq<BranchPattern>,
}

impl View for AssemblyPlan {
    type V = PlanModel;

    closed spec fn view(&self) -> PlanModel {
        PlanModel {
            n_nodes: self.n_nodes as nat,
            dimension: self.dimension as nat,
            ground: self.ground,
            patterns: self.patterns@,
        }
    }
}

impl PlanModel {
    /// This plan is the layout of circuit `m`.
    pub open spec fn lays_out(self, m: NetlistModel) -> bool {
        &&& self.n_nodes == m.nodes.len()
        &&& self.dimension == m.nodes.len() + m.voltage.len()
        &&& self.dimension <= usize::MAX
        &&& self.ground == m.ground
        &&& self.patterns.len() == m.branches.len()
        &&& forall|k: int|
            0 <= k < m.voltage.len() ==> (#[trigger] self.patterns[m.voltage[k] as int]).describes(
                m.branches[m.voltage[k] as int],
                Some((m.nodes.len() + k) as usize),
            )
        &&& forall|i: int|
            0 <= i < m.branches.len() && !(#[trigger] m.branches[i]).flags.voltage_defined
                ==> self.patterns[i].describes(m.branches[i], None)
    }

    /// Every pattern stays inside the `dimension × dimension` system.
    pub open spec fn in_bounds(self) -> bool {
        &&& self.ground < self.n_nodes
        &&& forall|i: int| 0 <= i < self.patterns.len() ==> (#[trigger] self.patterns[i]).within(
            self.dimension,
        )
    }
}

impl AssemblyPlan {
    /// Lays out the MNA system of `netlist`: the node rows first, then one
    /// auxiliary row per voltage-defined element in insertion order.
    pub fn new(netlist: &Netlist) -> (r: AssemblyPlan)
        requires
            netlist.wf(),
            netlist@.indexable(),
            netlist@.nodes.len() + netlist@.voltage.len() <= usize::MAX,
        ensures
            r@.lays_out(netlist@),
            r@.in_bounds(),
    {
        let ghost m = netlist@;
        let n = netlist.node_count();
        let nb = netlist.branch_count();
        let vs = netlist.subset(Subset::VoltageDefined);
        let nv = vs.len();
        proof {
            lemma_positions_members(m.branches, Subset::VoltageDefined);
        }
        let mut aux_of: Vec<Option<usize>> = Vec::new();
        let mut i: usize = 0;
        while i < nb
            invariant
                i <= nb,
                aux_of@.len() == i,
                forall|j: int| 0 <= j < i ==> aux_of@[j] is None,
            decreases nb - i,
        {
            aux_of.push(None);
            i = i + 1;
        }
        let mut k: usize = 0;
        while k < nv
            invariant
                m == netlist@,
                nb == m.branches.len(),
                n == m.nodes.len(),
                vs@ == m.voltage,
                nv == vs@.len(),
                n + nv <= usize::MAX,
                k <= nv,
                aux_of@.len() == nb,
                vs@ == positions(m.branches, Subset::VoltageDefined),
                forall|q: int| 0 <= q < vs@.len() ==> #[trigger] vs@[q] < nb,
                forall|q1: int, q2: int| 0 <= q1 < q2 < vs@.len() ==> #[trigger] vs@[q1] < #[trigger] vs@[q2],
                forall|q: int| 0 <= q < k ==> aux_of@[#[trigger] vs@[q] as int] == Some((n + q) as usize),
                forall|j: int|
                    0 <= j < nb ==> (#[trigger] aux_of@[j] matches Some(x) ==> n <= x < n + k && vs@[x - n]
                        == j),
            decreases nv - k,
        {
            aux_of.set(vs[k], Some(n + k));
            proof {
                assert forall|q: int| 0 <= q < k + 1 implies aux_of@[#[trigger] vs@[q] as int] == Some((n + q) as usize) by {
                    if q < k {
                        assert(vs@[q] < vs@[k as int]);
                    }
                }
            }
            k = k + 1;
        }
        let mut patterns: Vec<BranchPattern> = Vec::new();
        let mut i: usize = 0;
        while i < nb
            invariant
                m == netlist@,
                m.wf(),
                m.indexable(),
                nb == m.branches.len(),
                n == m.nodes.len(),
                nv == m.voltage.len(),
                n + nv <= usize::MAX,
                vs@ == m.voltage,
                aux_of@.len() == nb,
                i <= nb,
                patterns@.len() == i,
                forall|q: int| 0 <= q < vs@.len() ==> #[trigger] vs@[q] < nb
                    && m.branches[vs@[q] as int].flags.voltage_defined,
                forall|q: int| 0 <= q < nv ==> aux_of@[#[trigger] vs@[q] as int] == Some((n + q) as usize),
                forall|j: int|
                    0 <= j < nb ==> (#[trigger] aux_of@[j] matches Some(x) ==> n <= x < n + nv && vs@[x - n]
                        == j),
                forall|j: int| 0 <= j < i ==> (#[trigger] patterns@[j]).describes(m.branches[j], aux_of@[j]),
                forall|j: int| 0 <= j < i ==> (#[trigger] patterns@[j]).within((n + nv) as nat),
            decreases nb - i,
        {
            let b = netlist.branch(i);
            let p = branch_pattern(b, aux_of[i]);
            proof {
                assert(m.terminals_are_nodes());
                assert(m.nodes.contains(m.branches[i as int].anode));
                assert(m.nodes.contains(m.branches[i as int].cathode));
                let ka = choose|q: int| 0 <= q < m.nodes.len() && m.nodes[q] == b.anode;
                let kc = choose|q: int| 0 <= q < m.nodes.len() && m.nodes[q] == b.cathode;
                assert(m.nodes[ka] < n);
                assert(m.nodes[kc] < n);
            }
            patterns.push(p);
            i = i + 1;
        }
        let r = AssemblyPlan { n_nodes: n, dimension: n + nv, ground: netlist.ground(), patterns };
        proof {
            let pm = r@;
            assert forall|i: int|
                0 <= i < m.branches.len() && !(#[trigger] m.branches[i]).flags.voltage_defined
                    implies pm.patterns[i].describes(m.branches[i], None) by {
                if let Some(x) = aux_of@[i] {
                    assert(vs@[x - n] == i);
                    assert(m.branches[vs@[x - n] as int].flags.voltage_defined);
                }
            }
            let gk = choose|q: int| 0 <= q < m.nodes.len() && m.nodes[q] == m.ground;
            assert(m.nodes[gk] < n);
        }
        r
    }

    pub fn node_count(&self) -> (r: usize)
        ensures
            r == self@.n_nodes,
    {
        self.n_nodes
    }

    /// Size of the square system: nodes plus auxiliary currents.
    pub fn dimension(&self) -> (r: usize)
        ensures
            r == self@.dimension,
    {
        self.dimension
    }

    pub fn ground(&self) -> (r: usize)
        ensures
            r == self@.ground,
    {
        self.ground
    }

    pub fn pattern_count(&self) -> (r: usize)
        ensures
            r == self@.patterns.len(),
    {
        self.patterns.len()
    }

    /// The stamp pattern of the `i`-th element, in insertion order.
    pub fn pattern(&self, i: usize) -> (r: &BranchPattern)
        requires
            i < self@.patterns.len(),
        ensures
            *r == self@.patterns[i as int],
    {
        &self.patterns[i]
    }
}

/// The stamp of entry `(row, col)` mirrored to `(col, row)`.
pub open spec fn transposed(s: Stamp) -> Stamp {
    Stamp { row: s.col, col: s.row, coeff: s.coeff }
}

/// The MNA matrix is symmetric: every matrix stamp of an element comes with
/// its transpose, carrying the same coefficient, from the same element.
pub proof fn lemma_pattern_symmetric(p: BranchPattern, b: Branch, aux: Option<usize>)
    requires
        p.describes(b, aux),
    ensures
        forall|j: int|
            0 <= j < p.matrix@.len() ==> p.matrix@.contains(transposed(#[trigger] p.matrix@[j])),
{
    let m = p.matrix@;
    assert forall|j: int| 0 <= j < m.len() implies m.contains(transposed(#[trigger] m[j])) by {
        let partner: int = if j == 0 || j == 1 {
            if aux is None { j } else { j + 2 }
        } else if j == 2 || j == 3 {
            if aux is None { 5 - j } else { j - 2 }
        } else {
            j
        };
        assert(m[partner] == transposed(m[j]));
    }
}

/// Every voltage-defined element owns an auxiliary row of its own, between
/// the node rows and the end of the system, and no other element has one.
pub proof fn lemma_aux_rows_distinct(plan: PlanModel, m: NetlistModel)
    requires
        m.wf(),
        m.branches.len() <= usize::MAX,
        plan.lays_out(m),
    ensures
        forall|i: int|
            0 <= i < m.branches.len() ==> ((#[trigger] plan.patterns[i]).aux is Some
                <==> m.branches[i].flags.voltage_defined),
        forall|i: int|
            0 <= i < m.branches.len() && (#[trigger] plan.patterns[i]).aux is Some ==> plan.n_nodes
                <= plan.patterns[i].aux->0 < plan.dimension,
        forall|i: int, j: int|
            0 <= i < m.branches.len() && 0 <= j < m.branches.len() && i != j && (
            #[trigger] plan.patterns[i]).aux is Some ==> (#[trigger] plan.patterns[j]).aux
                != plan.patterns[i].aux,
{
    lemma_positions_members(m.branches, Subset::VoltageDefined);
    assert forall|i: int|
        0 <= i < m.branches.len() && m.branches[i].flags.voltage_defined implies exists|k: int|
        0 <= k < m.voltage.len() && m.voltage[k] == i && (#[trigger] plan.patterns[i]).aux == Some(
            (m.nodes.len() + k) as usize,
        ) by {
        assert(in_subset(m.branches[i].flags, Subset::VoltageDefined));
        let k = choose|k: int| 0 <= k < m.voltage.len() && m.voltage[k] == i as usize;
        assert(plan.patterns[m.voltage[k] as int].describes(
            m.branches[m.voltage[k] as int],
            Some((m.nodes.len() + k) as usize),
        ));
    }
    assert forall|i: int|
        0 <= i < m.branches.len() implies ((#[trigger] plan.patterns[i]).aux is Some
            <==> m.branches[i].flags.voltage_defined) by {
        if !m.branches[i].flags.voltage_defined {
            assert(plan.patterns[i].describes(m.branches[i], None));
        }
    }
    assert forall|i: int, j: int|
        0 <= i < m.branches.len() && 0 <= j < m.branches.len() && i != j && (
        #[trigger] plan.patterns[i]).aux is Some implies (#[trigger] plan.patterns[j]).aux
            != plan.patterns[i].aux by {
        let ki = choose|k: int|
            0 <= k < m.voltage.len() && m.voltage[k] == i && plan.patterns[i].aux == Some(
                (m.nodes.len() + k) as usize,
            );
        if plan.patterns[j].aux is Some {
            let kj = choose|k: int|
                0 <= k < m.voltage.len() && m.voltage[k] == j && plan.patterns[j].aux == Some(
                    (m.nodes.len() + k) as usize,
                );
            assert(ki != kj);
            assert(m.nodes.len() + ki != m.nodes.len() + kj);
        }
    }
}

} // verus!
