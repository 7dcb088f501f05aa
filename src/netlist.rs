use vstd::prelude::*;

use crate::error::SimError;

verus! {

/// The three behavioural flags of an element, sampled once when the element
/// is added to a circuit and constant afterwards.
#[derive(Debug, Clone, Copy, PartialEq, Eq, Structural)]
pub struct ElementFlags {
    /// The element imposes a voltage and needs an auxiliary current unknown.
    pub voltage_defined: bool,
    /// The element carries state that is updated after every accepted step.
    pub dynamic: bool,
    /// The element is re-linearised at every Newton iteration.
    pub nonlinear: bool,
}

/// One two-terminal element of a circuit, as the builder records it.
#[derive(Debug)]
pub struct Branch {
    pub name: String,
    pub anode: usize,
    pub cathode: usize,
    pub flags: ElementFlags,
}

/// Which of the flag subsets a query is about.
#[derive(Debug, Clone, Copy, PartialEq, Eq, Structural)]
pub enum Subset {
    VoltageDefined,
    Dynamic,
    Nonlinear,
}

pub open spec fn in_subset(f: ElementFlags, s: Subset) -> bool {
    match s {
        Subset::VoltageDefined => f.voltage_defined,
        Subset::Dynamic => f.dynamic,
        Subset::Nonlinear => f.nonlinear,
    }
}

/// Positions, in insertion order, of the branches that belong to subset `s`.
pub open spec fn positions(bs: Seq<Branch>, s: Subset) -> Seq<usize>
    decreases bs.len(),
{
    if bs.len() == 0 {
        Seq::empty()
    } else {
        let rest = positions(bs.drop_last(), s);
        if in_subset(bs.last().flags, s) {
            rest.push((bs.len() - 1) as usize)
        } else {
            rest
        }
    }
}

/// Appends node `n` to the node list unless it is already there.
pub open spec fn with_node(nodes: Seq<usize>, n: usize) -> Seq<usize> {
    if nodes.contains(n) {
        nodes
    } else {
        nodes.push(n)
    }
}

/// The node list after a branch from `a` to `c` has been added.
pub open spec fn with_terminals(nodes: Seq<usize>, a: usize, c: usize) -> Seq<usize> {
    with_node(with_node(nodes, a), c)
}

/// Mathematical model of a circuit description.
pub struct NetlistModel {
    pub ground: usize,
    pub branches: Seq<Branch>,
    /// Distinct node ids, in order of first appearance as a terminal.
    pub nodes: Seq<usize>,
    pub voltage: Seq<usize>,
    pub dynamic: Seq<usize>,
    pub nonlinear: Seq<usize>,
}

impl NetlistModel {
    pub open spec fn has_name(self, name: Seq<char>) -> bool {
        exists|i: int| 0 <= i < self.branches.len() && (#[trigger] self.branches[i]).name@ == name
    }

    pub open spec fn names_unique(self) -> bool {
        forall|i: int, j: int|
            0 <= i < self.branches.len() && 0 <= j < self.branches.len() && i != j
                ==> (#[trigger] self.branches[i]).name@ != (#[trigger] self.branches[j]).name@
    }

    pub open spec fn terminals_are_nodes(self) -> bool {
        forall|i: int|
            0 <= i < self.branches.len() ==> self.nodes.contains((#[trigger] self.branches[i]).anode)
                && self.nodes.contains(self.branches[i].cathode)
    }

    pub open spec fn subset(self, s: Subset) -> Seq<usize> {
        match s {
            Subset::VoltageDefined => self.voltage,
            Subset::Dynamic => self.dynamic,
            Subset::Nonlinear => self.nonlinear,
        }
    }

    pub open spec fn wf(self) -> bool {
        &&& self.names_unique()
        &&& self.nodes.no_duplicates()
        &&& self.terminals_are_nodes()
        &&& self.voltage == positions(self.branches, Subset::VoltageDefined)
        &&& self.dynamic == positions(self.branches, Subset::Dynamic)
        &&& self.nonlinear == positions(self.branches, Subset::Nonlinear)
    }

    /// The node numbering is the contiguous range `0..N` required by the
    /// MNA layout, and ground is one of the nodes.
    pub open spec fn indexable(self) -> bool {
        &&& forall|k: int| 0 <= k < self.nodes.len() ==> #[trigger] self.nodes[k] < self.nodes.len()
        &&& self.nodes.contains(self.ground)
    }

    pub open spec fn has_nonlinear(self) -> bool {
        exists|i: int| 0 <= i < self.branches.len() && (#[trigger] self.branches[i]).flags.nonlinear
    }
}

/// A circuit description: named two-terminal elements between integer nodes,
/// together with a designated ground node.
pub struct Netlist {
    ground: usize,
    branches: Vec<Branch>,
    nodes: Vec<usize>,
    voltage: Vec<usize>,
    dynamic: Vec<usize>,
    nonlinear: Vec<usize>,
}

impl View for Netlist {
    type V = NetlistModel;

    closed spec fn view(&self) -> NetlistModel {
        NetlistModel {
            ground: self.ground,
            branches: self.branches@,
            nodes: self.nodes@,
            voltage: self.voltage@,
            dynamic: self.dynamic@,
            nonlinear: self.nonlinear@,
        }
    }
}

proof fn lemma_with_node(nodes: Seq<usize>, n: usize)
    ensures
        with_node(nodes, n).contains(n),
        forall|m: usize| nodes.contains(m) ==> #[trigger] with_node(nodes, n).contains(m),
{
    if !nodes.contains(n) {
        assert(nodes.push(n)[nodes.len() as int] == n);
        assert forall|m: usize| nodes.contains(m) implies #[trigger] with_node(nodes, n).contains(m) by {
            let k = choose|k: int| 0 <= k < nodes.len() && nodes[k] == m;
            assert(nodes.push(n)[k] == m);
        }
    }
}

proof fn lemma_positions_push(bs: Seq<Branch>, b: Branch, s: Subset)
    ensures
        positions(bs.push(b), s) == if in_subset(b.flags, s) {
            positions(bs, s).push(bs.len() as usize)
        } else {
            positions(bs, s)
        },
{
    assert(bs.push(b).drop_last() =~= bs);
}

impl Netlist {
    pub open spec fn wf(&self) -> bool {
        self@.wf()
    }

    /// An empty circuit whose reference node is `ground`.
    pub fn new(ground: usize) -> (r: Netlist)
        ensures
            r.wf(),
            r@.ground == ground,
            r@.branches.len() == 0,
            r@.nodes.len() == 0,
    {
        Netlist {
            ground,
            branches: Vec::new(),
            nodes: Vec::new(),
            voltage: Vec::new(),
            dynamic: Vec::new(),
            nonlinear: Vec::new(),
        }
    }

    pub fn ground(&self) -> (r: usize)
        ensures
            r == self@.ground,
    {
        self.ground
    }

    pub fn branch_count(&self) -> (r: usize)
        ensures
            r == self@.branches.len(),
    {
        self.branches.len()
    }

    pub fn node_count(&self) -> (r: usize)
        ensures
            r == self@.nodes.len(),
    {
        self.nodes.len()
    }

    pub fn branch(&self, i: usize) -> (r: &Branch)
        requires
            i < self@.branches.len(),
        ensures
            *r == self@.branches[i as int],
    {
        &self.branches[i]
    }

    /// The distinct node ids, in order of first appearance.
    pub fn nodes(&self) -> (r: &Vec<usize>)
        ensures
            r@ == self@.nodes,
    {
        &self.nodes
    }

    /// Positions of the branches in subset `s`, in insertion order.
    pub fn subset(&self, s: Subset) -> (r: &Vec<usize>)
        ensures
            r@ == self@.subset(s),
    {
        match s {
            Subset::VoltageDefined => &self.voltage,
            Subset::Dynamic => &self.dynamic,
            Subset::Nonlinear => &self.nonlinear,
        }
    }

    /// Position of the branch called `name`, if there is one.
    pub fn find(&self, name: &String) -> (r: Option<usize>)
        ensures
            r.is_none() <==> !self@.has_name(name@),
            r matches Some(i) ==> i < self@.branches.len() && self@.branches[i as int].name@
                == name@,
    {
        let mut i: usize = 0;
        while i < self.branches.len()
            invariant
                i <= self.branches@.len(),
                forall|j: int| 0 <= j < i ==> (#[trigger] self.branches@[j]).name@ != name@,
            decreases self.branches@.len() - i,
        {
            if self.branches[i].name == *name {
                assert(self@.branches[i as int] == self.branches@[i as int]);
                return Some(i);
            }
            i = i + 1;
        }
        None
    }

    fn push_node(&mut self, n: usize)
        requires
            old(self).nodes@.no_duplicates(),
        ensures
            final(self).nodes@ == with_node(old(self).nodes@, n),
            final(self).nodes@.no_duplicates(),
            final(self).ground == old(self).ground,
            final(self).branches@ == old(self).branches@,
            final(self).voltage@ == old(self).voltage@,
            final(self).dynamic@ == old(self).dynamic@,
            final(self).nonlinear@ == old(self).nonlinear@,
    {
        let mut k: usize = 0;
        while k < self.nodes.len()
            invariant
                k <= self.nodes@.len(),
                self.nodes@ == old(self).nodes@,
                self.nodes@.no_duplicates(),
                forall|j: int| 0 <= j < k ==> self.nodes@[j] != n,
            decreases self.nodes@.len() - k,
        {
            if self.nodes[k] == n {
                assert(self.nodes@.contains(n));
                return;
            }
            k = k + 1;
        }
        self.nodes.push(n);
    }

    /// Adds an element called `name` from `anode` to `cathode` with the given
    /// flags. A name that is already taken is refused with `DuplicateName`
    /// and leaves the circuit unchanged.
    pub fn add_element(&mut self, name: String, anode: usize, cathode: usize, flags: ElementFlags) -> (r:
        Result<(), SimError>)
        requires
            old(self).wf(),
        ensures
            final(self).wf(),
            r is Err <==> old(self)@.has_name(name@),
            r matches Err(e) ==> e == SimError::DuplicateName && final(self)@ == old(self)@,
            r is Ok ==> final(self)@ == (NetlistModel {
                ground: old(self)@.ground,
                branches: old(self)@.branches.push(Branch { name, anode, cathode, flags }),
                nodes: with_terminals(old(self)@.nodes, anode, cathode),
                voltage: positions(
                    old(self)@.branches.push(Branch { name, anode, cathode, flags }),
                    Subset::VoltageDefined,
                ),
                dynamic: positions(
                    old(self)@.branches.push(Branch { name, anode, cathode, flags }),
                    Subset::Dynamic,
                ),
                nonlinear: positions(
                    old(self)@.branches.push(Branch { name, anode, cathode, flags }),
                    Subset::Nonlinear,
                ),
            }),
    {
        if let Some(_) = self.find(&name) {
            return Err(SimError::DuplicateName);
        }
        let ghost old_branches = self.branches@;
        let ghost old_nodes = self.nodes@;
        let idx = self.branches.len();
        let b = Branch { name, anode, cathode, flags };
        proof {
            lemma_positions_push(old_branches, b, Subset::VoltageDefined);
            lemma_positions_push(old_branches, b, Subset::Dynamic);
            lemma_positions_push(old_branches, b, Subset::Nonlinear);
        }
        if flags.voltage_defined {
            self.voltage.push(idx);
        }
        if flags.dynamic {
            self.dynamic.push(idx);
        }
        if flags.nonlinear {
            self.nonlinear.push(idx);
        }
        self.push_node(anode);
        self.push_node(cathode);
        self.branches.push(b);
        proof {
            let nb = self.branches@;
            assert(nb[idx as int] == b);
            assert forall|i: int, j: int|
                0 <= i < nb.len() && 0 <= j < nb.len() && i != j implies (#[trigger] nb[i]).name@
                != (#[trigger] nb[j]).name@ by {
                if i < idx && j < idx {
                    assert(nb[i] == old_branches[i]);
                    assert(nb[j] == old_branches[j]);
                } else if i == idx {
                    assert(nb[j] == old_branches[j]);
                } else {
                    assert(nb[i] == old_branches[i]);
                }
            }
            assert forall|i: int| 0 <= i < nb.len() implies self.nodes@.contains(
                (#[trigger] nb[i]).anode,
            ) && self.nodes@.contains(nb[i].cathode) by {
                lemma_with_node(old_nodes, anode);
                lemma_with_node(with_node(old_nodes, anode), cathode);
                if i < idx {
                    assert(nb[i] == old_branches[i]);
                }
            }
        }
        Ok(())
    }

    /// Whether some element of the circuit is nonlinear.
    pub fn has_nonlinear(&self) -> (r: bool)
        requires
            self.wf(),
        ensures
            r == self@.has_nonlinear(),
    {
        // Reading the length bounds it by usize::MAX, which the lemma needs.
        let _count = self.branches.len();
        proof {
            lemma_positions_members(self.branches@, Subset::Nonlinear);
        }
        if self.nonlinear.len() > 0 {
            let ghost i = self.nonlinear@[0];
            assert(self@.branches[i as int].flags.nonlinear);
            true
        } else {
            false
        }
    }

    /// Whether the node numbering is the contiguous range `0..N` with ground
    /// among the nodes, as the MNA layout needs.
    pub fn is_indexable(&self) -> (r: bool)
        ensures
            r == self@.indexable(),
    {
        let n = self.nodes.len();
        let mut has_ground = false;
        let mut k: usize = 0;
        while k < n
            invariant
                n == self.nodes@.len(),
                k <= n,
                forall|j: int| 0 <= j < k ==> #[trigger] self.nodes@[j] < n,
                has_ground == exists|j: int| 0 <= j < k && self.nodes@[j] == self.ground,
            decreases n - k,
        {
            if self.nodes[k] >= n {
                return false;
            }
            if self.nodes[k] == self.ground {
                has_ground = true;
            }
            k = k + 1;
        }
        has_ground
    }
}

/// Every listed position is a branch of the subset, the list is strictly
/// increasing, and every branch of the subset is listed.
pub proof fn lemma_positions_members(bs: Seq<Branch>, s: Subset)
    requires
        bs.len() <= usize::MAX,
    ensures
        forall|k: int|
            0 <= k < positions(bs, s).len() ==> #[trigger] positions(bs, s)[k] < bs.len()
                && in_subset(bs[positions(bs, s)[k] as int].flags, s),
        forall|k1: int, k2: int|
            0 <= k1 < k2 < positions(bs, s).len() ==> #[trigger] positions(bs, s)[k1]
                < #[trigger] positions(bs, s)[k2],
        forall|i: int| 0 <= i < bs.len() && in_subset(#[trigger] bs[i].flags, s) ==> positions(
            bs,
            s,
        ).contains(i as usize),
    decreases bs.len(),
{
    if bs.len() > 0 {
        let pre = bs.drop_last();
        lemma_positions_members(pre, s);
        assert(bs =~= pre.push(bs.last()));
        lemma_positions_push(pre, bs.last(), s);
        assert forall|i: int| 0 <= i < bs.len() && in_subset(#[trigger] bs[i].flags, s) implies positions(
            bs,
            s,
        ).contains(i as usize) by {
            if i < pre.len() {
                assert(bs[i] == pre[i]);
                let k = choose|k: int| 0 <= k < positions(pre, s).len() && positions(pre, s)[k] == i as usize;
                assert(positions(bs, s)[k] == i as usize);
            } else {
                assert(positions(bs, s).last() == i as usize);
            }
        }
        assert forall|k: int| 0 <= k < positions(bs, s).len() implies #[trigger] positions(bs, s)[k]
            < bs.len() && in_subset(bs[positions(bs, s)[k] as int].flags, s) by {
            if k < positions(pre, s).len() {
                assert(positions(bs, s)[k] == positions(pre, s)[k]);
                assert(bs[positions(pre, s)[k] as int] == pre[positions(pre, s)[k] as int]);
            }
        }
        assert forall|k1: int, k2: int|
            0 <= k1 < k2 < positions(bs, s).len() implies #[trigger] positions(bs, s)[k1]
                < #[trigger] positions(bs, s)[k2] by {
            assert(positions(pre, s)[k1] < pre.len());
            if k2 < positions(pre, s).len() {
                assert(positions(pre, s)[k1] < positions(pre, s)[k2]);
            }
        }
    }
}

} // verus!
