use circuit_sim::error::SimError;
use circuit_sim::netlist::{ElementFlags, Netlist, Subset};

const PLAIN: ElementFlags = ElementFlags { voltage_defined: false, dynamic: false, nonlinear: false };
const SOURCE: ElementFlags = ElementFlags { voltage_defined: true, dynamic: false, nonlinear: false };
const STORAGE: ElementFlags = ElementFlags { voltage_defined: false, dynamic: true, nonlinear: false };
const DIODE: ElementFlags = ElementFlags { voltage_defined: false, dynamic: false, nonlinear: true };

fn divider() -> Netlist {
    let mut n = Netlist::new(0);
    n.add_element(String::from("V"), 1, 0, SOURCE).unwrap();
    n.add_element(String::from("R1"), 1, 2, PLAIN).unwrap();
    n.add_element(String::from("R2"), 2, 0, PLAIN).unwrap();
    n
}

#[test]
fn empty_circuit_has_no_nodes() {
    let n = Netlist::new(3);
    assert_eq!(n.ground(), 3);
    assert_eq!(n.branch_count(), 0);
    assert_eq!(n.node_count(), 0);
    assert!(!n.has_nonlinear());
    assert!(!n.is_indexable());
}

#[test]
fn nodes_are_listed_in_order_of_first_appearance() {
    let n = divider();
    assert_eq!(n.nodes(), &vec![1, 0, 2]);
    assert_eq!(n.branch_count(), 3);
    assert_eq!(n.branch(1).anode, 1);
    assert_eq!(n.branch(1).cathode, 2);
    assert_eq!(n.branch(2).name, "R2");
}

#[test]
fn subsets_follow_the_flags() {
    let mut n = Netlist::new(0);
    n.add_element(String::from("V"), 1, 0, SOURCE).unwrap();
    n.add_element(String::from("C"), 1, 2, STORAGE).unwrap();
    n.add_element(String::from("D"), 2, 0, DIODE).unwrap();
    n.add_element(String::from("W"), 2, 0, SOURCE).unwrap();
    assert_eq!(n.subset(Subset::VoltageDefined), &vec![0, 3]);
    assert_eq!(n.subset(Subset::Dynamic), &vec![1]);
    assert_eq!(n.subset(Subset::Nonlinear), &vec![2]);
    assert!(n.has_nonlinear());
}

#[test]
fn duplicate_name_is_refused_and_changes_nothing() {
    let mut n = divider();
    let r = n.add_element(String::from("R1"), 5, 6, SOURCE);
    assert_eq!(r, Err(SimError::DuplicateName));
    assert_eq!(n.branch_count(), 3);
    assert_eq!(n.nodes(), &vec![1, 0, 2]);
    assert_eq!(n.subset(Subset::VoltageDefined), &vec![0]);
}

#[test]
fn find_locates_elements_by_name() {
    let n = divider();
    assert_eq!(n.find(&String::from("R1")), Some(1));
    assert_eq!(n.find(&String::from("V")), Some(0));
    assert_eq!(n.find(&String::from("R3")), None);
}

#[test]
fn self_loop_adds_one_node() {
    let mut n = Netlist::new(0);
    n.add_element(String::from("R"), 0, 0, PLAIN).unwrap();
    assert_eq!(n.nodes(), &vec![0]);
    assert!(n.is_indexable());
}

#[test]
fn contiguous_numbering_with_ground_is_indexable() {
    assert!(divider().is_indexable());
}

#[test]
fn gap_in_numbering_is_not_indexable() {
    let mut n = Netlist::new(0);
    n.add_element(String::from("R1"), 0, 2, PLAIN).unwrap();
    assert!(!n.is_indexable());
}

#[test]
fn ground_outside_the_nodes_is_not_indexable() {
    let mut n = Netlist::new(2);
    n.add_element(String::from("R1"), 0, 1, PLAIN).unwrap();
    assert!(!n.is_indexable());
}

#[test]
fn errors_have_descriptions() {
    for e in [
        SimError::DuplicateName,
        SimError::InvalidParameter,
        SimError::SingularSystem,
        SimError::NumericDivergence,
    ] {
        assert!(!e.describe().is_empty());
    }
    assert_eq!(SimError::SingularSystem.describe(), "singular system matrix");
}
