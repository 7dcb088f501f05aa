use circuit_sim::mna::{AssemblyPlan, Coefficient, Injection, SourceStamp, Stamp};
use circuit_sim::netlist::{ElementFlags, Netlist};

const PLAIN: ElementFlags = ElementFlags { voltage_defined: false, dynamic: false, nonlinear: false };
const SOURCE: ElementFlags = ElementFlags { voltage_defined: true, dynamic: false, nonlinear: false };

fn st(row: usize, col: usize, coeff: Coefficient) -> Stamp {
    Stamp { row, col, coeff }
}

#[test]
fn voltage_divider_layout() {
    let mut n = Netlist::new(0);
    n.add_element(String::from("V"), 1, 0, SOURCE).unwrap();
    n.add_element(String::from("R1"), 1, 2, PLAIN).unwrap();
    n.add_element(String::from("R2"), 2, 0, PLAIN).unwrap();
    let plan = AssemblyPlan::new(&n);
    assert_eq!(plan.node_count(), 3);
    assert_eq!(plan.dimension(), 4);
    assert_eq!(plan.ground(), 0);
    assert_eq!(plan.pattern_count(), 3);

    let v = plan.pattern(0);
    assert_eq!(v.aux, Some(3));
    assert_eq!(
        v.matrix,
        vec![
            st(1, 3, Coefficient::One),
            st(0, 3, Coefficient::NegOne),
            st(3, 1, Coefficient::One),
            st(3, 0, Coefficient::NegOne),
        ]
    );
    assert_eq!(v.sources, vec![SourceStamp { row: 3, op: Injection::AssignVoltage }]);

    let r1 = plan.pattern(1);
    assert_eq!(r1.aux, None);
    assert_eq!((r1.anode, r1.cathode), (1, 2));
    assert_eq!(
        r1.matrix,
        vec![
            st(1, 1, Coefficient::Conductance),
            st(2, 2, Coefficient::Conductance),
            st(1, 2, Coefficient::NegConductance),
            st(2, 1, Coefficient::NegConductance),
        ]
    );
    assert_eq!(
        r1.sources,
        vec![
            SourceStamp { row: 1, op: Injection::SubtractCurrent },
            SourceStamp { row: 2, op: Injection::AddCurrent },
        ]
    );
}

#[test]
fn auxiliary_rows_follow_insertion_order() {
    let mut n = Netlist::new(0);
    n.add_element(String::from("V2"), 2, 0, SOURCE).unwrap();
    n.add_element(String::from("R"), 1, 2, PLAIN).unwrap();
    n.add_element(String::from("V1"), 1, 0, SOURCE).unwrap();
    let plan = AssemblyPlan::new(&n);
    assert_eq!(plan.dimension(), 5);
    assert_eq!(plan.pattern(0).aux, Some(3));
    assert_eq!(plan.pattern(1).aux, None);
    assert_eq!(plan.pattern(2).aux, Some(4));
}

#[test]
fn current_divider_has_no_auxiliary_rows() {
    let mut n = Netlist::new(0);
    n.add_element(String::from("I"), 0, 1, PLAIN).unwrap();
    n.add_element(String::from("R1"), 1, 2, PLAIN).unwrap();
    n.add_element(String::from("R2"), 2, 0, PLAIN).unwrap();
    n.add_element(String::from("R3"), 2, 0, PLAIN).unwrap();
    let plan = AssemblyPlan::new(&n);
    assert_eq!(plan.dimension(), 3);
    for i in 0..4 {
        assert_eq!(plan.pattern(i).aux, None);
        assert_eq!(plan.pattern(i).matrix.len(), 4);
        assert_eq!(plan.pattern(i).sources.len(), 2);
    }
    let source = plan.pattern(0);
    assert_eq!(source.sources[0], SourceStamp { row: 0, op: Injection::SubtractCurrent });
    assert_eq!(source.sources[1], SourceStamp { row: 1, op: Injection::AddCurrent });
}

#[test]
fn matrix_stamps_are_symmetric() {
    let mut n = Netlist::new(0);
    n.add_element(String::from("V"), 1, 0, SOURCE).unwrap();
    n.add_element(String::from("R"), 1, 0, PLAIN).unwrap();
    let plan = AssemblyPlan::new(&n);
    for i in 0..plan.pattern_count() {
        let m = &plan.pattern(i).matrix;
        for s in m {
            assert!(m.contains(&st(s.col, s.row, s.coeff)));
        }
    }
}
