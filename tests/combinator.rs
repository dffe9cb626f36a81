use reagent_solver::combinator::Combinator;
use reagent_solver::reagent::Reagent;

fn strings(items: &[&str]) -> Vec<String> {
    items.iter().map(|s| s.to_string()).collect()
}

fn reagent(name: &str, atoms: &[&str]) -> Reagent {
    Reagent::new(name.to_string(), strings(atoms))
}

#[test]
fn add_reagent_appends_once_and_records_path() {
    let mut c = Combinator::new();
    let seq = c.add_reagent(&reagent("R1", &["A", "B", "A"]));
    assert_eq!(seq, strings(&["A", "B"]));
    c.add_reagent(&reagent("R2", &["B", "C"]));
    assert_eq!(c.sequence, strings(&["A", "B", "C"]));
    assert_eq!(c.reagent_path, strings(&["R1", "R2"]));
}

#[test]
fn negation_of_absent_marker_is_a_no_op() {
    let mut c = Combinator::new();
    c.add_reagent(&reagent("R1", &["A"]));
    assert_eq!(c.add_reagent(&reagent("R2", &["-Z"])), strings(&["A"]));
}

#[test]
fn add_reagent_is_order_sensitive() {
    let a = reagent("A", &["X"]);
    let b = reagent("B", &["-X", "Y"]);
    let mut ab = Combinator::new();
    ab.add_reagent(&a);
    ab.add_reagent(&b);
    let mut ba = Combinator::new();
    ba.add_reagent(&b);
    ba.add_reagent(&a);
    assert_eq!(ab.sequence, strings(&["Y"]));
    assert_eq!(ba.sequence, strings(&["Y", "X"]));
    assert_ne!(ab.sequence, ba.sequence);
}

#[test]
fn reset_drops_negation_markers_and_copies_path() {
    let mut c = Combinator::new();
    c.add_reagent(&reagent("R9", &["Q"]));
    c.reset(&strings(&["A", "-B", "C"]), &strings(&["R1", "R2"]));
    assert_eq!(c.sequence, strings(&["A", "C"]));
    assert_eq!(c.reagent_path, strings(&["R1", "R2"]));
}

#[test]
fn reset_then_replay_reproduces_sequence() {
    let r1 = reagent("R1", &["A", "X"]);
    let r2 = reagent("R2", &["-X", "B"]);
    let r3 = reagent("R3", &["C", "-A"]);
    let mut c = Combinator::new();
    c.add_reagent(&r1);
    c.add_reagent(&r2);
    let mid_seq = c.sequence.clone();
    let mid_path = c.reagent_path.clone();
    let first = c.add_reagent(&r3);
    c.reset(&mid_seq, &mid_path);
    assert_eq!(c.sequence, mid_seq);
    let second = c.add_reagent(&r3);
    assert_eq!(first, second);
    c.reset(&[], &[]);
    c.add_reagent(&r1);
    c.add_reagent(&r2);
    assert_eq!(c.add_reagent(&r3), first);
    assert_eq!(c.reagent_path, strings(&["R1", "R2", "R3"]));
}
