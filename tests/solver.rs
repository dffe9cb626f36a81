use reagent_solver::combinator::Combinator;
use reagent_solver::reagent::Reagent;
use reagent_solver::solver::{
    contains_ordered_slice, filter_useless_reagents, get_viable_start_reagents, heuristic,
    plan_search, priority_search, priority_search_bounded, start_score, MAX_DEPTH, SCORE_SCALE,
};

fn strings(items: &[&str]) -> Vec<String> {
    items.iter().map(|s| s.to_string()).collect()
}

fn reagent(name: &str, atoms: &[&str]) -> Reagent {
    Reagent::new(name.to_string(), strings(atoms))
}

fn names(reagents: &[Reagent]) -> Vec<String> {
    reagents.iter().map(|r| r.name.clone()).collect()
}

fn replay(path: &[String], start: &Reagent, pool: &[Reagent]) -> Vec<String> {
    let mut c = Combinator::new();
    c.add_reagent(start);
    for name in &path[1..] {
        let r = pool.iter().find(|r| &r.name == name).unwrap();
        c.add_reagent(r);
    }
    c.sequence
}

#[test]
fn single_reagent_matching_target_is_found_at_once() {
    let exitus = reagent("Exitus-1", &["A", "B"]);
    let pool = vec![reagent("R1", &["A", "B"])];
    let starts = get_viable_start_reagents(&exitus, &pool);
    assert_eq!(starts.len(), 1);
    assert_eq!(starts[0].name, "R1");
    assert_eq!(starts[0].score, Some(2));
    assert_eq!(priority_search(&exitus, &starts[0], &pool), Some(strings(&["R1"])));
}

#[test]
fn negation_removes_rather_than_reorders() {
    let exitus = reagent("Exitus-1", &["A", "B"]);
    let r1 = reagent("R1", &["A"]);
    let ab = reagent("R3", &["A", "B"]);
    let mut c = Combinator::new();
    c.add_reagent(&r1);
    assert_eq!(c.add_reagent(&ab), exitus.atoms);
    let mut c = Combinator::new();
    c.add_reagent(&r1);
    c.add_reagent(&reagent("R2", &["-A"]));
    let seq = c.add_reagent(&reagent("R4", &["B"]));
    assert_eq!(seq, strings(&["B"]));
    assert_ne!(seq, exitus.atoms);
}

#[test]
fn no_shared_marker_leaves_nothing_to_search() {
    let exitus = reagent("Exitus-1", &["A", "B"]);
    let pool = vec![reagent("R1", &["X"]), reagent("R2", &["Y", "Z"])];
    let (kept, removed) = filter_useless_reagents(&exitus, &pool);
    assert!(kept.is_empty());
    assert_eq!(names(&removed), strings(&["R1", "R2"]));
    assert!(get_viable_start_reagents(&exitus, &kept).is_empty());
    let plan = plan_search(&exitus, &pool);
    assert!(plan.starts.is_empty());
    assert!(plan.kept.is_empty());
    assert_eq!(plan.removed.len(), 2);
}

#[test]
fn filter_keeps_cancellable_markers_and_reaches_fixed_point() {
    let exitus = reagent("Exitus-1", &["A"]);
    // X is cancelled by R2; R2's own marker Y is cancelled by nobody, so R2
    // goes in the first pass and R1 in the second.
    let pool = vec![
        reagent("R1", &["A", "X"]),
        reagent("R2", &["-X", "Y"]),
        reagent("R3", &["A"]),
    ];
    let (kept, removed) = filter_useless_reagents(&exitus, &pool);
    assert_eq!(names(&kept), strings(&["R3"]));
    assert_eq!(names(&removed), strings(&["R2", "R1"]));
    let (again, none) = filter_useless_reagents(&exitus, &kept);
    assert_eq!(again, kept);
    assert!(none.is_empty());
}

#[test]
fn filter_keeps_reagents_with_target_or_negation_markers() {
    let exitus = reagent("Exitus-1", &["A", "B"]);
    let pool = vec![
        reagent("R1", &["A", "-C"]),
        reagent("R2", &["C"]),
        reagent("R3", &["B"]),
        reagent("R4", &["D"]),
    ];
    let (kept, removed) = filter_useless_reagents(&exitus, &pool);
    assert_eq!(names(&kept), strings(&["R1", "R2", "R3"]));
    assert_eq!(names(&removed), strings(&["R4"]));
}

#[test]
fn ordered_slice_containment() {
    let seq = strings(&["X", "A", "B", "C"]);
    assert!(contains_ordered_slice(&seq, &strings(&["A", "B"])));
    assert!(contains_ordered_slice(&seq, &strings(&[])));
    assert!(contains_ordered_slice(&seq, &seq));
    assert!(!contains_ordered_slice(&seq, &strings(&["B", "A"])));
    assert!(!contains_ordered_slice(&seq, &strings(&["A", "C"])));
    assert!(!contains_ordered_slice(&strings(&["A"]), &strings(&["A", "B"])));
}

#[test]
fn start_score_is_longest_contained_prefix() {
    let target = strings(&["A", "B", "D"]);
    assert_eq!(start_score(&strings(&["Z", "A", "B", "C"]), &target), 2);
    assert_eq!(start_score(&strings(&["B", "D"]), &target), 0);
    assert_eq!(start_score(&strings(&["A", "B", "D", "E"]), &target), 3);
    assert_eq!(start_score(&strings(&["A"]), &strings(&[])), 0);
}

#[test]
fn viable_starts_are_sorted_best_first_and_stable() {
    let exitus = reagent("Exitus-1", &["A", "B", "C"]);
    let pool = vec![
        reagent("R1", &["A"]),
        reagent("R2", &["A", "B"]),
        reagent("R3", &["C"]),
        reagent("R4", &["Q", "A"]),
        reagent("R5", &["A", "B", "C"]),
    ];
    let starts = get_viable_start_reagents(&exitus, &pool);
    assert_eq!(names(&starts), strings(&["R5", "R2", "R1", "R4"]));
    let scores: Vec<Option<usize>> = starts.iter().map(|r| r.score).collect();
    assert_eq!(scores, vec![Some(3), Some(2), Some(1), Some(1)]);
}

#[test]
fn empty_target_has_no_viable_starts() {
    let exitus = reagent("Exitus-1", &[]);
    let pool = vec![reagent("R1", &["A"])];
    assert!(get_viable_start_reagents(&exitus, &pool).is_empty());
}

#[test]
fn heuristic_exact_values() {
    let target = strings(&["A", "B"]);
    assert_eq!(heuristic(&strings(&["A", "B"]), &target, 1), 6 * SCORE_SCALE);
    assert_eq!(heuristic(&strings(&["A", "B"]), &target, 2), 3 * SCORE_SCALE);
    assert_eq!(heuristic(&strings(&["C"]), &target, 2), -2 * SCORE_SCALE);
    // C shifts the window: B is then compared with A and fails too.
    assert_eq!(heuristic(&strings(&["C", "B"]), &target, 3), -6 * SCORE_SCALE);
    // C shifts the window, then A matches target[0] at position 1.
    assert_eq!(heuristic(&strings(&["C", "A"]), &target, 3), -3 * SCORE_SCALE + SCORE_SCALE);
    assert_eq!(heuristic(&strings(&[]), &target, 5), 0);
    // A sequence longer than the target is not an error.
    assert_eq!(
        heuristic(&strings(&["A", "B", "C"]), &target, 1),
        6 * SCORE_SCALE - SCORE_SCALE
    );
}

#[test]
fn search_finds_two_step_path() {
    let exitus = reagent("Exitus-1", &["A", "B"]);
    let pool = vec![reagent("R1", &["A"]), reagent("R2", &["B"]), reagent("R3", &["B", "C"])];
    let start = &get_viable_start_reagents(&exitus, &pool)[0];
    assert_eq!(start.name, "R1");
    let path = priority_search(&exitus, start, &pool).unwrap();
    assert_eq!(path, strings(&["R1", "R2"]));
    assert_eq!(replay(&path, start, &pool), exitus.atoms);
}

#[test]
fn search_finds_path_through_negation() {
    let exitus = reagent("Exitus-1", &["A", "B"]);
    let pool = vec![
        reagent("R1", &["A", "X"]),
        reagent("R2", &["-X"]),
        reagent("R3", &["B"]),
    ];
    let start = &pool[0];
    let path = priority_search(&exitus, start, &pool).unwrap();
    assert!(path.len() <= MAX_DEPTH);
    assert_eq!(path[0], "R1");
    assert_eq!(replay(&path, start, &pool), exitus.atoms);
}

#[test]
fn search_respects_bounds() {
    let exitus = reagent("Exitus-1", &["A", "B", "C"]);
    let pool = vec![reagent("R1", &["A"]), reagent("R2", &["B"]), reagent("R3", &["C"])];
    let start = &pool[0];
    let (path, expansions) = priority_search_bounded(&exitus, start, &pool, 2, 100);
    assert_eq!(path, None);
    assert!(expansions <= 100);
    let (path, expansions) = priority_search_bounded(&exitus, start, &pool, 3, 0);
    assert_eq!(path, None);
    assert_eq!(expansions, 0);
    let (path, expansions) = priority_search_bounded(&exitus, start, &pool, 3, 100);
    let path = path.unwrap();
    assert!(path.len() <= 3);
    assert!(expansions <= 100);
    assert_eq!(replay(&path, start, &pool), exitus.atoms);
}

#[test]
fn search_without_candidates_fails() {
    let exitus = reagent("Exitus-1", &["A", "B"]);
    let pool = vec![reagent("R1", &["A"])];
    assert_eq!(priority_search(&exitus, &pool[0], &pool), None);
}

#[test]
fn three_starts_give_three_results() {
    let exitus = reagent("Exitus-1", &["A", "B"]);
    let pool = vec![
        reagent("R1", &["A"]),
        reagent("R2", &["A", "B"]),
        reagent("R3", &["A", "Q"]),
        reagent("R4", &["B"]),
        reagent("R5", &["-Q"]),
    ];
    let plan = plan_search(&exitus, &pool);
    assert_eq!(plan.starts.len(), 3);
    let results: Vec<(String, Option<Vec<String>>)> = plan
        .starts
        .iter()
        .map(|s| (s.name.clone(), priority_search(&exitus, s, &pool)))
        .collect();
    assert_eq!(results.len(), 3);
    assert!(results.iter().all(|(_, p)| p.is_some()));
}
