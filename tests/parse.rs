use reagent_solver::parse::{parse_reagents, split_words_by_line, ParseError};

#[test]
fn parses_target_and_pool() {
    let (exitus, pool) = parse_reagents("R1 A B\nExitus-1 A  B C\r\nR2\t-A C\n").unwrap();
    assert_eq!(exitus.name, "Exitus-1");
    assert_eq!(exitus.atoms, vec!["A", "B", "C"]);
    assert_eq!(exitus.score, None);
    assert_eq!(pool.len(), 2);
    assert_eq!(pool[0].name, "R1");
    assert_eq!(pool[0].atoms, vec!["A", "B"]);
    assert_eq!(pool[1].name, "R2");
    assert_eq!(pool[1].atoms, vec!["-A", "C"]);
}

#[test]
fn last_target_line_wins() {
    let (exitus, pool) = parse_reagents("Exitus-1 A\nExitus-1 B").unwrap();
    assert_eq!(exitus.atoms, vec!["B"]);
    assert!(pool.is_empty());
}

#[test]
fn line_without_markers_is_rejected() {
    assert_eq!(
        parse_reagents("Exitus-1 A\nR1\nR2 B").unwrap_err(),
        ParseError::MissingMarkers { line: 2 }
    );
    assert_eq!(
        parse_reagents("Exitus-1 A\n\nR2 B").unwrap_err(),
        ParseError::MissingMarkers { line: 2 }
    );
}

#[test]
fn missing_target_is_rejected() {
    assert_eq!(parse_reagents("R1 A\nR2 B\n").unwrap_err(), ParseError::MissingTarget);
    assert_eq!(parse_reagents("").unwrap_err(), ParseError::MissingTarget);
}

#[test]
fn splits_lines_and_unicode_whitespace() {
    let lines = split_words_by_line("a b\u{3000}c\n\n  d  \ne");
    assert_eq!(
        lines,
        vec![vec!["a", "b", "c"], vec![], vec!["d"], vec!["e"]]
    );
    assert_eq!(split_words_by_line("x\n"), vec![vec!["x"]]);
    assert!(split_words_by_line("").is_empty());
}
