use rdiff::diff::{diff, diff_files, DiffOp};
use rdiff::grid::Grid;
use rdiff::lcs::lcs;

fn render(op: &DiffOp) -> String {
    match op {
        DiffOp::Match(line) => format!("  {}", line),
        DiffOp::Insert(line) => format!("> {}", line),
        DiffOp::Delete(line) => format!("< {}", line),
    }
}

fn lines(text: &[&str]) -> Vec<String> {
    text.iter().map(|s| s.to_string()).collect()
}

#[test]
fn test_lcs() {
    let mut expected = Grid::new(5, 4);
    expected.set(1, 1, 1).unwrap();
    expected.set(1, 2, 1).unwrap();
    expected.set(1, 3, 1).unwrap();
    expected.set(2, 1, 1).unwrap();
    expected.set(2, 2, 1).unwrap();
    expected.set(2, 3, 2).unwrap();
    expected.set(3, 1, 1).unwrap();
    expected.set(3, 2, 1).unwrap();
    expected.set(3, 3, 2).unwrap();
    expected.set(4, 1, 1).unwrap();
    expected.set(4, 2, 2).unwrap();
    expected.set(4, 3, 2).unwrap();

    let result = lcs(
        &"abcd".chars().map(|c| c.to_string()).collect(),
        &"adb".chars().map(|c| c.to_string()).collect(),
    );
    assert_eq!(result.size(), expected.size());
    for row in 0..expected.size().0 {
        for col in 0..expected.size().1 {
            assert_eq!(result.get(row, col), expected.get(row, col));
        }
    }
}

#[test]
fn lcs_corner_cell_matches_brute_force() {
    // (seq1, seq2, length of a longest common subsequence, found by hand)
    let cases: Vec<(Vec<String>, Vec<String>, usize)> = vec![
        (lines(&[]), lines(&[]), 0),
        (lines(&["a"]), lines(&[]), 0),
        (lines(&["a"]), lines(&["a"]), 1),
        (lines(&["a", "b", "c", "d"]), lines(&["a", "d", "b"]), 2),
        (lines(&["x", "y", "z"]), lines(&["x", "y", "z"]), 3),
        (lines(&["a", "b", "a", "b"]), lines(&["b", "a", "b", "a"]), 3),
        (lines(&["p", "q"]), lines(&["r", "s"]), 0),
    ];
    for (seq1, seq2, expected_len) in cases {
        let table = lcs(&seq1, &seq2);
        assert_eq!(table.get(seq1.len(), seq2.len()), Some(expected_len));
    }
}

#[test]
fn diff_scenario_exact_output() {
    let seq1 = lines(&["a", "b", "c", "d"]);
    let seq2 = lines(&["a", "d", "b"]);
    let table = lcs(&seq1, &seq2);
    assert_eq!(table.get(4, 3), Some(2));
    let ops = diff(&table, &seq1, &seq2, seq1.len(), seq2.len());
    let rendered: Vec<String> = ops.iter().map(render).collect();
    // The exact output the precedence rules dictate: at (4, 3) the left and
    // upper LCS values tie, so the difference counts as an insertion there.
    assert_eq!(rendered, vec!["  a", "< b", "< c", "  d", "> b"]);
}

#[test]
fn diff_round_trip_reconstructs_both_files() {
    let seq1 = lines(&["a", "b", "c", "d"]);
    let seq2 = lines(&["a", "d", "b"]);
    let table = lcs(&seq1, &seq2);
    let ops = diff(&table, &seq1, &seq2, seq1.len(), seq2.len());

    let mut from_ops_1: Vec<String> = Vec::new();
    let mut from_ops_2: Vec<String> = Vec::new();
    for op in &ops {
        match op {
            DiffOp::Match(line) => {
                from_ops_1.push(line.clone());
                from_ops_2.push(line.clone());
            }
            DiffOp::Delete(line) => from_ops_1.push(line.clone()),
            DiffOp::Insert(line) => from_ops_2.push(line.clone()),
        }
    }
    assert_eq!(from_ops_1, seq1);
    assert_eq!(from_ops_2, seq2);
}

#[test]
fn diff_of_identical_files_is_all_matches() {
    let seq = lines(&["one", "two", "three", "four"]);
    let table = lcs(&seq, &seq);
    let ops = diff(&table, &seq, &seq, seq.len(), seq.len());
    assert_eq!(ops.len(), seq.len());
    let rendered: Vec<String> = ops.iter().map(render).collect();
    assert_eq!(rendered, vec!["  one", "  two", "  three", "  four"]);
}

#[test]
fn diff_of_disjoint_files_deletes_then_inserts() {
    let seq1 = lines(&["a", "b"]);
    let seq2 = lines(&["x", "y", "z"]);
    let table = lcs(&seq1, &seq2);
    assert_eq!(table.get(2, 3), Some(0));
    let ops = diff(&table, &seq1, &seq2, seq1.len(), seq2.len());
    let rendered: Vec<String> = ops.iter().map(render).collect();
    assert_eq!(rendered, vec!["< a", "< b", "> x", "> y", "> z"]);
}

#[test]
fn diff_files_runs_the_whole_pipeline() {
    let seq1 = lines(&["a", "b", "c", "d"]);
    let seq2 = lines(&["a", "d", "b"]);
    let ops = diff_files(&seq1, &seq2).unwrap();
    let rendered: Vec<String> = ops.iter().map(render).collect();
    assert_eq!(rendered, vec!["  a", "< b", "< c", "  d", "> b"]);
}

#[test]
fn diff_of_empty_files_is_empty() {
    let seq1 = lines(&[]);
    let seq2 = lines(&[]);
    let table = lcs(&seq1, &seq2);
    let ops = diff(&table, &seq1, &seq2, 0, 0);
    assert!(ops.is_empty());
}

#[test]
fn diff_with_one_empty_file() {
    let seq1 = lines(&["a", "b"]);
    let empty = lines(&[]);
    let table = lcs(&seq1, &empty);
    let ops = diff(&table, &seq1, &empty, 2, 0);
    let rendered: Vec<String> = ops.iter().map(render).collect();
    assert_eq!(rendered, vec!["< a", "< b"]);

    let table2 = lcs(&empty, &seq1);
    let ops2 = diff(&table2, &empty, &seq1, 0, 2);
    let rendered2: Vec<String> = ops2.iter().map(render).collect();
    assert_eq!(rendered2, vec!["> a", "> b"]);
}
