use dpll_solver::benchmark::{
    parse_benchmark, parse_word, read_header, read_words, split_runs, split_words,
    BenchmarkError,
};
use dpll_solver::solver::dpll;

fn bytes(text: &str) -> Vec<u8> {
    text.as_bytes().to_vec()
}

#[test]
fn reads_a_benchmark() {
    let text = bytes("c a sample\np cnf 3 4\n1 2 0\n1 0\n2 3 0\n2 -1 0\n");
    let expected: Vec<Vec<i64>> = vec![vec![1, 2], vec![1], vec![2, 3], vec![2, -1]];
    assert_eq!(parse_benchmark(&text), Ok((3, 4, expected)));
}

#[test]
fn reads_and_solves() {
    let text = bytes("p cnf 2 4\n1 2 0\n-1 2 0\n1 -2 0\n-1 -2 0");
    let (variables, count, mut clauses) = parse_benchmark(&text).unwrap();
    assert_eq!((variables, count), (2, 4));
    assert_eq!(clauses, vec![vec![1, 2], vec![-1, 2], vec![1, -2], vec![-1, -2]]);
    assert!(!dpll(&mut clauses));
}

#[test]
fn blank_lines_and_comments_are_no_clauses() {
    let text = bytes("c one\n\np cnf 1 1\n   \t\r\nc two\n-1 0\r\n\n");
    assert_eq!(parse_benchmark(&text), Ok((1, 1, vec![vec![-1]])));
}

#[test]
fn a_lone_terminator_is_the_empty_clause() {
    let text = bytes("p cnf 1 2\n0\n1 0\n");
    assert_eq!(parse_benchmark(&text), Ok((1, 2, vec![vec![], vec![1]])));
}

#[test]
fn a_word_that_is_no_number_is_an_error() {
    assert_eq!(parse_benchmark(&bytes("p cnf 2 1\n1 x 2")), Err(BenchmarkError::BadLiteral));
    assert_eq!(parse_benchmark(&bytes("p cnf 3 1\n1 -2 3y 0\n")), Err(BenchmarkError::BadLiteral));
    assert_eq!(parse_benchmark(&bytes("p cnf 1 1\n1 - 0\n")), Err(BenchmarkError::BadLiteral));
    assert_eq!(
        parse_benchmark(&bytes("p cnf 1 1\n9223372036854775808 0\n")),
        Err(BenchmarkError::BadLiteral)
    );
    assert_eq!(parse_benchmark(&bytes("p cnf 3 1\n1 -2 +3 0\n")), Ok((3, 1, vec![vec![1, -2, 3]])));
}

#[test]
fn the_first_line_in_error_decides() {
    assert_eq!(
        parse_benchmark(&bytes("p cnf 1 2\n1 x 0\np cnf 1\n")),
        Err(BenchmarkError::BadLiteral)
    );
    assert_eq!(
        parse_benchmark(&bytes("p cnf 1\n1 x 0\n")),
        Err(BenchmarkError::BadHeader)
    );
    assert_eq!(parse_benchmark(&bytes("p cnf 1 5\n1 0\nx 0\n")), Err(BenchmarkError::BadLiteral));
    assert_eq!(parse_benchmark(&bytes("c x y z\np cnf 1 1\n1 0\n")), Ok((1, 1, vec![vec![1]])));
}

#[test]
fn the_empty_text_declares_nothing() {
    assert_eq!(parse_benchmark(&bytes("")), Ok((0, 0, vec![])));
    assert_eq!(parse_benchmark(&bytes("c only a comment\n")), Ok((0, 0, vec![])));
}

#[test]
fn the_last_header_counts() {
    let text = bytes("p cnf 9 9\np cnf 2 1\n1 2 0\n");
    assert_eq!(parse_benchmark(&text), Ok((2, 1, vec![vec![1, 2]])));
}

#[test]
fn clause_count_must_match() {
    assert_eq!(parse_benchmark(&bytes("p cnf 2 3\n1 2 0\n")), Err(BenchmarkError::ClauseCount));
    assert_eq!(parse_benchmark(&bytes("1 2 0\n")), Err(BenchmarkError::ClauseCount));
    assert_eq!(parse_benchmark(&bytes("p cnf 2 -1\n")), Err(BenchmarkError::ClauseCount));
    assert_eq!(parse_benchmark(&bytes("p cnf 2 0\n1 0\n")), Err(BenchmarkError::ClauseCount));
}

#[test]
fn header_must_declare_two_numbers() {
    assert_eq!(parse_benchmark(&bytes("p cnf 2\n1 2 0\n")), Err(BenchmarkError::BadHeader));
    assert_eq!(parse_benchmark(&bytes("p cnf two 1\n1 2 0\n")), Err(BenchmarkError::BadHeader));
    assert_eq!(parse_benchmark(&bytes("p cnf 2 x\n")), Err(BenchmarkError::BadHeader));
    assert_eq!(parse_benchmark(&bytes("p\n")), Err(BenchmarkError::BadHeader));
    assert_eq!(
        parse_benchmark(&bytes("p cnf 1 1\n1 0\np cnf 1\n")),
        Err(BenchmarkError::BadHeader)
    );
}

#[test]
fn words_denote_numbers() {
    assert_eq!(parse_word(&bytes("0")), Some(0));
    assert_eq!(parse_word(&bytes("42")), Some(42));
    assert_eq!(parse_word(&bytes("-42")), Some(-42));
    assert_eq!(parse_word(&bytes("+42")), Some(42));
    assert_eq!(parse_word(&bytes("007")), Some(7));
    assert_eq!(parse_word(&bytes("9223372036854775807")), Some(i64::MAX));
    assert_eq!(parse_word(&bytes("-9223372036854775808")), Some(i64::MIN));
    assert_eq!(parse_word(&bytes("00000000000000000000000000000000000000000012")), Some(12));
}

#[test]
fn words_that_denote_no_number() {
    assert_eq!(parse_word(&bytes("")), None);
    assert_eq!(parse_word(&bytes("-")), None);
    assert_eq!(parse_word(&bytes("+")), None);
    assert_eq!(parse_word(&bytes("12a")), None);
    assert_eq!(parse_word(&bytes("a12")), None);
    assert_eq!(parse_word(&bytes("--1")), None);
    assert_eq!(parse_word(&bytes("1-")), None);
    assert_eq!(parse_word(&bytes("9223372036854775808")), None);
    assert_eq!(parse_word(&bytes("-9223372036854775809")), None);
    assert_eq!(parse_word(&bytes("99999999999999999999999999999999999999999999")), None);
}

#[test]
fn text_is_split_at_line_feeds() {
    assert_eq!(split_runs(&bytes(""), false), vec![bytes("")]);
    assert_eq!(split_runs(&bytes("a b\n\nc\n"), false), vec![bytes("a b"), bytes(""), bytes("c"), bytes("")]);
    assert_eq!(split_runs(&bytes("a b\tc"), true), vec![bytes("a"), bytes("b"), bytes("c")]);
    assert_eq!(split_runs(&bytes(" a  b"), true), vec![bytes(""), bytes("a"), bytes(""), bytes("b")]);
}

#[test]
fn lines_are_split_into_words() {
    assert_eq!(split_words(&bytes("  p cnf\t3   4 \r")), vec![bytes("p"), bytes("cnf"), bytes("3"), bytes("4")]);
    assert_eq!(split_words(&bytes("")), Vec::<Vec<u8>>::new());
    assert_eq!(split_words(&bytes(" \t ")), Vec::<Vec<u8>>::new());
}

#[test]
fn words_become_literals() {
    let ws = vec![bytes("5"), bytes("0"), bytes("+7"), bytes("-6"), bytes("0")];
    assert_eq!(read_words(&ws), Some(vec![5, 7, -6]));
    assert_eq!(read_words(&vec![]), Some(Vec::<i64>::new()));
    assert_eq!(read_words(&vec![bytes("0")]), Some(Vec::<i64>::new()));
    assert_eq!(read_words(&vec![bytes("1"), bytes("x"), bytes("2")]), None);
    assert_eq!(read_words(&vec![bytes("1"), bytes("2"), bytes("3-")]), None);
}

#[test]
fn header_words_become_numbers() {
    let ws = vec![bytes("p"), bytes("cnf"), bytes("30"), bytes("-4"), bytes("more")];
    assert_eq!(read_header(&ws), Some((30, -4)));
    assert_eq!(read_header(&vec![bytes("p"), bytes("cnf"), bytes("30")]), None);
    assert_eq!(read_header(&vec![bytes("p"), bytes("cnf"), bytes("x"), bytes("4")]), None);
    assert_eq!(read_header(&vec![bytes("p"), bytes("cnf"), bytes("4"), bytes("x")]), None);
}
