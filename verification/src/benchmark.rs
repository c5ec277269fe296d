//! The benchmark format: a text of lines, of which those that begin with `c`
//! are comments, one that begins with `p` declares the number of variables
//! and of clauses, and every other line that is not blank lists the literals
//! of one clause, closed by `0`.

use vstd::prelude::*;
use crate::formula::{clause_view, formula_view, lemma_filter_push, lemma_view_push};

verus! {

/// Why a text is no benchmark.
#[derive(Clone, Copy, Debug, PartialEq, Eq, Structural)]
pub enum BenchmarkError {
    /// A line that begins with `p` has no two numbers as its third and
    /// fourth word.
    BadHeader,
    /// A line that lists a clause holds a word that is no number.
    BadLiteral,
    /// The text holds another number of clauses than it declares.
    ClauseCount,
}

/// Space, tab, line feed, vertical tab, form feed, carriage return.
pub open spec fn is_blank(b: u8) -> bool {
    b == 32 || (9 <= b && b <= 13)
}

/// The predicate "is a blank".
pub open spec fn blank() -> spec_fn(u8) -> bool {
    |b: u8| is_blank(b)
}

/// The predicate "is a line feed".
pub open spec fn newline() -> spec_fn(u8) -> bool {
    |b: u8| b == 10
}

/// A decimal digit.
pub open spec fn is_digit(b: u8) -> bool {
    48 <= b && b <= 57
}

/// The runs of bytes between the separators, empty ones too.
pub open spec fn split(s: Seq<u8>, sep: spec_fn(u8) -> bool) -> Seq<Seq<u8>>
    decreases s.len(),
{
    if s.len() == 0 {
        seq![Seq::<u8>::empty()]
    } else {
        let before = split(s.drop_last(), sep);
        if sep(s.last()) {
            before.push(Seq::<u8>::empty())
        } else {
            before.drop_last().push(before.last().push(s.last()))
        }
    }
}

/// The predicate "has a byte".
pub open spec fn nonempty() -> spec_fn(Seq<u8>) -> bool {
    |w: Seq<u8>| w.len() > 0
}

/// The words of a line: its runs of bytes that are not blank.
pub open spec fn words(line: Seq<u8>) -> Seq<Seq<u8>> {
    split(line, blank()).filter(nonempty())
}

/// The number that a string of decimal digits denotes.
pub open spec fn digits_value(d: Seq<u8>) -> int
    decreases d.len(),
{
    if d.len() == 0 {
        0
    } else {
        digits_value(d.drop_last()) * 10 + (d.last() - 48)
    }
}

/// The digits of a word: the word without a sign in front.
pub open spec fn word_digits(w: Seq<u8>) -> Seq<u8> {
    if w.len() > 0 && (w[0] == 45 || w[0] == 43) {
        w.skip(1)
    } else {
        w
    }
}

/// The number that a word denotes: an optional `+` or `-`, then one decimal
/// digit or more, within `i64`.
pub open spec fn word_value(w: Seq<u8>) -> Option<int> {
    let d = word_digits(w);
    let v = if w.len() > 0 && w[0] == 45 {
        -digits_value(d)
    } else {
        digits_value(d)
    };
    if d.len() > 0 && (forall|i: int| 0 <= i < d.len() ==> is_digit(#[trigger] d[i])) && i64::MIN
        <= v <= i64::MAX {
        Some(v)
    } else {
        None
    }
}

/// The number of a word. A word that is no number counts as 0 here; a line
/// with such a word is in error, so that no clause is read from it.
pub open spec fn literal_of() -> spec_fn(Seq<u8>) -> int {
    |w: Seq<u8>|
        match word_value(w) {
            Some(v) => v,
            None => 0,
        }
}

/// The predicate "is not 0".
pub open spec fn nonzero() -> spec_fn(int) -> bool {
    |l: int| l != 0
}

/// The numbers among the words, without the zeros.
pub open spec fn literals_of(ws: Seq<Seq<u8>>) -> Seq<int> {
    ws.map_values(literal_of()).filter(nonzero())
}

/// The clause of a line: the numbers among its words, without the zeros.
pub open spec fn clause_of(line: Seq<u8>) -> Seq<int> {
    literals_of(words(line))
}

/// The function from a line to its clause.
pub open spec fn clause_reader() -> spec_fn(Seq<u8>) -> Seq<int> {
    |line: Seq<u8>| clause_of(line)
}

/// The line begins with `p`.
pub open spec fn is_header_line(line: Seq<u8>) -> bool {
    line.len() > 0 && line[0] == 112
}

/// The line begins with `c`.
pub open spec fn is_comment_line(line: Seq<u8>) -> bool {
    line.len() > 0 && line[0] == 99
}

/// The line is neither header nor comment, and has a word.
pub open spec fn is_clause_line(line: Seq<u8>) -> bool {
    !is_header_line(line) && !is_comment_line(line) && words(line).len() > 0
}

/// The predicate "begins with `p`".
pub open spec fn header_line() -> spec_fn(Seq<u8>) -> bool {
    |line: Seq<u8>| is_header_line(line)
}

/// The predicate "lists a clause".
pub open spec fn clause_line() -> spec_fn(Seq<u8>) -> bool {
    |line: Seq<u8>| is_clause_line(line)
}

/// The third and the fourth word, where both are numbers.
pub open spec fn numbers_of(w: Seq<Seq<u8>>) -> Option<(int, int)> {
    if w.len() >= 4 && word_value(w[2]) is Some && word_value(w[3]) is Some {
        Some((word_value(w[2])->0, word_value(w[3])->0))
    } else {
        None
    }
}

/// The two numbers that a header line declares: its third and fourth word.
pub open spec fn header_of(line: Seq<u8>) -> Option<(int, int)> {
    numbers_of(words(line))
}

/// The lines of a text.
pub open spec fn lines_of(text: Seq<u8>) -> Seq<Seq<u8>> {
    split(text, newline())
}

/// The header lines among the lines.
pub open spec fn headers_in(lines: Seq<Seq<u8>>) -> Seq<Seq<u8>> {
    lines.filter(header_line())
}

/// The clauses of the lines, in the order of the lines.
pub open spec fn clauses_in(lines: Seq<Seq<u8>>) -> Seq<Seq<int>> {
    lines.filter(clause_line()).map_values(clause_reader())
}

/// The numbers that the last header declares; two zeros without a header.
pub open spec fn declared(headers: Seq<Seq<u8>>) -> (int, int) {
    if headers.len() == 0 {
        (0, 0)
    } else {
        header_of(headers.last())->0
    }
}

/// Every word is a number.
pub open spec fn well_worded(ws: Seq<Seq<u8>>) -> bool {
    forall|k: int| 0 <= k < ws.len() ==> word_value(#[trigger] ws[k]) is Some
}

/// What is wrong with a line by itself: a header that does not declare two
/// numbers, or a clause line with a word that is no number.
pub open spec fn line_error(line: Seq<u8>) -> Option<BenchmarkError> {
    if is_header_line(line) && header_of(line) is None {
        Some(BenchmarkError::BadHeader)
    } else if is_clause_line(line) && !well_worded(words(line)) {
        Some(BenchmarkError::BadLiteral)
    } else {
        None
    }
}

/// Line `i` is the first line in error.
pub open spec fn first_error_at(lines: Seq<Seq<u8>>, i: int) -> bool {
    &&& 0 <= i < lines.len()
    &&& line_error(lines[i]) is Some
    &&& forall|k: int| 0 <= k < i ==> line_error(#[trigger] lines[k]) is None
}

/// What a text holds: the declared number of variables, the declared number
/// of clauses and the clauses. Where a line is in error, the first such line
/// decides the error. Where none is, the number of clauses must be the
/// declared one.
pub open spec fn benchmark(text: Seq<u8>) -> Result<(int, int, Seq<Seq<int>>), BenchmarkError> {
    let lines = lines_of(text);
    let headers = headers_in(lines);
    let clauses = clauses_in(lines);
    if exists|i: int| first_error_at(lines, i) {
        Err(line_error(lines[choose|i: int| first_error_at(lines, i)])->0)
    } else if declared(headers).1 != clauses.len() {
        Err(BenchmarkError::ClauseCount)
    } else {
        Ok((declared(headers).0, declared(headers).1, clauses))
    }
}

/// The byte sequences that the vectors hold.
pub open spec fn runs_view(runs: Seq<Vec<u8>>) -> Seq<Seq<u8>> {
    runs.map_values(|r: Vec<u8>| r@)
}

/// Splits at line feeds, or at blanks where `at_blanks` is set.
pub fn split_runs(text: &Vec<u8>, at_blanks: bool) -> (runs: Vec<Vec<u8>>)
    ensures
        runs_view(runs@) == split(
            text@,
            if at_blanks {
                blank()
            } else {
                newline()
            },
        ),
{
    let ghost sep = if at_blanks {
        blank()
    } else {
        newline()
    };
    let mut done: Vec<Vec<u8>> = Vec::new();
    let mut current: Vec<u8> = Vec::new();
    let mut i: usize = 0;
    proof {
        assert(runs_view(done@).push(current@) =~= split(text@.take(0), sep));
    }
    while i < text.len()
        invariant
            i <= text.len(),
            sep == if at_blanks {
                blank()
            } else {
                newline()
            },
            runs_view(done@).push(current@) == split(text@.take(i as int), sep),
        decreases text.len() - i,
    {
        let b: u8 = text[i];
        let cut = if at_blanks {
            b == 32 || (9 <= b && b <= 13)
        } else {
            b == 10
        };
        proof {
            let s = text@.take(i + 1);
            assert(s.drop_last() =~= text@.take(i as int));
            assert(s.last() == b);
            assert(cut == sep(b));
        }
        if cut {
            proof {
                assert(runs_view(done@.push(current)) =~= runs_view(done@).push(current@));
            }
            done.push(current);
            current = Vec::new();
        } else {
            proof {
                let before = runs_view(done@).push(current@);
                assert(before.drop_last() =~= runs_view(done@));
            }
            current.push(b);
        }
        i += 1;
    }
    proof {
        assert(text@.take(text.len() as int) =~= text@);
        assert(runs_view(done@.push(current)) =~= runs_view(done@).push(current@));
    }
    done.push(current);
    done
}

/// The words of a line.
pub fn split_words(line: &Vec<u8>) -> (found: Vec<Vec<u8>>)
    ensures
        runs_view(found@) == words(line@),
{
    let runs = split_runs(line, true);
    let ghost all = runs_view(runs@);
    let mut found: Vec<Vec<u8>> = Vec::new();
    proof {
        reveal(Seq::filter);
        assert(runs_view(found@) =~= all.take(0).filter(nonempty()));
    }
    let mut k: usize = 0;
    while k < runs.len()
        invariant
            k <= runs.len(),
            all == runs_view(runs@),
            runs_view(found@) == all.take(k as int).filter(nonempty()),
        decreases runs.len() - k,
    {
        proof {
            assert(all.take(k + 1) =~= all.take(k as int).push(all[k as int]));
            lemma_filter_push(all.take(k as int), all[k as int], nonempty());
            assert(all[k as int] == runs@[k as int]@);
        }
        if runs[k].len() > 0 {
            let mut w: Vec<u8> = Vec::new();
            let mut j: usize = 0;
            while j < runs[k].len()
                invariant
                    k < runs.len(),
                    j <= runs@[k as int]@.len(),
                    w@ == runs@[k as int]@.take(j as int),
                decreases runs@[k as int]@.len() - j,
            {
                w.push(runs[k][j]);
                proof {
                    assert(runs@[k as int]@.take(j + 1) =~= runs@[k as int]@.take(j as int).push(
                        runs@[k as int]@[j as int],
                    ));
                }
                j += 1;
            }
            proof {
                assert(runs@[k as int]@.take(j as int) =~= runs@[k as int]@);
                assert(runs_view(found@.push(w)) =~= runs_view(found@).push(w@));
            }
            found.push(w);
        }
        k += 1;
    }
    proof {
        assert(all.take(runs.len() as int) =~= all);
    }
    found
}

/// The number that a word denotes, if it denotes one.
pub fn parse_word(w: &Vec<u8>) -> (value: Option<i64>)
    ensures
        match value {
            Some(v) => word_value(w@) == Some(v as int),
            None => word_value(w@) is None,
        },
{
    let n = w.len();
    if n == 0 {
        return None;
    }
    let negative = w[0] == 45;
    let signed = negative || w[0] == 43;
    let start: usize = if signed {
        1
    } else {
        0
    };
    let ghost d = word_digits(w@);
    let mut acc: i128 = 0;
    let mut over = false;
    let mut k: usize = start;
    proof {
        assert(d.take(0) =~= Seq::<u8>::empty());
    }
    while k < n
        invariant
            n == w.len(),
            start <= k <= n,
            start <= 1,
            d == word_digits(w@),
            d.len() == n - start,
            forall|i: int| 0 <= i < d.len() ==> d[i] == w@[i + start],
            forall|i: int| 0 <= i < k - start ==> is_digit(#[trigger] d[i]),
            !over ==> 0 <= acc <= 9223372036854775808 && acc == digits_value(
                d.take(k - start),
            ),
            over ==> digits_value(d.take(k - start)) > 9223372036854775808,
        decreases n - k,
    {
        let b: u8 = w[k];
        if b < 48 || b > 57 {
            proof {
                assert(d[k - start] == b);
                assert(!is_digit(d[k - start]));
            }
            return None;
        }
        proof {
            assert(d.take(k - start + 1).drop_last() =~= d.take(k - start));
            assert(d.take(k - start + 1).last() == b);
        }
        if !over {
            acc = acc * 10 + (b - 48) as i128;
            if acc > 9223372036854775808 {
                over = true;
            }
        }
        k += 1;
    }
    proof {
        assert(d.take(d.len() as int) =~= d);
    }
    if over || k == start {
        return None;
    }
    let v: i128 = if negative {
        -acc
    } else {
        acc
    };
    if v < -9223372036854775808 || v > 9223372036854775807 {
        None
    } else {
        Some(v as i64)
    }
}

/// The numbers that the words denote, without the zeros; nothing where a
/// word is no number.
pub fn read_words(ws: &Vec<Vec<u8>>) -> (clause: Option<Vec<i64>>)
    ensures
        match clause {
            Some(c) => well_worded(runs_view(ws@)) && clause_view(c@) == literals_of(
                runs_view(ws@),
            ),
            None => !well_worded(runs_view(ws@)),
        },
{
    let ghost all = runs_view(ws@);
    let mut clause: Vec<i64> = Vec::new();
    let mut k: usize = 0;
    proof {
        reveal(Seq::filter);
        assert(clause_view(clause@) =~= literals_of(all.take(0)));
    }
    while k < ws.len()
        invariant
            k <= ws.len(),
            all == runs_view(ws@),
            forall|j: int| 0 <= j < k ==> word_value(#[trigger] all[j]) is Some,
            clause_view(clause@) == literals_of(all.take(k as int)),
        decreases ws.len() - k,
    {
        let value = parse_word(&ws[k]);
        proof {
            let before = all.take(k as int).map_values(literal_of());
            let x = literal_of()(all[k as int]);
            assert(all.take(k + 1).map_values(literal_of()) =~= before.push(x));
            lemma_filter_push(before, x, nonzero());
            assert(all[k as int] == ws@[k as int]@);
        }
        match value {
            Some(l) => {
                if l != 0 {
                    proof {
                        assert(clause_view(clause@.push(l)) =~= clause_view(clause@).push(
                            l as int,
                        ));
                    }
                    clause.push(l);
                }
            },
            None => {
                proof {
                    assert(word_value(all[k as int]) is None);
                }
                return None;
            },
        }
        k += 1;
    }
    proof {
        assert(all.take(ws.len() as int) =~= all);
    }
    Some(clause)
}

/// The two numbers that the words of a header declare.
pub fn read_header(ws: &Vec<Vec<u8>>) -> (numbers: Option<(i64, i64)>)
    ensures
        match numbers {
            Some((v, n)) => numbers_of(runs_view(ws@)) == Some((v as int, n as int)),
            None => numbers_of(runs_view(ws@)) is None,
        },
{
    if ws.len() < 4 {
        return None;
    }
    proof {
        assert(runs_view(ws@)[2] == ws@[2]@);
        assert(runs_view(ws@)[3] == ws@[3]@);
    }
    match parse_word(&ws[2]) {
        Some(v) => match parse_word(&ws[3]) {
            Some(n) => Some((v, n)),
            None => None,
        },
        None => None,
    }
}

/// The lines with one more line: what it adds to the headers and clauses.
pub proof fn lemma_next_line(lines: Seq<Seq<u8>>, line: Seq<u8>)
    ensures
        headers_in(lines.push(line)) == if is_header_line(line) {
            headers_in(lines).push(line)
        } else {
            headers_in(lines)
        },
        clauses_in(lines.push(line)) == if is_clause_line(line) {
            clauses_in(lines).push(clause_of(line))
        } else {
            clauses_in(lines)
        },
{
    lemma_filter_push(lines, line, header_line());
    lemma_filter_push(lines, line, clause_line());
    if is_clause_line(line) {
        assert(clauses_in(lines.push(line)) =~= clauses_in(lines).push(clause_of(line)));
    }
}

/// The first line in error is the only one.
pub proof fn lemma_first_error(lines: Seq<Seq<u8>>, i: int)
    requires
        first_error_at(lines, i),
    ensures
        (choose|c: int| first_error_at(lines, c)) == i,
{
    let c = choose|c: int| first_error_at(lines, c);
    if c < i {
        assert(line_error(lines[c]) is None);
    } else if i < c {
        assert(line_error(lines[i]) is None);
    }
}

/// Reads a benchmark: the declared number of variables, the declared number
/// of clauses, and the clauses. A header that does not declare two numbers is
/// an error, and so is a clause line with a word that is no number; the first
/// such line decides. Without one, a number of clauses other than the
/// declared one is an error.
pub fn parse_benchmark(text: &Vec<u8>) -> (result: Result<
    (i64, i64, Vec<Vec<i64>>),
    BenchmarkError,
>)
    ensures
        match result {
            Ok((variables, count, clauses)) => benchmark(text@) == Ok::<
                (int, int, Seq<Seq<int>>),
                BenchmarkError,
            >((variables as int, count as int, formula_view(clauses@))),
            Err(e) => benchmark(text@) == Err::<(int, int, Seq<Seq<int>>), BenchmarkError>(e),
        },
{
    let lines = split_runs(text, false);
    let ghost all = runs_view(lines@);
    let mut num_variables: i64 = 0;
    let mut num_clauses: i64 = 0;
    let mut clauses: Vec<Vec<i64>> = Vec::new();
    let mut i: usize = 0;
    proof {
        reveal(Seq::filter);
        assert(headers_in(all.take(0)) =~= Seq::<Seq<u8>>::empty());
        assert(formula_view(clauses@) =~= clauses_in(all.take(0)));
    }
    while i < lines.len()
        invariant
            i <= lines.len(),
            all == runs_view(lines@),
            all == lines_of(text@),
            formula_view(clauses@) == clauses_in(all.take(i as int)),
            forall|k: int| 0 <= k < i ==> line_error(#[trigger] all[k]) is None,
            declared(headers_in(all.take(i as int))) == (num_variables as int, num_clauses as int),
        decreases lines.len() - i,
    {
        let line = &lines[i];
        proof {
            assert(all.take(i + 1) =~= all.take(i as int).push(all[i as int]));
            lemma_next_line(all.take(i as int), all[i as int]);
            assert(all[i as int] == line@);
        }
        if line.len() > 0 && line[0] == 112 {
            let ws = split_words(line);
            match read_header(&ws) {
                Some((v, n)) => {
                    num_variables = v;
                    num_clauses = n;
                },
                None => {
                    proof {
                        assert(first_error_at(all, i as int));
                        lemma_first_error(all, i as int);
                    }
                    return Err(BenchmarkError::BadHeader);
                },
            }
        } else if !(line.len() > 0 && line[0] == 99) {
            let ws = split_words(line);
            if ws.len() > 0 {
                match read_words(&ws) {
                    Some(clause) => {
                        proof {
                            lemma_view_push(clauses@, clause);
                        }
                        clauses.push(clause);
                    },
                    None => {
                        proof {
                            assert(first_error_at(all, i as int));
                            lemma_first_error(all, i as int);
                        }
                        return Err(BenchmarkError::BadLiteral);
                    },
                }
            }
        }
        i += 1;
    }
    proof {
        assert(all.take(lines.len() as int) =~= all);
        assert forall|k: int| !first_error_at(all, k) by {
            if 0 <= k < all.len() {
                assert(line_error(all[k]) is None);
            }
        }
    }
    if num_clauses < 0 || num_clauses as u128 != clauses.len() as u128 {
        return Err(BenchmarkError::ClauseCount);
    }
    Ok((num_variables, num_clauses, clauses))
}

} // verus!
