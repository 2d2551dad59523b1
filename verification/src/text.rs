use vstd::prelude::*;
use core::fmt::Debug;
use crate::matrix::{Matrix, lemma_cell_index};

verus! {

/// The parts one after the other, with `sep` between each two of them.
pub open spec fn joined(parts: Seq<Seq<char>>, sep: Seq<char>) -> Seq<char>
    decreases parts.len(),
{
    if parts.len() == 0 {
        Seq::empty()
    } else if parts.len() == 1 {
        parts[0]
    } else {
        joined(parts.drop_last(), sep) + sep + parts.last()
    }
}

/// The text of row `i`: the texts of its cells with one space between them.
pub open spec fn row_text(texts: Seq<Seq<char>>, cols: int, i: int) -> Seq<char> {
    joined(texts.subrange(i * cols, i * cols + cols), seq![' '])
}

/// The text of a matrix with the given cell texts: its rows, separated by a
/// comma and a space, in curly brackets.
pub open spec fn layout(texts: Seq<Seq<char>>, rows: int, cols: int) -> Seq<char> {
    seq!['{'] + joined(Seq::new(rows as nat, |i: int| row_text(texts, cols, i)), seq![',', ' ']) + seq!['}']
}

/// The characters of each string.
pub open spec fn views(texts: Seq<String>) -> Seq<Seq<char>> {
    Seq::new(texts.len(), |k: int| texts[k]@)
}

/// The decimal digit `d` as a character.
pub open spec fn digit(d: int) -> char {
    if d == 0 {
        '0'
    } else if d == 1 {
        '1'
    } else if d == 2 {
        '2'
    } else if d == 3 {
        '3'
    } else if d == 4 {
        '4'
    } else if d == 5 {
        '5'
    } else if d == 6 {
        '6'
    } else if d == 7 {
        '7'
    } else if d == 8 {
        '8'
    } else {
        '9'
    }
}

/// The decimal numeral of `n`, without leading zeros.
pub open spec fn decimal(n: nat) -> Seq<char>
    decreases n,
{
    if n < 10 {
        seq![digit(n as int)]
    } else {
        decimal(n / 10).push(digit((n % 10) as int))
    }
}

/// The text of a matrix with its shape in front.
pub open spec fn described(texts: Seq<Seq<char>>, rows: int, cols: int) -> Seq<char> {
    "Matrix(rows="@ + decimal(rows as nat) + ",cols="@ + decimal(cols as nat) + ","@ + layout(texts, rows, cols)
        + ")"@
}

fn digit_str(d: usize) -> (s: &'static str)
    requires
        d < 10,
    ensures
        s@ == seq![digit(d as int)],
{
    proof {
        reveal_strlit("0");
        reveal_strlit("1");
        reveal_strlit("2");
        reveal_strlit("3");
        reveal_strlit("4");
        reveal_strlit("5");
        reveal_strlit("6");
        reveal_strlit("7");
        reveal_strlit("8");
        reveal_strlit("9");
    }
    let s = if d == 0 {
        "0"
    } else if d == 1 {
        "1"
    } else if d == 2 {
        "2"
    } else if d == 3 {
        "3"
    } else if d == 4 {
        "4"
    } else if d == 5 {
        "5"
    } else if d == 6 {
        "6"
    } else if d == 7 {
        "7"
    } else if d == 8 {
        "8"
    } else {
        "9"
    };
    assert(s@ =~= seq![digit(d as int)]);
    s
}

/// The decimal numeral of `n`.
pub fn decimal_text(n: usize) -> (s: String)
    ensures
        s@ == decimal(n as nat),
    decreases n,
{
    if n < 10 {
        let mut s = String::new();
        s.append(digit_str(n));
        assert(s@ =~= decimal(n as nat));
        s
    } else {
        let mut s = decimal_text(n / 10);
        s.append(digit_str(n % 10));
        assert(s@ =~= decimal(n as nat));
        s
    }
}

/// The texts at `start`, `start + 1`, up to `start + count - 1`, with one
/// space between each two of them.
fn join_cells(texts: &Vec<String>, start: usize, count: usize) -> (s: String)
    requires
        start + count <= texts@.len(),
    ensures
        s@ == joined(views(texts@).subrange(start as int, start + count), seq![' ']),
{
    let ghost parts = views(texts@).subrange(start as int, start + count);
    let given = texts.len();
    let mut s = String::new();
    let mut j: usize = 0;
    while j < count
        invariant
            given == texts@.len(),
            start + count <= texts@.len(),
            parts == views(texts@).subrange(start as int, start + count),
            j <= count,
            s@ == joined(parts.take(j as int), seq![' ']),
        decreases count - j,
    {
        if j > 0 {
            proof {
                reveal_strlit(" ");
            }
            s.append(" ");
        }
        s.append(texts[start + j].as_str());
        j += 1;
        proof {
            assert(parts.take(j as int).drop_last() =~= parts.take(j - 1));
            assert(parts.take(j as int).last() == texts@[start + j - 1]@);
            assert(" "@ =~= seq![' ']) by {
                reveal_strlit(" ");
            }
            if j == 1 {
                assert(s@ =~= parts.take(1)[0]);
            }
        }
    }
    assert(parts.take(count as int) =~= parts);
    s
}

/// Lays the cell texts of a `rows` times `cols` matrix out as one text: each
/// row's cells with a space between them, the rows with a comma and a space
/// between them, all in curly brackets.
pub fn render(texts: &Vec<String>, rows: usize, cols: usize) -> (s: String)
    requires
        texts@.len() == rows * cols,
    ensures
        s@ == layout(views(texts@), rows as int, cols as int),
{
    let ghost lines = Seq::new(rows as nat, |i: int| row_text(views(texts@), cols as int, i));
    let given = texts.len();
    let mut s = String::new();
    proof {
        reveal_strlit("{");
    }
    s.append("{");
    let mut i: usize = 0;
    while i < rows
        invariant
            given == texts@.len(),
            texts@.len() == rows * cols,
            lines == Seq::new(rows as nat, |i: int| row_text(views(texts@), cols as int, i)),
            i <= rows,
            s@ == seq!['{'] + joined(lines.take(i as int), seq![',', ' ']),
        decreases rows - i,
    {
        if i > 0 {
            proof {
                reveal_strlit(", ");
            }
            s.append(", ");
        }
        proof {
            if cols > 0 {
                lemma_cell_index(i as int, cols as int - 1, rows as int, cols as int);
            } else {
                assert(i * cols == 0) by (nonlinear_arith)
                    requires
                        cols == 0,
                ;
            }
        }
        let line = join_cells(texts, i * cols, cols);
        s.append(line.as_str());
        i += 1;
        proof {
            assert(lines.take(i as int).drop_last() =~= lines.take(i - 1));
            assert(lines.take(i as int).last() == line@);
            assert(", "@ =~= seq![',', ' ']) by {
                reveal_strlit(", ");
            }
            if i == 1 {
                assert(joined(lines.take(1), seq![',', ' ']) =~= line@);
                assert(s@ =~= seq!['{'] + joined(lines.take(1), seq![',', ' ']));
            } else {
                assert(s@ =~= seq!['{'] + joined(lines.take(i as int), seq![',', ' ']));
            }
        }
    }
    proof {
        reveal_strlit("}");
        assert(lines.take(rows as int) =~= lines);
    }
    s.append("}");
    assert(s@ =~= layout(views(texts@), rows as int, cols as int));
    s
}

/// Lays the cell texts out as `render` does, with the shape in front:
/// `Matrix(rows=2,cols=2,{22 28, 49 64})`.
pub fn describe(texts: &Vec<String>, rows: usize, cols: usize) -> (s: String)
    requires
        texts@.len() == rows * cols,
    ensures
        s@ == described(views(texts@), rows as int, cols as int),
{
    let mut s = String::new();
    s.append("Matrix(rows=");
    s.append(decimal_text(rows).as_str());
    s.append(",cols=");
    s.append(decimal_text(cols).as_str());
    s.append(",");
    s.append(render(texts, rows, cols).as_str());
    s.append(")");
    assert(s@ =~= described(views(texts@), rows as int, cols as int));
    s
}

/// The text that `format!` gives for `value` with `{:?}`. What it holds is
/// up to the `Debug` impl of `T`: nothing is claimed of it.
#[verifier::external_body]
fn debug_text<T: Debug>(value: &T) -> (text: String) {
    format!("{:?}", value)
}

impl<T: Debug> Matrix<T> {
    /// The text of each cell, in the order of the buffer.
    fn cell_texts(&self) -> (texts: Vec<String>)
        ensures
            texts@.len() == self@.len(),
    {
        let data = self.data();
        let mut texts: Vec<String> = Vec::with_capacity(data.len());
        let mut k: usize = 0;
        while k < data.len()
            invariant
                data@ == self@,
                k <= data@.len(),
                texts@.len() == k,
            decreases data@.len() - k,
        {
            texts.push(debug_text(&data[k]));
            k += 1;
        }
        texts
    }

    /// The matrix as text, `{1 2 3, 4 5 6}` for two rows of three: the
    /// layout of the texts that `{:?}` gives for its cells.
    pub fn to_string(&self) -> (s: String)
        requires
            self.wf(),
        ensures
            exists|texts: Seq<Seq<char>>|
                texts.len() == self@.len() && s@ == layout(texts, self.rows() as int, self.cols() as int),
    {
        let texts = self.cell_texts();
        let s = render(&texts, self.rows(), self.cols());
        assert(views(texts@).len() == self@.len());
        s
    }

    /// The matrix as text with its shape in front:
    /// `Matrix(rows=2,cols=3,{1 2 3, 4 5 6})`.
    pub fn to_debug_string(&self) -> (s: String)
        requires
            self.wf(),
        ensures
            exists|texts: Seq<Seq<char>>|
                texts.len() == self@.len() && s@ == described(texts, self.rows() as int, self.cols() as int),
    {
        let texts = self.cell_texts();
        let s = describe(&texts, self.rows(), self.cols());
        assert(views(texts@).len() == self@.len());
        s
    }
}

/// The text of a matrix depends on its shape and on the texts of its cells
/// alone: two matrices of one shape whose cells read the same read the same.
pub proof fn lemma_layout_same(first: Seq<Seq<char>>, second: Seq<Seq<char>>, rows: int, cols: int)
    requires
        first.len() == second.len(),
        forall|k: int| 0 <= k < first.len() ==> first[k] == second[k],
    ensures
        layout(first, rows, cols) == layout(second, rows, cols),
        described(first, rows, cols) == described(second, rows, cols),
{
    assert(first =~= second);
}

} // verus!
