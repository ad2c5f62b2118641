use vstd::prelude::*;
use crate::components::text::{decimal, push_decimal, push_text};

verus! {

/// Sum of the first `n` terms of the dot product of row `i` of `a` with column
/// `j` of `b`: `a[i][0] * b[0][j] + ... + a[i][n - 1] * b[n - 1][j]`.
pub open spec fn dot_prefix(a: [[u32; 3]; 3], b: [[u32; 3]; 3], i: int, j: int, n: int) -> int
    decreases n,
{
    if n <= 0 {
        0
    } else {
        dot_prefix(a, b, i, j, n - 1) + a[i][n - 1] * b[n - 1][j]
    }
}

/// Entry `(i, j)` of the matrix product `a * b`.
pub open spec fn product_entry(a: [[u32; 3]; 3], b: [[u32; 3]; 3], i: int, j: int) -> int {
    dot_prefix(a, b, i, j, 3)
}

/// Every entry of `a * b` fits in a `u32`.
pub open spec fn product_fits(a: [[u32; 3]; 3], b: [[u32; 3]; 3]) -> bool {
    forall|i: int, j: int| 0 <= i < 3 && 0 <= j < 3 ==> #[trigger] product_entry(a, b, i, j) <= u32::MAX
}

/// `c` is the matrix product `a * b`.
pub open spec fn is_product(c: [[u32; 3]; 3], a: [[u32; 3]; 3], b: [[u32; 3]; 3]) -> bool {
    forall|i: int, j: int| 0 <= i < 3 && 0 <= j < 3 ==> c[i][j] == #[trigger] product_entry(a, b, i, j)
}

/// One term of a dot product is never negative.
proof fn lemma_term_nonnegative(a: [[u32; 3]; 3], b: [[u32; 3]; 3], i: int, j: int, k: int)
    ensures
        0 <= a[i][k] * b[k][j],
{
    let x = a[i][k];
    let y = b[k][j];
    assert(0 <= x * y) by (nonlinear_arith)
        requires
            0 <= x,
            0 <= y,
    ;
}

/// Partial dot products grow with the number of terms and are never negative.
pub proof fn lemma_dot_prefix_monotone(a: [[u32; 3]; 3], b: [[u32; 3]; 3], i: int, j: int, n: int, m: int)
    requires
        n <= m,
    ensures
        0 <= dot_prefix(a, b, i, j, n) <= dot_prefix(a, b, i, j, m),
    decreases m,
{
    if m > 0 {
        lemma_term_nonnegative(a, b, i, j, m - 1);
        if n < m {
            lemma_dot_prefix_monotone(a, b, i, j, n, m - 1);
        } else {
            lemma_dot_prefix_monotone(a, b, i, j, m - 1, m - 1);
        }
    }
}

/// The text of one matrix row: each value followed by a space, then a newline.
pub open spec fn row_text(r: [u32; 3]) -> Seq<char> {
    decimal(r[0] as nat) + seq![' '] + decimal(r[1] as nat) + seq![' '] + decimal(r[2] as nat) + seq![' ', '\n']
}

/// The text of a matrix, one line per row.
pub open spec fn matrix_text(m: [[u32; 3]; 3]) -> Seq<char> {
    row_text(m[0]) + row_text(m[1]) + row_text(m[2])
}

/// A matrix prints as its rows from first to last, one line per row: the
/// values of row 0, each in decimal followed by a space, then a newline; then
/// row 1 in the same way; then row 2.
pub proof fn law_matrix_prints_rows_in_order(m: [[u32; 3]; 3])
    ensures
        matrix_text(m) == decimal(m[0][0] as nat) + seq![' '] + decimal(m[0][1] as nat) + seq![' '] + decimal(m[0][2] as nat) + seq![' ', '\n']
            + (decimal(m[1][0] as nat) + seq![' '] + decimal(m[1][1] as nat) + seq![' '] + decimal(m[1][2] as nat) + seq![' ', '\n'])
            + (decimal(m[2][0] as nat) + seq![' '] + decimal(m[2][1] as nat) + seq![' '] + decimal(m[2][2] as nat) + seq![' ', '\n']),
{
}

/// Two matrices that share a row print that row on the same line: the text
/// of row 0 opens the print, the text of row 2 closes it, and a matrix's
/// print begins with its first row whatever the other rows hold.
pub proof fn law_matrix_print_rows_are_lines(m1: [[u32; 3]; 3], m2: [[u32; 3]; 3])
    ensures
        m1[0] == m2[0] ==> matrix_text(m1).take(row_text(m1[0]).len() as int) == matrix_text(m2).take(row_text(m2[0]).len() as int),
        m1[2] == m2[2] ==> matrix_text(m1).skip(matrix_text(m1).len() - row_text(m1[2]).len()) == matrix_text(m2).skip(
            matrix_text(m2).len() - row_text(m2[2]).len(),
        ),
        matrix_text(m1).take(row_text(m1[0]).len() as int) == row_text(m1[0]),
        row_text(m1[0]).last() == '\n',
{
    let r0 = row_text(m1[0]);
    let r1 = row_text(m1[1]);
    let r2 = row_text(m1[2]);
    assert((r0 + r1 + r2).take(r0.len() as int) =~= r0);
    assert((r0 + r1 + r2).skip((r0 + r1 + r2).len() - r2.len()) =~= r2);
    let q0 = row_text(m2[0]);
    let q1 = row_text(m2[1]);
    let q2 = row_text(m2[2]);
    assert((q0 + q1 + q2).take(q0.len() as int) =~= q0);
    assert((q0 + q1 + q2).skip((q0 + q1 + q2).len() - q2.len()) =~= q2);
}

/// A calculator that multiplies two 3 by 3 matrices on the calling thread.
pub struct Calculator {
    pub a: [[u32; 3]; 3],
    pub b: [[u32; 3]; 3],
}

fn product_cell(a: &[[u32; 3]; 3], b: &[[u32; 3]; 3], i: usize, j: usize) -> (c: u32)
    requires
        i < 3,
        j < 3,
        product_entry(*a, *b, i as int, j as int) <= u32::MAX,
    ensures
        c == product_entry(*a, *b, i as int, j as int),
{
    let mut c: u32 = 0;
    let mut k: usize = 0;
    while k < 3
        invariant
            i < 3,
            j < 3,
            k <= 3,
            c == dot_prefix(*a, *b, i as int, j as int, k as int),
            product_entry(*a, *b, i as int, j as int) <= u32::MAX,
        decreases 3 - k,
    {
        proof {
            lemma_dot_prefix_monotone(*a, *b, i as int, j as int, (k + 1) as int, 3);
        }
        c = c + a[i][k] * b[k][j];
        k = k + 1;
    }
    c
}

fn push_row(s: &mut String, r: [u32; 3])
    ensures
        final(s)@ == old(s)@ + row_text(r),
{
    proof {
        reveal_strlit(" ");
        reveal_strlit("\n");
    }
    push_decimal(s, r[0] as u64);
    push_text(s, " ");
    push_decimal(s, r[1] as u64);
    push_text(s, " ");
    push_decimal(s, r[2] as u64);
    push_text(s, " ");
    push_text(s, "\n");
    assert(final(s)@ == old(s)@ + row_text(r));
}

impl Calculator {
    pub fn new(a: [[u32; 3]; 3], b: [[u32; 3]; 3]) -> (calc: Self)
        ensures
            calc.a == a,
            calc.b == b,
    {
        Calculator { a, b }
    }

    /// Writes a matrix as text: the values of each row separated by spaces,
    /// one row per line.
    pub fn get_print(matrix: [[u32; 3]; 3]) -> (printed: String)
        ensures
            printed@ == matrix_text(matrix),
    {
        let mut printed = String::new();
        push_row(&mut printed, matrix[0]);
        push_row(&mut printed, matrix[1]);
        push_row(&mut printed, matrix[2]);
        printed
    }

    /// Computes `a * b`.
    pub fn calculate(&self) -> (c: [[u32; 3]; 3])
        requires
            product_fits(self.a, self.b),
        ensures
            is_product(c, self.a, self.b),
    {
        let mut c: [[u32; 3]; 3] = [[0; 3]; 3];
        let mut i: usize = 0;
        while i < 3
            invariant
                i <= 3,
                product_fits(self.a, self.b),
                forall|ii: int, jj: int| 0 <= ii < i && 0 <= jj < 3 ==> c[ii][jj] == #[trigger] product_entry(self.a, self.b, ii, jj),
            decreases 3 - i,
        {
            assert(product_entry(self.a, self.b, i as int, 0) <= u32::MAX);
            assert(product_entry(self.a, self.b, i as int, 1) <= u32::MAX);
            assert(product_entry(self.a, self.b, i as int, 2) <= u32::MAX);
            let row: [u32; 3] = [
                product_cell(&self.a, &self.b, i, 0),
                product_cell(&self.a, &self.b, i, 1),
                product_cell(&self.a, &self.b, i, 2),
            ];
            c[i] = row;
            proof {
                assert forall|ii: int, jj: int| 0 <= ii < i + 1 && 0 <= jj < 3 implies c[ii][jj] == #[trigger] product_entry(self.a, self.b, ii, jj) by {
                    if ii == i {
                        assert(c[ii] == row);
                        if jj == 0 {} else if jj == 1 {} else {}
                    }
                }
            }
            i = i + 1;
        }
        c
    }

    /// The text shown for a calculator: both operands, each under a heading.
    pub fn to_string(&self) -> (s: String)
        ensures
            s@ == seq!['a', ' ', 'i', 's', '\n'] + matrix_text(self.a) + seq!['\n']
                + seq!['b', ' ', 'i', 's', '\n'] + matrix_text(self.b) + seq!['\n'],
    {
        proof {
            reveal_strlit("a is\n");
            reveal_strlit("b is\n");
            reveal_strlit("\n");
        }
        let mut s = String::new();
        push_text(&mut s, "a is\n");
        let pa = Self::get_print(self.a);
        push_text(&mut s, pa.as_str());
        push_text(&mut s, "\n");
        push_text(&mut s, "b is\n");
        let pb = Self::get_print(self.b);
        push_text(&mut s, pb.as_str());
        push_text(&mut s, "\n");
        s
    }
}

} // verus!
