//! Fixed-width text rendering of tableau snapshots.
//!
//! A snapshot is rendered as a table with columns `BV | x0 .. xk | RHS |
//! Ratio`: a header row, a dash separator, one row for the objective (basic
//! variable `Z`, ratio blank) and one row per constraint. Every cell is
//! sized to the widest value of its column, numbers right-aligned, names
//! left-aligned. The text is built as ASCII bytes; `WriteObserver` hands
//! each rendered snapshot to its writer.
use vstd::prelude::*;

use crate::rational::Rat;
use crate::tabular::{Problem, ProblemObserver, SimplexRow, Variable};

verus! {

/// The decimal digits of `n`, most significant first.
pub open spec fn spec_digits(n: nat) -> Seq<u8>
    decreases n,
{
    if n < 10 {
        seq![(48 + n) as u8]
    } else {
        spec_digits(n / 10) + seq![(48 + n % 10) as u8]
    }
}

/// The decimal form of a signed number: a minus sign, then digits.
pub open spec fn spec_signed(n: int) -> Seq<u8> {
    if n < 0 {
        seq![45u8] + spec_digits((-n) as nat)
    } else {
        spec_digits(n as nat)
    }
}

/// The text of one exact rational: the numerator, and the denominator after
/// a slash unless it is one.
pub open spec fn spec_rat_text(r: Rat) -> Seq<u8> {
    if r.den == 1 {
        spec_signed(r.num as int)
    } else {
        spec_signed(r.num as int) + seq![47u8] + spec_digits(r.den as nat)
    }
}

/// The name of a variable: `x` followed by its index.
pub open spec fn spec_variable_name(v: int) -> Seq<u8> {
    seq![120u8] + spec_digits(v as nat)
}

/// `k` spaces.
pub open spec fn spec_spaces(k: int) -> Seq<u8> {
    Seq::new(if k > 0 {
        k as nat
    } else {
        0
    }, |i: int| 32u8)
}

/// A left-aligned cell: `| `, the value, then padding to the column width
/// and one closing space.
pub open spec fn spec_left_cell(v: Seq<u8>, w: int) -> Seq<u8> {
    seq![124u8, 32u8] + v + spec_spaces(w - v.len()) + seq![32u8]
}

/// A right-aligned cell: `| `, padding to the column width, then the value
/// and one closing space.
pub open spec fn spec_right_cell(v: Seq<u8>, w: int) -> Seq<u8> {
    seq![124u8, 32u8] + spec_spaces(w - v.len()) + v + seq![32u8]
}

/// The decimal digits of `n`.
pub fn u64_digits(n: u64) -> (r: Vec<u8>)
    ensures
        r@ == spec_digits(n as nat),
    decreases n,
{
    if n < 10 {
        let mut v: Vec<u8> = Vec::new();
        v.push(48 + (n as u8));
        proof {
            assert(v@ =~= spec_digits(n as nat));
        }
        v
    } else {
        let mut v = u64_digits(n / 10);
        v.push(48 + ((n % 10) as u8));
        proof {
            assert(v@ =~= spec_digits(n as nat));
        }
        v
    }
}

/// The decimal form of a signed number.
pub fn i64_text(n: i64) -> (r: Vec<u8>)
    ensures
        r@ == spec_signed(n as int),
{
    if n < 0 {
        let mut v: Vec<u8> = Vec::new();
        v.push(45);
        let magnitude: u64 = (-(n as i128)) as u64;
        let mut digits = u64_digits(magnitude);
        let ghost dv = digits@;
        let m = digits.len();
        let mut i: usize = 0;
        while i < m
            invariant
                i <= m,
                m == dv.len(),
                digits@ == dv,
                v@ == seq![45u8] + dv.take(i as int),
            decreases m - i,
        {
            v.push(digits[i]);
            proof {
                assert(dv.take(i as int + 1) =~= dv.take(i as int) + seq![dv[i as int]]);
                assert(v@ =~= seq![45u8] + dv.take(i as int + 1));
            }
            i = i + 1;
        }
        proof {
            assert(dv.take(m as int) =~= dv);
            assert(v@ =~= spec_signed(n as int));
        }
        v
    } else {
        u64_digits(n as u64)
    }
}

/// The text of one value.
pub fn rat_text(r: &Rat) -> (out: Vec<u8>)
    requires
        r.wf(),
    ensures
        out@ == spec_rat_text(*r),
{
    let mut v = i64_text(r.num);
    if r.den != 1 {
        v.push(47);
        let mut den = u64_digits(r.den as u64);
        let ghost dv = den@;
        let ghost prefix = v@;
        let m = den.len();
        let mut i: usize = 0;
        while i < m
            invariant
                i <= m,
                m == dv.len(),
                den@ == dv,
                v@ == prefix + dv.take(i as int),
            decreases m - i,
        {
            v.push(den[i]);
            proof {
                assert(dv.take(i as int + 1) =~= dv.take(i as int) + seq![dv[i as int]]);
                assert(v@ =~= prefix + dv.take(i as int + 1));
            }
            i = i + 1;
        }
        proof {
            assert(dv.take(m as int) =~= dv);
            assert(v@ =~= spec_rat_text(*r));
        }
    }
    v
}

/// The name of a variable.
pub fn variable_name(var: Variable) -> (r: Vec<u8>)
    ensures
        r@ == spec_variable_name(var as int),
{
    let mut v: Vec<u8> = Vec::new();
    v.push(120);
    let mut digits = u64_digits(var as u64);
    let ghost dv = digits@;
    let m = digits.len();
    let mut i: usize = 0;
    while i < m
        invariant
            i <= m,
            m == dv.len(),
            digits@ == dv,
            v@ == seq![120u8] + dv.take(i as int),
        decreases m - i,
    {
        v.push(digits[i]);
        proof {
            assert(dv.take(i as int + 1) =~= dv.take(i as int) + seq![dv[i as int]]);
            assert(v@ =~= seq![120u8] + dv.take(i as int + 1));
        }
        i = i + 1;
    }
    proof {
        assert(dv.take(m as int) =~= dv);
        assert(v@ =~= spec_variable_name(var as int));
    }
    v
}

/// The texts of one rendered table row, before alignment.
pub struct RowStrings {
    pub bv: Vec<u8>,
    pub coefficients: Vec<Vec<u8>>,
    pub rhs: Vec<u8>,
    pub ratio: Vec<u8>,
}

/// The width of each rendered column.
pub struct ColumnWidths {
    pub bv: usize,
    pub vars: Vec<usize>,
    pub rhs: usize,
    pub ratio: usize,
}

/// The larger of two widths.
pub open spec fn max2(a: int, b: int) -> int {
    if a >= b {
        a
    } else {
        b
    }
}

/// The width of a column: the widest of the header and the given cell
/// widths.
pub open spec fn spec_field_width(header: int, lens: Seq<int>) -> int
    decreases lens.len(),
{
    if lens.len() == 0 {
        header
    } else {
        max2(spec_field_width(header, lens.drop_last()), lens.last())
    }
}

/// The widest of a header width and the widths of one field across rows.
pub fn max_field_width(header_len: usize, lens: &Vec<usize>) -> (r: usize)
    ensures
        r == spec_field_width(header_len as int, lens@.map_values(|u: usize| u as int)),
        r >= header_len,
{
    let ghost ls = lens@.map_values(|u: usize| u as int);
    let mut best = header_len;
    let m = lens.len();
    let mut i: usize = 0;
    while i < m
        invariant
            i <= m,
            m == lens@.len(),
            ls == lens@.map_values(|u: usize| u as int),
            best as int == spec_field_width(header_len as int, ls.take(i as int)),
            best >= header_len,
        decreases m - i,
    {
        proof {
            assert(ls.take(i as int + 1).drop_last() =~= ls.take(i as int));
            assert(ls.take(i as int + 1).last() == ls[i as int]);
        }
        if lens[i] > best {
            best = lens[i];
        }
        i = i + 1;
    }
    proof {
        assert(ls.take(m as int) =~= ls);
    }
    best
}

/// `k` spaces.
fn spaces(k: usize) -> (r: Vec<u8>)
    ensures
        r@ == spec_spaces(k as int),
{
    let mut v: Vec<u8> = Vec::new();
    let mut i: usize = 0;
    while i < k
        invariant
            i <= k,
            v@.len() == i,
            forall|t: int| 0 <= t < i ==> v@[t] == 32u8,
        decreases k - i,
    {
        v.push(32);
        i = i + 1;
    }
    proof {
        assert(v@ =~= spec_spaces(k as int));
    }
    v
}

/// Append `tail` to `out`.
fn append_bytes(out: &mut Vec<u8>, tail: &Vec<u8>)
    ensures
        final(out)@ == old(out)@ + tail@,
{
    let ghost prefix = out@;
    let ghost tv = tail@;
    let m = tail.len();
    let mut i: usize = 0;
    while i < m
        invariant
            i <= m,
            m == tail@.len(),
            tail@ == tv,
            out@ == prefix + tv.take(i as int),
        decreases m - i,
    {
        out.push(tail[i]);
        proof {
            assert(tv.take(i as int + 1) =~= tv.take(i as int) + seq![tv[i as int]]);
            assert(out@ =~= prefix + tv.take(i as int + 1));
        }
        i = i + 1;
    }
    proof {
        assert(tv.take(m as int) =~= tv);
    }
}

/// One left-aligned cell.
pub fn format_left_cell(value: &Vec<u8>, width: usize) -> (r: Vec<u8>)
    ensures
        r@ == spec_left_cell(value@, width as int),
{
    let mut v: Vec<u8> = Vec::new();
    v.push(124);
    v.push(32);
    append_bytes(&mut v, value);
    let pad = if width > value.len() {
        width - value.len()
    } else {
        0
    };
    let sp = spaces(pad);
    append_bytes(&mut v, &sp);
    v.push(32);
    proof {
        assert(spec_spaces(pad as int) =~= spec_spaces(width - value@.len()));
        assert(v@ =~= spec_left_cell(value@, width as int));
    }
    v
}

/// One right-aligned cell.
pub fn format_right_cell(value: &Vec<u8>, width: usize) -> (r: Vec<u8>)
    ensures
        r@ == spec_right_cell(value@, width as int),
{
    let mut v: Vec<u8> = Vec::new();
    v.push(124);
    v.push(32);
    let pad = if width > value.len() {
        width - value.len()
    } else {
        0
    };
    let sp = spaces(pad);
    append_bytes(&mut v, &sp);
    append_bytes(&mut v, value);
    v.push(32);
    proof {
        assert(spec_spaces(pad as int) =~= spec_spaces(width - value@.len()));
        assert(v@ =~= spec_right_cell(value@, width as int));
    }
    v
}

/// The right-aligned cells of the given values, in order.
pub open spec fn spec_cells_right(vals: Seq<Seq<u8>>, widths: Seq<int>) -> Seq<u8>
    decreases vals.len(),
{
    if vals.len() == 0 {
        Seq::empty()
    } else {
        spec_cells_right(vals.drop_last(), widths.drop_last()) + spec_right_cell(
            vals.last(),
            widths.last(),
        )
    }
}

/// One whole rendered row: the basic-variable cell, one cell per
/// coefficient, the constant, the ratio, and a closing bar.
pub open spec fn spec_row(row: RowStrings, w: ColumnWidths) -> Seq<u8> {
    spec_left_cell(row.bv@, w.bv as int) + spec_cells_right(
        row.coefficients@.map_values(|v: Vec<u8>| v@),
        w.vars@.map_values(|u: usize| u as int),
    ) + spec_right_cell(row.rhs@, w.rhs as int) + spec_right_cell(row.ratio@, w.ratio as int)
        + seq![124u8, 10u8]
}

/// Render one row against the column widths.
pub fn format_row(row_data: &RowStrings, widths: &ColumnWidths) -> (r: Vec<u8>)
    requires
        row_data.coefficients@.len() == widths.vars@.len(),
    ensures
        r@ == spec_row(*row_data, *widths),
{
    let ghost vals = row_data.coefficients@.map_values(|v: Vec<u8>| v@);
    let ghost ws = widths.vars@.map_values(|u: usize| u as int);
    let mut out = format_left_cell(&row_data.bv, widths.bv);
    let ghost head = out@;
    let m = row_data.coefficients.len();
    let mut i: usize = 0;
    while i < m
        invariant
            i <= m,
            m == row_data.coefficients@.len(),
            m == widths.vars@.len(),
            vals == row_data.coefficients@.map_values(|v: Vec<u8>| v@),
            ws == widths.vars@.map_values(|u: usize| u as int),
            head == spec_left_cell(row_data.bv@, widths.bv as int),
            out@ == head + spec_cells_right(vals.take(i as int), ws.take(i as int)),
        decreases m - i,
    {
        proof {
            assert(vals.take(i as int + 1).drop_last() =~= vals.take(i as int));
            assert(ws.take(i as int + 1).drop_last() =~= ws.take(i as int));
            assert(vals.take(i as int + 1).last() == vals[i as int]);
            assert(ws.take(i as int + 1).last() == ws[i as int]);
        }
        let cell = format_right_cell(&row_data.coefficients[i], widths.vars[i]);
        append_bytes(&mut out, &cell);
        i = i + 1;
    }
    proof {
        assert(vals.take(m as int) =~= vals);
        assert(ws.take(m as int) =~= ws);
    }
    let rhs_cell = format_right_cell(&row_data.rhs, widths.rhs);
    append_bytes(&mut out, &rhs_cell);
    let ratio_cell = format_right_cell(&row_data.ratio, widths.ratio);
    append_bytes(&mut out, &ratio_cell);
    out.push(124);
    out.push(10);
    proof {
        assert(out@ =~= spec_row(*row_data, *widths));
    }
    out
}


/// The cell texts of a sequence of values.
pub open spec fn spec_coeff_texts(coeffs: Seq<Rat>) -> Seq<Seq<u8>> {
    coeffs.map_values(|r: Rat| spec_rat_text(r))
}

/// The texts of all coefficient cells of one tableau value.
pub fn stringify_coefficients(coefficients: &Vec<Rat>) -> (r: Vec<Vec<u8>>)
    requires
        forall|i: int| 0 <= i < coefficients@.len() ==> (#[trigger] coefficients@[i]).wf(),
    ensures
        r@.map_values(|v: Vec<u8>| v@) == spec_coeff_texts(coefficients@),
        r@.len() == coefficients@.len(),
{
    let m = coefficients.len();
    let mut out: Vec<Vec<u8>> = Vec::new();
    let mut i: usize = 0;
    while i < m
        invariant
            i <= m,
            m == coefficients@.len(),
            forall|t: int| 0 <= t < m ==> (#[trigger] coefficients@[t]).wf(),
            out@.len() == i,
            forall|t: int| 0 <= t < i ==> (#[trigger] out@[t])@ == spec_rat_text(coefficients@[t]),
        decreases m - i,
    {
        let cell = rat_text(&coefficients[i]);
        out.push(cell);
        i = i + 1;
    }
    proof {
        assert(out@.map_values(|v: Vec<u8>| v@) =~= spec_coeff_texts(coefficients@));
    }
    out
}

/// The texts of the objective row: basic variable `Z`, the coefficient and
/// constant texts, and a blank ratio.
pub fn stringify_objective(problem: &Problem) -> (r: RowStrings)
    requires
        crate::model::eq_wf(problem@.objective),
    ensures
        r.bv@ == seq![90u8],
        r.coefficients@.map_values(|v: Vec<u8>| v@) == spec_coeff_texts(
            problem.objective_equation.coefficients@,
        ),
        r.coefficients@.len() == problem.objective_equation.coefficients@.len(),
        r.rhs@ == spec_rat_text(problem.objective_equation.constraint),
        r.ratio@ == Seq::<u8>::empty(),
{
    let mut bv: Vec<u8> = Vec::new();
    bv.push(90);
    proof {
        assert(bv@ =~= seq![90u8]);
        assert forall|i: int| 0 <= i < problem.objective_equation.coefficients@.len() implies (
        #[trigger] problem.objective_equation.coefficients@[i]).wf() by {
            assert(problem@.objective.coeffs[i]
                == problem.objective_equation.coefficients@[i].q());
        }
    }
    let coefficients = stringify_coefficients(&problem.objective_equation.coefficients);
    let rhs = rat_text(&problem.objective_equation.constraint);
    let ratio: Vec<u8> = Vec::new();
    proof {
        assert(ratio@ =~= Seq::<u8>::empty());
    }
    RowStrings { bv, coefficients, rhs, ratio }
}

/// The texts of one constraint row: the basic variable's name, the
/// coefficient, constant and ratio texts.
pub fn stringify_constraint(simplex_row: &SimplexRow) -> (r: RowStrings)
    requires
        crate::model::eq_wf(simplex_row@.eq),
        simplex_row.ratio.wf(),
    ensures
        r.bv@ == spec_variable_name(simplex_row.basic_variable as int),
        r.coefficients@.map_values(|v: Vec<u8>| v@) == spec_coeff_texts(
            simplex_row.equation.coefficients@,
        ),
        r.coefficients@.len() == simplex_row.equation.coefficients@.len(),
        r.rhs@ == spec_rat_text(simplex_row.equation.constraint),
        r.ratio@ == spec_rat_text(simplex_row.ratio),
{
    proof {
        assert forall|i: int| 0 <= i < simplex_row.equation.coefficients@.len() implies (
        #[trigger] simplex_row.equation.coefficients@[i]).wf() by {
            assert(simplex_row@.eq.coeffs[i] == simplex_row.equation.coefficients@[i].q());
        }
    }
    RowStrings {
        bv: variable_name(simplex_row.basic_variable),
        coefficients: stringify_coefficients(&simplex_row.equation.coefficients),
        rhs: rat_text(&simplex_row.equation.constraint),
        ratio: rat_text(&simplex_row.ratio),
    }
}

/// The width of the basic-variable column: the widest of the header `BV`
/// and every row's name.
pub fn bv_width(objective_row: &RowStrings, constraint_rows: &Vec<RowStrings>) -> (r: usize)
    ensures
        r as int == spec_field_width(
            2,
            seq![objective_row.bv@.len() as int] + constraint_rows@.map_values(
                |x: RowStrings| x.bv@.len() as int,
            ),
        ),
{
    let ghost all = seq![objective_row.bv@.len() as int] + constraint_rows@.map_values(
        |x: RowStrings| x.bv@.len() as int,
    );
    let mut lens: Vec<usize> = Vec::new();
    lens.push(objective_row.bv.len());
    let m = constraint_rows.len();
    let mut j: usize = 0;
    while j < m
        invariant
            j <= m,
            m == constraint_rows@.len(),
            all == seq![objective_row.bv@.len() as int] + constraint_rows@.map_values(
                |x: RowStrings| x.bv@.len() as int,
            ),
            lens@.len() == j + 1,
            forall|t: int| 0 <= t < j + 1 ==> #[trigger] lens@[t] as int == all[t],
        decreases m - j,
    {
        lens.push(constraint_rows[j].bv.len());
        j = j + 1;
    }
    proof {
        assert(lens@.map_values(|u: usize| u as int) =~= all);
    }
    max_field_width(2, &lens)
}

/// The width of the right-hand-side column: the widest of the header `RHS`
/// and every row's constant text.
pub fn rhs_width(objective_row: &RowStrings, constraint_rows: &Vec<RowStrings>) -> (r: usize)
    ensures
        r as int == spec_field_width(
            3,
            seq![objective_row.rhs@.len() as int] + constraint_rows@.map_values(
                |x: RowStrings| x.rhs@.len() as int,
            ),
        ),
{
    let ghost all = seq![objective_row.rhs@.len() as int] + constraint_rows@.map_values(
        |x: RowStrings| x.rhs@.len() as int,
    );
    let mut lens: Vec<usize> = Vec::new();
    lens.push(objective_row.rhs.len());
    let m = constraint_rows.len();
    let mut j: usize = 0;
    while j < m
        invariant
            j <= m,
            m == constraint_rows@.len(),
            all == seq![objective_row.rhs@.len() as int] + constraint_rows@.map_values(
                |x: RowStrings| x.rhs@.len() as int,
            ),
            lens@.len() == j + 1,
            forall|t: int| 0 <= t < j + 1 ==> #[trigger] lens@[t] as int == all[t],
        decreases m - j,
    {
        lens.push(constraint_rows[j].rhs.len());
        j = j + 1;
    }
    proof {
        assert(lens@.map_values(|u: usize| u as int) =~= all);
    }
    max_field_width(3, &lens)
}

/// The width of the ratio column: the widest of the header `Ratio` and
/// every row's ratio text.
pub fn ratio_width(objective_row: &RowStrings, constraint_rows: &Vec<RowStrings>) -> (r: usize)
    ensures
        r as int == spec_field_width(
            5,
            seq![objective_row.ratio@.len() as int] + constraint_rows@.map_values(
                |x: RowStrings| x.ratio@.len() as int,
            ),
        ),
{
    let ghost all = seq![objective_row.ratio@.len() as int] + constraint_rows@.map_values(
        |x: RowStrings| x.ratio@.len() as int,
    );
    let mut lens: Vec<usize> = Vec::new();
    lens.push(objective_row.ratio.len());
    let m = constraint_rows.len();
    let mut j: usize = 0;
    while j < m
        invariant
            j <= m,
            m == constraint_rows@.len(),
            all == seq![objective_row.ratio@.len() as int] + constraint_rows@.map_values(
                |x: RowStrings| x.ratio@.len() as int,
            ),
            lens@.len() == j + 1,
            forall|t: int| 0 <= t < j + 1 ==> #[trigger] lens@[t] as int == all[t],
        decreases m - j,
    {
        lens.push(constraint_rows[j].ratio.len());
        j = j + 1;
    }
    proof {
        assert(lens@.map_values(|u: usize| u as int) =~= all);
    }
    max_field_width(5, &lens)
}

/// The width of each variable column `i`: the widest of the name `x<i>` and
/// every row's coefficient text at `i`.
pub open spec fn spec_var_width(
    obj: RowStrings,
    rows: Seq<RowStrings>,
    i: int,
) -> int {
    spec_field_width(
        spec_variable_name(i).len() as int,
        seq![obj.coefficients@.map_values(|v: Vec<u8>| v@)[i].len() as int] + rows.map_values(
            |x: RowStrings| x.coefficients@.map_values(|v: Vec<u8>| v@)[i].len() as int,
        ),
    )
}

pub fn var_widths(
    objective_row: &RowStrings,
    constraint_rows: &Vec<RowStrings>,
    num_vars: usize,
) -> (r: Vec<usize>)
    requires
        objective_row.coefficients@.len() == num_vars,
        forall|j: int|
            0 <= j < constraint_rows@.len() ==> (#[trigger] constraint_rows@[j]).coefficients@.len()
                == num_vars,
    ensures
        r@.len() == num_vars,
        forall|i: int|
            0 <= i < num_vars ==> #[trigger] r@[i] as int == spec_var_width(
                *objective_row,
                constraint_rows@,
                i,
            ),
{
    let mut out: Vec<usize> = Vec::new();
    let mut i: usize = 0;
    while i < num_vars
        invariant
            i <= num_vars,
            objective_row.coefficients@.len() == num_vars,
            forall|j: int|
                0 <= j < constraint_rows@.len() ==> (
                #[trigger] constraint_rows@[j]).coefficients@.len() == num_vars,
            out@.len() == i,
            forall|t: int|
                0 <= t < i ==> #[trigger] out@[t] as int == spec_var_width(
                    *objective_row,
                    constraint_rows@,
                    t,
                ),
        decreases num_vars - i,
    {
        let name = variable_name(i);
        let ghost all = seq![objective_row.coefficients@.map_values(|v: Vec<u8>| v@)[i as int].len() as int]
            + constraint_rows@.map_values(
            |x: RowStrings| x.coefficients@.map_values(|v: Vec<u8>| v@)[i as int].len() as int,
        );
        let mut lens: Vec<usize> = Vec::new();
        lens.push(objective_row.coefficients[i].len());
        let m = constraint_rows.len();
        let mut j: usize = 0;
        while j < m
            invariant
                j <= m,
                i < num_vars,
                m == constraint_rows@.len(),
                objective_row.coefficients@.len() == num_vars,
                forall|t: int|
                    0 <= t < constraint_rows@.len() ==> (
                    #[trigger] constraint_rows@[t]).coefficients@.len() == num_vars,
                all == seq![objective_row.coefficients@.map_values(|v: Vec<u8>| v@)[i as int].len() as int]
                    + constraint_rows@.map_values(
                    |x: RowStrings| x.coefficients@.map_values(|v: Vec<u8>| v@)[i as int].len() as int,
                ),
                lens@.len() == j + 1,
                forall|t: int| 0 <= t < j + 1 ==> #[trigger] lens@[t] as int == all[t],
            decreases m - j,
        {
            lens.push(constraint_rows[j].coefficients[i].len());
            proof {
                assert(constraint_rows@.map_values(
                    |x: RowStrings| x.coefficients@.map_values(|v: Vec<u8>| v@)[i as int].len() as int,
                )[j as int] == constraint_rows@[j as int].coefficients@.map_values(
                    |v: Vec<u8>| v@,
                )[i as int].len() as int);
            }
            j = j + 1;
        }
        proof {
            assert(lens@.map_values(|u: usize| u as int) =~= all);
        }
        let w = max_field_width(name.len(), &lens);
        out.push(w);
        i = i + 1;
    }
    out
}

/// All column widths of one snapshot.
pub fn column_widths(objective_row: &RowStrings, constraint_rows: &Vec<RowStrings>) -> (r:
    ColumnWidths)
    requires
        forall|j: int|
            0 <= j < constraint_rows@.len() ==> (#[trigger] constraint_rows@[j]).coefficients@.len()
                == objective_row.coefficients@.len(),
    ensures
        r.bv as int == spec_field_width(
            2,
            seq![objective_row.bv@.len() as int] + constraint_rows@.map_values(
                |x: RowStrings| x.bv@.len() as int,
            ),
        ),
        r.vars@.len() == objective_row.coefficients@.len(),
        forall|i: int|
            0 <= i < r.vars@.len() ==> #[trigger] r.vars@[i] as int == spec_var_width(
                *objective_row,
                constraint_rows@,
                i,
            ),
        r.rhs as int == spec_field_width(
            3,
            seq![objective_row.rhs@.len() as int] + constraint_rows@.map_values(
                |x: RowStrings| x.rhs@.len() as int,
            ),
        ),
        r.ratio as int == spec_field_width(
            5,
            seq![objective_row.ratio@.len() as int] + constraint_rows@.map_values(
                |x: RowStrings| x.ratio@.len() as int,
            ),
        ),
{
    let num_vars = objective_row.coefficients.len();
    ColumnWidths {
        bv: bv_width(objective_row, constraint_rows),
        vars: var_widths(objective_row, constraint_rows, num_vars),
        rhs: rhs_width(objective_row, constraint_rows),
        ratio: ratio_width(objective_row, constraint_rows),
    }
}

/// The header row: `BV`, each variable's name, `RHS` and `Ratio`, rendered
/// against the column widths.
pub fn format_header(widths: &ColumnWidths) -> (r: Vec<u8>)
    ensures
        r@ == spec_left_cell(seq![66u8, 86u8], widths.bv as int) + spec_cells_right(
            Seq::new(widths.vars@.len(), |i: int| spec_variable_name(i)),
            widths.vars@.map_values(|u: usize| u as int),
        ) + spec_right_cell(seq![82u8, 72u8, 83u8], widths.rhs as int) + spec_right_cell(
            seq![82u8, 97u8, 116u8, 105u8, 111u8],
            widths.ratio as int,
        ) + seq![124u8, 10u8],
{
    let mut bv: Vec<u8> = Vec::new();
    bv.push(66);
    bv.push(86);
    let mut rhs: Vec<u8> = Vec::new();
    rhs.push(82);
    rhs.push(72);
    rhs.push(83);
    let mut ratio: Vec<u8> = Vec::new();
    ratio.push(82);
    ratio.push(97);
    ratio.push(116);
    ratio.push(105);
    ratio.push(111);
    let n = widths.vars.len();
    let mut coefficients: Vec<Vec<u8>> = Vec::new();
    let mut i: usize = 0;
    while i < n
        invariant
            i <= n,
            n == widths.vars@.len(),
            coefficients@.len() == i,
            forall|t: int|
                0 <= t < i ==> (#[trigger] coefficients@[t])@ == spec_variable_name(t),
        decreases n - i,
    {
        coefficients.push(variable_name(i));
        i = i + 1;
    }
    let header_row = RowStrings { bv, coefficients, rhs, ratio };
    let r = format_row(&header_row, widths);
    proof {
        assert(bv@ =~= seq![66u8, 86u8]);
        assert(rhs@ =~= seq![82u8, 72u8, 83u8]);
        assert(ratio@ =~= seq![82u8, 97u8, 116u8, 105u8, 111u8]);
        assert(header_row.coefficients@.map_values(|v: Vec<u8>| v@) =~= Seq::new(
            widths.vars@.len(),
            |i: int| spec_variable_name(i),
        ));
    }
    r
}

/// The dashes of the separator under one column of width `w`: a bar and
/// `w + 2` dashes.
pub open spec fn spec_sep_cell(w: int) -> Seq<u8> {
    seq![124u8] + Seq::new((w + 2) as nat, |i: int| 45u8)
}

/// The separator cells of all the given widths, in order.
pub open spec fn spec_sep_cells(ws: Seq<int>) -> Seq<u8>
    decreases ws.len(),
{
    if ws.len() == 0 {
        Seq::empty()
    } else {
        spec_sep_cells(ws.drop_last()) + spec_sep_cell(ws.last())
    }
}

/// All widths in rendering order: the name column, the variable columns,
/// the constant and the ratio columns.
pub open spec fn spec_all_widths(w: ColumnWidths) -> Seq<int> {
    seq![w.bv as int] + w.vars@.map_values(|u: usize| u as int) + seq![w.rhs as int, w.ratio as int]
}

pub fn all_widths(widths: &ColumnWidths) -> (r: Vec<usize>)
    ensures
        r@.map_values(|u: usize| u as int) == spec_all_widths(*widths),
{
    let mut all: Vec<usize> = Vec::new();
    all.push(widths.bv);
    let n = widths.vars.len();
    let mut i: usize = 0;
    while i < n
        invariant
            i <= n,
            n == widths.vars@.len(),
            all@.len() == i + 1,
            all@[0] == widths.bv,
            forall|t: int| 1 <= t < i + 1 ==> #[trigger] all@[t] == widths.vars@[t - 1],
        decreases n - i,
    {
        all.push(widths.vars[i]);
        i = i + 1;
    }
    all.push(widths.rhs);
    all.push(widths.ratio);
    proof {
        assert(all@.map_values(|u: usize| u as int) =~= spec_all_widths(*widths));
    }
    all
}

/// The dashed separator cell of one column.
fn sep_cell(w: usize) -> (r: Vec<u8>)
    ensures
        r@ == spec_sep_cell(w as int),
{
    let mut v: Vec<u8> = Vec::new();
    v.push(124);
    let mut k: usize = 0;
    while k < w
        invariant
            k <= w,
            v@.len() == 1 + k,
            v@[0] == 124u8,
            forall|t: int| 1 <= t < v@.len() ==> #[trigger] v@[t] == 45u8,
        decreases w - k,
    {
        v.push(45);
        k = k + 1;
    }
    v.push(45);
    v.push(45);
    proof {
        assert(v@ =~= spec_sep_cell(w as int));
    }
    v
}

/// The separator line: one dashed cell per column, a closing bar, and a
/// newline.
pub fn format_separator(widths: &ColumnWidths) -> (r: Vec<u8>)
    ensures
        r@ == spec_sep_cells(spec_all_widths(*widths)) + seq![124u8, 10u8],
{
    let all = all_widths(widths);
    let ghost ws = all@.map_values(|u: usize| u as int);
    let mut out: Vec<u8> = Vec::new();
    let m = all.len();
    let mut i: usize = 0;
    while i < m
        invariant
            i <= m,
            m == all@.len(),
            ws == all@.map_values(|u: usize| u as int),
            ws == spec_all_widths(*widths),
            out@ == spec_sep_cells(ws.take(i as int)),
        decreases m - i,
    {
        proof {
            assert(ws.take(i as int + 1).drop_last() =~= ws.take(i as int));
            assert(ws.take(i as int + 1).last() == ws[i as int]);
        }
        let cell = sep_cell(all[i]);
        append_bytes(&mut out, &cell);
        proof {
            assert(all@[i as int] as int == ws[i as int]);
            assert(out@ =~= spec_sep_cells(ws.take(i as int + 1)));
        }
        i = i + 1;
    }
    proof {
        assert(ws.take(m as int) =~= ws);
    }
    out.push(124);
    out.push(10);
    proof {
        assert(out@ =~= spec_sep_cells(spec_all_widths(*widths)) + seq![124u8, 10u8]);
    }
    out
}


/// The four cell texts of one rendered table row.
#[verifier::ext_equal]
pub struct QRowTexts {
    pub bv: Seq<u8>,
    pub coefficients: Seq<Seq<u8>>,
    pub rhs: Seq<u8>,
    pub ratio: Seq<u8>,
}

/// The rendered column widths, as mathematical integers.
#[verifier::ext_equal]
pub struct QWidths {
    pub bv: int,
    pub vars: Seq<int>,
    pub rhs: int,
    pub ratio: int,
}

/// The texts held by an executable `RowStrings`.
pub open spec fn texts_of(r: RowStrings) -> QRowTexts {
    QRowTexts {
        bv: r.bv@,
        coefficients: r.coefficients@.map_values(|v: Vec<u8>| v@),
        rhs: r.rhs@,
        ratio: r.ratio@,
    }
}

/// The texts of the objective row of a tableau: `Z`, its coefficient and
/// constant texts, and a blank ratio.
pub open spec fn spec_objective_texts(p: Problem) -> QRowTexts {
    QRowTexts {
        bv: seq![90u8],
        coefficients: spec_coeff_texts(p.objective_equation.coefficients@),
        rhs: spec_rat_text(p.objective_equation.constraint),
        ratio: Seq::empty(),
    }
}

/// The texts of one constraint row of a tableau.
pub open spec fn spec_constraint_texts(row: SimplexRow) -> QRowTexts {
    QRowTexts {
        bv: spec_variable_name(row.basic_variable as int),
        coefficients: spec_coeff_texts(row.equation.coefficients@),
        rhs: spec_rat_text(row.equation.constraint),
        ratio: spec_rat_text(row.ratio),
    }
}

/// The widths of all columns over the given row texts: each column as wide
/// as the widest of its header and its cells.
pub open spec fn spec_widths(obj: QRowTexts, rows: Seq<QRowTexts>) -> QWidths {
    QWidths {
        bv: spec_field_width(
            2,
            seq![obj.bv.len() as int] + rows.map_values(|x: QRowTexts| x.bv.len() as int),
        ),
        vars: Seq::new(
            obj.coefficients.len(),
            |i: int|
                spec_field_width(
                    spec_variable_name(i).len() as int,
                    seq![obj.coefficients[i].len() as int] + rows.map_values(
                        |x: QRowTexts| x.coefficients[i].len() as int,
                    ),
                ),
        ),
        rhs: spec_field_width(
            3,
            seq![obj.rhs.len() as int] + rows.map_values(|x: QRowTexts| x.rhs.len() as int),
        ),
        ratio: spec_field_width(
            5,
            seq![obj.ratio.len() as int] + rows.map_values(|x: QRowTexts| x.ratio.len() as int),
        ),
    }
}

/// One rendered line: the name cell, one cell per coefficient, the
/// constant, the ratio, a closing bar and a newline.
pub open spec fn spec_row_line(t: QRowTexts, w: QWidths) -> Seq<u8> {
    spec_left_cell(t.bv, w.bv) + spec_cells_right(t.coefficients, w.vars) + spec_right_cell(
        t.rhs,
        w.rhs,
    ) + spec_right_cell(t.ratio, w.ratio) + seq![124u8, 10u8]
}

/// The header line: `BV`, the variable names, `RHS` and `Ratio`.
pub open spec fn spec_header_line(w: QWidths) -> Seq<u8> {
    spec_left_cell(seq![66u8, 86u8], w.bv) + spec_cells_right(
        Seq::new(w.vars.len(), |i: int| spec_variable_name(i)),
        w.vars,
    ) + spec_right_cell(seq![82u8, 72u8, 83u8], w.rhs) + spec_right_cell(
        seq![82u8, 97u8, 116u8, 105u8, 111u8],
        w.ratio,
    ) + seq![124u8, 10u8]
}

/// The separator line under the header.
pub open spec fn spec_separator_line(w: QWidths) -> Seq<u8> {
    spec_sep_cells(seq![w.bv] + w.vars + seq![w.rhs, w.ratio]) + seq![124u8, 10u8]
}

/// The rendered lines of the given rows, in order.
pub open spec fn spec_row_lines(rows: Seq<QRowTexts>, w: QWidths) -> Seq<u8>
    decreases rows.len(),
{
    if rows.len() == 0 {
        Seq::empty()
    } else {
        spec_row_lines(rows.drop_last(), w) + spec_row_line(rows.last(), w)
    }
}

/// The whole rendered snapshot of a tableau: the header, the separator,
/// the objective line, then one line per constraint row, each laid out
/// against the widths of this snapshot's own texts.
pub open spec fn spec_rendered(p: Problem) -> Seq<u8> {
    let obj = spec_objective_texts(p);
    let rows = p.rows@.map_values(|r: SimplexRow| spec_constraint_texts(r));
    let w = spec_widths(obj, rows);
    spec_header_line(w) + spec_separator_line(w) + spec_row_line(obj, w) + spec_row_lines(rows, w)
}

/// One whole rendered snapshot: header, separator, the objective row, then
/// one line per constraint row.
pub fn render_problem(problem: &Problem) -> (r: Vec<u8>)
    requires
        render_ready(problem),
    ensures
        r@ == spec_rendered(*problem),
        r@.len() > 0,
{
    let ghost obj_t = spec_objective_texts(*problem);
    let ghost rows_t = problem.rows@.map_values(|r: SimplexRow| spec_constraint_texts(r));
    let objective_row = stringify_objective(problem);
    proof {
        assert(texts_of(objective_row) =~~= obj_t);
    }
    let m = problem.rows.len();
    let mut constraint_rows: Vec<RowStrings> = Vec::new();
    let mut j: usize = 0;
    while j < m
        invariant
            j <= m,
            m == problem.rows@.len(),
            render_ready(problem),
            rows_t == problem.rows@.map_values(|r: SimplexRow| spec_constraint_texts(r)),
            constraint_rows@.len() == j,
            forall|t: int|
                0 <= t < j ==> texts_of(#[trigger] constraint_rows@[t]) == rows_t[t],
            forall|t: int|
                0 <= t < j ==> (#[trigger] constraint_rows@[t]).coefficients@.len()
                    == problem.rows@[t].equation.coefficients@.len(),
            objective_row.coefficients@.len()
                == problem.objective_equation.coefficients@.len(),
            texts_of(objective_row) == obj_t,
        decreases m - j,
    {
        proof {
            assert(problem@.rows[j as int] == problem.rows@[j as int]@);
        }
        let row = stringify_constraint(&problem.rows[j]);
        proof {
            assert(texts_of(row) =~~= spec_constraint_texts(problem.rows@[j as int]));
            assert(rows_t[j as int] == spec_constraint_texts(problem.rows@[j as int]));
        }
        constraint_rows.push(row);
        j = j + 1;
    }
    proof {
        assert forall|t: int| 0 <= t < constraint_rows@.len() implies (
        #[trigger] constraint_rows@[t]).coefficients@.len()
            == objective_row.coefficients@.len() by {
            assert(problem@.rows[t] == problem.rows@[t]@);
            assert(problem@.rows[t].eq.coeffs.len() == problem@.objective.coeffs.len());
        }
    }
    let widths = column_widths(&objective_row, &constraint_rows);
    let ghost w_spec = spec_widths(obj_t, rows_t);
    proof {
        lemma_widths_bridge(objective_row, constraint_rows@, obj_t, rows_t, widths, w_spec);
    }
    let mut out = format_header(&widths);
    proof {
        assert(Seq::new(widths.vars@.len(), |i: int| spec_variable_name(i)) =~= Seq::new(
            w_spec.vars.len(),
            |i: int| spec_variable_name(i),
        ));
        assert(out@ == spec_header_line(w_spec));
        assert(out@.len() > 0) by {
            assert(spec_left_cell(seq![66u8, 86u8], w_spec.bv).len() > 0);
        }
    }
    let sep = format_separator(&widths);
    proof {
        assert(spec_all_widths(widths) =~= seq![w_spec.bv] + w_spec.vars + seq![
            w_spec.rhs,
            w_spec.ratio,
        ]);
        assert(sep@ == spec_separator_line(w_spec));
    }
    append_bytes_pub(&mut out, &sep);
    let obj_line = format_row(&objective_row, &widths);
    proof {
        assert(obj_line@ == spec_row_line(obj_t, w_spec));
    }
    append_bytes_pub(&mut out, &obj_line);
    let ghost head = out@;
    let k = constraint_rows.len();
    let mut t: usize = 0;
    while t < k
        invariant
            t <= k,
            k == constraint_rows@.len(),
            k == rows_t.len(),
            widths.vars@.len() == objective_row.coefficients@.len(),
            widths.vars@.map_values(|u: usize| u as int) == w_spec.vars,
            widths.bv as int == w_spec.bv,
            widths.rhs as int == w_spec.rhs,
            widths.ratio as int == w_spec.ratio,
            forall|u: int|
                0 <= u < k ==> (#[trigger] constraint_rows@[u]).coefficients@.len()
                    == objective_row.coefficients@.len(),
            forall|u: int|
                0 <= u < k ==> texts_of(#[trigger] constraint_rows@[u]) == rows_t[u],
            head.len() > 0,
            out@ == head + spec_row_lines(rows_t.take(t as int), w_spec),
        decreases k - t,
    {
        proof {
            assert(rows_t.take(t as int + 1).drop_last() =~= rows_t.take(t as int));
            assert(rows_t.take(t as int + 1).last() == rows_t[t as int]);
        }
        let line = format_row(&constraint_rows[t], &widths);
        proof {
            assert(texts_of(constraint_rows@[t as int]) == rows_t[t as int]);
            assert(line@ == spec_row_line(rows_t[t as int], w_spec));
        }
        append_bytes_pub(&mut out, &line);
        t = t + 1;
    }
    proof {
        assert(rows_t.take(k as int) =~= rows_t);
        assert(out@ == spec_rendered(*problem));
    }
    out
}

/// The executable widths of a snapshot agree with the widths of its spec
/// texts.
proof fn lemma_widths_bridge(
    objective_row: RowStrings,
    constraint_rows: Seq<RowStrings>,
    obj_t: QRowTexts,
    rows_t: Seq<QRowTexts>,
    widths: ColumnWidths,
    w_spec: QWidths,
)
    requires
        texts_of(objective_row) == obj_t,
        constraint_rows.len() == rows_t.len(),
        forall|t: int| 0 <= t < constraint_rows.len() ==> texts_of(#[trigger] constraint_rows[t]) == rows_t[t],
        forall|t: int|
            0 <= t < constraint_rows.len() ==> (#[trigger] constraint_rows[t]).coefficients@.len()
                == objective_row.coefficients@.len(),
        w_spec == spec_widths(obj_t, rows_t),
        widths.bv as int == spec_field_width(
            2,
            seq![objective_row.bv@.len() as int] + constraint_rows.map_values(
                |x: RowStrings| x.bv@.len() as int,
            ),
        ),
        widths.vars@.len() == objective_row.coefficients@.len(),
        forall|i: int|
            0 <= i < widths.vars@.len() ==> #[trigger] widths.vars@[i] as int == spec_var_width(
                objective_row,
                constraint_rows,
                i,
            ),
        widths.rhs as int == spec_field_width(
            3,
            seq![objective_row.rhs@.len() as int] + constraint_rows.map_values(
                |x: RowStrings| x.rhs@.len() as int,
            ),
        ),
        widths.ratio as int == spec_field_width(
            5,
            seq![objective_row.ratio@.len() as int] + constraint_rows.map_values(
                |x: RowStrings| x.ratio@.len() as int,
            ),
        ),
    ensures
        widths.bv as int == w_spec.bv,
        widths.vars@.map_values(|u: usize| u as int) == w_spec.vars,
        widths.rhs as int == w_spec.rhs,
        widths.ratio as int == w_spec.ratio,
{
    assert(seq![objective_row.bv@.len() as int] + constraint_rows.map_values(
        |x: RowStrings| x.bv@.len() as int,
    ) =~= seq![obj_t.bv.len() as int] + rows_t.map_values(|x: QRowTexts| x.bv.len() as int));
    assert(seq![objective_row.rhs@.len() as int] + constraint_rows.map_values(
        |x: RowStrings| x.rhs@.len() as int,
    ) =~= seq![obj_t.rhs.len() as int] + rows_t.map_values(|x: QRowTexts| x.rhs.len() as int));
    assert(seq![objective_row.ratio@.len() as int] + constraint_rows.map_values(
        |x: RowStrings| x.ratio@.len() as int,
    ) =~= seq![obj_t.ratio.len() as int] + rows_t.map_values(|x: QRowTexts| x.ratio.len() as int));
    assert forall|i: int| 0 <= i < widths.vars@.len() implies #[trigger] widths.vars@[i] as int
        == w_spec.vars[i] by {
        assert(seq![objective_row.coefficients@.map_values(|v: Vec<u8>| v@)[i].len() as int]
            + constraint_rows.map_values(
            |x: RowStrings| x.coefficients@.map_values(|v: Vec<u8>| v@)[i].len() as int,
        ) =~= seq![obj_t.coefficients[i].len() as int] + rows_t.map_values(
            |x: QRowTexts| x.coefficients[i].len() as int,
        ));
    }
    assert(widths.vars@.map_values(|u: usize| u as int) =~= w_spec.vars);
}

/// What the renderer needs of a snapshot: every value has a positive
/// denominator and every row has the objective row's width. The point and
/// the basic variables need no constraint: the renderer only names them.
pub open spec fn render_ready(problem: &Problem) -> bool {
    &&& crate::model::eq_wf(problem@.objective)
    &&& forall|j: int|
        0 <= j < problem@.rows.len() ==> crate::model::eq_wf((#[trigger] problem@.rows[j]).eq)
            && crate::rational::q_wf(problem@.rows[j].ratio) && problem@.rows[j].eq.coeffs.len()
            == problem@.objective.coeffs.len()
}

/// Check at run time that a snapshot can be rendered.
pub fn render_check(problem: &Problem) -> (r: bool)
    ensures
        r == render_ready(problem),
{
    let width = problem.objective_equation.coefficients.len();
    if problem.objective_equation.constraint.den <= 0 {
        proof {
            assert(!crate::rational::q_wf(problem@.objective.constant));
        }
        return false;
    }
    let mut i: usize = 0;
    while i < width
        invariant
            i <= width,
            width == problem.objective_equation.coefficients@.len(),
            forall|t: int|
                0 <= t < i ==> crate::rational::q_wf(#[trigger] problem@.objective.coeffs[t]),
        decreases width - i,
    {
        proof {
            assert(problem@.objective.coeffs[i as int]
                == problem.objective_equation.coefficients@[i as int].q());
        }
        if problem.objective_equation.coefficients[i].den <= 0 {
            proof {
                assert(!crate::rational::q_wf(problem@.objective.coeffs[i as int]));
            }
            return false;
        }
        i = i + 1;
    }
    let m = problem.rows.len();
    let mut j: usize = 0;
    while j < m
        invariant
            j <= m,
            m == problem.rows@.len(),
            width == problem.objective_equation.coefficients@.len(),
            forall|t: int|
                0 <= t < j ==> crate::model::eq_wf((#[trigger] problem@.rows[t]).eq)
                    && crate::rational::q_wf(problem@.rows[t].ratio)
                    && problem@.rows[t].eq.coeffs.len() == width,
        decreases m - j,
    {
        proof {
            assert(problem@.rows[j as int] == problem.rows@[j as int]@);
        }
        let row = &problem.rows[j];
        if row.equation.coefficients.len() != width {
            proof {
                assert(problem@.rows[j as int].eq.coeffs.len()
                    != problem@.objective.coeffs.len());
            }
            return false;
        }
        if row.equation.constraint.den <= 0 {
            proof {
                assert(!crate::rational::q_wf(problem@.rows[j as int].eq.constant));
            }
            return false;
        }
        if row.ratio.den <= 0 {
            proof {
                assert(!crate::rational::q_wf(problem@.rows[j as int].ratio));
            }
            return false;
        }
        let n = row.equation.coefficients.len();
        let mut k: usize = 0;
        while k < n
            invariant
                k <= n,
                n == row.equation.coefficients@.len(),
                j < problem@.rows.len(),
                row@ == problem@.rows[j as int],
                forall|t: int|
                    0 <= t < k ==> crate::rational::q_wf(#[trigger] row@.eq.coeffs[t]),
            decreases n - k,
        {
            proof {
                assert(row@.eq.coeffs[k as int] == row.equation.coefficients@[k as int].q());
            }
            if row.equation.coefficients[k].den <= 0 {
                proof {
                    assert(!crate::rational::q_wf(problem@.rows[j as int].eq.coeffs[k as int]));
                }
                return false;
            }
            k = k + 1;
        }
        j = j + 1;
    }
    proof {
        assert(render_ready(problem));
    }
    true
}

/// Append `tail` to `out`.
pub fn append_bytes_pub(out: &mut Vec<u8>, tail: &Vec<u8>)
    ensures
        final(out)@ == old(out)@ + tail@,
{
    append_bytes(out, tail)
}

/// A place that rendered text can be handed to: an in-memory buffer, or a
/// wrapper around a real writer.
pub trait ByteSink {
    fn put_bytes(&mut self, bytes: &Vec<u8>);
}

/// A byte buffer keeps everything it is handed.
impl ByteSink for Vec<u8> {
    fn put_bytes(&mut self, bytes: &Vec<u8>) {
        append_bytes(self, bytes)
    }
}

/// An observer that renders every snapshot it receives and hands the text
/// to its sink. A snapshot that is not a well-formed tableau is skipped.
pub struct WriteObserver<W: ByteSink> {
    pub output: W,
}

impl<W: ByteSink> WriteObserver<W> {
    pub fn new(output: W) -> (r: WriteObserver<W>)
        ensures
            r == (WriteObserver { output }),
    {
        WriteObserver { output }
    }
}

impl<W: ByteSink> ProblemObserver for WriteObserver<W> {
    fn observe(&mut self, problem: Problem) {
        if render_check(&problem) {
            let text = render_problem(&problem);
            self.output.put_bytes(&text);
        }
    }
}

} // verus!
