//! Positional decoding of untyped response rows into typed values.
use vstd::prelude::*;
use crate::column::ColumnDescriptor;
use crate::wire::{WireValue, Value, coerce, coerce_value, lemma_coerce_keeps_tag, tag_of};

verus! {

/// Why a response could not be decoded.
#[derive(Clone, Debug, PartialEq)]
pub enum DecodeError {
    /// Row `row` holds `found` values where `expected` columns were asked for.
    Shape { row: usize, expected: usize, found: usize },
    /// The value of column `column` (named `name`) in row `row` does not
    /// read as the column's type.
    Coercion { row: usize, column: usize, name: String },
}

pub open spec fn column_ok(cols: Seq<ColumnDescriptor>, row: Seq<WireValue>, i: int) -> bool {
    coerce(cols[i].tag, row[i]) is Some
}

/// Every value of `row` reads as the type of its column, and there is one
/// value per column.
pub open spec fn row_ok(cols: Seq<ColumnDescriptor>, row: Seq<WireValue>) -> bool {
    &&& row.len() == cols.len()
    &&& forall|i: int| 0 <= i < row.len() ==> column_ok(cols, row, i)
}

/// The first column at or after `i` whose value does not read as its type,
/// or the row's length if there is none.
pub open spec fn first_bad_column(cols: Seq<ColumnDescriptor>, row: Seq<WireValue>, i: int) -> int
    decreases row.len() - i,
{
    if i >= row.len() {
        row.len() as int
    } else if !column_ok(cols, row, i) {
        i
    } else {
        first_bad_column(cols, row, i + 1)
    }
}

/// The first row at or after `k` that cannot be decoded, or the number of
/// rows if there is none.
pub open spec fn first_bad_row(cols: Seq<ColumnDescriptor>, rows: Seq<Seq<WireValue>>, k: int) -> int
    decreases rows.len() - k,
{
    if k >= rows.len() {
        rows.len() as int
    } else if !row_ok(cols, rows[k]) {
        k
    } else {
        first_bad_row(cols, rows, k + 1)
    }
}

/// The value at position `i` of a decoded row.
pub open spec fn decoded(cols: Seq<ColumnDescriptor>, row: Seq<WireValue>, i: int) -> Value {
    coerce(cols[i].tag, row[i])->Some_0
}

/// A row decoded column by column, in column order.
pub open spec fn decode_row(cols: Seq<ColumnDescriptor>, row: Seq<WireValue>) -> Seq<Value> {
    Seq::new(cols.len(), |i: int| decoded(cols, row, i))
}

/// The error for row `k`, which cannot be decoded.
pub open spec fn row_error(cols: Seq<ColumnDescriptor>, row: Seq<WireValue>, k: int) -> DecodeError {
    if row.len() != cols.len() {
        DecodeError::Shape { row: k as usize, expected: cols.len() as usize, found: row.len() as usize }
    } else {
        let c = first_bad_column(cols, row, 0);
        DecodeError::Coercion { row: k as usize, column: c as usize, name: cols[c].name }
    }
}

/// A whole response decoded: every row, in order, or the error of the first
/// row that cannot be decoded.
pub open spec fn decode_response(cols: Seq<ColumnDescriptor>, rows: Seq<Seq<WireValue>>) -> Result<Seq<Seq<Value>>, DecodeError> {
    let k = first_bad_row(cols, rows, 0);
    if k < rows.len() {
        Err(row_error(cols, rows[k], k))
    } else {
        Ok(Seq::new(rows.len(), |j: int| decode_row(cols, rows[j])))
    }
}

pub open spec fn rows_view<T>(rows: Seq<Vec<T>>) -> Seq<Seq<T>> {
    rows.map_values(|r: Vec<T>| r@)
}

proof fn lemma_first_bad_column_bounds(cols: Seq<ColumnDescriptor>, row: Seq<WireValue>, i: int)
    requires
        0 <= i <= row.len(),
        row.len() == cols.len(),
    ensures
        i <= first_bad_column(cols, row, i) <= row.len(),
        first_bad_column(cols, row, i) < row.len() ==> !column_ok(cols, row, first_bad_column(cols, row, i)),
        forall|j: int| i <= j < first_bad_column(cols, row, i) ==> column_ok(cols, row, j),
    decreases row.len() - i,
{
    if i < row.len() && column_ok(cols, row, i) {
        lemma_first_bad_column_bounds(cols, row, i + 1);
    }
}

proof fn lemma_first_bad_row_bounds(cols: Seq<ColumnDescriptor>, rows: Seq<Seq<WireValue>>, k: int)
    requires
        0 <= k <= rows.len(),
    ensures
        k <= first_bad_row(cols, rows, k) <= rows.len(),
        first_bad_row(cols, rows, k) < rows.len() ==> !row_ok(cols, rows[first_bad_row(cols, rows, k)]),
        forall|j: int| k <= j < first_bad_row(cols, rows, k) ==> row_ok(cols, #[trigger] rows[j]),
    decreases rows.len() - k,
{
    if k < rows.len() && row_ok(cols, rows[k]) {
        lemma_first_bad_row_bounds(cols, rows, k + 1);
    }
}

proof fn lemma_all_rows_ok(cols: Seq<ColumnDescriptor>, rows: Seq<Seq<WireValue>>)
    ensures
        0 <= first_bad_row(cols, rows, 0) <= rows.len(),
        (first_bad_row(cols, rows, 0) == rows.len()) <==> (forall|j: int| 0 <= j < rows.len() ==> row_ok(cols, #[trigger] rows[j])),
{
    lemma_first_bad_row_bounds(cols, rows, 0);
}

/// Every row of a decoded response has exactly one value per column, and the
/// value at each position has the type of the column at that position.
pub proof fn lemma_decoded_arity(cols: Seq<ColumnDescriptor>, rows: Seq<Seq<WireValue>>, v: Seq<Seq<Value>>)
    requires
        decode_response(cols, rows) == Ok::<Seq<Seq<Value>>, DecodeError>(v),
    ensures
        forall|k: int| 0 <= k < v.len() ==> (#[trigger] v[k]).len() == cols.len(),
        forall|k: int, i: int| 0 <= k < v.len() && 0 <= i < cols.len() ==> tag_of(#[trigger] v[k][i]) == cols[i].tag,
{
    lemma_all_rows_ok(cols, rows);
    assert forall|k: int, i: int| 0 <= k < v.len() && 0 <= i < cols.len() implies tag_of(#[trigger] v[k][i]) == cols[i].tag by {
        assert(row_ok(cols, rows[k]));
        assert(column_ok(cols, rows[k], i));
        lemma_coerce_keeps_tag(cols[i].tag, rows[k][i]);
    }
}

/// Value `i` of decoded row `k` is what value `i` of response row `k` reads
/// as under column `i`'s type: decoding goes by position alone.
pub proof fn lemma_decoded_by_position(cols: Seq<ColumnDescriptor>, rows: Seq<Seq<WireValue>>, v: Seq<Seq<Value>>)
    requires
        decode_response(cols, rows) == Ok::<Seq<Seq<Value>>, DecodeError>(v),
    ensures
        forall|k: int, i: int| 0 <= k < v.len() && 0 <= i < cols.len() ==>
            coerce(cols[i].tag, rows[k][i]) == Some(#[trigger] v[k][i]),
{
    lemma_all_rows_ok(cols, rows);
    assert forall|k: int, i: int| 0 <= k < v.len() && 0 <= i < cols.len() implies
        coerce(cols[i].tag, rows[k][i]) == Some(#[trigger] v[k][i]) by {
        assert(row_ok(cols, rows[k]));
        assert(column_ok(cols, rows[k], i));
    }
}

/// A value that does not read as its column's type makes the whole response
/// fail; where it is the first such value, the error names its row and column.
pub proof fn lemma_coercion_failure(cols: Seq<ColumnDescriptor>, rows: Seq<Seq<WireValue>>, k: int, i: int)
    requires
        0 <= k < rows.len(),
        rows[k].len() == cols.len(),
        0 <= i < cols.len(),
        coerce(cols[i].tag, rows[k][i]) is None,
    ensures
        decode_response(cols, rows) is Err,
        (forall|j: int| 0 <= j < k ==> row_ok(cols, #[trigger] rows[j]))
            && (forall|c: int| 0 <= c < i ==> column_ok(cols, rows[k], c))
            ==> decode_response(cols, rows) == Err::<Seq<Seq<Value>>, DecodeError>(
                DecodeError::Coercion { row: k as usize, column: i as usize, name: cols[i].name }),
{
    assert(!column_ok(cols, rows[k], i));
    assert(!row_ok(cols, rows[k]));
    lemma_all_rows_ok(cols, rows);
    lemma_first_bad_row_bounds(cols, rows, 0);
    lemma_first_bad_column_bounds(cols, rows[k], 0);
    if (forall|j: int| 0 <= j < k ==> row_ok(cols, #[trigger] rows[j]))
        && (forall|c: int| 0 <= c < i ==> column_ok(cols, rows[k], c)) {
        let fb = first_bad_row(cols, rows, 0);
        if fb < k {
            assert(row_ok(cols, rows[fb]));
        }
        assert(fb == k);
        let fc = first_bad_column(cols, rows[k], 0);
        if fc < i {
            assert(column_ok(cols, rows[k], fc));
        }
        if fc > i {
            assert(column_ok(cols, rows[k], i));
        }
        assert(fc == i);
    }
}

/// Decoded rows come in the order of the response rows, each decoded from
/// the row at the same place.
pub proof fn lemma_row_order(cols: Seq<ColumnDescriptor>, rows: Seq<Seq<WireValue>>, v: Seq<Seq<Value>>)
    requires
        decode_response(cols, rows) == Ok::<Seq<Seq<Value>>, DecodeError>(v),
    ensures
        v.len() == rows.len(),
        forall|k: int| 0 <= k < v.len() ==> #[trigger] v[k] == decode_row(cols, rows[k]),
{
    lemma_all_rows_ok(cols, rows);
}

/// Decoding the rows of two responses one after the other gives the decoded
/// rows of the first followed by those of the second.
pub proof fn lemma_decode_concat(
    cols: Seq<ColumnDescriptor>,
    a: Seq<Seq<WireValue>>,
    b: Seq<Seq<WireValue>>,
    va: Seq<Seq<Value>>,
    vb: Seq<Seq<Value>>,
)
    requires
        decode_response(cols, a) == Ok::<Seq<Seq<Value>>, DecodeError>(va),
        decode_response(cols, b) == Ok::<Seq<Seq<Value>>, DecodeError>(vb),
    ensures
        decode_response(cols, a + b) == Ok::<Seq<Seq<Value>>, DecodeError>(va + vb),
{
    lemma_all_rows_ok(cols, a);
    lemma_all_rows_ok(cols, b);
    lemma_all_rows_ok(cols, a + b);
    assert forall|j: int| 0 <= j < (a + b).len() implies row_ok(cols, #[trigger] (a + b)[j]) by {
        if j < a.len() {
            assert((a + b)[j] == a[j]);
            assert(row_ok(cols, a[j]));
        } else {
            assert((a + b)[j] == b[j - a.len()]);
            assert(row_ok(cols, b[j - a.len()]));
        }
    }
    assert(Seq::new((a + b).len(), |j: int| decode_row(cols, (a + b)[j])) =~= va + vb);
}

/// Decodes one row, whose position in the response is `index`.
pub fn decode_one_row(columns: &Vec<ColumnDescriptor>, row: &Vec<WireValue>, index: usize) -> (r: Result<Vec<Value>, DecodeError>)
    ensures
        match r {
            Ok(v) => row_ok(columns@, row@) && v@ == decode_row(columns@, row@),
            Err(e) => !row_ok(columns@, row@) && e == row_error(columns@, row@, index as int),
        },
{
    let n = columns.len();
    if row.len() != n {
        return Err(DecodeError::Shape { row: index, expected: n, found: row.len() });
    }
    let mut out: Vec<Value> = Vec::new();
    let mut i: usize = 0;
    while i < n
        invariant
            n == columns@.len(),
            row@.len() == n,
            i <= n,
            out@.len() == i,
            forall|j: int| 0 <= j < i ==> column_ok(columns@, row@, j),
            forall|j: int| 0 <= j < i ==> out@[j] == decoded(columns@, row@, j),
            first_bad_column(columns@, row@, 0) == first_bad_column(columns@, row@, i as int),
        decreases n - i,
    {
        match coerce_value(columns[i].tag, &row[i]) {
            Some(v) => {
                out.push(v);
            },
            None => {
                return Err(DecodeError::Coercion { row: index, column: i, name: columns[i].name.clone() });
            },
        }
        i = i + 1;
    }
    assert(out@ =~= decode_row(columns@, row@));
    Ok(out)
}

/// Decodes a whole response: one row of values per row of the response, in
/// the same order, or the error of the first row that cannot be decoded.
pub fn decode_rows(columns: &Vec<ColumnDescriptor>, rows: &Vec<Vec<WireValue>>) -> (r: Result<Vec<Vec<Value>>, DecodeError>)
    ensures
        match r {
            Ok(v) => decode_response(columns@, rows_view(rows@)) == Ok::<Seq<Seq<Value>>, DecodeError>(rows_view(v@)),
            Err(e) => decode_response(columns@, rows_view(rows@)) == Err::<Seq<Seq<Value>>, DecodeError>(e),
        },
{
    let ghost rv = rows_view(rows@);
    let mut out: Vec<Vec<Value>> = Vec::new();
    let mut k: usize = 0;
    while k < rows.len()
        invariant
            rv == rows_view(rows@),
            k <= rows@.len(),
            out@.len() == k,
            forall|j: int| 0 <= j < k ==> row_ok(columns@, #[trigger] rv[j]),
            forall|j: int| 0 <= j < k ==> (#[trigger] out@[j])@ == decode_row(columns@, rv[j]),
            first_bad_row(columns@, rv, 0) == first_bad_row(columns@, rv, k as int),
        decreases rows@.len() - k,
    {
        match decode_one_row(columns, &rows[k], k) {
            Ok(v) => {
                out.push(v);
            },
            Err(e) => {
                return Err(e);
            },
        }
        k = k + 1;
    }
    assert(rows_view(out@) =~= Seq::new(rv.len(), |j: int| decode_row(columns@, rv[j])));
    Ok(out)
}

} // verus!
