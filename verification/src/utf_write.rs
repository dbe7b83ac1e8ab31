//! Encoding a table to bytes.
//!
//! The layout is specified by the `spec_enc_*` functions: a 32-byte
//! header, the column descriptors, the fixed-stride row region, then the
//! string heap, zero-padded to a 4-byte boundary. String values are
//! 4-byte offsets into the heap, which starts with the reserved
//! `<NULL>` entry and the table name and then grows in writing order.
//! Nested tables have no encoder: the rebuild path never regenerates
//! them, so a stored nested-table value is refused, not guessed at.

use vstd::prelude::*;

use crate::bytes::{
    spec_align_up, spec_be16_bytes, spec_be32_bytes, spec_be64_bytes,
};
use crate::error::CpkError;
use crate::utf::{
    group_model_lemmas, spec_dwidth, spec_flags, value_fits, ColumnModel, TableModel, UTFColumn,
    UTFDataType, UTFStorage, UTFValue, ValueModel, UTF,
};

verus! {

/// The reserved first heap entry, `<NULL>` with its terminator.
pub open spec fn spec_nul_entry() -> Seq<u8> {
    seq![0x3Cu8, 0x4Eu8, 0x55u8, 0x4Cu8, 0x4Cu8, 0x3Eu8, 0u8]
}

// ---------------------------------------------------------------------------
// The string heap.
// ---------------------------------------------------------------------------

/// What a value adds to the string heap.
pub open spec fn spec_heap_value(v: ValueModel) -> Seq<u8> {
    match v {
        ValueModel::STRING(s) => s + seq![0u8],
        _ => Seq::empty(),
    }
}

/// What one column descriptor adds to the heap: its name, then a
/// CONSTANT string value.
pub open spec fn spec_col_heap(c: ColumnModel) -> Seq<u8> {
    c.name + seq![0u8] + (if c.storage is CONSTANT && c.value is Some {
        spec_heap_value(c.value->0)
    } else {
        Seq::empty()
    })
}

/// What the first `k` column descriptors add to the heap.
pub open spec fn spec_cols_heap(cols: Seq<ColumnModel>, k: int) -> Seq<u8>
    decreases k,
{
    if k <= 0 {
        Seq::empty()
    } else {
        spec_cols_heap(cols, k - 1) + spec_col_heap(cols[k - 1])
    }
}

/// What one cell adds to the heap.
pub open spec fn spec_cell_heap(cell: Option<ValueModel>, st: UTFStorage) -> Seq<u8> {
    if st is PER_ROW {
        match cell {
            Option::Some(v) => spec_heap_value(v),
            Option::None => Seq::empty(),
        }
    } else {
        Seq::empty()
    }
}

/// What the first `k` cells of one row add to the heap.
pub open spec fn spec_row_heap(row: Seq<Option<ValueModel>>, cols: Seq<ColumnModel>, k: int)
    -> Seq<u8>
    decreases k,
{
    if k <= 0 {
        Seq::empty()
    } else {
        spec_row_heap(row, cols, k - 1) + spec_cell_heap(row[k - 1], cols[k - 1].storage)
    }
}

/// What the first `r` rows add to the heap.
pub open spec fn spec_rows_heap(
    rows: Seq<Seq<Option<ValueModel>>>,
    cols: Seq<ColumnModel>,
    r: int,
) -> Seq<u8>
    decreases r,
{
    if r <= 0 {
        Seq::empty()
    } else {
        spec_rows_heap(rows, cols, r - 1) + spec_row_heap(rows[r - 1], cols, cols.len() as int)
    }
}

/// The whole string heap of a table.
pub open spec fn spec_heap(m: TableModel) -> Seq<u8> {
    spec_nul_entry() + m.name + seq![0u8] + spec_cols_heap(m.cols, m.cols.len() as int)
        + spec_rows_heap(m.rows, m.cols, m.rows.len() as int)
}

/// Heap length before the first column's name: the reserved entry plus
/// the table name.
pub open spec fn spec_heap_base(m: TableModel) -> int {
    8 + m.name.len() as int
}

// ---------------------------------------------------------------------------
// Sizes.
// ---------------------------------------------------------------------------

/// Descriptor bytes of one column: flags, name offset, and an embedded
/// CONSTANT value at its type's width.
pub open spec fn spec_col_cost(c: ColumnModel) -> int {
    5 + if c.storage is CONSTANT {
        spec_dwidth(c.dtype)
    } else {
        0
    }
}

/// Length of the descriptor block.
pub open spec fn spec_col_len(cols: Seq<ColumnModel>) -> int
    decreases cols.len(),
{
    if cols.len() == 0 {
        0
    } else {
        spec_col_len(cols.drop_last()) + spec_col_cost(cols.last())
    }
}

/// What one column contributes to a row's stored width.
pub open spec fn spec_row_cost(c: ColumnModel) -> int {
    if c.storage is PER_ROW {
        spec_dwidth(c.dtype)
    } else {
        0
    }
}

/// Stored width of one row.
pub open spec fn spec_row_len(cols: Seq<ColumnModel>) -> int
    decreases cols.len(),
{
    if cols.len() == 0 {
        0
    } else {
        spec_row_len(cols.drop_last()) + spec_row_cost(cols.last())
    }
}

/// The table-size header field: everything after the magic and the size
/// field itself, rounded up to a 4-byte boundary.
pub open spec fn spec_table_size(m: TableModel) -> int {
    spec_align_up(
        spec_col_len(m.cols) + spec_row_len(m.cols) * m.rows.len() + spec_heap(m).len() + 24,
        4,
    )
}

/// The length of a whole encoded table packet.
pub open spec fn spec_packet_len(m: TableModel) -> int {
    8 + spec_table_size(m)
}

// ---------------------------------------------------------------------------
// Encodability checks.
// ---------------------------------------------------------------------------

/// Checks the columns from `k` on: a stored nested-table value has no
/// encoder, and a CONSTANT column must carry a value of its own kind.
pub open spec fn spec_check_cols(cols: Seq<ColumnModel>, k: nat) -> Result<(), CpkError>
    decreases cols.len() - k,
{
    if k >= cols.len() {
        Ok(())
    } else {
        let c = cols[k as int];
        if (c.storage is CONSTANT || c.storage is PER_ROW) && c.dtype is BYTEARRAY {
            Err(CpkError::Unsupported)
        } else if c.storage is CONSTANT && !(c.value is Some && value_fits(c.value->0, c.dtype)) {
            Err(CpkError::TypeMismatch)
        } else {
            spec_check_cols(cols, k + 1)
        }
    }
}

/// Checks one row from column `k` on: every PER_ROW column needs a
/// value of its own kind in this row.
pub open spec fn spec_check_row(
    row: Seq<Option<ValueModel>>,
    cols: Seq<ColumnModel>,
    k: nat,
) -> Result<(), CpkError>
    decreases cols.len() - k,
{
    if k >= cols.len() {
        Ok(())
    } else {
        let c = cols[k as int];
        if c.storage is PER_ROW && !(k < row.len() && row[k as int] is Some && value_fits(
            row[k as int]->0,
            c.dtype,
        )) {
            Err(CpkError::TypeMismatch)
        } else {
            spec_check_row(row, cols, k + 1)
        }
    }
}

/// Checks the rows from `r` on.
pub open spec fn spec_check_rows(
    rows: Seq<Seq<Option<ValueModel>>>,
    cols: Seq<ColumnModel>,
    r: nat,
) -> Result<(), CpkError>
    decreases rows.len() - r,
{
    if r >= rows.len() {
        Ok(())
    } else {
        match spec_check_row(rows[r as int], cols, 0) {
            Err(e) => Err(e),
            Ok(()) => spec_check_rows(rows, cols, r + 1),
        }
    }
}

/// Whether a table can be encoded, and the error otherwise: the counts
/// must fit their header fields, every stored value must be of its
/// column's kind and not a nested table, and the computed sizes must
/// fit their fields and the machine.
pub open spec fn spec_encode_check(m: TableModel) -> Result<(), CpkError> {
    if m.cols.len() > 0xFFFF || m.rows.len() > 0xFFFFFFFF {
        Err(CpkError::TooLarge)
    } else {
        match spec_check_cols(m.cols, 0) {
            Err(e) => Err(e),
            Ok(()) => match spec_check_rows(m.rows, m.cols, 0) {
                Err(e) => Err(e),
                Ok(()) => {
                    if spec_row_len(m.cols) > 0xFFFF || spec_col_len(m.cols) > 0xFFFFFFFF
                        || spec_heap(m).len() > 0xFFFFFFFF || spec_table_size(m) > 0xFFFFFFFF
                        || spec_packet_len(m) > usize::MAX {
                        Err(CpkError::TooLarge)
                    } else {
                        Ok(())
                    }
                },
            },
        }
    }
}

// ---------------------------------------------------------------------------
// Body encoding.
// ---------------------------------------------------------------------------

/// The stored bytes of one value. Integers are big-endian at their
/// width; a string is the 4-byte heap offset it was written at; a
/// nested table has no encoding.
pub open spec fn spec_enc_value(v: ValueModel, hlen: int) -> Seq<u8> {
    match v {
        ValueModel::U8(x) => seq![x],
        ValueModel::U16(x) => spec_be16_bytes(x),
        ValueModel::U32(x) => spec_be32_bytes(x),
        ValueModel::U64(x) => spec_be64_bytes(x),
        ValueModel::STRING(_) => spec_be32_bytes(hlen as u32),
        ValueModel::BYTES(_) => Seq::empty(),
    }
}

/// One column descriptor, with the heap at length `hlen` when the
/// column's name is written.
pub open spec fn spec_enc_col(c: ColumnModel, hlen: int) -> Seq<u8> {
    seq![spec_flags(c.dtype, c.storage)] + spec_be32_bytes(hlen as u32) + (if c.storage
        is CONSTANT && c.value is Some {
        spec_enc_value(c.value->0, hlen + c.name.len() + 1)
    } else {
        Seq::empty()
    })
}

/// The first `k` column descriptors, starting from heap length `h0`.
pub open spec fn spec_enc_cols(cols: Seq<ColumnModel>, k: int, h0: int) -> Seq<u8>
    decreases k,
{
    if k <= 0 {
        Seq::empty()
    } else {
        spec_enc_cols(cols, k - 1, h0) + spec_enc_col(
            cols[k - 1],
            h0 + spec_cols_heap(cols, k - 1).len(),
        )
    }
}

/// The stored bytes of one cell.
pub open spec fn spec_enc_cell(cell: Option<ValueModel>, st: UTFStorage, hlen: int) -> Seq<u8> {
    if st is PER_ROW {
        match cell {
            Option::Some(v) => spec_enc_value(v, hlen),
            Option::None => Seq::empty(),
        }
    } else {
        Seq::empty()
    }
}

/// The first `k` cells of one row, starting from heap length `h0`.
pub open spec fn spec_enc_row(
    row: Seq<Option<ValueModel>>,
    cols: Seq<ColumnModel>,
    k: int,
    h0: int,
) -> Seq<u8>
    decreases k,
{
    if k <= 0 {
        Seq::empty()
    } else {
        spec_enc_row(row, cols, k - 1, h0) + spec_enc_cell(
            row[k - 1],
            cols[k - 1].storage,
            h0 + spec_row_heap(row, cols, k - 1).len(),
        )
    }
}

/// The first `r` rows, starting from heap length `h0`.
pub open spec fn spec_enc_rows(
    rows: Seq<Seq<Option<ValueModel>>>,
    cols: Seq<ColumnModel>,
    r: int,
    h0: int,
) -> Seq<u8>
    decreases r,
{
    if r <= 0 {
        Seq::empty()
    } else {
        spec_enc_rows(rows, cols, r - 1, h0) + spec_enc_row(
            rows[r - 1],
            cols,
            cols.len() as int,
            h0 + spec_rows_heap(rows, cols, r - 1).len(),
        )
    }
}

/// The encoded table: header, descriptors, row region, heap, padding.
#[verifier::opaque]
pub open spec fn spec_encode(m: TableModel) -> Seq<u8> {
    let size = spec_table_size(m);
    let col_len = spec_col_len(m.cols);
    let row_len = spec_row_len(m.cols);
    let rows_off = 24 + col_len;
    let str_off = rows_off + row_len * m.rows.len();
    let h0 = spec_heap_base(m);
    let body = spec_enc_cols(m.cols, m.cols.len() as int, h0) + spec_enc_rows(
        m.rows,
        m.cols,
        m.rows.len() as int,
        h0 + spec_cols_heap(m.cols, m.cols.len() as int).len(),
    ) + spec_heap(m);
    let unpadded = crate::utf_read::utf_magic() + spec_be32_bytes(size as u32) + spec_be32_bytes(
        rows_off as u32,
    ) + spec_be32_bytes(str_off as u32) + spec_be32_bytes(size as u32) + spec_be32_bytes(7u32)
        + spec_be16_bytes(m.cols.len() as u16) + spec_be16_bytes(row_len as u16)
        + spec_be32_bytes(m.rows.len() as u32) + body;
    unpadded + Seq::new((8 + size - unpadded.len()) as nat, |i: int| 0u8)
}

// ---------------------------------------------------------------------------
// Lemmas tying checks, sizes and encodings together.
// ---------------------------------------------------------------------------

/// A passed column check holds of every column.
pub proof fn lemma_check_cols_all(cols: Seq<ColumnModel>, k: nat)
    requires
        spec_check_cols(cols, k) is Ok,
    ensures
        forall|j: int|
            k <= j < cols.len() ==> {
                &&& !(((#[trigger] cols[j]).storage is CONSTANT || cols[j].storage is PER_ROW)
                    && cols[j].dtype is BYTEARRAY)
                &&& (cols[j].storage is CONSTANT ==> cols[j].value is Some && value_fits(
                    cols[j].value->0,
                    cols[j].dtype,
                ))
            },
    decreases cols.len() - k,
{
    if k < cols.len() {
        lemma_check_cols_all(cols, k + 1);
    }
}

/// A passed row check holds of every cell of the row.
pub proof fn lemma_check_row_all(row: Seq<Option<ValueModel>>, cols: Seq<ColumnModel>, k: nat)
    requires
        spec_check_row(row, cols, k) is Ok,
    ensures
        forall|j: int|
            k <= j < cols.len() && (#[trigger] cols[j]).storage is PER_ROW ==> j < row.len()
                && row[j] is Some && value_fits(row[j]->0, cols[j].dtype),
    decreases cols.len() - k,
{
    if k < cols.len() {
        lemma_check_row_all(row, cols, k + 1);
    }
}

/// A passed rows check holds of every row.
pub proof fn lemma_check_rows_all(
    rows: Seq<Seq<Option<ValueModel>>>,
    cols: Seq<ColumnModel>,
    r: nat,
)
    requires
        spec_check_rows(rows, cols, r) is Ok,
    ensures
        forall|i: int| r <= i < rows.len() ==> spec_check_row(#[trigger] rows[i], cols, 0) is Ok,
    decreases rows.len() - r,
{
    if r < rows.len() {
        lemma_check_rows_all(rows, cols, r + 1);
    }
}

/// Longer column prefixes add to the heap.
pub proof fn lemma_cols_heap_mono(cols: Seq<ColumnModel>, k: int, n: int)
    requires
        k <= n,
    ensures
        spec_cols_heap(cols, k).len() <= spec_cols_heap(cols, n).len(),
    decreases n - k,
{
    if k < n {
        lemma_cols_heap_mono(cols, k, n - 1);
    }
}

/// Longer cell prefixes add to the heap.
pub proof fn lemma_row_heap_mono(
    row: Seq<Option<ValueModel>>,
    cols: Seq<ColumnModel>,
    k: int,
    n: int,
)
    requires
        k <= n,
    ensures
        spec_row_heap(row, cols, k).len() <= spec_row_heap(row, cols, n).len(),
    decreases n - k,
{
    if k < n {
        lemma_row_heap_mono(row, cols, k, n - 1);
    }
}

/// Longer row prefixes add to the heap.
pub proof fn lemma_rows_heap_mono(
    rows: Seq<Seq<Option<ValueModel>>>,
    cols: Seq<ColumnModel>,
    r: int,
    n: int,
)
    requires
        r <= n,
    ensures
        spec_rows_heap(rows, cols, r).len() <= spec_rows_heap(rows, cols, n).len(),
    decreases n - r,
{
    if r < n {
        lemma_rows_heap_mono(rows, cols, r, n - 1);
    }
}

/// Descriptor blocks never have negative length.
pub proof fn lemma_col_len_nonneg(cols: Seq<ColumnModel>)
    ensures
        spec_col_len(cols) >= 0,
    decreases cols.len(),
{
    if cols.len() > 0 {
        lemma_col_len_nonneg(cols.drop_last());
    }
}

/// Row widths are never negative.
pub proof fn lemma_row_len_nonneg(cols: Seq<ColumnModel>)
    ensures
        spec_row_len(cols) >= 0,
    decreases cols.len(),
{
    if cols.len() > 0 {
        lemma_row_len_nonneg(cols.drop_last());
    }
}

/// A fitting, non-nested value encodes at its type's width.
pub proof fn lemma_enc_value_len(v: ValueModel, d: UTFDataType, h: int)
    requires
        value_fits(v, d),
        !(d is BYTEARRAY),
    ensures
        spec_enc_value(v, h).len() == spec_dwidth(d),
{
}

/// The first `k` descriptors encode at the summed descriptor width.
pub proof fn lemma_enc_cols_len(cols: Seq<ColumnModel>, k: int, h0: int)
    requires
        0 <= k <= cols.len(),
        spec_check_cols(cols, 0) is Ok,
    ensures
        spec_enc_cols(cols, k, h0).len() == spec_col_len(cols.take(k)),
    decreases k,
{
    lemma_check_cols_all(cols, 0);
    if k > 0 {
        lemma_enc_cols_len(cols, k - 1, h0);
        assert(cols.take(k).drop_last() =~= cols.take(k - 1));
        assert(cols.take(k).last() == cols[k - 1]);
        let c = cols[k - 1];
        if c.storage is CONSTANT {
            lemma_enc_value_len(c.value->0, c.dtype, h0 + spec_cols_heap(cols, k - 1).len()
                + c.name.len() + 1);
        }
    } else {
        assert(cols.take(0) =~= Seq::<ColumnModel>::empty());
    }
}

/// The first `k` cells of a row encode at the summed row width.
pub proof fn lemma_enc_row_len(
    row: Seq<Option<ValueModel>>,
    cols: Seq<ColumnModel>,
    k: int,
    h0: int,
)
    requires
        0 <= k <= cols.len(),
        spec_check_row(row, cols, 0) is Ok,
        spec_check_cols(cols, 0) is Ok,
    ensures
        spec_enc_row(row, cols, k, h0).len() == spec_row_len(cols.take(k)),
    decreases k,
{
    lemma_check_row_all(row, cols, 0);
    lemma_check_cols_all(cols, 0);
    if k > 0 {
        lemma_enc_row_len(row, cols, k - 1, h0);
        assert(cols.take(k).drop_last() =~= cols.take(k - 1));
        assert(cols.take(k).last() == cols[k - 1]);
        let c = cols[k - 1];
        if c.storage is PER_ROW {
            lemma_enc_value_len(row[k - 1]->0, c.dtype, h0 + spec_row_heap(row, cols, k
                - 1).len());
        }
    } else {
        assert(cols.take(0) =~= Seq::<ColumnModel>::empty());
    }
}

/// The first `r` rows encode at `r` times the row width.
pub proof fn lemma_enc_rows_len(
    rows: Seq<Seq<Option<ValueModel>>>,
    cols: Seq<ColumnModel>,
    r: int,
    h0: int,
)
    requires
        0 <= r <= rows.len(),
        spec_check_rows(rows, cols, 0) is Ok,
        spec_check_cols(cols, 0) is Ok,
    ensures
        spec_enc_rows(rows, cols, r, h0).len() == r * spec_row_len(cols),
    decreases r,
{
    if r > 0 {
        lemma_enc_rows_len(rows, cols, r - 1, h0);
        lemma_check_rows_all(rows, cols, 0);
        lemma_enc_row_len(
            rows[r - 1],
            cols,
            cols.len() as int,
            h0 + spec_rows_heap(rows, cols, r - 1).len(),
        );
        assert(cols.take(cols.len() as int) =~= cols);
        let x = spec_row_len(cols);
        assert((r - 1) * x + x == r * x) by (nonlinear_arith);
    } else {
        assert(0 * spec_row_len(cols) == 0) by (nonlinear_arith);
    }
}

// ---------------------------------------------------------------------------
// Executable size computation.
// ---------------------------------------------------------------------------

/// The stored width of one value of type `d`.
pub fn width_of(d: UTFDataType) -> (r: u8)
    ensures
        r == spec_dwidth(d),
{
    match d {
        UTFDataType::U8 => 1,
        UTFDataType::U8_2 => 1,
        UTFDataType::U16 => 2,
        UTFDataType::U16_2 => 2,
        UTFDataType::U32 => 4,
        UTFDataType::U32_2 => 4,
        UTFDataType::U64 => 8,
        UTFDataType::U64_2 => 8,
        UTFDataType::STRING => 4,
        UTFDataType::BYTEARRAY => 8,
    }
}

/// Checks that a table is encodable and computes its layout sizes:
/// descriptor-block length, row width, string-heap length, and the
/// table-size field.
#[verifier::rlimit(100)]
fn sizes_of(t: &UTF) -> (r: Result<(u32, u32, u32, u32), CpkError>)
    ensures
        r == (match spec_encode_check(t@) {
            Err(e) => Err::<(u32, u32, u32, u32), CpkError>(e),
            Ok(()) => Ok(
                (
                    spec_col_len(t@.cols) as u32,
                    spec_row_len(t@.cols) as u32,
                    spec_heap(t@).len() as u32,
                    spec_table_size(t@) as u32,
                ),
            ),
        }),
{
    broadcast use group_model_lemmas;

    let ncols = t.cols.len();
    let nrows = t.rows.len();
    if ncols > 0xFFFF {
        return Err(CpkError::TooLarge);
    }
    if nrows > 0xFFFFFFFF {
        return Err(CpkError::TooLarge);
    }
    let ghost cm = t@.cols;
    let ghost rm = t@.rows;

    // Every stored value must be of its column's kind, nested tables
    // have no encoder.
    let mut i: usize = 0;
    while i < ncols
        invariant
            i <= ncols,
            ncols == cm.len(),
            spec_check_cols(cm, 0) == spec_check_cols(cm, i as nat),
        decreases ncols - i,
    {
        let c = &t.cols[i];
        let stored = matches!(c.storage, UTFStorage::CONSTANT) || matches!(
            c.storage,
            UTFStorage::PER_ROW,
        );
        if stored && matches!(c.dtype, UTFDataType::BYTEARRAY) {
            return Err(CpkError::Unsupported);
        }
        if matches!(c.storage, UTFStorage::CONSTANT) {
            match &c.value {
                Option::Some(v) => {
                    if !crate::utf::fits(v, c.dtype) {
                        return Err(CpkError::TypeMismatch);
                    }
                },
                Option::None => {
                    return Err(CpkError::TypeMismatch);
                },
            }
        }
        i = i + 1;
    }
    let mut r: usize = 0;
    while r < nrows
        invariant
            r <= nrows,
            nrows == rm.len(),
            ncols == cm.len(),
            spec_check_cols(cm, 0) is Ok,
            spec_check_rows(rm, cm, 0) == spec_check_rows(rm, cm, r as nat),
        decreases nrows - r,
    {
        let row = &t.rows[r];
        let mut k: usize = 0;
        while k < ncols
            invariant
                k <= ncols,
                ncols == cm.len(),
                row == &t.rows[r as int],
                r < nrows == rm.len(),
                spec_check_row(rm[r as int], cm, 0) == spec_check_row(rm[r as int], cm, k as nat),
            decreases ncols - k,
        {
            let c = &t.cols[k];
            if matches!(c.storage, UTFStorage::PER_ROW) {
                let ok = if k < row.len() {
                    match &row[k] {
                        Option::Some(v) => crate::utf::fits(v, c.dtype),
                        Option::None => false,
                    }
                } else {
                    false
                };
                if !ok {
                    return Err(CpkError::TypeMismatch);
                }
            }
            k = k + 1;
        }
        r = r + 1;
    }

    // Descriptor-block length and row width.
    let mut col_len: u32 = 0;
    let mut row_len: u32 = 0;
    let mut i2: usize = 0;
    proof {
        assert(cm.take(0) =~= Seq::<ColumnModel>::empty());
    }
    while i2 < ncols
        invariant
            i2 <= ncols,
            ncols == cm.len(),
            ncols <= 0xFFFF,
            col_len == spec_col_len(cm.take(i2 as int)),
            row_len == spec_row_len(cm.take(i2 as int)),
            col_len <= 13 * i2,
            row_len <= 8 * i2,
        decreases ncols - i2,
    {
        let c = &t.cols[i2];
        let w = width_of(c.dtype) as u32;
        if matches!(c.storage, UTFStorage::CONSTANT) {
            col_len = col_len + 5 + w;
        } else {
            col_len = col_len + 5;
        }
        if matches!(c.storage, UTFStorage::PER_ROW) {
            row_len = row_len + w;
        }
        i2 = i2 + 1;
        proof {
            assert(cm.take(i2 as int).drop_last() =~= cm.take(i2 - 1));
            assert(cm.take(i2 as int).last() == cm[i2 - 1]);
        }
    }
    proof {
        assert(cm.take(ncols as int) =~= cm);
    }

    // String-heap length, capped at what its field can carry.
    if t.name.len() > 0xFFFFFFFF - 8 {
        proof {
            lemma_cols_heap_mono(cm, 0, cm.len() as int);
            lemma_rows_heap_mono(rm, cm, 0, rm.len() as int);
        }
        return Err(CpkError::TooLarge);
    }
    let mut hacc: u64 = 8 + t.name.len() as u64;
    let mut i3: usize = 0;
    while i3 < ncols
        invariant
            i3 <= ncols,
            ncols == cm.len(),
            hacc == spec_heap_base(t@) + spec_cols_heap(cm, i3 as int).len(),
            hacc <= 0xFFFFFFFF + 0x20000000100000000,
        decreases ncols - i3,
    {
        if hacc > 0xFFFFFFFF {
            proof {
                lemma_cols_heap_mono(cm, i3 as int, cm.len() as int);
                lemma_rows_heap_mono(rm, cm, 0, rm.len() as int);
            }
            return Err(CpkError::TooLarge);
        }
        let c = &t.cols[i3];
        if c.name.len() as u64 > 0xFFFFFFFF {
            proof {
                lemma_cols_heap_mono(cm, i3 + 1, cm.len() as int);
                lemma_rows_heap_mono(rm, cm, 0, rm.len() as int);
            }
            return Err(CpkError::TooLarge);
        }
        hacc = hacc + c.name.len() as u64 + 1;
        if matches!(c.storage, UTFStorage::CONSTANT) {
            match &c.value {
                Option::Some(v) => {
                    match v {
                        UTFValue::STRING(s) => {
                            if s.len() as u64 > 0xFFFFFFFF {
                                proof {
                                    lemma_cols_heap_mono(cm, i3 + 1, cm.len() as int);
                                    lemma_rows_heap_mono(rm, cm, 0, rm.len() as int);
                                }
                                return Err(CpkError::TooLarge);
                            }
                            hacc = hacc + s.len() as u64 + 1;
                        },
                        _ => {},
                    }
                },
                Option::None => {},
            }
        }
        i3 = i3 + 1;
    }
    let ghost heap_cols_done = spec_heap_base(t@) + spec_cols_heap(cm, cm.len() as int).len();
    let mut r3: usize = 0;
    while r3 < nrows
        invariant
            r3 <= nrows,
            nrows == rm.len(),
            ncols == cm.len(),
            hacc == heap_cols_done + spec_rows_heap(rm, cm, r3 as int).len(),
            heap_cols_done == spec_heap_base(t@) + spec_cols_heap(cm, cm.len() as int).len(),
            hacc <= 0xFFFFFFFF + 0x20000000100000000,
        decreases nrows - r3,
    {
        let row = &t.rows[r3];
        let mut k3: usize = 0;
        while k3 < ncols
            invariant
                k3 <= ncols,
                ncols == cm.len(),
                row == &t.rows[r3 as int],
                r3 < nrows == rm.len(),
                hacc == heap_cols_done + spec_rows_heap(rm, cm, r3 as int).len()
                    + spec_row_heap(rm[r3 as int], cm, k3 as int).len(),
                heap_cols_done == spec_heap_base(t@) + spec_cols_heap(cm, cm.len() as int).len(),
                hacc <= 0xFFFFFFFF + 0x20000000100000000,
            decreases ncols - k3,
        {
            if hacc > 0xFFFFFFFF {
                proof {
                    lemma_row_heap_mono(rm[r3 as int], cm, k3 as int, cm.len() as int);
                    lemma_rows_heap_mono(rm, cm, r3 + 1, rm.len() as int);
                }
                return Err(CpkError::TooLarge);
            }
            proof {
                lemma_check_rows_all(rm, cm, 0);
                lemma_check_row_all(rm[r3 as int], cm, 0);
            }
            let c = &t.cols[k3];
            if matches!(c.storage, UTFStorage::PER_ROW) && k3 < row.len() {
                match &row[k3] {
                    Option::Some(v) => {
                        match v {
                            UTFValue::STRING(s) => {
                                if s.len() as u64 > 0xFFFFFFFF {
                                    proof {
                                        lemma_row_heap_mono(
                                            rm[r3 as int],
                                            cm,
                                            k3 + 1,
                                            cm.len() as int,
                                        );
                                        lemma_rows_heap_mono(rm, cm, r3 + 1, rm.len() as int);
                                    }
                                    return Err(CpkError::TooLarge);
                                }
                                hacc = hacc + s.len() as u64 + 1;
                            },
                            _ => {},
                        }
                    },
                    Option::None => {},
                }
            }
            k3 = k3 + 1;
            proof {
                assert(spec_row_heap(rm[r3 as int], cm, k3 as int) == spec_row_heap(
                    rm[r3 as int],
                    cm,
                    k3 - 1,
                ) + spec_cell_heap(rm[r3 as int][k3 - 1], cm[k3 - 1].storage));
            }
        }
        r3 = r3 + 1;
        proof {
            assert(spec_rows_heap(rm, cm, r3 as int) =~= spec_rows_heap(rm, cm, r3 - 1)
                + spec_row_heap(rm[r3 - 1], cm, cm.len() as int));
        }
    }
    if hacc > 0xFFFFFFFF {
        return Err(CpkError::TooLarge);
    }
    let str_len = hacc as u32;
    proof {
        assert(spec_heap(t@).len() == spec_heap_base(t@) + spec_cols_heap(cm, cm.len() as int)
            .len() + spec_rows_heap(rm, cm, rm.len() as int).len());
    }

    if row_len > 0xFFFF {
        return Err(CpkError::TooLarge);
    }
    proof {
        vstd::arithmetic::mul::lemma_mul_upper_bound(
            spec_row_len(cm),
            0xFFFF,
            rm.len() as int,
            0xFFFFFFFF,
        );
        vstd::arithmetic::mul::lemma_mul_nonnegative(spec_row_len(cm), rm.len() as int);
    }
    let rows_total: u64 = row_len as u64 * nrows as u64;
    let unaligned: u64 = col_len as u64 + rows_total + str_len as u64 + 24;
    let size: u64 = crate::bytes::align_up(unaligned, 4);
    if size > 0xFFFFFFFF {
        return Err(CpkError::TooLarge);
    }
    if usize::MAX as u64 <= 0xFFFFFFFF && 8 + size > usize::MAX as u64 {
        return Err(CpkError::TooLarge);
    }
    Ok((col_len, row_len, str_len, size as u32))
}

/// Restates [`spec_encode`] as the concatenation its definition gives,
/// so callers can match an assembled buffer against it without opening
/// the definition.
pub proof fn lemma_encode_unfold(m: TableModel)
    ensures
        spec_encode(m) == ({
            let size = spec_table_size(m);
            let col_len = spec_col_len(m.cols);
            let row_len = spec_row_len(m.cols);
            let rows_off = 24 + col_len;
            let str_off = rows_off + row_len * m.rows.len();
            let h0 = spec_heap_base(m);
            let body = spec_enc_cols(m.cols, m.cols.len() as int, h0) + spec_enc_rows(
                m.rows,
                m.cols,
                m.rows.len() as int,
                h0 + spec_cols_heap(m.cols, m.cols.len() as int).len(),
            ) + spec_heap(m);
            let unpadded = crate::utf_read::utf_magic() + spec_be32_bytes(size as u32)
                + spec_be32_bytes(rows_off as u32) + spec_be32_bytes(str_off as u32)
                + spec_be32_bytes(size as u32) + spec_be32_bytes(7u32) + spec_be16_bytes(
                m.cols.len() as u16,
            ) + spec_be16_bytes(row_len as u16) + spec_be32_bytes(m.rows.len() as u32) + body;
            unpadded + Seq::new((8 + size - unpadded.len()) as nat, |i: int| 0u8)
        }),
{
    reveal(crate::utf_write::spec_encode);
}

/// An encodable table's encoding is exactly one packet long.
#[verifier::rlimit(100)]
#[verifier::spinoff_prover]
pub proof fn lemma_encode_len(m: TableModel)
    requires
        spec_encode_check(m) is Ok,
    ensures
        spec_encode(m).len() == spec_packet_len(m),
{
    reveal(crate::utf_write::spec_encode);
    let h0 = spec_heap_base(m);
    let hc = h0 + spec_cols_heap(m.cols, m.cols.len() as int).len();
    lemma_enc_cols_len(m.cols, m.cols.len() as int, h0);
    lemma_enc_rows_len(m.rows, m.cols, m.rows.len() as int, hc);
    assert(m.cols.take(m.cols.len() as int) =~= m.cols);
    lemma_col_len_nonneg(m.cols);
    lemma_row_len_nonneg(m.cols);
    vstd::arithmetic::mul::lemma_mul_nonnegative(spec_row_len(m.cols), m.rows.len() as int);
    vstd::arithmetic::mul::lemma_mul_is_commutative(spec_row_len(m.cols), m.rows.len() as int);
    crate::bytes::lemma_align_up(
        spec_col_len(m.cols) + spec_row_len(m.cols) * m.rows.len() + spec_heap(m).len() + 24,
        4,
    );
    let body = spec_enc_cols(m.cols, m.cols.len() as int, h0) + spec_enc_rows(
        m.rows,
        m.cols,
        m.rows.len() as int,
        hc,
    ) + spec_heap(m);
    assert(body.len() == spec_col_len(m.cols) + spec_row_len(m.cols) * m.rows.len()
        + spec_heap(m).len());
    let size = spec_table_size(m);
    let unpadded = crate::utf_read::utf_magic() + spec_be32_bytes(size as u32) + spec_be32_bytes(
        (24 + spec_col_len(m.cols)) as u32,
    ) + spec_be32_bytes((24 + spec_col_len(m.cols) + spec_row_len(m.cols) * m.rows.len()) as u32)
        + spec_be32_bytes(size as u32) + spec_be32_bytes(7u32) + spec_be16_bytes(
        m.cols.len() as u16,
    ) + spec_be16_bytes(spec_row_len(m.cols) as u16) + spec_be32_bytes(m.rows.len() as u32) + body;
    assert(unpadded.len() == 32 + body.len());
    assert(unpadded.len() <= 8 + size);
    assert(spec_encode(m).len() == unpadded.len() + (8 + size - unpadded.len()));
}

/// Appends the stored bytes of one non-nested value to the body, and
/// its heap contribution to the heap.
fn write_value(body: &mut Vec<u8>, heap: &mut Vec<u8>, v: &UTFValue) -> (r: Result<(), CpkError>)
    requires
        old(heap)@.len() <= 0xFFFFFFFF,
    ensures
        match r {
            Ok(()) => {
                &&& final(body)@ == old(body)@ + spec_enc_value(v@, old(heap)@.len() as int)
                &&& final(heap)@ == old(heap)@ + spec_heap_value(v@)
            },
            Err(e) => e == CpkError::Unsupported && v@ is BYTES,
        },
{
    match v {
        UTFValue::U8(x) => {
            body.push(*x);
            proof {
                assert(body@ =~= old(body)@ + spec_enc_value(v@, old(heap)@.len() as int));
                assert(heap@ =~= old(heap)@ + spec_heap_value(v@));
            }
            Ok(())
        },
        UTFValue::U16(x) => {
            crate::bytes::push_be16(body, *x);
            proof {
                assert(heap@ =~= old(heap)@ + spec_heap_value(v@));
            }
            Ok(())
        },
        UTFValue::U32(x) => {
            crate::bytes::push_be32(body, *x);
            proof {
                assert(heap@ =~= old(heap)@ + spec_heap_value(v@));
            }
            Ok(())
        },
        UTFValue::U64(x) => {
            crate::bytes::push_be64(body, *x);
            proof {
                assert(heap@ =~= old(heap)@ + spec_heap_value(v@));
            }
            Ok(())
        },
        UTFValue::STRING(s) => {
            crate::bytes::push_be32(body, heap.len() as u32);
            crate::bytes::write_cstring(heap, s.as_slice());
            proof {
                assert(heap@ =~= old(heap)@ + spec_heap_value(v@));
            }
            Ok(())
        },
        UTFValue::BYTES(_) => Err(CpkError::Unsupported),
    }
}

impl UTF {
    /// Recomputes the layout sizes from the current contents, stores
    /// them in the cached fields, and returns the full packet length
    /// that `write` will produce.
    pub fn calculate_size(&mut self) -> (r: Result<usize, CpkError>)
        ensures
            r == (match spec_encode_check(old(self)@) {
                Err(e) => Err::<usize, CpkError>(e),
                Ok(()) => Ok(spec_packet_len(old(self)@) as usize),
            }),
            final(self)@ == old(self)@,
            final(self).name == old(self).name,
            final(self).cols == old(self).cols,
            final(self).rows == old(self).rows,
            r is Ok ==> {
                &&& final(self).col_len == spec_col_len(old(self)@.cols)
                &&& final(self).row_len == spec_row_len(old(self)@.cols)
                &&& final(self).str_len == spec_heap(old(self)@).len()
            },
            r is Err ==> *final(self) == *old(self),
    {
        let (col_len, row_len, str_len, size) = match sizes_of(self) {
            Ok(x) => x,
            Err(e) => {
                return Err(e);
            },
        };
        proof {
            lemma_col_len_nonneg(old(self)@.cols);
            lemma_row_len_nonneg(old(self)@.cols);
            vstd::arithmetic::mul::lemma_mul_nonnegative(
                spec_row_len(old(self)@.cols),
                old(self)@.rows.len() as int,
            );
            crate::bytes::lemma_align_up(
                spec_col_len(old(self)@.cols) + spec_row_len(old(self)@.cols) * old(
                    self,
                )@.rows.len() + spec_heap(old(self)@).len() + 24,
                4,
            );
        }
        self.col_len = col_len;
        self.row_len = row_len as u16;
        self.str_len = str_len;
        proof {
            assert(self@ == old(self)@);
            assert(8 + size as int == spec_packet_len(old(self)@));
        }
        Ok((8 + size as u64) as usize)
    }

    /// Encodes the table: the result is exactly [`spec_encode`] of the
    /// table's model, or the error [`spec_encode_check`] names for a
    /// table that cannot be laid out.
    #[verifier::rlimit(100)]
    #[verifier::spinoff_prover]
    pub fn write(&self) -> (r: Result<Vec<u8>, CpkError>)
        ensures
            match r {
                Ok(v) => spec_encode_check(self@) is Ok && v@ == spec_encode(self@),
                Err(e) => spec_encode_check(self@) == Err::<(), CpkError>(e),
            },
    {
        broadcast use group_model_lemmas;

        let (col_len, row_len32, str_len, size) = match sizes_of(self) {
            Ok(x) => x,
            Err(e) => {
                return Err(e);
            },
        };
        let ghost m = self@;
        let ncols = self.cols.len();
        let nrows = self.rows.len();
        proof {
            lemma_col_len_nonneg(m.cols);
            lemma_row_len_nonneg(m.cols);
            vstd::arithmetic::mul::lemma_mul_nonnegative(spec_row_len(m.cols), m.rows.len() as int);
            vstd::arithmetic::mul::lemma_mul_upper_bound(
                spec_row_len(m.cols),
                0xFFFF,
                m.rows.len() as int,
                0xFFFFFFFF,
            );
            crate::bytes::lemma_align_up(
                spec_col_len(m.cols) + spec_row_len(m.cols) * m.rows.len() + spec_heap(m).len()
                    + 24,
                4,
            );
            lemma_check_cols_all(m.cols, 0);
            lemma_check_rows_all(m.rows, m.cols, 0);
        }

        let mut out: Vec<u8> = Vec::new();
        out.push(0x40);
        out.push(0x55);
        out.push(0x54);
        out.push(0x46);
        proof {
            assert(out@ =~= crate::utf_read::utf_magic());
        }
        crate::bytes::push_be32(&mut out, size);
        crate::bytes::push_be32(&mut out, 24 + col_len);
        let rows_total: u64 = row_len32 as u64 * nrows as u64;
        let str_off: u64 = 24 + col_len as u64 + rows_total;
        crate::bytes::push_be32(&mut out, str_off as u32);
        crate::bytes::push_be32(&mut out, size);
        crate::bytes::push_be32(&mut out, 7);
        crate::bytes::push_be16(&mut out, ncols as u16);
        crate::bytes::push_be16(&mut out, row_len32 as u16);
        crate::bytes::push_be32(&mut out, nrows as u32);
        let ghost header = crate::utf_read::utf_magic() + spec_be32_bytes(
            spec_table_size(m) as u32,
        ) + spec_be32_bytes((24 + spec_col_len(m.cols)) as u32) + spec_be32_bytes(
            (24 + spec_col_len(m.cols) + spec_row_len(m.cols) * m.rows.len()) as u32,
        ) + spec_be32_bytes(spec_table_size(m) as u32) + spec_be32_bytes(7u32) + spec_be16_bytes(
            m.cols.len() as u16,
        ) + spec_be16_bytes(spec_row_len(m.cols) as u16) + spec_be32_bytes(m.rows.len() as u32);
        proof {
            assert(out@ =~= header);
        }

        // The heap starts with the reserved entry and the table name.
        let mut heap: Vec<u8> = Vec::new();
        heap.push(0x3C);
        heap.push(0x4E);
        heap.push(0x55);
        heap.push(0x4C);
        heap.push(0x4C);
        heap.push(0x3E);
        heap.push(0);
        proof {
            assert(heap@ =~= spec_nul_entry());
        }
        crate::bytes::write_cstring(&mut heap, self.name.as_slice());
        let ghost heap0 = spec_nul_entry() + m.name + seq![0u8];
        proof {
            assert(heap@ =~= heap0);
            assert(heap@.len() == spec_heap_base(m));
        }

        // Column descriptors.
        let mut body: Vec<u8> = Vec::new();
        let mut i: usize = 0;
        while i < ncols
            invariant
                i <= ncols,
                body@ == spec_enc_cols(m.cols, i as int, spec_heap_base(m)),
                heap@ == heap0 + spec_cols_heap(m.cols, i as int),
            decreases ncols - i,
        {
            proof {
                lemma_cols_heap_mono(m.cols, i as int, ncols as int);
                lemma_cols_heap_mono(m.cols, i + 1, ncols as int);
                assert(spec_cols_heap(m.cols, i + 1) == spec_cols_heap(m.cols, i as int)
                    + spec_col_heap(m.cols[i as int]));
            }
            let ghost pre_body = body@;
            let ghost pre_heap = heap@;
            let ghost hlen = heap@.len() as int;
            let c = &self.cols[i];
            let flags = crate::utf::make_flags(c.dtype, c.storage);
            body.push(flags);
            crate::bytes::push_be32(&mut body, heap.len() as u32);
            crate::bytes::write_cstring(&mut heap, c.name.as_slice());
            if matches!(c.storage, UTFStorage::CONSTANT) {
                match &c.value {
                    Option::Some(v) => {
                        match write_value(&mut body, &mut heap, v) {
                            Ok(()) => {},
                            Err(e) => {
                                proof {
                                    assert(false);
                                }
                                return Err(e);
                            },
                        }
                    },
                    Option::None => {
                        proof {
                            assert(false);
                        }
                        return Err(CpkError::TypeMismatch);
                    },
                }
            }
            i = i + 1;
            proof {
                assert(body@ =~= pre_body + spec_enc_col(m.cols[i - 1], hlen));
                assert(body@ =~= spec_enc_cols(m.cols, i as int, spec_heap_base(m)));
                assert(heap@ =~= pre_heap + spec_col_heap(m.cols[i - 1]));
                assert(heap@ =~= heap0 + spec_cols_heap(m.cols, i as int));
            }
        }

        // Rows, a fixed stride each, cells in column order.
        let ghost hc = spec_heap_base(m) + spec_cols_heap(m.cols, ncols as int).len();
        let mut r: usize = 0;
        while r < nrows
            invariant
                r <= nrows,
                body@ == spec_enc_cols(m.cols, ncols as int, spec_heap_base(m)) + spec_enc_rows(
                    m.rows,
                    m.cols,
                    r as int,
                    hc,
                ),
                heap@ == heap0 + spec_cols_heap(m.cols, ncols as int) + spec_rows_heap(
                    m.rows,
                    m.cols,
                    r as int,
                ),
            decreases nrows - r,
        {
            let ghost hr = hc + spec_rows_heap(m.rows, m.cols, r as int).len();
            let ghost pre_body_row = body@;
            let ghost pre_heap_row = heap@;
            let row = &self.rows[r];
            proof {
                lemma_check_row_all(m.rows[r as int], m.cols, 0);
            }
            let mut k: usize = 0;
            while k < ncols
                invariant
                    k <= ncols,
                    row == &self.rows[r as int],
                    r < nrows,
                    body@ == pre_body_row + spec_enc_row(m.rows[r as int], m.cols, k as int, hr),
                    heap@ == pre_heap_row + spec_row_heap(m.rows[r as int], m.cols, k as int),
                decreases ncols - k,
            {
                proof {
                    lemma_row_heap_mono(m.rows[r as int], m.cols, k as int, ncols as int);
                    lemma_row_heap_mono(m.rows[r as int], m.cols, k + 1, ncols as int);
                    lemma_rows_heap_mono(m.rows, m.cols, r + 1, nrows as int);
                    assert(spec_rows_heap(m.rows, m.cols, r + 1) == spec_rows_heap(
                        m.rows,
                        m.cols,
                        r as int,
                    ) + spec_row_heap(m.rows[r as int], m.cols, ncols as int));
                }
                let ghost pre_body = body@;
                let ghost pre_heap = heap@;
                let c = &self.cols[k];
                if matches!(c.storage, UTFStorage::PER_ROW) {
                    match &row[k] {
                        Option::Some(v) => {
                            match write_value(&mut body, &mut heap, v) {
                                Ok(()) => {},
                                Err(e) => {
                                    proof {
                                        assert(false);
                                    }
                                    return Err(e);
                                },
                            }
                        },
                        Option::None => {
                            proof {
                                assert(false);
                            }
                            return Err(CpkError::TypeMismatch);
                        },
                    }
                }
                k = k + 1;
                proof {
                    assert(body@ =~= pre_body + spec_enc_cell(
                        m.rows[r as int][k - 1],
                        m.cols[k - 1].storage,
                        hr + spec_row_heap(m.rows[r as int], m.cols, k - 1).len(),
                    ));
                    assert(body@ =~= pre_body_row + spec_enc_row(
                        m.rows[r as int],
                        m.cols,
                        k as int,
                        hr,
                    ));
                    assert(heap@ =~= pre_heap + spec_cell_heap(
                        m.rows[r as int][k - 1],
                        m.cols[k - 1].storage,
                    ));
                    assert(heap@ =~= pre_heap_row + spec_row_heap(
                        m.rows[r as int],
                        m.cols,
                        k as int,
                    ));
                }
            }
            r = r + 1;
            proof {
                assert(body@ =~= spec_enc_cols(m.cols, ncols as int, spec_heap_base(m))
                    + spec_enc_rows(m.rows, m.cols, r as int, hc));
                assert(heap@ =~= heap0 + spec_cols_heap(m.cols, ncols as int) + spec_rows_heap(
                    m.rows,
                    m.cols,
                    r as int,
                ));
            }
        }

        // Assemble: header, body, heap, zero padding to the 4-byte
        // boundary the size field names.
        proof {
            lemma_enc_cols_len(m.cols, ncols as int, spec_heap_base(m));
            lemma_enc_rows_len(m.rows, m.cols, nrows as int, hc);
            assert(m.cols.take(ncols as int) =~= m.cols);
            assert(heap@.len() == spec_heap(m).len()) by {
                assert(heap@ =~= spec_heap(m));
            }
        }
        crate::bytes::write_string(&mut out, body.as_slice());
        crate::bytes::write_string(&mut out, heap.as_slice());
        let packet: u64 = 8 + size as u64;
        crate::bytes::pad_to(&mut out, packet as usize);
        proof {
            lemma_encode_unfold(m);
            let unpadded = header + spec_enc_cols(m.cols, m.cols.len() as int, spec_heap_base(m))
                + spec_enc_rows(m.rows, m.cols, m.rows.len() as int, hc) + spec_heap(m);
            assert(out@ =~= unpadded + Seq::new(
                (8 + spec_table_size(m) - unpadded.len()) as nat,
                |j: int| 0u8,
            ));
            assert(out@ =~= spec_encode(m));
        }
        Ok(out)
    }
}

} // verus!
