//! The self-describing columnar binary table format: schema plus rows,
//! with four storage modes per column and fixed per-type field widths.
//!
//! Strings are byte strings (stored NUL-terminated); a nested table is a
//! value of its own kind. The in-memory table is modelled by
//! [`TableModel`], a mathematical mirror over `Seq` that every contract
//! speaks of.

use vstd::prelude::*;

use crate::error::CpkError;

verus! {

/// Element type tag of a column (the low nibble of its flags byte).
/// Each width exists under two tags; both decode to the same width.
#[derive(Clone, Copy, Debug, PartialEq, Eq, Structural)]
pub enum UTFDataType {
    U8,
    U8_2,
    U16,
    U16_2,
    U32,
    U32_2,
    U64,
    U64_2,
    STRING,
    BYTEARRAY,
}

/// Storage mode of a column (the high nibble of its flags byte).
#[derive(Clone, Copy, Debug, PartialEq, Eq, Structural)]
pub enum UTFStorage {
    /// Absent: no value is stored at all.
    NONE,
    /// Implicit default: no value is stored.
    ZERO,
    /// One shared value for all rows, stored once with the descriptor.
    CONSTANT,
    /// One value stored per row.
    PER_ROW,
}

/// A cell value: an unsigned integer, a byte string, or a nested table.
pub enum UTFValue {
    U8(u8),
    U16(u16),
    U32(u32),
    U64(u64),
    STRING(Vec<u8>),
    BYTES(Box<UTF>),
}

/// A column: name, element type, storage mode, and the constant value
/// for CONSTANT storage.
pub struct UTFColumn {
    pub name: Vec<u8>,
    pub dtype: UTFDataType,
    pub storage: UTFStorage,
    pub value: Option<UTFValue>,
}

/// A table: name, ordered columns, and ordered rows. `rows[r][c]` is the
/// cell of column `c` in row `r`, present exactly for PER_ROW columns.
/// The three length fields are the cached layout sizes that
/// `calculate_size` recomputes from the contents.
pub struct UTF {
    pub name: Vec<u8>,
    pub cols: Vec<UTFColumn>,
    pub rows: Vec<Vec<Option<UTFValue>>>,
    pub col_len: u32,
    pub row_len: u16,
    pub str_len: u32,
}

// ---------------------------------------------------------------------------
// Mathematical model.
// ---------------------------------------------------------------------------

/// Mathematical mirror of a cell value.
pub enum ValueModel {
    U8(u8),
    U16(u16),
    U32(u32),
    U64(u64),
    STRING(Seq<u8>),
    BYTES(TableModel),
}

/// Mathematical mirror of a column.
pub struct ColumnModel {
    pub name: Seq<u8>,
    pub dtype: UTFDataType,
    pub storage: UTFStorage,
    pub value: Option<ValueModel>,
}

/// Mathematical mirror of a table.
pub struct TableModel {
    pub name: Seq<u8>,
    pub cols: Seq<ColumnModel>,
    pub rows: Seq<Seq<Option<ValueModel>>>,
}

pub open spec fn value_model(v: UTFValue) -> ValueModel
    decreases v,
{
    match v {
        UTFValue::U8(x) => ValueModel::U8(x),
        UTFValue::U16(x) => ValueModel::U16(x),
        UTFValue::U32(x) => ValueModel::U32(x),
        UTFValue::U64(x) => ValueModel::U64(x),
        UTFValue::STRING(s) => ValueModel::STRING(s@),
        UTFValue::BYTES(t) => ValueModel::BYTES(table_model(*t)),
    }
}

pub open spec fn cell_model(v: Option<UTFValue>) -> Option<ValueModel>
    decreases v,
{
    match v {
        Option::Some(x) => Option::Some(value_model(x)),
        Option::None => Option::None,
    }
}

pub open spec fn col_model(c: UTFColumn) -> ColumnModel
    decreases c,
{
    ColumnModel {
        name: c.name@,
        dtype: c.dtype,
        storage: c.storage,
        value: cell_model(c.value),
    }
}

pub open spec fn row_model(r: Vec<Option<UTFValue>>) -> Seq<Option<ValueModel>>
    decreases r,
{
    Seq::new(
        r.len() as nat,
        |i: int|
            if 0 <= i < r.len() {
                cell_model(r[i])
            } else {
                Option::None
            },
    )
}

pub open spec fn cols_model(v: Vec<UTFColumn>) -> Seq<ColumnModel>
    decreases v,
{
    Seq::new(
        v.len() as nat,
        |i: int|
            if 0 <= i < v.len() {
                col_model(v[i])
            } else {
                ColumnModel {
                    name: Seq::empty(),
                    dtype: UTFDataType::U8,
                    storage: UTFStorage::NONE,
                    value: Option::None,
                }
            },
    )
}

pub open spec fn rows_model(v: Vec<Vec<Option<UTFValue>>>) -> Seq<Seq<Option<ValueModel>>>
    decreases v,
{
    Seq::new(
        v.len() as nat,
        |i: int|
            if 0 <= i < v.len() {
                row_model(v[i])
            } else {
                Seq::empty()
            },
    )
}

pub open spec fn table_model(t: UTF) -> TableModel
    decreases t,
{
    TableModel { name: t.name@, cols: cols_model(t.cols), rows: rows_model(t.rows) }
}

/// The model has exactly as many columns as the table.
pub broadcast proof fn lemma_model_cols_len(t: UTF)
    ensures
        (#[trigger] table_model(t).cols).len() == t.cols.len(),
{
}

/// The model has exactly as many rows as the table.
pub broadcast proof fn lemma_model_rows_len(t: UTF)
    ensures
        (#[trigger] table_model(t).rows).len() == t.rows.len(),
{
}

/// A model column is the model of the table's column.
pub broadcast proof fn lemma_model_cols_index(t: UTF, i: int)
    requires
        0 <= i < t.cols.len(),
    ensures
        #[trigger] table_model(t).cols[i] == col_model(t.cols[i]),
{
}

/// A model row is the model of the table's row.
pub broadcast proof fn lemma_model_rows_index(t: UTF, i: int)
    requires
        0 <= i < t.rows.len(),
    ensures
        #[trigger] table_model(t).rows[i] == row_model(t.rows[i]),
{
}

/// A row's model is as wide as the row.
pub broadcast proof fn lemma_row_model_len(r: Vec<Option<UTFValue>>)
    ensures
        (#[trigger] row_model(r)).len() == r.len(),
{
}

/// A model cell is the model of the row's cell.
pub broadcast proof fn lemma_row_model_index(r: Vec<Option<UTFValue>>, i: int)
    requires
        0 <= i < r.len(),
    ensures
        #[trigger] row_model(r)[i] == cell_model(r[i]),
{
}

/// A column sequence model is as long as the vector.
pub broadcast proof fn lemma_cols_model_len(v: Vec<UTFColumn>)
    ensures
        (#[trigger] cols_model(v)).len() == v.len(),
{
}

/// A column sequence model is the model of each column.
pub broadcast proof fn lemma_cols_model_index(v: Vec<UTFColumn>, i: int)
    requires
        0 <= i < v.len(),
    ensures
        #[trigger] cols_model(v)[i] == col_model(v[i]),
{
}

/// A row sequence model is as long as the vector.
pub broadcast proof fn lemma_rows_model_len(v: Vec<Vec<Option<UTFValue>>>)
    ensures
        (#[trigger] rows_model(v)).len() == v.len(),
{
}

/// A row sequence model is the model of each row.
pub broadcast proof fn lemma_rows_model_index(v: Vec<Vec<Option<UTFValue>>>, i: int)
    requires
        0 <= i < v.len(),
    ensures
        #[trigger] rows_model(v)[i] == row_model(v[i]),
{
}

pub broadcast group group_model_lemmas {
    lemma_model_cols_len,
    lemma_model_rows_len,
    lemma_model_cols_index,
    lemma_model_rows_index,
    lemma_row_model_len,
    lemma_row_model_index,
    lemma_cols_model_len,
    lemma_cols_model_index,
    lemma_rows_model_len,
    lemma_rows_model_index,
}

impl View for UTF {
    type V = TableModel;

    open spec fn view(&self) -> TableModel {
        table_model(*self)
    }
}

impl View for UTFColumn {
    type V = ColumnModel;

    open spec fn view(&self) -> ColumnModel {
        col_model(*self)
    }
}

impl View for UTFValue {
    type V = ValueModel;

    open spec fn view(&self) -> ValueModel {
        value_model(*self)
    }
}

// ---------------------------------------------------------------------------
// Type/storage codes and field widths.
// ---------------------------------------------------------------------------

/// The low-nibble code of an element type.
pub open spec fn spec_type_code(d: UTFDataType) -> u8 {
    match d {
        UTFDataType::U8 => 0,
        UTFDataType::U8_2 => 1,
        UTFDataType::U16 => 2,
        UTFDataType::U16_2 => 3,
        UTFDataType::U32 => 4,
        UTFDataType::U32_2 => 5,
        UTFDataType::U64 => 6,
        UTFDataType::U64_2 => 7,
        UTFDataType::STRING => 10,
        UTFDataType::BYTEARRAY => 11,
    }
}

/// The high-nibble code of a storage mode.
pub open spec fn spec_storage_code(s: UTFStorage) -> u8 {
    match s {
        UTFStorage::NONE => 0,
        UTFStorage::ZERO => 1,
        UTFStorage::CONSTANT => 3,
        UTFStorage::PER_ROW => 5,
    }
}

/// The flags byte of a column: type tag in the low nibble, storage mode
/// in the high nibble.
pub open spec fn spec_flags(d: UTFDataType, s: UTFStorage) -> u8 {
    (spec_type_code(d) + spec_storage_code(s) * 16) as u8
}

/// The serialized width of one value of type `d`: the integer widths,
/// a 4-byte string offset, or an 8-byte offset/size pair.
pub open spec fn spec_dwidth(d: UTFDataType) -> int {
    match d {
        UTFDataType::U8 => 1,
        UTFDataType::U8_2 => 1,
        UTFDataType::U16 => 2,
        UTFDataType::U16_2 => 2,
        UTFDataType::U32 => 4,
        UTFDataType::U32_2 => 4,
        UTFDataType::U64 => 8,
        UTFDataType::U64_2 => 8,
        UTFDataType::STRING => 4,
        UTFDataType::BYTEARRAY => 8,
    }
}

/// The element type named by a low-nibble code, if the code is known.
pub open spec fn spec_type_of_code(c: u8) -> Result<UTFDataType, CpkError> {
    if c == 0 {
        Ok(UTFDataType::U8)
    } else if c == 1 {
        Ok(UTFDataType::U8_2)
    } else if c == 2 {
        Ok(UTFDataType::U16)
    } else if c == 3 {
        Ok(UTFDataType::U16_2)
    } else if c == 4 {
        Ok(UTFDataType::U32)
    } else if c == 5 {
        Ok(UTFDataType::U32_2)
    } else if c == 6 {
        Ok(UTFDataType::U64)
    } else if c == 7 {
        Ok(UTFDataType::U64_2)
    } else if c == 10 {
        Ok(UTFDataType::STRING)
    } else if c == 11 {
        Ok(UTFDataType::BYTEARRAY)
    } else {
        Err(CpkError::BadFlags)
    }
}

/// The storage mode named by a high-nibble code, if the code is known.
pub open spec fn spec_storage_of_code(c: u8) -> Result<UTFStorage, CpkError> {
    if c == 0 {
        Ok(UTFStorage::NONE)
    } else if c == 1 {
        Ok(UTFStorage::ZERO)
    } else if c == 3 {
        Ok(UTFStorage::CONSTANT)
    } else if c == 5 {
        Ok(UTFStorage::PER_ROW)
    } else {
        Err(CpkError::BadFlags)
    }
}

/// Splits a flags byte into element type and storage mode; an unknown
/// code in either nibble is a decode failure.
pub open spec fn spec_parse_flags(f: u8) -> Result<(UTFDataType, UTFStorage), CpkError> {
    match spec_type_of_code(f & 0xf) {
        Err(e) => Err(e),
        Ok(d) => match spec_storage_of_code(f >> 4) {
            Err(e) => Err(e),
            Ok(s) => Ok((d, s)),
        },
    }
}

/// Decodes a flags byte.
pub fn parse_flags(f: u8) -> (r: Result<(UTFDataType, UTFStorage), CpkError>)
    ensures
        r == spec_parse_flags(f),
{
    let lo = f & 0xf;
    let hi = f >> 4;
    let d = if lo == 0 {
        UTFDataType::U8
    } else if lo == 1 {
        UTFDataType::U8_2
    } else if lo == 2 {
        UTFDataType::U16
    } else if lo == 3 {
        UTFDataType::U16_2
    } else if lo == 4 {
        UTFDataType::U32
    } else if lo == 5 {
        UTFDataType::U32_2
    } else if lo == 6 {
        UTFDataType::U64
    } else if lo == 7 {
        UTFDataType::U64_2
    } else if lo == 10 {
        UTFDataType::STRING
    } else if lo == 11 {
        UTFDataType::BYTEARRAY
    } else {
        return Err(CpkError::BadFlags);
    };
    let s = if hi == 0 {
        UTFStorage::NONE
    } else if hi == 1 {
        UTFStorage::ZERO
    } else if hi == 3 {
        UTFStorage::CONSTANT
    } else if hi == 5 {
        UTFStorage::PER_ROW
    } else {
        return Err(CpkError::BadFlags);
    };
    Ok((d, s))
}

/// Encodes type and storage as a flags byte.
pub fn make_flags(d: UTFDataType, s: UTFStorage) -> (r: u8)
    ensures
        r == spec_flags(d, s),
{
    let dc: u8 = match d {
        UTFDataType::U8 => 0,
        UTFDataType::U8_2 => 1,
        UTFDataType::U16 => 2,
        UTFDataType::U16_2 => 3,
        UTFDataType::U32 => 4,
        UTFDataType::U32_2 => 5,
        UTFDataType::U64 => 6,
        UTFDataType::U64_2 => 7,
        UTFDataType::STRING => 10,
        UTFDataType::BYTEARRAY => 11,
    };
    let sc: u8 = match s {
        UTFStorage::NONE => 0,
        UTFStorage::ZERO => 1,
        UTFStorage::CONSTANT => 3,
        UTFStorage::PER_ROW => 5,
    };
    dc + sc * 16
}

// ---------------------------------------------------------------------------
// Well-formedness.
// ---------------------------------------------------------------------------

/// A stored byte string must not contain the terminator.
pub open spec fn has_no_nul(s: Seq<u8>) -> bool {
    forall|i: int| 0 <= i < s.len() ==> s[i] != 0
}

/// Whether a value is of the kind the column type calls for.
pub open spec fn value_fits(v: ValueModel, d: UTFDataType) -> bool {
    match d {
        UTFDataType::U8 => v is U8,
        UTFDataType::U8_2 => v is U8,
        UTFDataType::U16 => v is U16,
        UTFDataType::U16_2 => v is U16,
        UTFDataType::U32 => v is U32,
        UTFDataType::U32_2 => v is U32,
        UTFDataType::U64 => v is U64,
        UTFDataType::U64_2 => v is U64,
        UTFDataType::STRING => v is STRING,
        UTFDataType::BYTEARRAY => v is BYTES,
    }
}

/// A CONSTANT column carries exactly one fitting value; columns of the
/// other storages carry none.
pub open spec fn wf_col(c: ColumnModel) -> bool {
    &&& has_no_nul(c.name)
    &&& match c.storage {
        UTFStorage::CONSTANT => c.value is Some && value_fits(c.value->0, c.dtype),
        _ => c.value is None,
    }
    &&& (c.storage is CONSTANT && c.dtype is STRING ==> has_no_nul(c.value->0->STRING_0))
}

/// Structural invariant of a table: every row is as wide as the schema,
/// PER_ROW columns have a fitting value in every row, all other columns
/// have none, and no stored string contains a NUL.
pub open spec fn wf_table(m: TableModel) -> bool {
    &&& has_no_nul(m.name)
    &&& forall|c: int| 0 <= c < m.cols.len() ==> wf_col(#[trigger] m.cols[c])
    &&& forall|r: int| 0 <= r < m.rows.len() ==> (#[trigger] m.rows[r]).len() == m.cols.len()
    &&& forall|r: int, c: int|
        0 <= r < m.rows.len() && 0 <= c < m.cols.len() ==> {
            &&& (m.cols[c].storage is PER_ROW ==> (#[trigger] m.rows[r][c]) is Some
                && value_fits(m.rows[r][c]->0, m.cols[c].dtype))
            &&& (!(m.cols[c].storage is PER_ROW) ==> m.rows[r][c] is None)
            &&& (m.cols[c].storage is PER_ROW && m.cols[c].dtype is STRING ==> has_no_nul(
                m.rows[r][c]->0->STRING_0,
            ))
        }
}

/// The first column at or after `j` bearing this name.
pub open spec fn spec_find_col_from(cols: Seq<ColumnModel>, name: Seq<u8>, j: nat) -> Option<
    int,
>
    decreases cols.len() - j,
{
    if j >= cols.len() {
        Option::None
    } else if cols[j as int].name == name {
        Option::Some(j as int)
    } else {
        spec_find_col_from(cols, name, j + 1)
    }
}

/// Whether some column bears this name.
pub open spec fn spec_has_col(m: TableModel, name: Seq<u8>) -> bool {
    spec_find_col_from(m.cols, name, 0) is Some
}

/// The first column index bearing this name.
pub open spec fn spec_col_index(m: TableModel, name: Seq<u8>) -> int {
    spec_find_col_from(m.cols, name, 0)->Some_0
}

/// A scan over columns that all bear other names finds nothing.
pub proof fn lemma_find_col_from_none(cols: Seq<ColumnModel>, name: Seq<u8>, j: nat)
    requires
        forall|k: int| j <= k < cols.len() ==> (#[trigger] cols[k]).name != name,
    ensures
        spec_find_col_from(cols, name, j) is None,
    decreases cols.len() - j,
{
    if j < cols.len() {
        lemma_find_col_from_none(cols, name, j + 1);
    }
}

// ---------------------------------------------------------------------------
// Cloning (deep, model-preserving).
// ---------------------------------------------------------------------------

/// Copies a byte string.
pub fn clone_bytes(s: &Vec<u8>) -> (r: Vec<u8>)
    ensures
        r@ == s@,
{
    let mut out: Vec<u8> = Vec::new();
    let mut i: usize = 0;
    while i < s.len()
        invariant
            i <= s@.len(),
            out@ == s@.subrange(0, i as int),
        decreases s@.len() - i,
    {
        out.push(s[i]);
        i = i + 1;
        proof {
            assert(out@ =~= s@.subrange(0, i as int));
        }
    }
    proof {
        assert(out@ =~= s@);
    }
    out
}

impl UTFValue {
    /// Copies a value, nested tables included.
    pub fn duplicate(&self) -> (r: UTFValue)
        ensures
            r@ == self@,
        decreases *self,
    {
        match self {
            UTFValue::U8(x) => UTFValue::U8(*x),
            UTFValue::U16(x) => UTFValue::U16(*x),
            UTFValue::U32(x) => UTFValue::U32(*x),
            UTFValue::U64(x) => UTFValue::U64(*x),
            UTFValue::STRING(s) => UTFValue::STRING(clone_bytes(s)),
            UTFValue::BYTES(t) => UTFValue::BYTES(Box::new(t.duplicate())),
        }
    }
}

impl UTFColumn {
    /// Copies a column.
    pub fn duplicate(&self) -> (r: UTFColumn)
        ensures
            r@ == self@,
        decreases *self,
    {
        UTFColumn {
            name: clone_bytes(&self.name),
            dtype: self.dtype,
            storage: self.storage,
            value: match &self.value {
                Option::Some(v) => Option::Some(v.duplicate()),
                Option::None => Option::None,
            },
        }
    }
}

impl UTF {
    /// Copies a table.
    pub fn duplicate(&self) -> (r: UTF)
        ensures
            r@ == self@,
        decreases *self,
    {
        let mut cols: Vec<UTFColumn> = Vec::new();
        let mut i: usize = 0;
        while i < self.cols.len()
            invariant
                i <= self.cols@.len(),
                cols@.len() == i,
                forall|j: int| 0 <= j < i ==> col_model(#[trigger] cols@[j]) == col_model(
                    self.cols@[j],
                ),
            decreases self.cols@.len() - i,
        {
            let c = &self.cols[i];
            cols.push(c.duplicate());
            i = i + 1;
        }
        let mut rows: Vec<Vec<Option<UTFValue>>> = Vec::new();
        let mut r: usize = 0;
        while r < self.rows.len()
            invariant
                r <= self.rows@.len(),
                rows@.len() == r,
                forall|j: int| 0 <= j < r ==> row_model(#[trigger] rows@[j]) == row_model(
                    self.rows@[j],
                ),
            decreases self.rows@.len() - r,
        {
            let src = &self.rows[r];
            let mut row: Vec<Option<UTFValue>> = Vec::new();
            let mut c: usize = 0;
            while c < src.len()
                invariant
                    c <= src@.len(),
                    row@.len() == c,
                    forall|j: int| 0 <= j < c ==> cell_model(#[trigger] row@[j]) == cell_model(
                        src@[j],
                    ),
                decreases src@.len() - c,
            {
                let cell = match &src[c] {
                    Option::Some(v) => Option::Some(v.duplicate()),
                    Option::None => Option::None,
                };
                row.push(cell);
                c = c + 1;
            }
            proof {
                assert(row_model(row) =~= row_model(self.rows@[r as int]));
            }
            rows.push(row);
            r = r + 1;
        }
        let out = UTF {
            name: clone_bytes(&self.name),
            cols,
            rows,
            col_len: self.col_len,
            row_len: self.row_len,
            str_len: self.str_len,
        };
        proof {
            assert(out@.cols =~= self@.cols);
            assert(out@.rows =~= self@.rows);
            assert(out@ =~= self@);
        }
        out
    }
}

// ---------------------------------------------------------------------------
// Name lookup and mutation.
// ---------------------------------------------------------------------------

/// Whether two byte strings are equal.
pub fn bytes_eq(a: &[u8], b: &[u8]) -> (r: bool)
    ensures
        r == (a@ == b@),
{
    if a.len() != b.len() {
        proof {
            assert(a@.len() != b@.len());
        }
        return false;
    }
    let mut i: usize = 0;
    while i < a.len()
        invariant
            i <= a@.len(),
            a@.len() == b@.len(),
            forall|j: int| 0 <= j < i ==> a@[j] == b@[j],
        decreases a@.len() - i,
    {
        if a[i] != b[i] {
            return false;
        }
        i = i + 1;
    }
    proof {
        assert(a@ =~= b@);
    }
    true
}

impl UTF {
    /// Every row is exactly as wide as the schema.
    pub open spec fn rows_wide(self) -> bool {
        forall|i: int|
            0 <= i < self.rows@.len() ==> (#[trigger] self.rows@[i])@.len() == self.cols@.len()
    }

    /// Finds the first column with the given name.
    pub fn find_col(&self, name: &[u8]) -> (r: Option<usize>)
        ensures
            match r {
                Option::Some(i) => {
                    &&& 0 <= i < self@.cols.len()
                    &&& self@.cols[i as int].name == name@
                    &&& forall|j: int| 0 <= j < i ==> (#[trigger] self@.cols[j]).name != name@
                    &&& i == spec_col_index(self@, name@)
                    &&& spec_has_col(self@, name@)
                },
                Option::None => !spec_has_col(self@, name@),
            },
    {
        broadcast use group_model_lemmas;

        let n = self.cols.len();
        let mut i: usize = 0;
        while i < n
            invariant
                i <= n,
                n == self@.cols.len(),
                forall|j: int| 0 <= j < i ==> (#[trigger] self@.cols[j]).name != name@,
                spec_find_col_from(self@.cols, name@, 0) == spec_find_col_from(
                    self@.cols,
                    name@,
                    i as nat,
                ),
            decreases n - i,
        {
            if bytes_eq(self.cols[i].name.as_slice(), name) {
                proof {
                    let w = i as int;
                    assert(self@.cols[w].name == name@);
                    assert(spec_find_col_from(self@.cols, name@, i as nat) == Option::Some(w));
                }
                return Option::Some(i);
            }
            proof {
                assert(self@.cols[i as int].name != name@);
            }
            i = i + 1;
        }
        Option::None
    }

    /// Borrows the first column with the given name for mutation.
    /// The column must be present.
    pub fn get_col_mut(&mut self, name: &[u8]) -> (r: &mut UTFColumn)
        requires
            spec_has_col(old(self)@, name@),
        ensures
            *r == old(self).cols@[spec_col_index(old(self)@, name@)],
            final(self).cols@ == old(self).cols@.update(
                spec_col_index(old(self)@, name@),
                *final(r),
            ),
            final(self).name == old(self).name,
            final(self).rows == old(self).rows,
            final(self).col_len == old(self).col_len,
            final(self).row_len == old(self).row_len,
            final(self).str_len == old(self).str_len,
    {
        broadcast use group_model_lemmas;

        let idx = match self.find_col(name) {
            Option::Some(i) => i,
            Option::None => {
                proof {
                    assert(false);
                }
                0
            },
        };
        &mut self.cols[idx]
    }
}

/// Whether the value is of the kind the column type calls for.
pub fn fits(v: &UTFValue, d: UTFDataType) -> (r: bool)
    ensures
        r == value_fits(v@, d),
{
    match d {
        UTFDataType::U8 => matches!(v, UTFValue::U8(_)),
        UTFDataType::U8_2 => matches!(v, UTFValue::U8(_)),
        UTFDataType::U16 => matches!(v, UTFValue::U16(_)),
        UTFDataType::U16_2 => matches!(v, UTFValue::U16(_)),
        UTFDataType::U32 => matches!(v, UTFValue::U32(_)),
        UTFDataType::U32_2 => matches!(v, UTFValue::U32(_)),
        UTFDataType::U64 => matches!(v, UTFValue::U64(_)),
        UTFDataType::U64_2 => matches!(v, UTFValue::U64(_)),
        UTFDataType::STRING => matches!(v, UTFValue::STRING(_)),
        UTFDataType::BYTEARRAY => matches!(v, UTFValue::BYTES(_)),
    }
}

impl UTF {
    /// Adds a column. A CONSTANT column takes the given value as its
    /// shared value; a PER_ROW column back-fills the given value as a
    /// default into every existing row; NONE and ZERO columns store
    /// nothing. The name must not be taken, and a stored value must be
    /// of the column's kind.
    pub fn add_col(
        &mut self,
        name: Vec<u8>,
        dtype: UTFDataType,
        storage: UTFStorage,
        value: Option<UTFValue>,
    ) -> (r: Result<(), CpkError>)
        ensures
            spec_has_col(old(self)@, name@) ==> r == Err::<(), CpkError>(CpkError::DuplicateColumn)
                && *final(self) == *old(self),
            !spec_has_col(old(self)@, name@) && (storage is CONSTANT || storage is PER_ROW) && !(
            value is Some && value_fits(value->0@, dtype)) ==> r == Err::<(), CpkError>(
                CpkError::TypeMismatch,
            ) && *final(self) == *old(self),
            r is Ok ==> {
                &&& !spec_has_col(old(self)@, name@)
                &&& final(self)@.name == old(self)@.name
                &&& final(self)@.cols == old(self)@.cols.push(
                    ColumnModel {
                        name: name@,
                        dtype,
                        storage,
                        value: if storage is CONSTANT {
                            Option::Some(value->0@)
                        } else {
                            Option::None
                        },
                    },
                )
                &&& final(self)@.rows.len() == old(self)@.rows.len()
                &&& forall|i: int|
                    0 <= i < old(self)@.rows.len() ==> final(self)@.rows[i] == old(
                        self,
                    )@.rows[i].push(
                        if storage is PER_ROW {
                            Option::Some(value->0@)
                        } else {
                            Option::None
                        },
                    )
            },
            r is Ok <==> !spec_has_col(old(self)@, name@) && ((storage is CONSTANT || storage
                is PER_ROW) ==> value is Some && value_fits(value->0@, dtype)),
            r is Ok && old(self).rows_wide() ==> final(self).rows_wide(),
    {
        broadcast use group_model_lemmas;

        if let Option::Some(_) = self.find_col(name.as_slice()) {
            return Err(CpkError::DuplicateColumn);
        }
        if matches!(storage, UTFStorage::CONSTANT) || matches!(storage, UTFStorage::PER_ROW) {
            match &value {
                Option::Some(v) => {
                    if !fits(v, dtype) {
                        return Err(CpkError::TypeMismatch);
                    }
                },
                Option::None => {
                    return Err(CpkError::TypeMismatch);
                },
            }
        }
        let per_row = matches!(storage, UTFStorage::PER_ROW);
        let ghost cellm: Option<ValueModel> = if per_row {
            Option::Some(value->0@)
        } else {
            Option::None
        };
        let mut i: usize = 0;
        while i < self.rows.len()
            invariant
                i <= self.rows@.len(),
                self.rows@.len() == old(self).rows@.len(),
                self.name == old(self).name,
                self.cols == old(self).cols,
                self.col_len == old(self).col_len,
                self.row_len == old(self).row_len,
                self.str_len == old(self).str_len,
                per_row ==> value is Some,
                forall|j: int|
                    0 <= j < i ==> row_model(#[trigger] self.rows@[j]) == row_model(
                        old(self).rows@[j],
                    ).push(cellm),
                forall|j: int|
                    i <= j < self.rows@.len() ==> #[trigger] self.rows@[j] == old(
                        self,
                    ).rows@[j],
            decreases self.rows@.len() - i,
        {
            let cell: Option<UTFValue> = if per_row {
                match &value {
                    Option::Some(v) => Option::Some(v.duplicate()),
                    Option::None => Option::None,
                }
            } else {
                Option::None
            };
            proof {
                assert(cell_model(cell) == cellm);
            }
            let row = &mut self.rows[i];
            row.push(cell);
            i = i + 1;
            proof {
                assert(row_model(self.rows@[i - 1]) =~= row_model(
                    old(self).rows@[i - 1],
                ).push(cellm));
            }
        }
        let col_val: Option<UTFValue> = if matches!(storage, UTFStorage::CONSTANT) {
            value
        } else {
            Option::None
        };
        self.cols.push(
            UTFColumn { name, dtype, storage, value: col_val },
        );
        proof {
            assert(self@.cols =~= old(self)@.cols.push(
                ColumnModel {
                    name: name@,
                    dtype,
                    storage,
                    value: if storage is CONSTANT {
                        Option::Some(value->0@)
                    } else {
                        Option::None
                    },
                },
            ));
            assert forall|i2: int| 0 <= i2 < old(self)@.rows.len() implies self@.rows[i2] == old(
                self,
            )@.rows[i2].push(cellm) by {
                assert(row_model(self.rows@[i2]) == row_model(old(self).rows@[i2]).push(cellm));
                assert(self@.rows[i2] == row_model(self.rows@[i2]));
                assert(old(self)@.rows[i2] == row_model(old(self).rows@[i2]));
            }
        }
        Ok(())
    }

    /// Removes the first column with the given name, and the matching
    /// cell of every row, so that every remaining column's index stays
    /// valid and contiguous.
    pub fn remove_column(&mut self, name: &[u8]) -> (r: Result<(), CpkError>)
        requires
            old(self).rows_wide(),
        ensures
            r is Ok <==> spec_has_col(old(self)@, name@),
            r is Err ==> r == Err::<(), CpkError>(CpkError::MissingColumn) && *final(self)
                == *old(self),
            r is Ok ==> {
                &&& final(self)@.name == old(self)@.name
                &&& final(self)@.cols == old(self)@.cols.remove(
                    spec_col_index(old(self)@, name@),
                )
                &&& final(self)@.rows.len() == old(self)@.rows.len()
                &&& forall|i: int|
                    0 <= i < old(self)@.rows.len() ==> final(self)@.rows[i] == old(
                        self,
                    )@.rows[i].remove(spec_col_index(old(self)@, name@))
            },
            r is Ok ==> final(self).rows_wide(),
            r is Ok && (forall|j: int|
                0 <= j < old(self)@.cols.len() && j != spec_col_index(old(self)@, name@) ==> (
                #[trigger] old(self)@.cols[j]).name != name@) ==> !spec_has_col(
                final(self)@,
                name@,
            ),
    {
        broadcast use group_model_lemmas;

        let idx = match self.find_col(name) {
            Option::Some(i) => i,
            Option::None => {
                return Err(CpkError::MissingColumn);
            },
        };
        self.cols.remove(idx);
        let ghost mid = *self;
        let mut i: usize = 0;
        while i < self.rows.len()
            invariant
                i <= self.rows@.len(),
                idx < old(self)@.cols.len(),
                self.rows@.len() == old(self).rows@.len(),
                self.name == mid.name,
                self.cols == mid.cols,
                self.col_len == mid.col_len,
                self.row_len == mid.row_len,
                self.str_len == mid.str_len,
                forall|j: int|
                    0 <= j < i ==> row_model(#[trigger] self.rows@[j]) == row_model(
                        old(self).rows@[j],
                    ).remove(idx as int),
                forall|j: int|
                    i <= j < self.rows@.len() ==> #[trigger] self.rows@[j] == old(
                        self,
                    ).rows@[j],
            decreases self.rows@.len() - i,
        {
            let row = &mut self.rows[i];
            row.remove(idx);
            i = i + 1;
            proof {
                assert(row_model(self.rows@[i - 1]) =~= row_model(
                    old(self).rows@[i - 1],
                ).remove(idx as int));
            }
        }
        proof {
            assert(self@.cols =~= old(self)@.cols.remove(spec_col_index(old(self)@, name@)));
            assert forall|j: int| 0 <= j < old(self)@.rows.len() implies self@.rows[j] == old(
                self,
            )@.rows[j].remove(spec_col_index(old(self)@, name@)) by {
                assert(row_model(self.rows@[j]) == row_model(old(self).rows@[j]).remove(
                    idx as int,
                ));
                assert(old(self)@.rows[j] == row_model(old(self).rows@[j]));
                assert(old(self)@.rows[j].remove(idx as int) =~= row_model(
                    old(self).rows@[j],
                ).remove(idx as int));
            }
            let gidx = spec_col_index(old(self)@, name@);
            if forall|j: int|
                0 <= j < old(self)@.cols.len() && j != gidx ==> (#[trigger] old(
                    self,
                )@.cols[j]).name != name@ {
                assert forall|k: int| 0 <= k < self@.cols.len() implies (
                #[trigger] self@.cols[k]).name != name@ by {
                    if k < gidx {
                        assert(self@.cols[k] == old(self)@.cols[k]);
                    } else {
                        assert(self@.cols[k] == old(self)@.cols[k + 1]);
                    }
                }
                lemma_find_col_from_none(self@.cols, name@, 0);
            }
        }
        Ok(())
    }

    /// Reads the cell of the named column in the given row. A missing
    /// column, or a column that stores no per-row value, is a lookup
    /// error; so is a row index out of range.
    pub fn get_cell(&self, row: usize, name: &[u8]) -> (r: Result<&UTFValue, CpkError>)
        ensures
            !spec_has_col(self@, name@) ==> r == Err::<&UTFValue, CpkError>(
                CpkError::MissingColumn,
            ),
            spec_has_col(self@, name@) && row >= self@.rows.len() ==> r == Err::<
                &UTFValue,
                CpkError,
            >(CpkError::OutOfBounds),
            spec_has_col(self@, name@) && row < self@.rows.len() ==> {
                let idx = spec_col_index(self@, name@);
                if idx < self@.rows[row as int].len() && self@.rows[row as int][idx] is Some {
                    r is Ok && value_model(*r->Ok_0) == self@.rows[row as int][idx]->0
                } else {
                    r == Err::<&UTFValue, CpkError>(CpkError::MissingColumn)
                }
            },
    {
        broadcast use group_model_lemmas;

        let idx = match self.find_col(name) {
            Option::Some(i) => i,
            Option::None => {
                return Err(CpkError::MissingColumn);
            },
        };
        if row >= self.rows.len() {
            return Err(CpkError::OutOfBounds);
        }
        let cells = &self.rows[row];
        if idx >= cells.len() {
            return Err(CpkError::MissingColumn);
        }
        match &cells[idx] {
            Option::Some(v) => Ok(v),
            Option::None => Err(CpkError::MissingColumn),
        }
    }

    /// Writes the cell of the named PER_ROW column in the given row.
    /// The value must be of the column's kind; a missing column is a
    /// lookup error.
    pub fn set_cell(&mut self, row: usize, name: &[u8], v: UTFValue) -> (r: Result<
        (),
        CpkError,
    >)
        requires
            old(self).rows_wide(),
        ensures
            !spec_has_col(old(self)@, name@) ==> r == Err::<(), CpkError>(
                CpkError::MissingColumn,
            ) && *final(self) == *old(self),
            spec_has_col(old(self)@, name@) && row >= old(self)@.rows.len() ==> r == Err::<
                (),
                CpkError,
            >(CpkError::OutOfBounds),
            spec_has_col(old(self)@, name@) && row < old(self)@.rows.len() && !(old(self)@.cols[
                spec_col_index(old(self)@, name@)
            ].storage is PER_ROW && value_fits(
                v@,
                old(self)@.cols[spec_col_index(old(self)@, name@)].dtype,
            )) ==> r == Err::<(), CpkError>(CpkError::TypeMismatch),
            r is Ok <==> spec_has_col(old(self)@, name@) && row < old(self)@.rows.len() && old(
                self,
            )@.cols[spec_col_index(old(self)@, name@)].storage is PER_ROW && value_fits(
                v@,
                old(self)@.cols[spec_col_index(old(self)@, name@)].dtype,
            ),
            r is Ok ==> {
                let idx = spec_col_index(old(self)@, name@);
                &&& final(self)@.name == old(self)@.name
                &&& final(self)@.cols == old(self)@.cols
                &&& final(self)@.rows == old(self)@.rows.update(
                    row as int,
                    old(self)@.rows[row as int].update(idx, Option::Some(v@)),
                )
            },
            r is Err ==> *final(self) == *old(self),
            r is Ok ==> final(self).rows_wide(),
    {
        broadcast use group_model_lemmas;

        let idx = match self.find_col(name) {
            Option::Some(i) => i,
            Option::None => {
                return Err(CpkError::MissingColumn);
            },
        };
        if row >= self.rows.len() {
            return Err(CpkError::OutOfBounds);
        }
        let storage = self.cols[idx].storage;
        if !matches!(storage, UTFStorage::PER_ROW) {
            return Err(CpkError::TypeMismatch);
        }
        let dtype = self.cols[idx].dtype;
        if !fits(&v, dtype) {
            return Err(CpkError::TypeMismatch);
        }
        let cells = &mut self.rows[row];
        cells.set(idx, Option::Some(v));
        proof {
            assert(self@.cols =~= old(self)@.cols);
            assert(row_model(self.rows@[row as int]) =~= row_model(
                old(self).rows@[row as int],
            ).update(idx as int, Option::Some(v@)));
            assert(self@.rows =~= old(self)@.rows.update(
                row as int,
                old(self)@.rows[row as int].update(idx as int, Option::Some(v@)),
            ));
        }
        Ok(())
    }

    /// Turns the named column into implicit-default (ZERO) storage,
    /// dropping its constant value and every per-row cell of it.
    pub fn zero_column(&mut self, name: &[u8]) -> (r: Result<(), CpkError>)
        requires
            old(self).rows_wide(),
        ensures
            r is Ok <==> spec_has_col(old(self)@, name@),
            r is Err ==> r == Err::<(), CpkError>(CpkError::MissingColumn) && *final(self)
                == *old(self),
            r is Ok ==> {
                let idx = spec_col_index(old(self)@, name@);
                &&& final(self)@.name == old(self)@.name
                &&& final(self)@.cols == old(self)@.cols.update(
                    idx,
                    ColumnModel {
                        storage: UTFStorage::ZERO,
                        value: Option::None,
                        ..old(self)@.cols[idx]
                    },
                )
                &&& final(self)@.rows.len() == old(self)@.rows.len()
                &&& forall|i: int|
                    0 <= i < old(self)@.rows.len() ==> final(self)@.rows[i] == old(
                        self,
                    )@.rows[i].update(idx, Option::None::<ValueModel>)
            },
            r is Ok ==> final(self).rows_wide(),
    {
        broadcast use group_model_lemmas;

        let idx = match self.find_col(name) {
            Option::Some(i) => i,
            Option::None => {
                return Err(CpkError::MissingColumn);
            },
        };
        {
            let col = &mut self.cols[idx];
            col.storage = UTFStorage::ZERO;
            col.value = Option::None;
        }
        let ghost mid = *self;
        let mut i: usize = 0;
        while i < self.rows.len()
            invariant
                i <= self.rows@.len(),
                idx < old(self)@.cols.len(),
                self.rows@.len() == old(self).rows@.len(),
                self.name == mid.name,
                self.cols == mid.cols,
                self.col_len == mid.col_len,
                self.row_len == mid.row_len,
                self.str_len == mid.str_len,
                forall|j: int|
                    0 <= j < i ==> row_model(#[trigger] self.rows@[j]) == row_model(
                        old(self).rows@[j],
                    ).update(idx as int, Option::None::<ValueModel>),
                forall|j: int|
                    i <= j < self.rows@.len() ==> #[trigger] self.rows@[j] == old(
                        self,
                    ).rows@[j],
            decreases self.rows@.len() - i,
        {
            let row = &mut self.rows[i];
            row.set(idx, Option::None);
            i = i + 1;
            proof {
                assert(row_model(self.rows@[i - 1]) =~= row_model(
                    old(self).rows@[i - 1],
                ).update(idx as int, Option::None::<ValueModel>));
            }
        }
        proof {
            let gidx = spec_col_index(old(self)@, name@);
            assert(self@.cols =~= old(self)@.cols.update(
                gidx,
                ColumnModel {
                    storage: UTFStorage::ZERO,
                    value: Option::None,
                    ..old(self)@.cols[gidx]
                },
            ));
            assert forall|j: int| 0 <= j < old(self)@.rows.len() implies self@.rows[j] == old(
                self,
            )@.rows[j].update(gidx, Option::None::<ValueModel>) by {
                assert(row_model(self.rows@[j]) == row_model(old(self).rows@[j]).update(
                    idx as int,
                    Option::None::<ValueModel>,
                ));
                assert(old(self)@.rows[j].update(gidx, Option::None::<ValueModel>) =~=
                    row_model(old(self).rows@[j]).update(idx as int, Option::None::<ValueModel>));
            }
        }
        Ok(())
    }
}

} // verus!
