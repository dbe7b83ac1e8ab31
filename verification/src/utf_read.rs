//! Decoding a table from bytes.
//!
//! The layout is specified once, by the mutually recursive `spec_parse_*`
//! functions over byte sequences; the executable reader is proved to
//! return exactly what they denote. A nested table may appear as a value,
//! so parsing carries a recursion budget; exceeding it is refused, never
//! chased.

use vstd::prelude::*;

use crate::bytes::{spec_be16, spec_be32, spec_be64, spec_cstr};
use crate::error::CpkError;
use crate::utf::{
    cell_model, col_model, cols_model, group_model_lemmas, row_model, rows_model,
    spec_parse_flags, table_model, ColumnModel, TableModel, UTFColumn, UTFDataType, UTFStorage,
    UTFValue, ValueModel, UTF,
};

verus! {

/// The table magic, "@UTF".
pub open spec fn utf_magic() -> Seq<u8> {
    seq![0x40u8, 0x55u8, 0x54u8, 0x46u8]
}

/// How deep nested tables are followed before the decoder refuses.
pub open spec fn spec_nest_depth() -> nat {
    8
}

/// Ceiling on the read positions the decoder can reach with `fuel`
/// levels of nesting left: each level moves at most two 32-bit offsets
/// past a position that started inside the buffer.
pub open spec fn spec_pos_bound(fuel: nat) -> int {
    0x10000000000000000 + (8 - fuel) * 0x4000000000000
}

/// One value of type `d` at `pos`: integers are big-endian at their
/// width, a string is a 4-byte offset into the strings region, a nested
/// table is an offset/size pair into the data region.
pub open spec fn spec_parse_value(
    data: Seq<u8>,
    pos: int,
    d: UTFDataType,
    str_abs: int,
    data_abs: int,
    fuel: nat,
) -> Result<(ValueModel, int), CpkError>
    decreases fuel, 0nat, 0nat,
{
    match d {
        UTFDataType::U8 | UTFDataType::U8_2 => {
            if pos < 0 || pos + 1 > data.len() {
                Err(CpkError::OutOfBounds)
            } else {
                Ok((ValueModel::U8(data[pos]), pos + 1))
            }
        },
        UTFDataType::U16 | UTFDataType::U16_2 => {
            if pos < 0 || pos + 2 > data.len() {
                Err(CpkError::OutOfBounds)
            } else {
                Ok((ValueModel::U16(spec_be16(data.subrange(pos, pos + 2)) as u16), pos + 2))
            }
        },
        UTFDataType::U32 | UTFDataType::U32_2 => {
            if pos < 0 || pos + 4 > data.len() {
                Err(CpkError::OutOfBounds)
            } else {
                Ok((ValueModel::U32(spec_be32(data.subrange(pos, pos + 4)) as u32), pos + 4))
            }
        },
        UTFDataType::U64 | UTFDataType::U64_2 => {
            if pos < 0 || pos + 8 > data.len() {
                Err(CpkError::OutOfBounds)
            } else {
                Ok((ValueModel::U64(spec_be64(data.subrange(pos, pos + 8)) as u64), pos + 8))
            }
        },
        UTFDataType::STRING => {
            if pos < 0 || pos + 4 > data.len() {
                Err(CpkError::OutOfBounds)
            } else {
                let off = spec_be32(data.subrange(pos, pos + 4));
                match spec_cstr(data, str_abs + off) {
                    Err(e) => Err(e),
                    Ok(s) => Ok((ValueModel::STRING(s), pos + 4)),
                }
            }
        },
        UTFDataType::BYTEARRAY => {
            if pos < 0 || pos + 8 > data.len() {
                Err(CpkError::OutOfBounds)
            } else if fuel == 0 {
                Err(CpkError::Unsupported)
            } else {
                let off = spec_be32(data.subrange(pos, pos + 4));
                match spec_parse_table(data, data_abs + off, (fuel - 1) as nat) {
                    Err(e) => Err(e),
                    Ok(t) => Ok((ValueModel::BYTES(t), pos + 8)),
                }
            }
        },
    }
}

/// One column descriptor at `pos`: a flags byte (a zero flags byte is a
/// legacy 3-byte padding skip before the real flags byte), a 4-byte
/// name offset, and, for CONSTANT storage, the embedded value.
pub open spec fn spec_parse_col(
    data: Seq<u8>,
    pos: int,
    str_abs: int,
    data_abs: int,
    fuel: nat,
) -> Result<(ColumnModel, int), CpkError>
    decreases fuel, 1nat, 0nat,
{
    if pos < 0 || pos >= data.len() {
        Err(CpkError::OutOfBounds)
    } else {
        let flags0 = data[pos];
        let flagpos: int = if flags0 == 0 {
            pos + 4
        } else {
            pos
        };
        if flagpos >= data.len() {
            Err(CpkError::OutOfBounds)
        } else {
            let flags = data[flagpos];
            match spec_parse_flags(flags) {
                Err(e) => Err(e),
                Ok((dtype, storage)) => {
                    let p = flagpos + 1;
                    if p + 4 > data.len() {
                        Err(CpkError::OutOfBounds)
                    } else {
                        let name_off = spec_be32(data.subrange(p, p + 4));
                        match spec_cstr(data, str_abs + name_off) {
                            Err(e) => Err(e),
                            Ok(name) => {
                                if storage is CONSTANT {
                                    match spec_parse_value(
                                        data,
                                        p + 4,
                                        dtype,
                                        str_abs,
                                        data_abs,
                                        fuel,
                                    ) {
                                        Err(e) => Err(e),
                                        Ok((v, p2)) => Ok(
                                            (
                                                ColumnModel {
                                                    name,
                                                    dtype,
                                                    storage,
                                                    value: Option::Some(v),
                                                },
                                                p2,
                                            ),
                                        ),
                                    }
                                } else {
                                    Ok(
                                        (
                                            ColumnModel {
                                                name,
                                                dtype,
                                                storage,
                                                value: Option::None,
                                            },
                                            p + 4,
                                        ),
                                    )
                                }
                            },
                        }
                    }
                },
            }
        }
    }
}

/// `n` column descriptors in sequence starting at `pos`.
pub open spec fn spec_parse_cols(
    data: Seq<u8>,
    pos: int,
    n: nat,
    str_abs: int,
    data_abs: int,
    fuel: nat,
) -> Result<(Seq<ColumnModel>, int), CpkError>
    decreases fuel, 2nat, n,
{
    if n == 0 {
        Ok((Seq::empty(), pos))
    } else {
        match spec_parse_col(data, pos, str_abs, data_abs, fuel) {
            Err(e) => Err(e),
            Ok((c, p2)) => {
                match spec_parse_cols(data, p2, (n - 1) as nat, str_abs, data_abs, fuel) {
                    Err(e) => Err(e),
                    Ok((rest, pend)) => Ok((seq![c] + rest, pend)),
                }
            },
        }
    }
}

/// The cells of one row from column `ci` on, reading a value for each
/// PER_ROW column in declaration order and nothing for the others.
pub open spec fn spec_parse_cells(
    data: Seq<u8>,
    pos: int,
    cols: Seq<ColumnModel>,
    ci: nat,
    str_abs: int,
    data_abs: int,
    fuel: nat,
) -> Result<Seq<Option<ValueModel>>, CpkError>
    decreases fuel, 1nat, cols.len() - ci,
{
    if ci >= cols.len() {
        Ok(Seq::empty())
    } else {
        let c = cols[ci as int];
        if c.storage is PER_ROW {
            match spec_parse_value(data, pos, c.dtype, str_abs, data_abs, fuel) {
                Err(e) => Err(e),
                Ok((v, p2)) => {
                    match spec_parse_cells(data, p2, cols, ci + 1, str_abs, data_abs, fuel) {
                        Err(e) => Err(e),
                        Ok(rest) => Ok(seq![Option::Some(v)] + rest),
                    }
                },
            }
        } else {
            match spec_parse_cells(data, pos, cols, ci + 1, str_abs, data_abs, fuel) {
                Err(e) => Err(e),
                Ok(rest) => Ok(seq![Option::None] + rest),
            }
        }
    }
}

/// Rows `r` to `nrows`, each starting `row_len` bytes after the one
/// before at the rows region.
pub open spec fn spec_parse_rows(
    data: Seq<u8>,
    rows_abs: int,
    row_len: int,
    cols: Seq<ColumnModel>,
    r: nat,
    nrows: nat,
    str_abs: int,
    data_abs: int,
    fuel: nat,
) -> Result<Seq<Seq<Option<ValueModel>>>, CpkError>
    decreases fuel, 2nat, nrows - r,
{
    if r >= nrows {
        Ok(Seq::empty())
    } else {
        match spec_parse_cells(data, rows_abs + row_len * r, cols, 0, str_abs, data_abs, fuel) {
            Err(e) => Err(e),
            Ok(cells) => {
                match spec_parse_rows(
                    data,
                    rows_abs,
                    row_len,
                    cols,
                    r + 1,
                    nrows,
                    str_abs,
                    data_abs,
                    fuel,
                ) {
                    Err(e) => Err(e),
                    Ok(rest) => Ok(seq![cells] + rest),
                }
            },
        }
    }
}

/// A whole table at `pos`: the magic, the header fields (big-endian,
/// offsets relative to the position right after the size field), the
/// table name, the column descriptors, then the rows.
pub open spec fn spec_parse_table(data: Seq<u8>, pos: int, fuel: nat) -> Result<
    TableModel,
    CpkError,
>
    decreases fuel, 3nat, 0nat,
{
    if fuel == 0 {
        Err(CpkError::Unsupported)
    } else if pos < 0 || pos + 4 > data.len() {
        Err(CpkError::OutOfBounds)
    } else if data.subrange(pos, pos + 4) != utf_magic() {
        Err(CpkError::BadMagic)
    } else if pos + 32 > data.len() {
        Err(CpkError::OutOfBounds)
    } else {
        let base = pos + 8;
        let rows_abs = base + spec_be32(data.subrange(pos + 8, pos + 12));
        let str_abs = base + spec_be32(data.subrange(pos + 12, pos + 16));
        let data_abs = base + spec_be32(data.subrange(pos + 16, pos + 20));
        let name_off = spec_be32(data.subrange(pos + 20, pos + 24));
        let ncols = spec_be16(data.subrange(pos + 24, pos + 26));
        let row_len = spec_be16(data.subrange(pos + 26, pos + 28));
        let nrows = spec_be32(data.subrange(pos + 28, pos + 32));
        match spec_cstr(data, str_abs + name_off) {
            Err(e) => Err(e),
            Ok(name) => {
                match spec_parse_cols(data, pos + 32, ncols as nat, str_abs, data_abs, fuel) {
                    Err(e) => Err(e),
                    Ok((cols, _)) => {
                        match spec_parse_rows(
                            data,
                            rows_abs,
                            row_len as int,
                            cols,
                            0,
                            nrows as nat,
                            str_abs,
                            data_abs,
                            fuel,
                        ) {
                            Err(e) => Err(e),
                            Ok(rows) => Ok(TableModel { name, cols, rows }),
                        }
                    },
                }
            },
        }
    }
}

/// Reads one value of type `d` at `pos`.
fn read_value(data: &[u8], pos: u128, d: UTFDataType, str_abs: u128, data_abs: u128, fuel: u32)
    -> (r: Result<(UTFValue, u128), CpkError>)
    requires
        fuel <= 8,
        pos < spec_pos_bound(fuel as nat) + 0x2000000000000,
        str_abs < spec_pos_bound(fuel as nat) + 0x2000000000000,
        data_abs < spec_pos_bound(fuel as nat) + 0x2000000000000,
    ensures
        match r {
            Ok((v, p2)) => spec_parse_value(
                data@,
                pos as int,
                d,
                str_abs as int,
                data_abs as int,
                fuel as nat,
            ) == Ok::<(ValueModel, int), CpkError>((v@, p2 as int)) && p2 <= data@.len(),
            Err(e) => spec_parse_value(
                data@,
                pos as int,
                d,
                str_abs as int,
                data_abs as int,
                fuel as nat,
            ) == Err::<(ValueModel, int), CpkError>(e),
        },
    decreases fuel, 0nat,
{
    let len = data.len();
    match d {
        UTFDataType::U8 | UTFDataType::U8_2 => {
            if pos + 1 > len as u128 {
                Err(CpkError::OutOfBounds)
            } else {
                Ok((UTFValue::U8(data[pos as usize]), pos + 1))
            }
        },
        UTFDataType::U16 | UTFDataType::U16_2 => {
            if pos + 2 > len as u128 {
                Err(CpkError::OutOfBounds)
            } else {
                Ok((UTFValue::U16(crate::bytes::be16_at(data, pos as usize)), pos + 2))
            }
        },
        UTFDataType::U32 | UTFDataType::U32_2 => {
            if pos + 4 > len as u128 {
                Err(CpkError::OutOfBounds)
            } else {
                Ok((UTFValue::U32(crate::bytes::be32_at(data, pos as usize)), pos + 4))
            }
        },
        UTFDataType::U64 | UTFDataType::U64_2 => {
            if pos + 8 > len as u128 {
                Err(CpkError::OutOfBounds)
            } else {
                Ok((UTFValue::U64(crate::bytes::be64_at(data, pos as usize)), pos + 8))
            }
        },
        UTFDataType::STRING => {
            if pos + 4 > len as u128 {
                Err(CpkError::OutOfBounds)
            } else {
                let off = crate::bytes::be32_at(data, pos as usize);
                let s = str_abs + off as u128;
                if s >= len as u128 {
                    return Err(CpkError::OutOfBounds);
                }
                match crate::bytes::read_cstring(data, s as usize) {
                    Ok(v) => Ok((UTFValue::STRING(v), pos + 4)),
                    Err(e) => Err(e),
                }
            }
        },
        UTFDataType::BYTEARRAY => {
            if pos + 8 > len as u128 {
                Err(CpkError::OutOfBounds)
            } else if fuel == 0 {
                Err(CpkError::Unsupported)
            } else {
                let off = crate::bytes::be32_at(data, pos as usize);
                match read_table_at(data, data_abs + off as u128, fuel - 1) {
                    Ok(t) => Ok((UTFValue::BYTES(Box::new(t)), pos + 8)),
                    Err(e) => Err(e),
                }
            }
        },
    }
}

/// Reads one column descriptor at `pos`.
fn read_col(data: &[u8], pos: u128, str_abs: u128, data_abs: u128, fuel: u32) -> (r: Result<
    (UTFColumn, u128),
    CpkError,
>)
    requires
        fuel <= 8,
        pos < spec_pos_bound(fuel as nat) + 0x2000000000000,
        str_abs < spec_pos_bound(fuel as nat) + 0x2000000000000,
        data_abs < spec_pos_bound(fuel as nat) + 0x2000000000000,
    ensures
        match r {
            Ok((c, p2)) => spec_parse_col(
                data@,
                pos as int,
                str_abs as int,
                data_abs as int,
                fuel as nat,
            ) == Ok::<(ColumnModel, int), CpkError>((c@, p2 as int)) && p2 <= data@.len(),
            Err(e) => spec_parse_col(
                data@,
                pos as int,
                str_abs as int,
                data_abs as int,
                fuel as nat,
            ) == Err::<(ColumnModel, int), CpkError>(e),
        },
    decreases fuel, 1nat,
{
    let len = data.len();
    if pos >= len as u128 {
        return Err(CpkError::OutOfBounds);
    }
    let flags0 = data[pos as usize];
    let flagpos: u128 = if flags0 == 0 {
        pos + 4
    } else {
        pos
    };
    if flagpos >= len as u128 {
        return Err(CpkError::OutOfBounds);
    }
    let flags = data[flagpos as usize];
    let (dtype, storage) = match crate::utf::parse_flags(flags) {
        Ok(ds) => ds,
        Err(e) => {
            return Err(e);
        },
    };
    let p = flagpos + 1;
    if p + 4 > len as u128 {
        return Err(CpkError::OutOfBounds);
    }
    let name_off = crate::bytes::be32_at(data, p as usize);
    let s = str_abs + name_off as u128;
    if s >= len as u128 {
        return Err(CpkError::OutOfBounds);
    }
    let name = match crate::bytes::read_cstring(data, s as usize) {
        Ok(v) => v,
        Err(e) => {
            return Err(e);
        },
    };
    if matches!(storage, UTFStorage::CONSTANT) {
        match read_value(data, p + 4, dtype, str_abs, data_abs, fuel) {
            Ok((v, p2)) => Ok(
                (UTFColumn { name, dtype, storage, value: Option::Some(v) }, p2),
            ),
            Err(e) => Err(e),
        }
    } else {
        Ok((UTFColumn { name, dtype, storage, value: Option::None }, p + 4))
    }
}

/// Reads the cells of one row starting at `rp`.
fn read_cells(
    data: &[u8],
    rp: u128,
    cols: &Vec<UTFColumn>,
    str_abs: u128,
    data_abs: u128,
    fuel: u32,
) -> (r: Result<Vec<Option<UTFValue>>, CpkError>)
    requires
        fuel <= 8,
        rp < spec_pos_bound(fuel as nat) + 0x2000000000000,
        str_abs < spec_pos_bound(fuel as nat) + 0x2000000000000,
        data_abs < spec_pos_bound(fuel as nat) + 0x2000000000000,
    ensures
        match r {
            Ok(row) => spec_parse_cells(
                data@,
                rp as int,
                cols_model(*cols),
                0,
                str_abs as int,
                data_abs as int,
                fuel as nat,
            ) == Ok::<Seq<Option<ValueModel>>, CpkError>(row_model(row)),
            Err(e) => spec_parse_cells(
                data@,
                rp as int,
                cols_model(*cols),
                0,
                str_abs as int,
                data_abs as int,
                fuel as nat,
            ) == Err::<Seq<Option<ValueModel>>, CpkError>(e),
        },
    decreases fuel, 1nat,
{
    broadcast use group_model_lemmas;

    let _dn = data.len();
    let ghost sa = str_abs as int;
    let ghost da = data_abs as int;
    let ghost f = fuel as nat;
    let mut row: Vec<Option<UTFValue>> = Vec::new();
    let mut vp: u128 = rp;
    let mut ci: usize = 0;
    proof {
        assert(row_model(row) + spec_parse_cells(data@, rp as int, cols_model(*cols), 0, sa, da, f)
            ->Ok_0 =~= spec_parse_cells(data@, rp as int, cols_model(*cols), 0, sa, da, f)
            ->Ok_0);
    }
    while ci < cols.len()
        invariant
            ci <= cols@.len(),
            row@.len() == ci,
            vp < spec_pos_bound(fuel as nat) + 0x2000000000000,
            (match spec_parse_cells(data@, rp as int, cols_model(*cols), 0, sa, da, f) {
                Ok(cells) => spec_parse_cells(
                    data@,
                    vp as int,
                    cols_model(*cols),
                    ci as nat,
                    sa,
                    da,
                    f,
                ) is Ok && cells == row_model(row) + spec_parse_cells(
                    data@,
                    vp as int,
                    cols_model(*cols),
                    ci as nat,
                    sa,
                    da,
                    f,
                )->Ok_0,
                Err(e) => spec_parse_cells(
                    data@,
                    vp as int,
                    cols_model(*cols),
                    ci as nat,
                    sa,
                    da,
                    f,
                ) == Err::<Seq<Option<ValueModel>>, CpkError>(e),
            }),
        decreases cols@.len() - ci,
    {
        let ghost pre_row = row_model(row);
        let per_row = matches!(cols[ci].storage, UTFStorage::PER_ROW);
        proof {
            assert(cols_model(*cols)[ci as int] == col_model(cols@[ci as int]));
        }
        let cell: Option<UTFValue> = if per_row {
            let (v, p2) = match read_value(data, vp, cols[ci].dtype, str_abs, data_abs, fuel) {
                Ok(x) => x,
                Err(e) => {
                    return Err(e);
                },
            };
            vp = p2;
            Option::Some(v)
        } else {
            Option::None
        };
        let ghost cm = cell_model(cell);
        row.push(cell);
        ci = ci + 1;
        proof {
            assert(row_model(row) =~= pre_row + seq![cm]);
            let rest = spec_parse_cells(data@, vp as int, cols_model(*cols), ci as nat, sa, da, f);
            if rest is Ok {
                assert((pre_row + seq![cm]) + rest->Ok_0 =~= pre_row + (seq![cm] + rest->Ok_0));
            }
        }
    }
    proof {
        assert(row_model(row) + Seq::<Option<ValueModel>>::empty() =~= row_model(row));
    }
    Ok(row)
}

/// Reads all rows of the rows region.
fn read_rows(
    data: &[u8],
    rows_abs: u128,
    row_len: u16,
    cols: &Vec<UTFColumn>,
    nrows: u32,
    str_abs: u128,
    data_abs: u128,
    fuel: u32,
) -> (r: Result<Vec<Vec<Option<UTFValue>>>, CpkError>)
    requires
        fuel <= 8,
        rows_abs < spec_pos_bound(fuel as nat) + 0x1000000000000,
        str_abs < spec_pos_bound(fuel as nat) + 0x2000000000000,
        data_abs < spec_pos_bound(fuel as nat) + 0x2000000000000,
    ensures
        match r {
            Ok(rows) => spec_parse_rows(
                data@,
                rows_abs as int,
                row_len as int,
                cols_model(*cols),
                0,
                nrows as nat,
                str_abs as int,
                data_abs as int,
                fuel as nat,
            ) == Ok::<Seq<Seq<Option<ValueModel>>>, CpkError>(rows_model(rows)),
            Err(e) => spec_parse_rows(
                data@,
                rows_abs as int,
                row_len as int,
                cols_model(*cols),
                0,
                nrows as nat,
                str_abs as int,
                data_abs as int,
                fuel as nat,
            ) == Err::<Seq<Seq<Option<ValueModel>>>, CpkError>(e),
        },
    decreases fuel, 2nat,
{
    broadcast use group_model_lemmas;

    let ghost sa = str_abs as int;
    let ghost da = data_abs as int;
    let ghost f = fuel as nat;
    let mut rows: Vec<Vec<Option<UTFValue>>> = Vec::new();
    let mut rx: u32 = 0;
    proof {
        assert(rows_model(rows) + spec_parse_rows(
            data@,
            rows_abs as int,
            row_len as int,
            cols_model(*cols),
            0,
            nrows as nat,
            sa,
            da,
            f,
        )->Ok_0 =~= spec_parse_rows(
            data@,
            rows_abs as int,
            row_len as int,
            cols_model(*cols),
            0,
            nrows as nat,
            sa,
            da,
            f,
        )->Ok_0);
    }
    while rx < nrows
        invariant
            rx <= nrows,
            rows@.len() == rx,
            (match spec_parse_rows(
                data@,
                rows_abs as int,
                row_len as int,
                cols_model(*cols),
                0,
                nrows as nat,
                sa,
                da,
                f,
            ) {
                Ok(rs) => spec_parse_rows(
                    data@,
                    rows_abs as int,
                    row_len as int,
                    cols_model(*cols),
                    rx as nat,
                    nrows as nat,
                    sa,
                    da,
                    f,
                ) is Ok && rs == rows_model(rows) + spec_parse_rows(
                    data@,
                    rows_abs as int,
                    row_len as int,
                    cols_model(*cols),
                    rx as nat,
                    nrows as nat,
                    sa,
                    da,
                    f,
                )->Ok_0,
                Err(e) => spec_parse_rows(
                    data@,
                    rows_abs as int,
                    row_len as int,
                    cols_model(*cols),
                    rx as nat,
                    nrows as nat,
                    sa,
                    da,
                    f,
                ) == Err::<Seq<Seq<Option<ValueModel>>>, CpkError>(e),
            }),
        decreases nrows - rx,
    {
        proof {
            vstd::arithmetic::mul::lemma_mul_upper_bound(
                row_len as int,
                0xFFFF,
                rx as int,
                0xFFFFFFFF,
            );
        }
        let rp: u128 = rows_abs + row_len as u128 * rx as u128;
        let row = match read_cells(data, rp, cols, str_abs, data_abs, fuel) {
            Ok(v) => v,
            Err(e) => {
                return Err(e);
            },
        };
        let ghost pre_rows = rows_model(rows);
        rows.push(row);
        rx = rx + 1;
        proof {
            assert(rows_model(rows) =~= pre_rows + seq![row_model(rows@[rx - 1])]);
            let rest = spec_parse_rows(
                data@,
                rows_abs as int,
                row_len as int,
                cols_model(*cols),
                rx as nat,
                nrows as nat,
                sa,
                da,
                f,
            );
            if rest is Ok {
                assert((pre_rows + seq![row_model(rows@[rx - 1])]) + rest->Ok_0 =~= pre_rows + (
                seq![row_model(rows@[rx - 1])] + rest->Ok_0));
            }
        }
    }
    proof {
        assert(rows_model(rows) + Seq::<Seq<Option<ValueModel>>>::empty() =~= rows_model(rows));
    }
    Ok(rows)
}

/// Reads a whole table at `pos`.
#[verifier::rlimit(100)]
#[verifier::spinoff_prover]
fn read_table_at(data: &[u8], pos: u128, fuel: u32) -> (r: Result<UTF, CpkError>)
    requires
        fuel <= 8,
        pos < spec_pos_bound(fuel as nat),
    ensures
        match r {
            Ok(t) => spec_parse_table(data@, pos as int, fuel as nat) == Ok::<
                TableModel,
                CpkError,
            >(t@) && t.col_len == 0 && t.str_len == 0,
            Err(e) => spec_parse_table(data@, pos as int, fuel as nat) == Err::<
                TableModel,
                CpkError,
            >(e),
        },
    decreases fuel, 3nat,
{
    broadcast use group_model_lemmas;

    let len = data.len();
    if fuel == 0 {
        return Err(CpkError::Unsupported);
    }
    if pos + 4 > len as u128 {
        return Err(CpkError::OutOfBounds);
    }
    let p = pos as usize;
    if !(data[p] == 0x40 && data[p + 1] == 0x55 && data[p + 2] == 0x54 && data[p + 3] == 0x46) {
        proof {
            let m = data@.subrange(pos as int, pos as int + 4);
            assert(m[0] == data@[pos as int] && m[1] == data@[pos as int + 1] && m[2] == data@[
                pos as int + 2
            ] && m[3] == data@[pos as int + 3]);
        }
        return Err(CpkError::BadMagic);
    }
    proof {
        assert(data@.subrange(pos as int, pos as int + 4) =~= utf_magic());
    }
    if pos + 32 > len as u128 {
        return Err(CpkError::OutOfBounds);
    }
    let rows_abs: u128 = pos + 8 + crate::bytes::be32_at(data, p + 8) as u128;
    let str_abs: u128 = pos + 8 + crate::bytes::be32_at(data, p + 12) as u128;
    let data_abs: u128 = pos + 8 + crate::bytes::be32_at(data, p + 16) as u128;
    let name_off = crate::bytes::be32_at(data, p + 20);
    let ncols = crate::bytes::be16_at(data, p + 24);
    let row_len = crate::bytes::be16_at(data, p + 26);
    let nrows = crate::bytes::be32_at(data, p + 28);

    let s = str_abs + name_off as u128;
    if s >= len as u128 {
        return Err(CpkError::OutOfBounds);
    }
    let name = match crate::bytes::read_cstring(data, s as usize) {
        Ok(v) => v,
        Err(e) => {
            return Err(e);
        },
    };

    // Column descriptors, in declaration order.
    let ghost sa = str_abs as int;
    let ghost da = data_abs as int;
    let ghost f = fuel as nat;
    let mut cols: Vec<UTFColumn> = Vec::new();
    let mut cp: u128 = pos + 32;
    let mut i: usize = 0;
    proof {
        assert(cols_model(cols) + spec_parse_cols(data@, cp as int, ncols as nat, sa, da, f)
            ->Ok_0.0 =~= spec_parse_cols(data@, cp as int, ncols as nat, sa, da, f)->Ok_0.0);
    }
    while i < ncols as usize
        invariant
            i <= ncols as usize,
            cols@.len() == i,
            cp <= data@.len(),
            (match spec_parse_cols(data@, pos + 32, ncols as nat, sa, da, f) {
                Ok((cs, pe)) => spec_parse_cols(data@, cp as int, (ncols - i) as nat, sa, da, f)
                    is Ok && cs == cols_model(cols) + spec_parse_cols(
                    data@,
                    cp as int,
                    (ncols - i) as nat,
                    sa,
                    da,
                    f,
                )->Ok_0.0 && pe == spec_parse_cols(
                    data@,
                    cp as int,
                    (ncols - i) as nat,
                    sa,
                    da,
                    f,
                )->Ok_0.1,
                Err(e) => spec_parse_cols(data@, cp as int, (ncols - i) as nat, sa, da, f)
                    == Err::<(Seq<ColumnModel>, int), CpkError>(e),
            }),
        decreases ncols - i,
    {
        let ghost pre_cols = cols_model(cols);
        let (c, cp2) = match read_col(data, cp, str_abs, data_abs, fuel) {
            Ok(x) => x,
            Err(e) => {
                return Err(e);
            },
        };
        cols.push(c);
        proof {
            assert(cols_model(cols) =~= pre_cols + seq![c@]);
            let rest = spec_parse_cols(data@, cp2 as int, (ncols - i - 1) as nat, sa, da, f);
            if rest is Ok {
                assert((pre_cols + seq![c@]) + rest->Ok_0.0 =~= pre_cols + (seq![c@]
                    + rest->Ok_0.0));
            }
        }
        cp = cp2;
        i = i + 1;
    }

    // Rows: a fixed stride apart, cells in column order.
    let rows = match read_rows(data, rows_abs, row_len, &cols, nrows, str_abs, data_abs, fuel) {
        Ok(v) => v,
        Err(e) => {
            return Err(e);
        },
    };

    let t = UTF { name, cols, rows, col_len: 0, row_len, str_len: 0 };
    proof {
        assert(t@.cols =~= spec_parse_table(data@, pos as int, fuel as nat)->Ok_0.cols);
        assert(t@.rows =~= spec_parse_table(data@, pos as int, fuel as nat)->Ok_0.rows);
        assert(t@ =~= spec_parse_table(data@, pos as int, fuel as nat)->Ok_0);
    }
    Ok(t)
}

impl UTF {
    /// Decodes the table at `pos`. The result is exactly what
    /// [`spec_parse_table`] denotes there, with nested tables followed
    /// at most [`spec_nest_depth`] levels deep.
    pub fn read(data: &[u8], pos: usize) -> (r: Result<UTF, CpkError>)
        ensures
            match r {
                Ok(t) => spec_parse_table(data@, pos as int, spec_nest_depth()) == Ok::<
                    TableModel,
                    CpkError,
                >(t@),
                Err(e) => spec_parse_table(data@, pos as int, spec_nest_depth()) == Err::<
                    TableModel,
                    CpkError,
                >(e),
            },
    {
        read_table_at(data, pos as u128, 8)
    }
}

} // verus!
