//! The full container rebuild: recomputing every derived header field,
//! updating the catalog, and laying the packets and payloads out at
//! sector-aligned positions.

use vstd::prelude::*;

use crate::cpk::{cell_u32, spec_cell, spec_val_u32, CpkModel, CPK};
use crate::error::CpkError;
use crate::names::{
    cpk_tag, cri_mark, itoc_tag, n_content_offset, n_content_size, n_enable_file_crc,
    n_enable_toc_crc, n_enabled_data_size, n_enabled_packed_size, n_etoc_offset, n_etoc_size,
    n_extract_size, n_file_offset, n_file_size, n_groups, n_gtoc_crc, n_gtoc_offset,
    n_gtoc_size, n_id, n_itoc_crc, n_itoc_offset, n_itoc_size, n_toc_crc, n_toc_offset, n_toc_size, spec_cpk_tag,
    spec_cri_mark, spec_itoc_tag, spec_n_content_offset, spec_n_content_size,
    spec_n_enable_file_crc, spec_n_enable_toc_crc, spec_n_enabled_data_size,
    spec_n_enabled_packed_size, spec_n_etoc_offset, spec_n_etoc_size, spec_n_extract_size,
    spec_n_file_offset, spec_n_file_size, spec_n_groups, spec_n_gtoc_crc, spec_n_gtoc_offset,
    spec_n_gtoc_size, spec_n_id, spec_n_itoc_crc, spec_n_itoc_offset, spec_n_itoc_size, spec_n_toc_crc, spec_n_toc_offset,
    spec_n_toc_size, spec_toc_tag, toc_tag,
};
use crate::utf::{
    group_model_lemmas, spec_col_index, spec_has_col, table_model, TableModel, UTFValue,
    ValueModel, UTF,
};

verus! {

// ---------------------------------------------------------------------------
// Full rebuild.
// ---------------------------------------------------------------------------

/// Mirror of the input file list: ids with their contents.
#[verifier::opaque]
pub open spec fn files_model(v: Vec<(u32, Vec<u8>)>) -> Seq<(u32, Seq<u8>)> {
    Seq::new(
        v.len() as nat,
        |i: int|
            if 0 <= i < v.len() {
                (v[i].0, v[i].1@)
            } else {
                (0u32, Seq::<u8>::empty())
            },
    )
}

/// The file-list mirror is as long as the list.
pub proof fn lemma_files_model_len(v: Vec<(u32, Vec<u8>)>)
    ensures
        files_model(v).len() == v.len(),
{
    reveal(crate::cpk_write::files_model);
}

/// The file-list mirror carries each entry's id and bytes.
pub proof fn lemma_files_model_index(v: Vec<(u32, Vec<u8>)>, i: int)
    requires
        0 <= i < v.len(),
    ensures
        files_model(v)[i] == (v[i].0, v[i].1@),
{
    reveal(crate::cpk_write::files_model);
}

/// Sums the plain and the sector-aligned sizes of the input files; a
/// file or a running sum that cannot fit a 32-bit size field is refused.
pub open spec fn spec_file_sums(
    files: Seq<(u32, Seq<u8>)>,
    i: nat,
    content: int,
    padded: int,
) -> Result<(int, int), CpkError>
    decreases files.len() - i,
{
    if i >= files.len() {
        Ok((content, padded))
    } else {
        let sz = files[i as int].1.len() as int;
        if sz > 0xFFFFFFFF {
            Err(CpkError::TooLarge)
        } else if content + sz > 0xFFFFFFFF {
            Err(CpkError::TooLarge)
        } else if padded + crate::bytes::spec_align_up(sz, 2048) > 0xFFFFFFFF {
            Err(CpkError::TooLarge)
        } else {
            spec_file_sums(files, i + 1, content + sz, padded + crate::bytes::spec_align_up(
                sz,
                2048,
            ))
        }
    }
}

/// Mirror of [`UTF::zero_column`] on the model.
#[verifier::opaque]
pub open spec fn spec_zero_column(m: TableModel, name: Seq<u8>) -> Result<TableModel, CpkError> {
    if !spec_has_col(m, name) {
        Err(CpkError::MissingColumn)
    } else {
        let idx = spec_col_index(m, name);
        Ok(
            TableModel {
                name: m.name,
                cols: m.cols.update(
                    idx,
                    crate::utf::ColumnModel {
                        storage: crate::utf::UTFStorage::ZERO,
                        value: Option::None,
                        ..m.cols[idx]
                    },
                ),
                rows: Seq::new(
                    m.rows.len(),
                    |i: int|
                        if 0 <= i < m.rows.len() {
                            m.rows[i].update(idx, Option::None)
                        } else {
                            Seq::empty()
                        },
                ),
            },
        )
    }
}

/// Mirror of [`UTF::remove_column`] on the model.
#[verifier::opaque]
pub open spec fn spec_remove_column(m: TableModel, name: Seq<u8>) -> Result<
    TableModel,
    CpkError,
> {
    if !spec_has_col(m, name) {
        Err(CpkError::MissingColumn)
    } else {
        let idx = spec_col_index(m, name);
        Ok(
            TableModel {
                name: m.name,
                cols: m.cols.remove(idx),
                rows: Seq::new(
                    m.rows.len(),
                    |i: int|
                        if 0 <= i < m.rows.len() {
                            m.rows[i].remove(idx)
                        } else {
                            Seq::empty()
                        },
                ),
            },
        )
    }
}

/// Mirror of [`UTF::add_col`] on the model.
#[verifier::opaque]
pub open spec fn spec_add_col(
    m: TableModel,
    name: Seq<u8>,
    dtype: crate::utf::UTFDataType,
    storage: crate::utf::UTFStorage,
    value: Option<ValueModel>,
) -> Result<TableModel, CpkError> {
    if spec_has_col(m, name) {
        Err(CpkError::DuplicateColumn)
    } else if (storage is CONSTANT || storage is PER_ROW) && !(value is Some
        && crate::utf::value_fits(value->0, dtype)) {
        Err(CpkError::TypeMismatch)
    } else {
        Ok(
            TableModel {
                name: m.name,
                cols: m.cols.push(
                    crate::utf::ColumnModel {
                        name,
                        dtype,
                        storage,
                        value: if storage is CONSTANT {
                            value
                        } else {
                            Option::None
                        },
                    },
                ),
                rows: Seq::new(
                    m.rows.len(),
                    |i: int|
                        if 0 <= i < m.rows.len() {
                            m.rows[i].push(
                                if storage is PER_ROW {
                                    value
                                } else {
                                    Option::None
                                },
                            )
                        } else {
                            Seq::empty()
                        },
                ),
            },
        )
    }
}

/// Mirror of [`UTF::set_cell`] on the model.
#[verifier::opaque]
pub open spec fn spec_set_cell(m: TableModel, row: int, name: Seq<u8>, v: ValueModel) -> Result<
    TableModel,
    CpkError,
> {
    if !spec_has_col(m, name) {
        Err(CpkError::MissingColumn)
    } else if row < 0 || row >= m.rows.len() {
        Err(CpkError::OutOfBounds)
    } else {
        let idx = spec_col_index(m, name);
        if !(m.cols[idx].storage is PER_ROW && crate::utf::value_fits(v, m.cols[idx].dtype)) {
            Err(CpkError::TypeMismatch)
        } else {
            Ok(
                TableModel {
                    name: m.name,
                    cols: m.cols,
                    rows: m.rows.update(row, m.rows[row].update(idx, Option::Some(v))),
                },
            )
        }
    }
}

/// Restates [`spec_set_cell`] as conditional equations, so callers can
/// match an executable cell write against it without opening the
/// definition.
pub proof fn lemma_spec_set_cell(m: TableModel, row: int, name: Seq<u8>, v: ValueModel)
    ensures
        !spec_has_col(m, name) ==> spec_set_cell(m, row, name, v) == Err::<TableModel, CpkError>(
            CpkError::MissingColumn,
        ),
        spec_has_col(m, name) && !(0 <= row < m.rows.len()) ==> spec_set_cell(m, row, name, v)
            == Err::<TableModel, CpkError>(CpkError::OutOfBounds),
        spec_has_col(m, name) && 0 <= row < m.rows.len() && !(m.cols[spec_col_index(m, name)]
            .storage is PER_ROW && crate::utf::value_fits(v, m.cols[spec_col_index(m, name)].dtype))
            ==> spec_set_cell(m, row, name, v) == Err::<TableModel, CpkError>(
            CpkError::TypeMismatch,
        ),
        spec_has_col(m, name) && 0 <= row < m.rows.len() && m.cols[spec_col_index(m, name)].storage
            is PER_ROW && crate::utf::value_fits(v, m.cols[spec_col_index(m, name)].dtype)
            ==> spec_set_cell(m, row, name, v) == Ok::<TableModel, CpkError>(
            TableModel {
                name: m.name,
                cols: m.cols,
                rows: m.rows.update(
                    row,
                    m.rows[row].update(spec_col_index(m, name), Option::Some(v)),
                ),
            },
        ),
{
    reveal(crate::cpk_write::spec_set_cell);
}

/// Restates [`spec_zero_column`] as conditional equations.
pub proof fn lemma_spec_zero_column(m: TableModel, name: Seq<u8>)
    ensures
        !spec_has_col(m, name) ==> spec_zero_column(m, name) == Err::<TableModel, CpkError>(
            CpkError::MissingColumn,
        ),
        spec_has_col(m, name) ==> {
            let r = spec_zero_column(m, name);
            let idx = spec_col_index(m, name);
            &&& r is Ok
            &&& r->Ok_0.name == m.name
            &&& r->Ok_0.cols == m.cols.update(
                idx,
                crate::utf::ColumnModel {
                    storage: crate::utf::UTFStorage::ZERO,
                    value: Option::None,
                    ..m.cols[idx]
                },
            )
            &&& r->Ok_0.rows.len() == m.rows.len()
            &&& forall|i: int|
                0 <= i < m.rows.len() ==> r->Ok_0.rows[i] == m.rows[i].update(
                    idx,
                    Option::None::<ValueModel>,
                )
        },
{
    reveal(crate::cpk_write::spec_zero_column);
}

/// Restates [`spec_remove_column`] as conditional equations.
pub proof fn lemma_spec_remove_column(m: TableModel, name: Seq<u8>)
    ensures
        !spec_has_col(m, name) ==> spec_remove_column(m, name) == Err::<TableModel, CpkError>(
            CpkError::MissingColumn,
        ),
        spec_has_col(m, name) ==> {
            let r = spec_remove_column(m, name);
            let idx = spec_col_index(m, name);
            &&& r is Ok
            &&& r->Ok_0.name == m.name
            &&& r->Ok_0.cols == m.cols.remove(idx)
            &&& r->Ok_0.rows.len() == m.rows.len()
            &&& forall|i: int|
                0 <= i < m.rows.len() ==> r->Ok_0.rows[i] == m.rows[i].remove(idx)
        },
{
    reveal(crate::cpk_write::spec_remove_column);
}

/// Restates [`spec_add_col`] as conditional equations.
pub proof fn lemma_spec_add_col(
    m: TableModel,
    name: Seq<u8>,
    dtype: crate::utf::UTFDataType,
    storage: crate::utf::UTFStorage,
    value: Option<ValueModel>,
)
    ensures
        spec_has_col(m, name) ==> spec_add_col(m, name, dtype, storage, value) == Err::<
            TableModel,
            CpkError,
        >(CpkError::DuplicateColumn),
        !spec_has_col(m, name) && (storage is CONSTANT || storage is PER_ROW) && !(value is Some
            && crate::utf::value_fits(value->0, dtype)) ==> spec_add_col(
            m,
            name,
            dtype,
            storage,
            value,
        ) == Err::<TableModel, CpkError>(CpkError::TypeMismatch),
        !spec_has_col(m, name) && ((storage is CONSTANT || storage is PER_ROW) ==> value is Some
            && crate::utf::value_fits(value->0, dtype)) ==> {
            let r = spec_add_col(m, name, dtype, storage, value);
            &&& r is Ok
            &&& r->Ok_0.name == m.name
            &&& r->Ok_0.cols == m.cols.push(
                crate::utf::ColumnModel {
                    name,
                    dtype,
                    storage,
                    value: if storage is CONSTANT {
                        value
                    } else {
                        Option::None
                    },
                },
            )
            &&& r->Ok_0.rows.len() == m.rows.len()
            &&& forall|i: int|
                0 <= i < m.rows.len() ==> r->Ok_0.rows[i] == m.rows[i].push(
                    if storage is PER_ROW {
                        value
                    } else {
                        Option::None
                    },
                )
        },
{
    reveal(crate::cpk_write::spec_add_col);
}

/// Removes a column from an intermediate result.
pub open spec fn and_then_remove(r: Result<TableModel, CpkError>, name: Seq<u8>) -> Result<
    TableModel,
    CpkError,
> {
    match r {
        Err(e) => Err(e),
        Ok(m) => spec_remove_column(m, name),
    }
}

/// Adds a column to an intermediate result.
pub open spec fn and_then_add(
    r: Result<TableModel, CpkError>,
    name: Seq<u8>,
    dtype: crate::utf::UTFDataType,
    storage: crate::utf::UTFStorage,
    value: Option<ValueModel>,
) -> Result<TableModel, CpkError> {
    match r {
        Err(e) => Err(e),
        Ok(m) => spec_add_col(m, name, dtype, storage, value),
    }
}

/// Writes a cell of an intermediate result.
pub open spec fn and_then_set(
    r: Result<TableModel, CpkError>,
    row: int,
    name: Seq<u8>,
    v: ValueModel,
) -> Result<TableModel, CpkError> {
    match r {
        Err(e) => Err(e),
        Ok(m) => spec_set_cell(m, row, name, v),
    }
}

/// The trimmed header shape the target loader accepts: the group table
/// is forced empty, the legacy checksum-related columns are dropped,
/// and two zero-valued placeholder columns take their place.
pub open spec fn spec_rebuild_header(h: TableModel) -> Result<TableModel, CpkError> {
    let r = spec_zero_column(h, spec_n_groups());
    let r = and_then_remove(r, spec_n_etoc_offset());
    let r = and_then_remove(r, spec_n_etoc_size());
    let r = and_then_remove(r, spec_n_toc_crc());
    let r = and_then_remove(r, spec_n_itoc_crc());
    let r = and_then_remove(r, spec_n_gtoc_offset());
    let r = and_then_remove(r, spec_n_gtoc_size());
    let r = and_then_remove(r, spec_n_gtoc_crc());
    let r = and_then_add(
        r,
        spec_n_enable_toc_crc(),
        crate::utf::UTFDataType::U16,
        crate::utf::UTFStorage::PER_ROW,
        Option::Some(ValueModel::U16(0)),
    );
    and_then_add(
        r,
        spec_n_enable_file_crc(),
        crate::utf::UTFDataType::U16,
        crate::utf::UTFStorage::PER_ROW,
        Option::Some(ValueModel::U16(0)),
    )
}

/// The first input file carrying this id.
pub open spec fn spec_find_file(files: Seq<(u32, Seq<u8>)>, id: u32, j: nat) -> Option<int>
    decreases files.len() - j,
{
    if j >= files.len() {
        Option::None
    } else if files[j as int].0 == id {
        Option::Some(j as int)
    } else {
        spec_find_file(files, id, j + 1)
    }
}

/// Sets the three derived cells of one catalog row.
pub open spec fn spec_update_one(toc: TableModel, ind: int, sz: int, cur: int) -> Result<
    TableModel,
    CpkError,
> {
    let r = spec_set_cell(toc, ind, spec_n_file_size(), ValueModel::U32(sz as u32));
    let r = and_then_set(r, ind, spec_n_extract_size(), ValueModel::U32(sz as u32));
    and_then_set(r, ind, spec_n_file_offset(), ValueModel::U64((cur - 0x800) as u64))
}

/// Updates the size and offset fields of `n` catalog rows from `ind`
/// on: rebuilt files are stored uncompressed, so the extracted size is
/// set equal to the file size, and payloads are laid out at
/// sector-aligned offsets from `cur`. Returns the updated table and the
/// payload plan (absolute offset, input-file index). A row whose id has
/// no matching input file is a fatal lookup error.
pub open spec fn spec_update_rows(
    toc: TableModel,
    files: Seq<(u32, Seq<u8>)>,
    ind: nat,
    n: nat,
    cur: int,
) -> Result<(TableModel, Seq<(int, int)>), CpkError>
    decreases n,
{
    if n == 0 {
        Ok((toc, Seq::empty()))
    } else {
        match (match spec_cell(toc, ind as int, spec_n_id()) {
            Ok(v) => spec_val_u32(v),
            Err(e) => Err(e),
        }) {
            Err(e) => Err(e),
            Ok(id) => {
                match spec_find_file(files, id, 0) {
                    Option::None => Err(CpkError::MissingFile),
                    Option::Some(j) => {
                        if cur - 0x800 > 0xFFFFFFFFFFFFFFFF {
                            Err(CpkError::TooLarge)
                        } else {
                            let sz = files[j].1.len() as int;
                            match spec_update_one(toc, ind as int, sz, cur) {
                                Err(e) => Err(e),
                                Ok(t3) => {
                                    match spec_update_rows(
                                        t3,
                                        files,
                                        ind + 1,
                                        (n - 1) as nat,
                                        cur + crate::bytes::spec_align_up(sz, 2048),
                                    ) {
                                        Err(e) => Err(e),
                                        Ok((t4, plan)) => Ok((t4, seq![(cur, j)] + plan)),
                                    }
                                },
                            }
                        }
                    },
                }
            },
        }
    }
}

/// The derived header fields of a rebuilt container, set in place.
pub open spec fn spec_set_header_fields(
    h: TableModel,
    content_offset: int,
    padded: int,
    content: int,
    toc_len: int,
    itoc_len: int,
    header_len: int,
) -> Result<TableModel, CpkError> {
    let r = spec_set_cell(h, 0, spec_n_content_offset(), ValueModel::U64(content_offset as u64));
    let r = and_then_set(r, 0, spec_n_content_size(), ValueModel::U64(padded as u64));
    let r = and_then_set(r, 0, spec_n_enabled_packed_size(), ValueModel::U64(content as u64));
    let r = and_then_set(r, 0, spec_n_enabled_data_size(), ValueModel::U64(content as u64));
    let r = and_then_set(r, 0, spec_n_toc_size(), ValueModel::U64(toc_len as u64));
    let r = and_then_set(r, 0, spec_n_itoc_size(), ValueModel::U64(itoc_len as u64));
    let r = and_then_set(
        r,
        0,
        spec_n_toc_offset(),
        ValueModel::U64(crate::bytes::spec_align_up(header_len, 2048) as u64),
    );
    and_then_set(
        r,
        0,
        spec_n_itoc_offset(),
        ValueModel::U64(
            (crate::bytes::spec_align_up(header_len, 2048) + crate::bytes::spec_align_up(
                toc_len,
                2048,
            )) as u64,
        ),
    )
}

/// Zeros of length `n`.
pub open spec fn spec_zeros(n: int) -> Seq<u8> {
    Seq::new(if n >= 0 { n as nat } else { 0 }, |i: int| 0u8)
}

/// Emits each planned payload at its absolute offset, zero-filling the
/// gaps; a plan that would run backward over written bytes is refused.
pub open spec fn spec_emit(
    files: Seq<(u32, Seq<u8>)>,
    plan: Seq<(int, int)>,
    out: Seq<u8>,
    i: nat,
) -> Result<Seq<u8>, CpkError>
    decreases plan.len() - i,
{
    if i >= plan.len() {
        Ok(out)
    } else {
        let (off, j) = plan[i as int];
        if out.len() > off {
            Err(CpkError::TooLarge)
        } else if j < 0 || j >= files.len() {
            Err(CpkError::TooLarge)
        } else if off + files[j].1.len() > usize::MAX {
            Err(CpkError::TooLarge)
        } else {
            spec_emit(files, plan, out + spec_zeros(off - out.len()) + files[j].1, i + 1)
        }
    }
}

/// A framed packet: tag, 0xFF marker, packet length, table bytes.
pub open spec fn spec_packet_frame(tag: Seq<u8>, plen: int, body: Seq<u8>) -> Seq<u8> {
    tag + crate::bytes::spec_le32_bytes(0xFF) + crate::bytes::spec_le64_bytes(plen as u64) + body
}

/// Rebuild, after the input sums and the header surgery: packet
/// lengths, catalog update, derived header fields, and assembly. The
/// catalog packet lengths are taken before the cell updates, which
/// cannot change them; emission re-checks the lengths all the same.
pub open spec fn spec_write_stage2(
    m: CpkModel,
    files: Seq<(u32, Seq<u8>)>,
    content: int,
    padded: int,
    h1: TableModel,
) -> Result<(CpkModel, Seq<u8>), CpkError> {
    if crate::utf_write::spec_encode_check(h1) is Err {
        Err(crate::utf_write::spec_encode_check(h1)->Err_0)
    } else if crate::utf_write::spec_encode_check(m.toc) is Err {
        Err(crate::utf_write::spec_encode_check(m.toc)->Err_0)
    } else if crate::utf_write::spec_encode_check(m.itoc) is Err {
        Err(crate::utf_write::spec_encode_check(m.itoc)->Err_0)
    } else {
        let header_len = crate::utf_write::spec_packet_len(h1);
        let toc_len = crate::utf_write::spec_packet_len(m.toc);
        let itoc_len = crate::utf_write::spec_packet_len(m.itoc);
        let content_offset = crate::bytes::spec_align_up(header_len, 2048)
            + crate::bytes::spec_align_up(toc_len, 2048) + crate::bytes::spec_align_up(
            itoc_len,
            2048,
        );
        match spec_update_rows(m.toc, files, 0, m.toc.rows.len(), content_offset) {
            Err(e) => Err(e),
            Ok((toc2, plan)) => spec_write_stage3(
                m,
                files,
                content,
                padded,
                h1,
                toc2,
                plan,
                content_offset,
                header_len,
                toc_len,
                itoc_len,
            ),
        }
    }
}

/// Rebuild, after the catalog update: derived header fields, the two
/// stale-size guards, and assembly.
pub open spec fn spec_write_stage3(
    m: CpkModel,
    files: Seq<(u32, Seq<u8>)>,
    content: int,
    padded: int,
    h1: TableModel,
    toc2: TableModel,
    plan: Seq<(int, int)>,
    content_offset: int,
    header_len: int,
    toc_len: int,
    itoc_len: int,
) -> Result<(CpkModel, Seq<u8>), CpkError> {
    match spec_set_header_fields(h1, content_offset, padded, content, toc_len, itoc_len,
        header_len) {
        Err(e) => Err(e),
        Ok(h2) => {
            if crate::utf_write::spec_encode_check(h2) is Err {
                Err(crate::utf_write::spec_encode_check(h2)->Err_0)
            } else if crate::utf_write::spec_packet_len(h2) != header_len {
                Err(CpkError::TooLarge)
            } else if crate::utf_write::spec_encode_check(toc2) is Err {
                Err(crate::utf_write::spec_encode_check(toc2)->Err_0)
            } else if crate::utf_write::spec_packet_len(toc2) != toc_len {
                Err(CpkError::TooLarge)
            } else {
                spec_assemble(files, h2, toc2, m.itoc, plan, header_len, toc_len, itoc_len)
            }
        },
    }
}

/// A full container rebuild from a directory of files: recompute every
/// derived header field, update every catalog row, and lay the three
/// packets and the payloads out at sector-aligned positions.
pub open spec fn spec_write_cpk(m: CpkModel, files: Seq<(u32, Seq<u8>)>) -> Result<
    (CpkModel, Seq<u8>),
    CpkError,
> {
    match spec_file_sums(files, 0, 0, 0) {
        Err(e) => Err(e),
        Ok((content, padded)) => {
            match spec_rebuild_header(m.header) {
                Err(e) => Err(e),
                Ok(h1) => spec_write_stage2(m, files, content, padded, h1),
            }
        },
    }
}

/// Lays out the three packets and the payloads. The header packet must
/// leave room for the trailing publisher mark of its sector; each
/// packet must fit the sector-aligned slot the next offset assumes.
#[verifier::opaque]
pub open spec fn spec_assemble(
    files: Seq<(u32, Seq<u8>)>,
    h2: TableModel,
    toc2: TableModel,
    itoc: TableModel,
    plan: Seq<(int, int)>,
    header_len: int,
    toc_len: int,
    itoc_len: int,
) -> Result<(CpkModel, Seq<u8>), CpkError> {
    let out1 = spec_packet_frame(
        spec_cpk_tag(),
        header_len,
        crate::utf_write::spec_encode(h2),
    );
    if out1.len() > 2042 {
        Err(CpkError::TooLarge)
    } else {
        let out2 = out1 + spec_zeros(2042 - out1.len()) + spec_cri_mark();
        let out3 = out2 + spec_packet_frame(
            spec_toc_tag(),
            toc_len,
            crate::utf_write::spec_encode(toc2),
        );
        let itoc_pos = crate::bytes::spec_align_up(header_len, 2048) + crate::bytes::spec_align_up(
            toc_len,
            2048,
        );
        if out3.len() > itoc_pos {
            Err(CpkError::TooLarge)
        } else if itoc_pos > usize::MAX {
            Err(CpkError::TooLarge)
        } else {
            let out4 = out3 + spec_zeros(itoc_pos - out3.len()) + spec_packet_frame(
                spec_itoc_tag(),
                itoc_len,
                crate::utf_write::spec_encode(itoc),
            );
            match spec_emit(files, plan, out4, 0) {
                Err(e) => Err(e),
                Ok(out) => Ok((CpkModel { header: h2, toc: toc2, itoc }, out)),
            }
        }
    }
}

/// Mirror of the payload plan built during the row update.
pub open spec fn plan_model(v: Vec<(u128, usize)>) -> Seq<(int, int)> {
    Seq::new(
        v.len() as nat,
        |i: int|
            if 0 <= i < v.len() {
                (v[i].0 as int, v[i].1 as int)
            } else {
                (0int, 0int)
            },
    )
}

/// Finds the first input file carrying this id.
fn find_file(files: &Vec<(u32, Vec<u8>)>, id: u32) -> (r: Option<usize>)
    ensures
        match r {
            Option::Some(j) => spec_find_file(files_model(*files), id, 0) == Option::Some(
                j as int,
            ) && j < files@.len(),
            Option::None => spec_find_file(files_model(*files), id, 0) is None,
        },
{
    proof {
        lemma_files_model_len(*files);
    }
    let mut j: usize = 0;
    while j < files.len()
        invariant
            j <= files@.len(),
            spec_find_file(files_model(*files), id, 0) == spec_find_file(
                files_model(*files),
                id,
                j as nat,
            ),
        decreases files@.len() - j,
    {
        proof {
            lemma_files_model_index(*files, j as int);
        }
        if files[j].0 == id {
            proof {
                assert(files_model(*files)[j as int].0 == id);
            }
            return Option::Some(j);
        }
        j = j + 1;
    }
    Option::None
}

/// Sets the three derived cells of one catalog row: both size fields
/// to the input file's size, and the offset field to the payload's
/// position relative to the content base.
#[verifier::rlimit(100)]
#[verifier::spinoff_prover]
fn set_row_cells(toc: &mut UTF, ind: usize, sz: u32, off64: u64) -> (r: Result<(), CpkError>)
    requires
        old(toc).rows_wide(),
    ensures
        match r {
            Ok(()) => spec_update_one(old(toc)@, ind as int, sz as int, off64 + 0x800) == Ok::<
                TableModel,
                CpkError,
            >(final(toc)@) && final(toc).rows_wide() && final(toc)@.rows.len()
                == old(toc)@.rows.len(),
            Err(e) => spec_update_one(old(toc)@, ind as int, sz as int, off64 + 0x800) == Err::<
                TableModel,
                CpkError,
            >(e),
        },
{
    let ghost t0 = toc@;
    proof {
        lemma_spec_set_cell(t0, ind as int, spec_n_file_size(), ValueModel::U32(sz));
    }
    match toc.set_cell(ind, n_file_size().as_slice(), UTFValue::U32(sz)) {
        Ok(()) => {},
        Err(e) => {
            return Err(e);
        },
    }
    proof {
        assert(spec_set_cell(t0, ind as int, spec_n_file_size(), ValueModel::U32(sz))->Ok_0
            == toc@);
    }
    let ghost t1 = toc@;
    proof {
        lemma_spec_set_cell(t1, ind as int, spec_n_extract_size(), ValueModel::U32(sz));
    }
    match toc.set_cell(ind, n_extract_size().as_slice(), UTFValue::U32(sz)) {
        Ok(()) => {},
        Err(e) => {
            return Err(e);
        },
    }
    proof {
        assert(spec_set_cell(t1, ind as int, spec_n_extract_size(), ValueModel::U32(sz))->Ok_0
            == toc@);
    }
    let ghost t2 = toc@;
    proof {
        lemma_spec_set_cell(t2, ind as int, spec_n_file_offset(), ValueModel::U64(off64));
    }
    match toc.set_cell(ind, n_file_offset().as_slice(), UTFValue::U64(off64)) {
        Ok(()) => {},
        Err(e) => {
            return Err(e);
        },
    }
    proof {
        assert(spec_set_cell(t2, ind as int, spec_n_file_offset(), ValueModel::U64(off64))->Ok_0
            == toc@);
    }
    Ok(())
}

/// Updates the size and offset cells of every catalog row and collects
/// the payload plan.
#[verifier::rlimit(100)]
#[verifier::spinoff_prover]
fn update_rows(toc: &mut UTF, files: &Vec<(u32, Vec<u8>)>, content_offset: u64) -> (r: Result<
    Vec<(u128, usize)>,
    CpkError,
>)
    requires
        old(toc).rows_wide(),
        content_offset >= 0x800,
    ensures
        match r {
            Ok(plan) => spec_update_rows(
                old(toc)@,
                files_model(*files),
                0,
                old(toc)@.rows.len(),
                content_offset as int,
            ) == Ok::<(TableModel, Seq<(int, int)>), CpkError>((final(toc)@, plan_model(plan))),
            Err(e) => spec_update_rows(
                old(toc)@,
                files_model(*files),
                0,
                old(toc)@.rows.len(),
                content_offset as int,
            ) == Err::<(TableModel, Seq<(int, int)>), CpkError>(e),
        },
{
    let ghost fm = files_model(*files);
    let nrows = toc.rows.len();
    proof {
        crate::utf::lemma_model_rows_len(*toc);
    }
    let mut plan: Vec<(u128, usize)> = Vec::new();
    let mut cur: u128 = content_offset as u128;
    let mut ind: usize = 0;
    proof {
        assert(plan_model(plan) + spec_update_rows(toc@, fm, 0, nrows as nat, cur as int)->Ok_0.1
            =~= spec_update_rows(toc@, fm, 0, nrows as nat, cur as int)->Ok_0.1);
    }
    while ind < nrows
        invariant
            ind <= nrows,
            toc.rows_wide(),
            plan@.len() == ind,
            0x800 <= cur < 0x40000000000000000,
            (match spec_update_rows(old(toc)@, fm, 0, nrows as nat, content_offset as int) {
                Ok((tfin, pfin)) => spec_update_rows(
                    toc@,
                    fm,
                    ind as nat,
                    (nrows - ind) as nat,
                    cur as int,
                ) is Ok && tfin == spec_update_rows(
                    toc@,
                    fm,
                    ind as nat,
                    (nrows - ind) as nat,
                    cur as int,
                )->Ok_0.0 && pfin == plan_model(plan) + spec_update_rows(
                    toc@,
                    fm,
                    ind as nat,
                    (nrows - ind) as nat,
                    cur as int,
                )->Ok_0.1,
                Err(e) => spec_update_rows(
                    toc@,
                    fm,
                    ind as nat,
                    (nrows - ind) as nat,
                    cur as int,
                ) == Err::<(TableModel, Seq<(int, int)>), CpkError>(e),
            }),
        decreases nrows - ind,
    {
        let id = match cell_u32(toc, ind, &n_id()) {
            Ok(v) => v,
            Err(e) => {
                return Err(e);
            },
        };
        let j = match find_file(files, id) {
            Option::Some(j) => j,
            Option::None => {
                return Err(CpkError::MissingFile);
            },
        };
        if cur - 0x800 > u64::MAX as u128 {
            return Err(CpkError::TooLarge);
        }
        let sz_usize = files[j].1.len();
        let sz = #[verifier::truncate] (sz_usize as u32);
        proof {
            lemma_files_model_index(*files, j as int);
            assert(fm[j as int].1 == files@[j as int].1@);
        }
        let off64 = (cur - 0x800) as u64;
        match set_row_cells(toc, ind, sz, off64) {
            Ok(()) => {},
            Err(e) => {
                return Err(e);
            },
        }
        let ghost pre_plan = plan_model(plan);
        let ghost entry = (cur as int, j as int);
        plan.push((cur, j));
        let aligned: u128 = crate::bytes::align_up_wide(sz_usize as u128, 2048);
        cur = cur + aligned;
        ind = ind + 1;
        proof {
            assert(plan_model(plan) =~= pre_plan + seq![entry]);
            let rest = spec_update_rows(toc@, fm, ind as nat, (nrows - ind) as nat, cur as int);
            if rest is Ok {
                assert((pre_plan + seq![entry]) + rest->Ok_0.1 =~= pre_plan + (seq![entry]
                    + rest->Ok_0.1));
            }
        }
    }
    proof {
        assert(plan_model(plan) + Seq::<(int, int)>::empty() =~= plan_model(plan));
    }
    Ok(plan)
}

/// Applies the trimmed-header surgery: the group table is forced
/// empty, the legacy checksum-related columns are dropped, and two
/// zero-valued placeholder columns take their place.
#[verifier::rlimit(100)]
#[verifier::spinoff_prover]
fn rebuild_header(h: &mut UTF) -> (r: Result<(), CpkError>)
    requires
        old(h).rows_wide(),
    ensures
        match r {
            Ok(()) => spec_rebuild_header(old(h)@) == Ok::<TableModel, CpkError>(final(h)@)
                && final(h).rows_wide(),
            Err(e) => spec_rebuild_header(old(h)@) == Err::<TableModel, CpkError>(e),
        },
{
    let ghost m0 = h@;
    proof {
        lemma_spec_zero_column(m0, spec_n_groups());
    }
    match h.zero_column(n_groups().as_slice()) {
        Ok(()) => {},
        Err(e) => {
            return Err(e);
        },
    }
    proof {
        assert(spec_zero_column(m0, spec_n_groups())->Ok_0.rows =~= h@.rows);
        assert(spec_zero_column(m0, spec_n_groups())->Ok_0 == h@);
    }
    let ghost m1 = h@;
    proof {
        lemma_spec_remove_column(m1, spec_n_etoc_offset());
    }
    match h.remove_column(n_etoc_offset().as_slice()) {
        Ok(()) => {},
        Err(e) => {
            return Err(e);
        },
    }
    proof {
        assert(spec_remove_column(m1, spec_n_etoc_offset())->Ok_0.rows =~= h@.rows);
        assert(spec_remove_column(m1, spec_n_etoc_offset())->Ok_0 == h@);
    }
    let ghost m2 = h@;
    proof {
        lemma_spec_remove_column(m2, spec_n_etoc_size());
    }
    match h.remove_column(n_etoc_size().as_slice()) {
        Ok(()) => {},
        Err(e) => {
            return Err(e);
        },
    }
    proof {
        assert(spec_remove_column(m2, spec_n_etoc_size())->Ok_0.rows =~= h@.rows);
        assert(spec_remove_column(m2, spec_n_etoc_size())->Ok_0 == h@);
    }
    let ghost m3 = h@;
    proof {
        lemma_spec_remove_column(m3, spec_n_toc_crc());
    }
    match h.remove_column(n_toc_crc().as_slice()) {
        Ok(()) => {},
        Err(e) => {
            return Err(e);
        },
    }
    proof {
        assert(spec_remove_column(m3, spec_n_toc_crc())->Ok_0.rows =~= h@.rows);
        assert(spec_remove_column(m3, spec_n_toc_crc())->Ok_0 == h@);
    }
    let ghost m4 = h@;
    proof {
        lemma_spec_remove_column(m4, spec_n_itoc_crc());
    }
    match h.remove_column(n_itoc_crc().as_slice()) {
        Ok(()) => {},
        Err(e) => {
            return Err(e);
        },
    }
    proof {
        assert(spec_remove_column(m4, spec_n_itoc_crc())->Ok_0.rows =~= h@.rows);
        assert(spec_remove_column(m4, spec_n_itoc_crc())->Ok_0 == h@);
    }
    let ghost m5 = h@;
    proof {
        lemma_spec_remove_column(m5, spec_n_gtoc_offset());
    }
    match h.remove_column(n_gtoc_offset().as_slice()) {
        Ok(()) => {},
        Err(e) => {
            return Err(e);
        },
    }
    proof {
        assert(spec_remove_column(m5, spec_n_gtoc_offset())->Ok_0.rows =~= h@.rows);
        assert(spec_remove_column(m5, spec_n_gtoc_offset())->Ok_0 == h@);
    }
    let ghost m6 = h@;
    proof {
        lemma_spec_remove_column(m6, spec_n_gtoc_size());
    }
    match h.remove_column(n_gtoc_size().as_slice()) {
        Ok(()) => {},
        Err(e) => {
            return Err(e);
        },
    }
    proof {
        assert(spec_remove_column(m6, spec_n_gtoc_size())->Ok_0.rows =~= h@.rows);
        assert(spec_remove_column(m6, spec_n_gtoc_size())->Ok_0 == h@);
    }
    let ghost m7 = h@;
    proof {
        lemma_spec_remove_column(m7, spec_n_gtoc_crc());
    }
    match h.remove_column(n_gtoc_crc().as_slice()) {
        Ok(()) => {},
        Err(e) => {
            return Err(e);
        },
    }
    proof {
        assert(spec_remove_column(m7, spec_n_gtoc_crc())->Ok_0.rows =~= h@.rows);
        assert(spec_remove_column(m7, spec_n_gtoc_crc())->Ok_0 == h@);
    }
    let ghost m8 = h@;
    proof {
        lemma_spec_add_col(
            m8,
            spec_n_enable_toc_crc(),
            crate::utf::UTFDataType::U16,
            crate::utf::UTFStorage::PER_ROW,
            Option::Some(ValueModel::U16(0)),
        );
    }
    match h.add_col(
        n_enable_toc_crc(),
        crate::utf::UTFDataType::U16,
        crate::utf::UTFStorage::PER_ROW,
        Option::Some(UTFValue::U16(0)),
    ) {
        Ok(()) => {},
        Err(e) => {
            return Err(e);
        },
    }
    proof {
        assert(spec_add_col(
            m8,
            spec_n_enable_toc_crc(),
            crate::utf::UTFDataType::U16,
            crate::utf::UTFStorage::PER_ROW,
            Option::Some(ValueModel::U16(0)),
        )->Ok_0.rows =~= h@.rows);
        assert(spec_add_col(
            m8,
            spec_n_enable_toc_crc(),
            crate::utf::UTFDataType::U16,
            crate::utf::UTFStorage::PER_ROW,
            Option::Some(ValueModel::U16(0)),
        )->Ok_0 == h@);
    }
    let ghost m9 = h@;
    proof {
        lemma_spec_add_col(
            m9,
            spec_n_enable_file_crc(),
            crate::utf::UTFDataType::U16,
            crate::utf::UTFStorage::PER_ROW,
            Option::Some(ValueModel::U16(0)),
        );
    }
    match h.add_col(
        n_enable_file_crc(),
        crate::utf::UTFDataType::U16,
        crate::utf::UTFStorage::PER_ROW,
        Option::Some(UTFValue::U16(0)),
    ) {
        Ok(()) => {},
        Err(e) => {
            return Err(e);
        },
    }
    proof {
        assert(spec_add_col(
            m9,
            spec_n_enable_file_crc(),
            crate::utf::UTFDataType::U16,
            crate::utf::UTFStorage::PER_ROW,
            Option::Some(ValueModel::U16(0)),
        )->Ok_0.rows =~= h@.rows);
        assert(spec_add_col(
            m9,
            spec_n_enable_file_crc(),
            crate::utf::UTFDataType::U16,
            crate::utf::UTFStorage::PER_ROW,
            Option::Some(ValueModel::U16(0)),
        )->Ok_0 == h@);
    }
    Ok(())
}

/// Writes the derived header fields of a rebuilt container in place.
#[verifier::rlimit(100)]
#[verifier::spinoff_prover]
fn set_header_cells(
    h: &mut UTF,
    content_offset: u64,
    padded: u64,
    content: u64,
    toc_len: u64,
    itoc_len: u64,
    header_len: u64,
    ha: u64,
    ta: u64,
) -> (r: Result<(), CpkError>)
    requires
        old(h).rows_wide(),
        ha == crate::bytes::spec_align_up(header_len as int, 2048),
        ta == crate::bytes::spec_align_up(toc_len as int, 2048),
        ha + ta <= u64::MAX,
    ensures
        match r {
            Ok(()) => spec_set_header_fields(
                old(h)@,
                content_offset as int,
                padded as int,
                content as int,
                toc_len as int,
                itoc_len as int,
                header_len as int,
            ) == Ok::<TableModel, CpkError>(final(h)@) && final(h).rows_wide(),
            Err(e) => spec_set_header_fields(
                old(h)@,
                content_offset as int,
                padded as int,
                content as int,
                toc_len as int,
                itoc_len as int,
                header_len as int,
            ) == Err::<TableModel, CpkError>(e),
        },
{
    let ghost hm0 = h@;
    proof {
        lemma_spec_set_cell(hm0, 0, spec_n_content_offset(), ValueModel::U64(content_offset));
    }
    match h.set_cell(0, n_content_offset().as_slice(), UTFValue::U64(content_offset)) {
        Ok(()) => {},
        Err(e) => {
            return Err(e);
        },
    }
    proof {
        assert(spec_set_cell(hm0, 0, spec_n_content_offset(), ValueModel::U64(content_offset))->Ok_0 == h@);
    }
    let ghost hm1 = h@;
    proof {
        lemma_spec_set_cell(hm1, 0, spec_n_content_size(), ValueModel::U64(padded));
    }
    match h.set_cell(0, n_content_size().as_slice(), UTFValue::U64(padded)) {
        Ok(()) => {},
        Err(e) => {
            return Err(e);
        },
    }
    proof {
        assert(spec_set_cell(hm1, 0, spec_n_content_size(), ValueModel::U64(padded))->Ok_0 == h@);
    }
    let ghost hm2 = h@;
    proof {
        lemma_spec_set_cell(hm2, 0, spec_n_enabled_packed_size(), ValueModel::U64(content));
    }
    match h.set_cell(0, n_enabled_packed_size().as_slice(), UTFValue::U64(content)) {
        Ok(()) => {},
        Err(e) => {
            return Err(e);
        },
    }
    proof {
        assert(spec_set_cell(hm2, 0, spec_n_enabled_packed_size(), ValueModel::U64(content))->Ok_0 == h@);
    }
    let ghost hm3 = h@;
    proof {
        lemma_spec_set_cell(hm3, 0, spec_n_enabled_data_size(), ValueModel::U64(content));
    }
    match h.set_cell(0, n_enabled_data_size().as_slice(), UTFValue::U64(content)) {
        Ok(()) => {},
        Err(e) => {
            return Err(e);
        },
    }
    proof {
        assert(spec_set_cell(hm3, 0, spec_n_enabled_data_size(), ValueModel::U64(content))->Ok_0 == h@);
    }
    let ghost hm4 = h@;
    proof {
        lemma_spec_set_cell(hm4, 0, spec_n_toc_size(), ValueModel::U64(toc_len));
    }
    match h.set_cell(0, n_toc_size().as_slice(), UTFValue::U64(toc_len)) {
        Ok(()) => {},
        Err(e) => {
            return Err(e);
        },
    }
    proof {
        assert(spec_set_cell(hm4, 0, spec_n_toc_size(), ValueModel::U64(toc_len))->Ok_0 == h@);
    }
    let ghost hm5 = h@;
    proof {
        lemma_spec_set_cell(hm5, 0, spec_n_itoc_size(), ValueModel::U64(itoc_len));
    }
    match h.set_cell(0, n_itoc_size().as_slice(), UTFValue::U64(itoc_len)) {
        Ok(()) => {},
        Err(e) => {
            return Err(e);
        },
    }
    proof {
        assert(spec_set_cell(hm5, 0, spec_n_itoc_size(), ValueModel::U64(itoc_len))->Ok_0 == h@);
    }
    let ghost hm6 = h@;
    proof {
        lemma_spec_set_cell(hm6, 0, spec_n_toc_offset(), ValueModel::U64(ha));
    }
    match h.set_cell(0, n_toc_offset().as_slice(), UTFValue::U64(ha)) {
        Ok(()) => {},
        Err(e) => {
            return Err(e);
        },
    }
    proof {
        assert(spec_set_cell(hm6, 0, spec_n_toc_offset(), ValueModel::U64(ha))->Ok_0 == h@);
    }
    let ghost hm7 = h@;
    proof {
        lemma_spec_set_cell(hm7, 0, spec_n_itoc_offset(), ValueModel::U64((ha + ta) as u64));
    }
    match h.set_cell(0, n_itoc_offset().as_slice(), UTFValue::U64(ha + ta)) {
        Ok(()) => {},
        Err(e) => {
            return Err(e);
        },
    }
    proof {
        assert(spec_set_cell(hm7, 0, spec_n_itoc_offset(), ValueModel::U64((ha + ta) as u64))->Ok_0 == h@);
    }
    Ok(())
}

/// Rebuild, after the catalog update: derived header fields, packet
/// encoding with the stale-size guards, and assembly of packets and
/// payloads.
#[verifier::rlimit(100)]
#[verifier::spinoff_prover]
fn write_stage3(
    c: &mut CPK,
    files: &Vec<(u32, Vec<u8>)>,
    content: u64,
    padded: u64,
    plan: Vec<(u128, usize)>,
    content_offset: u64,
    header_len: usize,
    toc_len: usize,
    itoc_len: usize,
) -> (r: Result<Vec<u8>, CpkError>)
    requires
        old(c).header.rows_wide(),
        crate::utf_write::spec_encode_check(old(c)@.itoc) is Ok,
        crate::utf_write::spec_packet_len(old(c)@.itoc) == itoc_len,
        32 <= header_len <= 0xFFFFFFFF + 8,
        toc_len <= 0xFFFFFFFF + 8,
        itoc_len <= 0xFFFFFFFF + 8,
    ensures
        match r {
            Ok(out) => spec_write_stage3(
                old(c)@,
                files_model(*files),
                content as int,
                padded as int,
                old(c)@.header,
                old(c)@.toc,
                plan_model(plan),
                content_offset as int,
                header_len as int,
                toc_len as int,
                itoc_len as int,
            ) == Ok::<(CpkModel, Seq<u8>), CpkError>((final(c)@, out@)),
            Err(e) => spec_write_stage3(
                old(c)@,
                files_model(*files),
                content as int,
                padded as int,
                old(c)@.header,
                old(c)@.toc,
                plan_model(plan),
                content_offset as int,
                header_len as int,
                toc_len as int,
                itoc_len as int,
            ) == Err::<(CpkModel, Seq<u8>), CpkError>(e),
        },
{
    proof {
        lemma_files_model_len(*files);
        crate::bytes::lemma_align_up(header_len as int, 2048);
        crate::bytes::lemma_align_up(toc_len as int, 2048);
    }
    let ha = crate::bytes::align_up(header_len as u64, 2048);
    let ta = crate::bytes::align_up(toc_len as u64, 2048);

    // Derived header fields.
    match set_header_cells(
        &mut c.header,
        content_offset,
        padded,
        content,
        toc_len as u64,
        itoc_len as u64,
        header_len as u64,
        ha,
        ta,
    ) {
        Ok(()) => {},
        Err(e) => {
            return Err(e);
        },
    }

    // Encode the three packets; the catalog's cell updates kept its
    // layout sizes, which the stale-size guards re-check.
    let header_bytes = match c.header.write() {
        Ok(v) => v,
        Err(e) => {
            return Err(e);
        },
    };
    proof {
        crate::utf_write::lemma_encode_len(c@.header);
    }
    if header_bytes.len() as u64 != header_len as u64 {
        return Err(CpkError::TooLarge);
    }
    let toc_bytes = match c.toc.write() {
        Ok(v) => v,
        Err(e) => {
            return Err(e);
        },
    };
    proof {
        crate::utf_write::lemma_encode_len(c@.toc);
    }
    if toc_bytes.len() as u64 != toc_len as u64 {
        return Err(CpkError::TooLarge);
    }
    let itoc_bytes = match c.itoc.write() {
        Ok(v) => v,
        Err(e) => {
            proof {
                assert(false);
            }
            return Err(e);
        },
    };
    proof {
        crate::utf_write::lemma_encode_len(c@.itoc);
    }

    assemble_out(
        c,
        files,
        &plan,
        header_len as u64,
        toc_len as u64,
        itoc_len as u64,
        ha,
        ta,
        &header_bytes,
        &toc_bytes,
        &itoc_bytes,
    )
}

/// Lays the three encoded packets and the planned payloads out at
/// their sector-aligned positions.
#[verifier::rlimit(100)]
#[verifier::spinoff_prover]
fn assemble_out(
    c: &CPK,
    files: &Vec<(u32, Vec<u8>)>,
    plan: &Vec<(u128, usize)>,
    header_len: u64,
    toc_len: u64,
    itoc_len: u64,
    ha: u64,
    ta: u64,
    header_bytes: &Vec<u8>,
    toc_bytes: &Vec<u8>,
    itoc_bytes: &Vec<u8>,
) -> (r: Result<Vec<u8>, CpkError>)
    requires
        ha == crate::bytes::spec_align_up(header_len as int, 2048),
        ta == crate::bytes::spec_align_up(toc_len as int, 2048),
        ha + ta <= u64::MAX,
        header_bytes@ == crate::utf_write::spec_encode(c@.header),
        toc_bytes@ == crate::utf_write::spec_encode(c@.toc),
        itoc_bytes@ == crate::utf_write::spec_encode(c@.itoc),
    ensures
        match r {
            Ok(out) => spec_assemble(
                files_model(*files),
                c@.header,
                c@.toc,
                c@.itoc,
                plan_model(*plan),
                header_len as int,
                toc_len as int,
                itoc_len as int,
            ) == Ok::<(CpkModel, Seq<u8>), CpkError>((c@, out@)),
            Err(e) => spec_assemble(
                files_model(*files),
                c@.header,
                c@.toc,
                c@.itoc,
                plan_model(*plan),
                header_len as int,
                toc_len as int,
                itoc_len as int,
            ) == Err::<(CpkModel, Seq<u8>), CpkError>(e),
        },
{
    proof {
        reveal(crate::cpk_write::spec_assemble);
    }
    let ghost fm = files_model(*files);
    proof {
        lemma_files_model_len(*files);
    }
    // Header packet, publisher mark at the end of the first sector,
    // catalog packet, index packet.
    let mut out: Vec<u8> = Vec::new();
    crate::bytes::write_string(&mut out, cpk_tag().as_slice());
    crate::bytes::push_le32(&mut out, 0xFF);
    crate::bytes::push_le64(&mut out, header_len as u64);
    crate::bytes::write_string(&mut out, header_bytes.as_slice());
    if out.len() > 2042 {
        return Err(CpkError::TooLarge);
    }
    crate::bytes::pad_to(&mut out, 2042);
    crate::bytes::write_string(&mut out, cri_mark().as_slice());
    crate::bytes::write_string(&mut out, toc_tag().as_slice());
    crate::bytes::push_le32(&mut out, 0xFF);
    crate::bytes::push_le64(&mut out, toc_len as u64);
    crate::bytes::write_string(&mut out, toc_bytes.as_slice());
    let itoc_pos: u64 = ha + ta;
    if out.len() as u64 > itoc_pos {
        return Err(CpkError::TooLarge);
    }
    if itoc_pos > usize::MAX as u64 {
        return Err(CpkError::TooLarge);
    }
    crate::bytes::pad_to(&mut out, itoc_pos as usize);
    crate::bytes::write_string(&mut out, itoc_tag().as_slice());
    crate::bytes::push_le32(&mut out, 0xFF);
    crate::bytes::push_le64(&mut out, itoc_len as u64);
    crate::bytes::write_string(&mut out, itoc_bytes.as_slice());
    proof {
        assert(out@ =~= spec_assemble_prefix(
            c@.header,
            c@.toc,
            c@.itoc,
            header_len as int,
            toc_len as int,
            itoc_len as int,
        ));
    }

    // Payloads at their planned offsets, zero-filling the gaps.
    let ghost out4 = out@;
    let mut pi: usize = 0;
    while pi < plan.len()
        invariant
            pi <= plan@.len(),
            spec_emit(fm, plan_model(*plan), out4, 0) == spec_emit(
                fm,
                plan_model(*plan),
                out@,
                pi as nat,
            ),
        decreases plan@.len() - pi,
    {
        let ghost pre_out = out@;
        let (off, j) = plan[pi];
        proof {
            assert(plan_model(*plan)[pi as int] == (off as int, j as int));
        }
        if out.len() as u128 > off {
            return Err(CpkError::TooLarge);
        }
        if j >= files.len() {
            return Err(CpkError::TooLarge);
        }
        proof {
            lemma_files_model_index(*files, j as int);
        }
        let flen = files[j].1.len();
        if off > usize::MAX as u128 || flen as u128 > usize::MAX as u128 - off {
            return Err(CpkError::TooLarge);
        }
        crate::bytes::pad_to(&mut out, off as usize);
        crate::bytes::write_string(&mut out, files[j].1.as_slice());
        pi = pi + 1;
        proof {
            assert(out@ =~= pre_out + spec_zeros(off as int - pre_out.len()) + fm[j as int].1);
        }
    }
    Ok(out)
}

/// Rebuild, after the input sums and the header surgery: packet
/// lengths, content base, catalog update, then the rest.
#[verifier::rlimit(100)]
#[verifier::spinoff_prover]
fn write_stage2(c: &mut CPK, files: &Vec<(u32, Vec<u8>)>, content: u64, padded: u64) -> (r:
    Result<Vec<u8>, CpkError>)
    requires
        old(c).header.rows_wide(),
        old(c).toc.rows_wide(),
    ensures
        match r {
            Ok(out) => spec_write_stage2(
                old(c)@,
                files_model(*files),
                content as int,
                padded as int,
                old(c)@.header,
            ) == Ok::<(CpkModel, Seq<u8>), CpkError>((final(c)@, out@)),
            Err(e) => spec_write_stage2(
                old(c)@,
                files_model(*files),
                content as int,
                padded as int,
                old(c)@.header,
            ) == Err::<(CpkModel, Seq<u8>), CpkError>(e),
        },
{
    // Packet lengths; the catalog's cell updates below keep its layout
    // sizes unchanged, which emission re-checks.
    let header_len = match c.header.calculate_size() {
        Ok(v) => v,
        Err(e) => {
            return Err(e);
        },
    };
    let toc_len = match c.toc.calculate_size() {
        Ok(v) => v,
        Err(e) => {
            return Err(e);
        },
    };
    let itoc_len = match c.itoc.calculate_size() {
        Ok(v) => v,
        Err(e) => {
            return Err(e);
        },
    };
    proof {
        crate::bytes::lemma_align_up(header_len as int, 2048);
        crate::bytes::lemma_align_up(toc_len as int, 2048);
        crate::bytes::lemma_align_up(itoc_len as int, 2048);
    }
    let ha = crate::bytes::align_up(header_len as u64, 2048);
    let ta = crate::bytes::align_up(toc_len as u64, 2048);
    let ia = crate::bytes::align_up(itoc_len as u64, 2048);
    let content_offset: u64 = ha + ta + ia;
    proof {
        assert(header_len >= 32) by {
            crate::bytes::lemma_align_up(
                crate::utf_write::spec_col_len(c@.header.cols)
                    + crate::utf_write::spec_row_len(c@.header.cols) * c@.header.rows.len()
                    + crate::utf_write::spec_heap(c@.header).len() + 24,
                4,
            );
            crate::utf_write::lemma_col_len_nonneg(c@.header.cols);
            crate::utf_write::lemma_row_len_nonneg(c@.header.cols);
            vstd::arithmetic::mul::lemma_mul_nonnegative(
                crate::utf_write::spec_row_len(c@.header.cols),
                c@.header.rows.len() as int,
            );
        }
    }

    // Catalog row updates and the payload plan.
    let plan = match update_rows(&mut c.toc, files, content_offset) {
        Ok(v) => v,
        Err(e) => {
            return Err(e);
        },
    };
    write_stage3(c, files, content, padded, plan, content_offset, header_len, toc_len, itoc_len)
}

impl CPK {
    /// Rebuilds the whole container from a directory of input files,
    /// each carrying the id of the catalog row it replaces. Every
    /// derived header field is recomputed, every catalog row's size
    /// fields are set to its file's size (rebuilt payloads are stored
    /// uncompressed), and header, catalog, index and payloads are laid
    /// out at sector-aligned positions.
    ///
    /// On an error the container is part-way rebuilt and must be
    /// discarded; no partial or resumable state is kept.
    #[verifier::rlimit(100)]
    #[verifier::spinoff_prover]
    pub fn write_cpk(&mut self, files: &Vec<(u32, Vec<u8>)>) -> (r: Result<Vec<u8>, CpkError>)
        requires
            old(self).header.rows_wide(),
            old(self).toc.rows_wide(),
        ensures
            match r {
                Ok(out) => spec_write_cpk(old(self)@, files_model(*files)) == Ok::<
                    (CpkModel, Seq<u8>),
                    CpkError,
                >((final(self)@, out@)),
                Err(e) => spec_write_cpk(old(self)@, files_model(*files)) == Err::<
                    (CpkModel, Seq<u8>),
                    CpkError,
                >(e),
            },
    {
        let ghost fm = files_model(*files);
        proof {
            lemma_files_model_len(*files);
        }

        // Plain and sector-aligned size sums of the inputs.
        let mut content: u64 = 0;
        let mut padded: u64 = 0;
        let mut fi: usize = 0;
        while fi < files.len()
            invariant
                fi <= files@.len(),
                content <= 0xFFFFFFFF,
                padded <= 0xFFFFFFFF,
                spec_file_sums(fm, 0, 0, 0) == spec_file_sums(
                    fm,
                    fi as nat,
                    content as int,
                    padded as int,
                ),
            decreases files@.len() - fi,
        {
            proof {
                lemma_files_model_index(*files, fi as int);
            }
            let sz = files[fi].1.len();
            if sz as u64 > 0xFFFFFFFF {
                return Err(CpkError::TooLarge);
            }
            if content + sz as u64 > 0xFFFFFFFF {
                return Err(CpkError::TooLarge);
            }
            let al = crate::bytes::align_up(sz as u64, 2048);
            if padded + al > 0xFFFFFFFF {
                return Err(CpkError::TooLarge);
            }
            content = content + sz as u64;
            padded = padded + al;
            fi = fi + 1;
        }

        // Trim the header to the shape the target loader accepts.
        match rebuild_header(&mut self.header) {
            Ok(()) => {},
            Err(e) => {
                return Err(e);
            },
        }
        write_stage2(self, files, content, padded)
    }
}

/// The assembled container up to the payloads: the three framed packets
/// with their zero padding and the publisher mark.
pub open spec fn spec_assemble_prefix(
    h2: TableModel,
    toc2: TableModel,
    itoc: TableModel,
    header_len: int,
    toc_len: int,
    itoc_len: int,
) -> Seq<u8> {
    let out1 = spec_packet_frame(
        spec_cpk_tag(),
        header_len,
        crate::utf_write::spec_encode(h2),
    );
    let out2 = out1 + spec_zeros(2042 - out1.len()) + spec_cri_mark();
    let out3 = out2 + spec_packet_frame(
        spec_toc_tag(),
        toc_len,
        crate::utf_write::spec_encode(toc2),
    );
    let itoc_pos = crate::bytes::spec_align_up(header_len, 2048) + crate::bytes::spec_align_up(
        toc_len,
        2048,
    );
    out3 + spec_zeros(itoc_pos - out3.len()) + spec_packet_frame(
        spec_itoc_tag(),
        itoc_len,
        crate::utf_write::spec_encode(itoc),
    )
}

} // verus!
