//! The packed-archive container: three tables — a one-row header, a
//! table of contents with one row per file, and an opaque secondary
//! index that is only carried through — plus sector-aligned payloads.
//!
//! Container framing is little-endian: a 4-byte tag, a 4-byte 0xFF
//! marker, an 8-byte packet length, then a table packet.

use vstd::prelude::*;

use crate::bytes::{spec_le32, spec_le64};
use crate::crilayla::spec_crilayla;
use crate::error::CpkError;
use crate::names::{
    cpk_tag, cri_mark, itoc_tag, n_content_offset, n_content_size, n_enable_file_crc,
    n_enable_toc_crc, n_enabled_data_size, n_enabled_packed_size, n_etoc_offset, n_etoc_size,
    n_extract_size, n_file_name, n_file_offset, n_file_size, n_groups, n_gtoc_crc, n_gtoc_offset,
    n_gtoc_size, n_id, n_itoc_crc, n_itoc_offset, n_itoc_size, n_toc_crc, n_toc_offset,
    n_toc_size, spec_cpk_tag, spec_cri_mark, spec_itoc_tag, spec_n_content_offset,
    spec_n_content_size, spec_n_enable_file_crc, spec_n_enable_toc_crc, spec_n_enabled_data_size,
    spec_n_enabled_packed_size, spec_n_etoc_offset, spec_n_etoc_size, spec_n_extract_size,
    spec_n_file_name, spec_n_file_offset, spec_n_file_size, spec_n_groups, spec_n_gtoc_crc,
    spec_n_gtoc_offset, spec_n_gtoc_size, spec_n_id, spec_n_itoc_crc, spec_n_itoc_offset,
    spec_n_itoc_size, spec_n_toc_crc, spec_n_toc_offset, spec_n_toc_size, spec_toc_tag, toc_tag,
};
use crate::utf::{
    group_model_lemmas, spec_col_index, spec_has_col, table_model, TableModel, UTFValue,
    ValueModel, UTF,
};
use crate::utf_read::{spec_nest_depth, spec_parse_table};

verus! {

/// A container: its three tables, exclusively owned for the whole
/// decode, mutate, encode lifetime.
pub struct CPK {
    pub header: UTF,
    pub toc: UTF,
    pub itoc: UTF,
}

/// One logical file of the catalog, derived from a table-of-contents
/// row: unique id, name, stored size, decompressed size, and the
/// absolute payload offset.
pub struct CPKFile {
    pub id: u32,
    pub name: Vec<u8>,
    pub file_size: u32,
    pub extract_size: u32,
    pub offset: u32,
}

/// Mathematical mirror of a container.
pub struct CpkModel {
    pub header: TableModel,
    pub toc: TableModel,
    pub itoc: TableModel,
}

/// Mathematical mirror of a file record.
pub struct FileModel {
    pub id: u32,
    pub name: Seq<u8>,
    pub file_size: u32,
    pub extract_size: u32,
    pub offset: u32,
}

impl View for CPK {
    type V = CpkModel;

    open spec fn view(&self) -> CpkModel {
        CpkModel {
            header: table_model(self.header),
            toc: table_model(self.toc),
            itoc: table_model(self.itoc),
        }
    }
}

impl View for CPKFile {
    type V = FileModel;

    open spec fn view(&self) -> FileModel {
        FileModel {
            id: self.id,
            name: self.name@,
            file_size: self.file_size,
            extract_size: self.extract_size,
            offset: self.offset,
        }
    }
}

// ---------------------------------------------------------------------------
// Cell access over the model.
// ---------------------------------------------------------------------------

/// The cell of the named column in the given row, or the lookup error
/// record materialization reports.
#[verifier::opaque]
pub open spec fn spec_cell(m: TableModel, row: int, name: Seq<u8>) -> Result<
    ValueModel,
    CpkError,
> {
    if !spec_has_col(m, name) {
        Err(CpkError::MissingColumn)
    } else if row < 0 || row >= m.rows.len() {
        Err(CpkError::OutOfBounds)
    } else {
        let i = spec_col_index(m, name);
        if i < m.rows[row].len() && m.rows[row][i] is Some {
            Ok(m.rows[row][i]->0)
        } else {
            Err(CpkError::MissingColumn)
        }
    }
}

/// An integer value widened or truncated to 32 bits; strings and nested
/// tables have no integer reading.
pub open spec fn spec_val_u32(v: ValueModel) -> Result<u32, CpkError> {
    match v {
        ValueModel::U8(x) => Ok(x as u32),
        ValueModel::U16(x) => Ok(x as u32),
        ValueModel::U32(x) => Ok(x),
        ValueModel::U64(x) => Ok((x % 0x100000000) as u32),
        _ => Err(CpkError::TypeMismatch),
    }
}

/// A string value's bytes.
pub open spec fn spec_val_bytes(v: ValueModel) -> Result<Seq<u8>, CpkError> {
    match v {
        ValueModel::STRING(s) => Ok(s),
        _ => Err(CpkError::TypeMismatch),
    }
}

/// Reads the cell of the named column as a 32-bit integer.
pub fn cell_u32(t: &UTF, row: usize, name: &Vec<u8>) -> (r: Result<u32, CpkError>)
    ensures
        r == (match spec_cell(t@, row as int, name@) {
            Ok(v) => spec_val_u32(v),
            Err(e) => Err::<u32, CpkError>(e),
        }),
{
    proof {
        reveal(crate::cpk::spec_cell);
    }
    let v = match t.get_cell(row, name.as_slice()) {
        Ok(v) => v,
        Err(e) => {
            return Err(e);
        },
    };
    match v {
        UTFValue::U8(x) => Ok(*x as u32),
        UTFValue::U16(x) => Ok(*x as u32),
        UTFValue::U32(x) => Ok(*x),
        UTFValue::U64(x) => Ok((*x % 0x100000000) as u32),
        _ => Err(CpkError::TypeMismatch),
    }
}

/// Reads the cell of the named column as a byte string.
pub fn cell_bytes(t: &UTF, row: usize, name: &Vec<u8>) -> (r: Result<Vec<u8>, CpkError>)
    ensures
        match r {
            Ok(b) => (match spec_cell(t@, row as int, name@) {
                Ok(v) => spec_val_bytes(v),
                Err(e) => Err(e),
            }) == Ok::<Seq<u8>, CpkError>(b@),
            Err(e) => (match spec_cell(t@, row as int, name@) {
                Ok(v) => spec_val_bytes(v),
                Err(e2) => Err(e2),
            }) == Err::<Seq<u8>, CpkError>(e),
        },
{
    proof {
        reveal(crate::cpk::spec_cell);
    }
    let v = match t.get_cell(row, name.as_slice()) {
        Ok(v) => v,
        Err(e) => {
            return Err(e);
        },
    };
    match v {
        UTFValue::STRING(s) => Ok(crate::utf::clone_bytes(s)),
        _ => Err(CpkError::TypeMismatch),
    }
}

// ---------------------------------------------------------------------------
// Reading a container.
// ---------------------------------------------------------------------------

/// A framed table packet at `pos`: the expected 4-byte tag, the 0xFF
/// little-endian marker, the 8-byte packet length, then the table.
pub open spec fn spec_read_packet(data: Seq<u8>, pos: int, tag: Seq<u8>) -> Result<
    TableModel,
    CpkError,
> {
    if pos < 0 || pos + 4 > data.len() {
        Err(CpkError::OutOfBounds)
    } else if data.subrange(pos, pos + 4) != tag {
        Err(CpkError::BadMagic)
    } else if pos + 16 > data.len() {
        Err(CpkError::OutOfBounds)
    } else if spec_le32(data.subrange(pos + 4, pos + 8)) != 0xFF {
        Err(CpkError::BadMarker)
    } else {
        spec_parse_table(data, pos + 16, spec_nest_depth())
    }
}

/// The decoded container: a header packet at the start, then the table
/// of contents and the secondary index at the offsets the header names.
pub open spec fn spec_read_cpk(data: Seq<u8>) -> Result<CpkModel, CpkError> {
    match spec_read_packet(data, 0, spec_cpk_tag()) {
        Err(e) => Err(e),
        Ok(header) => {
            match (match spec_cell(header, 0, spec_n_toc_offset()) {
                Ok(v) => spec_val_u32(v),
                Err(e) => Err(e),
            }) {
                Err(e) => Err(e),
                Ok(toc_off) => {
                    match (match spec_cell(header, 0, spec_n_itoc_offset()) {
                        Ok(v) => spec_val_u32(v),
                        Err(e) => Err(e),
                    }) {
                        Err(e) => Err(e),
                        Ok(itoc_off) => {
                            match spec_read_packet(data, toc_off as int, spec_toc_tag()) {
                                Err(e) => Err(e),
                                Ok(toc) => {
                                    match spec_read_packet(
                                        data,
                                        itoc_off as int,
                                        spec_itoc_tag(),
                                    ) {
                                        Err(e) => Err(e),
                                        Ok(itoc) => Ok(CpkModel { header, toc, itoc }),
                                    }
                                },
                            }
                        },
                    }
                },
            }
        },
    }
}

/// Reads a framed table packet.
fn read_packet(data: &[u8], pos: usize, tag: &Vec<u8>) -> (r: Result<UTF, CpkError>)
    requires
        tag@.len() == 4,
    ensures
        match r {
            Ok(t) => spec_read_packet(data@, pos as int, tag@) == Ok::<TableModel, CpkError>(t@),
            Err(e) => spec_read_packet(data@, pos as int, tag@) == Err::<TableModel, CpkError>(e),
        },
{
    let len = data.len();
    if len < 4 || pos > len - 4 {
        return Err(CpkError::OutOfBounds);
    }
    if !(data[pos] == tag[0] && data[pos + 1] == tag[1] && data[pos + 2] == tag[2] && data[pos
        + 3] == tag[3]) {
        proof {
            let m = data@.subrange(pos as int, pos + 4);
            assert(m[0] == data@[pos as int] && m[1] == data@[pos + 1] && m[2] == data@[pos + 2]
                && m[3] == data@[pos + 3]);
        }
        return Err(CpkError::BadMagic);
    }
    proof {
        assert(data@.subrange(pos as int, pos + 4) =~= tag@);
    }
    if len < 16 || pos > len - 16 {
        return Err(CpkError::OutOfBounds);
    }
    let marker = crate::bytes::le32_at(data, pos + 4);
    if marker != 0xFF {
        return Err(CpkError::BadMarker);
    }
    let _packet_len = crate::bytes::le64_at(data, pos + 8);
    UTF::read(data, pos + 16)
}

impl CPK {
    /// Decodes a container from its full byte image: the header packet,
    /// then the table of contents and the secondary index located by
    /// the header's offset fields. The secondary index is kept opaque
    /// and only re-emitted.
    #[verifier::rlimit(100)]
    pub fn read(data: &[u8]) -> (r: Result<CPK, CpkError>)
        ensures
            match r {
                Ok(c) => spec_read_cpk(data@) == Ok::<CpkModel, CpkError>(c@),
                Err(e) => spec_read_cpk(data@) == Err::<CpkModel, CpkError>(e),
            },
    {
        let header = match read_packet(data, 0, &cpk_tag()) {
            Ok(t) => t,
            Err(e) => {
                return Err(e);
            },
        };
        let toc_off = match cell_u32(&header, 0, &n_toc_offset()) {
            Ok(v) => v,
            Err(e) => {
                return Err(e);
            },
        };
        let itoc_off = match cell_u32(&header, 0, &n_itoc_offset()) {
            Ok(v) => v,
            Err(e) => {
                return Err(e);
            },
        };
        if toc_off as u64 > usize::MAX as u64 || itoc_off as u64 > usize::MAX as u64 {
            // A 32-bit offset beyond the machine's buffer limit cannot
            // address any byte of `data`.
            proof {
                assert(data@.len() <= usize::MAX);
            }
            return Err(CpkError::OutOfBounds);
        }
        let toc = match read_packet(data, toc_off as usize, &toc_tag()) {
            Ok(t) => t,
            Err(e) => {
                return Err(e);
            },
        };
        let itoc = match read_packet(data, itoc_off as usize, &itoc_tag()) {
            Ok(t) => t,
            Err(e) => {
                return Err(e);
            },
        };
        Ok(CPK { header, toc, itoc })
    }
}

// ---------------------------------------------------------------------------
// Streaming extraction.
// ---------------------------------------------------------------------------

/// Mirror of a vector of record/payload pairs.
pub open spec fn pairs_model(v: Vec<(CPKFile, Vec<u8>)>) -> Seq<(FileModel, Seq<u8>)> {
    Seq::new(
        v.len() as nat,
        |i: int|
            if 0 <= i < v.len() {
                (v[i].0@, v[i].1@)
            } else {
                (
                    FileModel {
                        id: 0,
                        name: Seq::empty(),
                        file_size: 0,
                        extract_size: 0,
                        offset: 0,
                    },
                    Seq::empty(),
                )
            },
    )
}

/// One record and its payload, materialized from row `ind` of the table
/// of contents: exactly `file_size` bytes at the record's absolute
/// offset, decompressed when the extracted size differs from the
/// stored size.
pub open spec fn spec_file_at(m: CpkModel, data: Seq<u8>, content: u32, ind: int) -> Result<
    (FileModel, Seq<u8>),
    CpkError,
> {
    match (match spec_cell(m.toc, ind, spec_n_file_offset()) {
        Ok(v) => spec_val_u32(v),
        Err(e) => Err(e),
    }) {
        Err(e) => Err(e),
        Ok(off) => {
            match (match spec_cell(m.toc, ind, spec_n_id()) {
                Ok(v) => spec_val_u32(v),
                Err(e) => Err(e),
            }) {
                Err(e) => Err(e),
                Ok(id) => {
                    match (match spec_cell(m.toc, ind, spec_n_file_name()) {
                        Ok(v) => spec_val_bytes(v),
                        Err(e) => Err(e),
                    }) {
                        Err(e) => Err(e),
                        Ok(name) => {
                            match (match spec_cell(m.toc, ind, spec_n_file_size()) {
                                Ok(v) => spec_val_u32(v),
                                Err(e) => Err(e),
                            }) {
                                Err(e) => Err(e),
                                Ok(file_size) => {
                                    match (match spec_cell(m.toc, ind, spec_n_extract_size()) {
                                        Ok(v) => spec_val_u32(v),
                                        Err(e) => Err(e),
                                    }) {
                                        Err(e) => Err(e),
                                        Ok(extract_size) => {
                                            if content + off > u32::MAX {
                                                Err(CpkError::TooLarge)
                                            } else {
                                                let offset = (content + off) as u32;
                                                let f = FileModel {
                                                    id,
                                                    name,
                                                    file_size,
                                                    extract_size,
                                                    offset,
                                                };
                                                if offset + file_size > data.len() {
                                                    Err(CpkError::OutOfBounds)
                                                } else {
                                                    let raw = data.subrange(
                                                        offset as int,
                                                        offset + file_size,
                                                    );
                                                    if extract_size != file_size {
                                                        match spec_crilayla(raw) {
                                                            Ok(p) => Ok((f, p)),
                                                            Err(e) => Err(e),
                                                        }
                                                    } else {
                                                        Ok((f, raw))
                                                    }
                                                }
                                            }
                                        },
                                    }
                                },
                            }
                        },
                    }
                },
            }
        },
    }
}

/// Records `ind` onward, in table row order.
pub open spec fn spec_map_files_from(
    m: CpkModel,
    data: Seq<u8>,
    content: u32,
    ind: nat,
) -> Result<Seq<(FileModel, Seq<u8>)>, CpkError>
    decreases m.toc.rows.len() - ind,
{
    if ind >= m.toc.rows.len() {
        Ok(Seq::empty())
    } else {
        match spec_file_at(m, data, content, ind as int) {
            Err(e) => Err(e),
            Ok(p) => {
                match spec_map_files_from(m, data, content, ind + 1) {
                    Err(e) => Err(e),
                    Ok(rest) => Ok(seq![p] + rest),
                }
            },
        }
    }
}

/// Every record of the catalog with its payload, in table row order.
pub open spec fn spec_map_files(m: CpkModel, data: Seq<u8>) -> Result<
    Seq<(FileModel, Seq<u8>)>,
    CpkError,
> {
    match (match spec_cell(m.header, 0, spec_n_toc_offset()) {
        Ok(v) => spec_val_u32(v),
        Err(e) => Err(e),
    }) {
        Err(e) => Err(e),
        Ok(content) => spec_map_files_from(m, data, content, 0),
    }
}

impl CPK {
    /// Materializes every file record and its payload, in table row
    /// order: exactly `file_size` bytes are taken at each record's
    /// offset, and a payload whose extracted size differs from its
    /// stored size is run through the decompressor.
    #[verifier::rlimit(100)]
    pub fn map_files(&self, data: &[u8]) -> (r: Result<Vec<(CPKFile, Vec<u8>)>, CpkError>)
        ensures
            match r {
                Ok(v) => spec_map_files(self@, data@) == Ok::<Seq<(FileModel, Seq<u8>)>, CpkError>(
                    pairs_model(v),
                ),
                Err(e) => spec_map_files(self@, data@) == Err::<
                    Seq<(FileModel, Seq<u8>)>,
                    CpkError,
                >(e),
            },
    {
        broadcast use group_model_lemmas;

        let content = match cell_u32(&self.header, 0, &n_toc_offset()) {
            Ok(v) => v,
            Err(e) => {
                return Err(e);
            },
        };
        let nfiles = self.toc.rows.len();
        let mut out: Vec<(CPKFile, Vec<u8>)> = Vec::new();
        let mut ind: usize = 0;
        proof {
            assert(pairs_model(out) + spec_map_files_from(self@, data@, content, 0)->Ok_0
                =~= spec_map_files_from(self@, data@, content, 0)->Ok_0);
        }
        while ind < nfiles
            invariant
                ind <= nfiles,
                nfiles == self@.toc.rows.len(),
                out@.len() == ind,
                content == spec_val_u32(spec_cell(self@.header, 0, spec_n_toc_offset())->Ok_0)
                    ->Ok_0,
                spec_cell(self@.header, 0, spec_n_toc_offset()) is Ok,
                spec_val_u32(spec_cell(self@.header, 0, spec_n_toc_offset())->Ok_0) is Ok,
                (match spec_map_files_from(self@, data@, content, 0) {
                    Ok(all) => spec_map_files_from(self@, data@, content, ind as nat) is Ok
                        && all == pairs_model(out) + spec_map_files_from(
                        self@,
                        data@,
                        content,
                        ind as nat,
                    )->Ok_0,
                    Err(e) => spec_map_files_from(self@, data@, content, ind as nat) == Err::<
                        Seq<(FileModel, Seq<u8>)>,
                        CpkError,
                    >(e),
                }),
            decreases nfiles - ind,
        {
            let off = match cell_u32(&self.toc, ind, &n_file_offset()) {
                Ok(v) => v,
                Err(e) => {
                    return Err(e);
                },
            };
            let id = match cell_u32(&self.toc, ind, &n_id()) {
                Ok(v) => v,
                Err(e) => {
                    return Err(e);
                },
            };
            let name = match cell_bytes(&self.toc, ind, &n_file_name()) {
                Ok(v) => v,
                Err(e) => {
                    return Err(e);
                },
            };
            let file_size = match cell_u32(&self.toc, ind, &n_file_size()) {
                Ok(v) => v,
                Err(e) => {
                    return Err(e);
                },
            };
            let extract_size = match cell_u32(&self.toc, ind, &n_extract_size()) {
                Ok(v) => v,
                Err(e) => {
                    return Err(e);
                },
            };
            if content as u64 + off as u64 > u32::MAX as u64 {
                return Err(CpkError::TooLarge);
            }
            let offset = content + off;
            let file = CPKFile { id, name, file_size, extract_size, offset };
            if offset as u64 + file_size as u64 > data.len() as u64 {
                return Err(CpkError::OutOfBounds);
            }
            let raw = match crate::bytes::read_string_n(
                data,
                offset as usize,
                file_size as usize,
            ) {
                Ok(v) => v,
                Err(e) => {
                    return Err(e);
                },
            };
            let payload = if extract_size != file_size {
                match crate::crilayla::crilayla_decompress(raw.as_slice()) {
                    Ok(p) => p,
                    Err(e) => {
                        return Err(e);
                    },
                }
            } else {
                raw
            };
            let ghost pre = pairs_model(out);
            let ghost pm = (file@, payload@);
            out.push((file, payload));
            ind = ind + 1;
            proof {
                assert(pairs_model(out) =~= pre + seq![pm]);
                assert(spec_file_at(self@, data@, content, ind - 1) == Ok::<
                    (FileModel, Seq<u8>),
                    CpkError,
                >(pm));
                let rest = spec_map_files_from(self@, data@, content, ind as nat);
                if rest is Ok {
                    assert((pre + seq![pm]) + rest->Ok_0 =~= pre + (seq![pm] + rest->Ok_0));
                }
            }
        }
        Ok(out)
    }
}

} // verus!
