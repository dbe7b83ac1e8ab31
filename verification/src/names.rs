//! The fixed field names and packet tags of the container format, as
//! byte strings. Each name has a specification-level constant and an
//! executable constructor proved to produce it. The constants are
//! closed, so their bytes stay one atomic term at every use site;
//! proofs that need the bytes go through the lemmas below.

use vstd::prelude::*;

verus! {

/// The "TocOffset" field name.
pub closed spec fn spec_n_toc_offset() -> Seq<u8> {
    seq![0x54u8, 0x6Fu8, 0x63u8, 0x4Fu8, 0x66u8, 0x66u8, 0x73u8, 0x65u8, 0x74u8]
}

/// The "TocOffset" field name.
pub fn n_toc_offset() -> (r: Vec<u8>)
    ensures
        r@ == spec_n_toc_offset(),
        r@.len() == 9,
{
    let a: [u8; 9] = [0x54, 0x6F, 0x63, 0x4F, 0x66, 0x66, 0x73, 0x65, 0x74];
    let v = vstd::slice::slice_to_vec(&a);
    proof {
        assert(v@ =~= spec_n_toc_offset());
    }
    v
}

/// The "ItocOffset" field name.
pub closed spec fn spec_n_itoc_offset() -> Seq<u8> {
    seq![0x49u8, 0x74u8, 0x6Fu8, 0x63u8, 0x4Fu8, 0x66u8, 0x66u8, 0x73u8, 0x65u8, 0x74u8]
}

/// The "ItocOffset" field name.
pub fn n_itoc_offset() -> (r: Vec<u8>)
    ensures
        r@ == spec_n_itoc_offset(),
        r@.len() == 10,
{
    let a: [u8; 10] = [0x49, 0x74, 0x6F, 0x63, 0x4F, 0x66, 0x66, 0x73, 0x65, 0x74];
    let v = vstd::slice::slice_to_vec(&a);
    proof {
        assert(v@ =~= spec_n_itoc_offset());
    }
    v
}

/// The "ID" field name.
pub closed spec fn spec_n_id() -> Seq<u8> {
    seq![0x49u8, 0x44u8]
}

/// The "ID" field name.
pub fn n_id() -> (r: Vec<u8>)
    ensures
        r@ == spec_n_id(),
        r@.len() == 2,
{
    let a: [u8; 2] = [0x49, 0x44];
    let v = vstd::slice::slice_to_vec(&a);
    proof {
        assert(v@ =~= spec_n_id());
    }
    v
}

/// The "FileName" field name.
pub closed spec fn spec_n_file_name() -> Seq<u8> {
    seq![0x46u8, 0x69u8, 0x6Cu8, 0x65u8, 0x4Eu8, 0x61u8, 0x6Du8, 0x65u8]
}

/// The "FileName" field name.
pub fn n_file_name() -> (r: Vec<u8>)
    ensures
        r@ == spec_n_file_name(),
        r@.len() == 8,
{
    let a: [u8; 8] = [0x46, 0x69, 0x6C, 0x65, 0x4E, 0x61, 0x6D, 0x65];
    let v = vstd::slice::slice_to_vec(&a);
    proof {
        assert(v@ =~= spec_n_file_name());
    }
    v
}

/// The "FileSize" field name.
pub closed spec fn spec_n_file_size() -> Seq<u8> {
    seq![0x46u8, 0x69u8, 0x6Cu8, 0x65u8, 0x53u8, 0x69u8, 0x7Au8, 0x65u8]
}

/// The "FileSize" field name.
pub fn n_file_size() -> (r: Vec<u8>)
    ensures
        r@ == spec_n_file_size(),
        r@.len() == 8,
{
    let a: [u8; 8] = [0x46, 0x69, 0x6C, 0x65, 0x53, 0x69, 0x7A, 0x65];
    let v = vstd::slice::slice_to_vec(&a);
    proof {
        assert(v@ =~= spec_n_file_size());
    }
    v
}

/// The "ExtractSize" field name.
pub closed spec fn spec_n_extract_size() -> Seq<u8> {
    seq![0x45u8, 0x78u8, 0x74u8, 0x72u8, 0x61u8, 0x63u8, 0x74u8, 0x53u8, 0x69u8, 0x7Au8, 0x65u8]
}

/// The "ExtractSize" field name.
pub fn n_extract_size() -> (r: Vec<u8>)
    ensures
        r@ == spec_n_extract_size(),
        r@.len() == 11,
{
    let a: [u8; 11] = [0x45, 0x78, 0x74, 0x72, 0x61, 0x63, 0x74, 0x53, 0x69, 0x7A, 0x65];
    let v = vstd::slice::slice_to_vec(&a);
    proof {
        assert(v@ =~= spec_n_extract_size());
    }
    v
}

/// The "FileOffset" field name.
pub closed spec fn spec_n_file_offset() -> Seq<u8> {
    seq![0x46u8, 0x69u8, 0x6Cu8, 0x65u8, 0x4Fu8, 0x66u8, 0x66u8, 0x73u8, 0x65u8, 0x74u8]
}

/// The "FileOffset" field name.
pub fn n_file_offset() -> (r: Vec<u8>)
    ensures
        r@ == spec_n_file_offset(),
        r@.len() == 10,
{
    let a: [u8; 10] = [0x46, 0x69, 0x6C, 0x65, 0x4F, 0x66, 0x66, 0x73, 0x65, 0x74];
    let v = vstd::slice::slice_to_vec(&a);
    proof {
        assert(v@ =~= spec_n_file_offset());
    }
    v
}

/// The "Groups" field name.
pub closed spec fn spec_n_groups() -> Seq<u8> {
    seq![0x47u8, 0x72u8, 0x6Fu8, 0x75u8, 0x70u8, 0x73u8]
}

/// The "Groups" field name.
pub fn n_groups() -> (r: Vec<u8>)
    ensures
        r@ == spec_n_groups(),
        r@.len() == 6,
{
    let a: [u8; 6] = [0x47, 0x72, 0x6F, 0x75, 0x70, 0x73];
    let v = vstd::slice::slice_to_vec(&a);
    proof {
        assert(v@ =~= spec_n_groups());
    }
    v
}

/// The "EtocOffset" field name.
pub closed spec fn spec_n_etoc_offset() -> Seq<u8> {
    seq![0x45u8, 0x74u8, 0x6Fu8, 0x63u8, 0x4Fu8, 0x66u8, 0x66u8, 0x73u8, 0x65u8, 0x74u8]
}

/// The "EtocOffset" field name.
pub fn n_etoc_offset() -> (r: Vec<u8>)
    ensures
        r@ == spec_n_etoc_offset(),
        r@.len() == 10,
{
    let a: [u8; 10] = [0x45, 0x74, 0x6F, 0x63, 0x4F, 0x66, 0x66, 0x73, 0x65, 0x74];
    let v = vstd::slice::slice_to_vec(&a);
    proof {
        assert(v@ =~= spec_n_etoc_offset());
    }
    v
}

/// The "EtocSize" field name.
pub closed spec fn spec_n_etoc_size() -> Seq<u8> {
    seq![0x45u8, 0x74u8, 0x6Fu8, 0x63u8, 0x53u8, 0x69u8, 0x7Au8, 0x65u8]
}

/// The "EtocSize" field name.
pub fn n_etoc_size() -> (r: Vec<u8>)
    ensures
        r@ == spec_n_etoc_size(),
        r@.len() == 8,
{
    let a: [u8; 8] = [0x45, 0x74, 0x6F, 0x63, 0x53, 0x69, 0x7A, 0x65];
    let v = vstd::slice::slice_to_vec(&a);
    proof {
        assert(v@ =~= spec_n_etoc_size());
    }
    v
}

/// The "TocCrc" field name.
pub closed spec fn spec_n_toc_crc() -> Seq<u8> {
    seq![0x54u8, 0x6Fu8, 0x63u8, 0x43u8, 0x72u8, 0x63u8]
}

/// The "TocCrc" field name.
pub fn n_toc_crc() -> (r: Vec<u8>)
    ensures
        r@ == spec_n_toc_crc(),
        r@.len() == 6,
{
    let a: [u8; 6] = [0x54, 0x6F, 0x63, 0x43, 0x72, 0x63];
    let v = vstd::slice::slice_to_vec(&a);
    proof {
        assert(v@ =~= spec_n_toc_crc());
    }
    v
}

/// The "ItocCrc" field name.
pub closed spec fn spec_n_itoc_crc() -> Seq<u8> {
    seq![0x49u8, 0x74u8, 0x6Fu8, 0x63u8, 0x43u8, 0x72u8, 0x63u8]
}

/// The "ItocCrc" field name.
pub fn n_itoc_crc() -> (r: Vec<u8>)
    ensures
        r@ == spec_n_itoc_crc(),
        r@.len() == 7,
{
    let a: [u8; 7] = [0x49, 0x74, 0x6F, 0x63, 0x43, 0x72, 0x63];
    let v = vstd::slice::slice_to_vec(&a);
    proof {
        assert(v@ =~= spec_n_itoc_crc());
    }
    v
}

/// The "GtocOffset" field name.
pub closed spec fn spec_n_gtoc_offset() -> Seq<u8> {
    seq![0x47u8, 0x74u8, 0x6Fu8, 0x63u8, 0x4Fu8, 0x66u8, 0x66u8, 0x73u8, 0x65u8, 0x74u8]
}

/// The "GtocOffset" field name.
pub fn n_gtoc_offset() -> (r: Vec<u8>)
    ensures
        r@ == spec_n_gtoc_offset(),
        r@.len() == 10,
{
    let a: [u8; 10] = [0x47, 0x74, 0x6F, 0x63, 0x4F, 0x66, 0x66, 0x73, 0x65, 0x74];
    let v = vstd::slice::slice_to_vec(&a);
    proof {
        assert(v@ =~= spec_n_gtoc_offset());
    }
    v
}

/// The "GtocSize" field name.
pub closed spec fn spec_n_gtoc_size() -> Seq<u8> {
    seq![0x47u8, 0x74u8, 0x6Fu8, 0x63u8, 0x53u8, 0x69u8, 0x7Au8, 0x65u8]
}

/// The "GtocSize" field name.
pub fn n_gtoc_size() -> (r: Vec<u8>)
    ensures
        r@ == spec_n_gtoc_size(),
        r@.len() == 8,
{
    let a: [u8; 8] = [0x47, 0x74, 0x6F, 0x63, 0x53, 0x69, 0x7A, 0x65];
    let v = vstd::slice::slice_to_vec(&a);
    proof {
        assert(v@ =~= spec_n_gtoc_size());
    }
    v
}

/// The "GtocCrc" field name.
pub closed spec fn spec_n_gtoc_crc() -> Seq<u8> {
    seq![0x47u8, 0x74u8, 0x6Fu8, 0x63u8, 0x43u8, 0x72u8, 0x63u8]
}

/// The "GtocCrc" field name.
pub fn n_gtoc_crc() -> (r: Vec<u8>)
    ensures
        r@ == spec_n_gtoc_crc(),
        r@.len() == 7,
{
    let a: [u8; 7] = [0x47, 0x74, 0x6F, 0x63, 0x43, 0x72, 0x63];
    let v = vstd::slice::slice_to_vec(&a);
    proof {
        assert(v@ =~= spec_n_gtoc_crc());
    }
    v
}

/// The "EnableTocCrc" field name.
pub closed spec fn spec_n_enable_toc_crc() -> Seq<u8> {
    seq![0x45u8, 0x6Eu8, 0x61u8, 0x62u8, 0x6Cu8, 0x65u8, 0x54u8, 0x6Fu8, 0x63u8, 0x43u8, 0x72u8, 0x63u8]
}

/// The "EnableTocCrc" field name.
pub fn n_enable_toc_crc() -> (r: Vec<u8>)
    ensures
        r@ == spec_n_enable_toc_crc(),
        r@.len() == 12,
{
    let a: [u8; 12] = [0x45, 0x6E, 0x61, 0x62, 0x6C, 0x65, 0x54, 0x6F, 0x63, 0x43, 0x72, 0x63];
    let v = vstd::slice::slice_to_vec(&a);
    proof {
        assert(v@ =~= spec_n_enable_toc_crc());
    }
    v
}

/// The "EnableFileCrc" field name.
pub closed spec fn spec_n_enable_file_crc() -> Seq<u8> {
    seq![0x45u8, 0x6Eu8, 0x61u8, 0x62u8, 0x6Cu8, 0x65u8, 0x46u8, 0x69u8, 0x6Cu8, 0x65u8, 0x43u8, 0x72u8, 0x63u8]
}

/// The "EnableFileCrc" field name.
pub fn n_enable_file_crc() -> (r: Vec<u8>)
    ensures
        r@ == spec_n_enable_file_crc(),
        r@.len() == 13,
{
    let a: [u8; 13] = [0x45, 0x6E, 0x61, 0x62, 0x6C, 0x65, 0x46, 0x69, 0x6C, 0x65, 0x43, 0x72, 0x63];
    let v = vstd::slice::slice_to_vec(&a);
    proof {
        assert(v@ =~= spec_n_enable_file_crc());
    }
    v
}

/// The "ContentOffset" field name.
pub closed spec fn spec_n_content_offset() -> Seq<u8> {
    seq![0x43u8, 0x6Fu8, 0x6Eu8, 0x74u8, 0x65u8, 0x6Eu8, 0x74u8, 0x4Fu8, 0x66u8, 0x66u8, 0x73u8, 0x65u8, 0x74u8]
}

/// The "ContentOffset" field name.
pub fn n_content_offset() -> (r: Vec<u8>)
    ensures
        r@ == spec_n_content_offset(),
        r@.len() == 13,
{
    let a: [u8; 13] = [0x43, 0x6F, 0x6E, 0x74, 0x65, 0x6E, 0x74, 0x4F, 0x66, 0x66, 0x73, 0x65, 0x74];
    let v = vstd::slice::slice_to_vec(&a);
    proof {
        assert(v@ =~= spec_n_content_offset());
    }
    v
}

/// The "ContentSize" field name.
pub closed spec fn spec_n_content_size() -> Seq<u8> {
    seq![0x43u8, 0x6Fu8, 0x6Eu8, 0x74u8, 0x65u8, 0x6Eu8, 0x74u8, 0x53u8, 0x69u8, 0x7Au8, 0x65u8]
}

/// The "ContentSize" field name.
pub fn n_content_size() -> (r: Vec<u8>)
    ensures
        r@ == spec_n_content_size(),
        r@.len() == 11,
{
    let a: [u8; 11] = [0x43, 0x6F, 0x6E, 0x74, 0x65, 0x6E, 0x74, 0x53, 0x69, 0x7A, 0x65];
    let v = vstd::slice::slice_to_vec(&a);
    proof {
        assert(v@ =~= spec_n_content_size());
    }
    v
}

/// The "EnabledPackedSize" field name.
pub closed spec fn spec_n_enabled_packed_size() -> Seq<u8> {
    seq![0x45u8, 0x6Eu8, 0x61u8, 0x62u8, 0x6Cu8, 0x65u8, 0x64u8, 0x50u8, 0x61u8, 0x63u8, 0x6Bu8, 0x65u8, 0x64u8, 0x53u8, 0x69u8, 0x7Au8, 0x65u8]
}

/// The "EnabledPackedSize" field name.
pub fn n_enabled_packed_size() -> (r: Vec<u8>)
    ensures
        r@ == spec_n_enabled_packed_size(),
        r@.len() == 17,
{
    let a: [u8; 17] = [0x45, 0x6E, 0x61, 0x62, 0x6C, 0x65, 0x64, 0x50, 0x61, 0x63, 0x6B, 0x65, 0x64, 0x53, 0x69, 0x7A, 0x65];
    let v = vstd::slice::slice_to_vec(&a);
    proof {
        assert(v@ =~= spec_n_enabled_packed_size());
    }
    v
}

/// The "EnabledDataSize" field name.
pub closed spec fn spec_n_enabled_data_size() -> Seq<u8> {
    seq![0x45u8, 0x6Eu8, 0x61u8, 0x62u8, 0x6Cu8, 0x65u8, 0x64u8, 0x44u8, 0x61u8, 0x74u8, 0x61u8, 0x53u8, 0x69u8, 0x7Au8, 0x65u8]
}

/// The "EnabledDataSize" field name.
pub fn n_enabled_data_size() -> (r: Vec<u8>)
    ensures
        r@ == spec_n_enabled_data_size(),
        r@.len() == 15,
{
    let a: [u8; 15] = [0x45, 0x6E, 0x61, 0x62, 0x6C, 0x65, 0x64, 0x44, 0x61, 0x74, 0x61, 0x53, 0x69, 0x7A, 0x65];
    let v = vstd::slice::slice_to_vec(&a);
    proof {
        assert(v@ =~= spec_n_enabled_data_size());
    }
    v
}

/// The "TocSize" field name.
pub closed spec fn spec_n_toc_size() -> Seq<u8> {
    seq![0x54u8, 0x6Fu8, 0x63u8, 0x53u8, 0x69u8, 0x7Au8, 0x65u8]
}

/// The "TocSize" field name.
pub fn n_toc_size() -> (r: Vec<u8>)
    ensures
        r@ == spec_n_toc_size(),
        r@.len() == 7,
{
    let a: [u8; 7] = [0x54, 0x6F, 0x63, 0x53, 0x69, 0x7A, 0x65];
    let v = vstd::slice::slice_to_vec(&a);
    proof {
        assert(v@ =~= spec_n_toc_size());
    }
    v
}

/// The "ItocSize" field name.
pub closed spec fn spec_n_itoc_size() -> Seq<u8> {
    seq![0x49u8, 0x74u8, 0x6Fu8, 0x63u8, 0x53u8, 0x69u8, 0x7Au8, 0x65u8]
}

/// The "ItocSize" field name.
pub fn n_itoc_size() -> (r: Vec<u8>)
    ensures
        r@ == spec_n_itoc_size(),
        r@.len() == 8,
{
    let a: [u8; 8] = [0x49, 0x74, 0x6F, 0x63, 0x53, 0x69, 0x7A, 0x65];
    let v = vstd::slice::slice_to_vec(&a);
    proof {
        assert(v@ =~= spec_n_itoc_size());
    }
    v
}

/// The "CPK " marker bytes.
pub closed spec fn spec_cpk_tag() -> Seq<u8> {
    seq![0x43u8, 0x50u8, 0x4Bu8, 0x20u8]
}

/// The "CPK " marker bytes.
pub fn cpk_tag() -> (r: Vec<u8>)
    ensures
        r@ == spec_cpk_tag(),
        r@.len() == 4,
{
    let a: [u8; 4] = [0x43, 0x50, 0x4B, 0x20];
    let v = vstd::slice::slice_to_vec(&a);
    proof {
        assert(v@ =~= spec_cpk_tag());
    }
    v
}

/// The "TOC " marker bytes.
pub closed spec fn spec_toc_tag() -> Seq<u8> {
    seq![0x54u8, 0x4Fu8, 0x43u8, 0x20u8]
}

/// The "TOC " marker bytes.
pub fn toc_tag() -> (r: Vec<u8>)
    ensures
        r@ == spec_toc_tag(),
        r@.len() == 4,
{
    let a: [u8; 4] = [0x54, 0x4F, 0x43, 0x20];
    let v = vstd::slice::slice_to_vec(&a);
    proof {
        assert(v@ =~= spec_toc_tag());
    }
    v
}

/// The "ITOC" marker bytes.
pub closed spec fn spec_itoc_tag() -> Seq<u8> {
    seq![0x49u8, 0x54u8, 0x4Fu8, 0x43u8]
}

/// The "ITOC" marker bytes.
pub fn itoc_tag() -> (r: Vec<u8>)
    ensures
        r@ == spec_itoc_tag(),
        r@.len() == 4,
{
    let a: [u8; 4] = [0x49, 0x54, 0x4F, 0x43];
    let v = vstd::slice::slice_to_vec(&a);
    proof {
        assert(v@ =~= spec_itoc_tag());
    }
    v
}

/// The "(c)CRI" marker bytes.
pub closed spec fn spec_cri_mark() -> Seq<u8> {
    seq![0x28u8, 0x63u8, 0x29u8, 0x43u8, 0x52u8, 0x49u8]
}

/// The "(c)CRI" marker bytes.
pub fn cri_mark() -> (r: Vec<u8>)
    ensures
        r@ == spec_cri_mark(),
        r@.len() == 6,
{
    let a: [u8; 6] = [0x28, 0x63, 0x29, 0x43, 0x52, 0x49];
    let v = vstd::slice::slice_to_vec(&a);
    proof {
        assert(v@ =~= spec_cri_mark());
    }
    v
}

} // verus!
