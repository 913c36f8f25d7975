//! The `.mlib` module-library container: header, export table, string table,
//! code and data sections.

use vstd::prelude::*;
use vstd::utf8::{encode_utf8, valid_utf8, decode_utf8};
use vstd::slice::{slice_subrange, slice_to_vec};
use crate::bytes::{extend_bytes, le_bytes, le_value, push_le, read_le, lemma_le_roundtrip, lemma_le_bytes_len, lemma_le_value_roundtrip, lemma_pow256_values};
use crate::text::{utf8_str, owned};
use super::calling_conv::AbiTarget;
use super::header::{target_code, target_from_code};
use super::version::{AbiVersion, current_abi_version, current_version};

verus! {

broadcast use vstd::array::group_array_axioms;

pub const MLIB_MAGIC: [u8; 4] = [77u8, 76u8, 73u8, 66u8];

pub const MLIB_HEADER_SIZE: usize = 80;

pub const MLIB_EXPORT_ENTRY_SIZE: usize = 24;

pub const MLIB_FLAG_EMBEDDED_SOURCE: u32 = 1;

/// The bytes of `MLIB`.
pub open spec fn mlib_magic() -> Seq<u8> {
    seq![77u8, 76u8, 73u8, 66u8]
}

#[derive(Debug, Clone, PartialEq, Eq)]
pub struct MlibHeader {
    pub magic: [u8; 4],
    pub version: u16,
    pub abi_version: AbiVersion,
    pub target: AbiTarget,
    pub flags: u32,
    pub export_table_offset: u64,
    pub export_table_count: u32,
    pub string_table_offset: u64,
    pub string_table_size: u64,
    pub code_offset: u64,
    pub code_size: u64,
    pub data_offset: u64,
    pub data_size: u64,
}

#[derive(Debug, Clone, Copy, PartialEq, Eq, Structural)]
pub enum MlibExportKind {
    Function,
    Global,
    Type,
}

pub open spec fn kind_code(k: MlibExportKind) -> u8 {
    match k {
        MlibExportKind::Function => 1,
        MlibExportKind::Global => 2,
        MlibExportKind::Type => 3,
    }
}

pub open spec fn kind_from_code(b: u8) -> Option<MlibExportKind> {
    if b == 1 {
        Some(MlibExportKind::Function)
    } else if b == 2 {
        Some(MlibExportKind::Global)
    } else if b == 3 {
        Some(MlibExportKind::Type)
    } else {
        None
    }
}

impl MlibExportKind {
    fn to_byte(self) -> (b: u8)
        ensures
            b == kind_code(self),
    {
        match self {
            MlibExportKind::Function => 1,
            MlibExportKind::Global => 2,
            MlibExportKind::Type => 3,
        }
    }

    fn from_byte(value: u8) -> (k: Option<Self>)
        ensures
            k == kind_from_code(value),
    {
        match value {
            1 => Some(MlibExportKind::Function),
            2 => Some(MlibExportKind::Global),
            3 => Some(MlibExportKind::Type),
            _ => None,
        }
    }
}

#[derive(Debug, Clone, PartialEq, Eq)]
pub struct MlibExport {
    pub name: String,
    pub kind: MlibExportKind,
    pub address: u64,
    pub signature: Option<Vec<u8>>,
}

#[derive(Debug, Clone, PartialEq, Eq)]
pub struct MlibFile {
    pub header: MlibHeader,
    pub exports: Vec<MlibExport>,
    pub string_table: Vec<u8>,
    pub code: Vec<u8>,
    pub data: Vec<u8>,
}

/// The 80 bytes of a library header: fields in declaration order, little-endian,
/// the target as a 16-bit code, then two zero bytes.
pub open spec fn mlib_header_bytes(h: MlibHeader) -> Seq<u8> {
    h.magic@ + le_bytes(h.version as nat, 2) + le_bytes(h.abi_version.major as nat, 2) + le_bytes(
        h.abi_version.minor as nat,
        2,
    ) + le_bytes(h.abi_version.patch as nat, 2) + le_bytes(target_code(h.target) as nat, 2)
        + le_bytes(h.flags as nat, 4) + le_bytes(h.export_table_offset as nat, 8) + le_bytes(
        h.export_table_count as nat,
        4,
    ) + le_bytes(h.string_table_offset as nat, 8) + le_bytes(h.string_table_size as nat, 8)
        + le_bytes(h.code_offset as nat, 8) + le_bytes(h.code_size as nat, 8) + le_bytes(
        h.data_offset as nat,
        8,
    ) + le_bytes(h.data_size as nat, 8) + seq![0u8, 0u8]
}

/// `h` is the header read from the 80 bytes `b`.
pub open spec fn decoded_mlib_header(b: Seq<u8>, h: MlibHeader) -> bool {
    &&& h.magic@ == b.subrange(0, 4)
    &&& h.version as nat == le_value(b.subrange(4, 6))
    &&& h.abi_version.major as nat == le_value(b.subrange(6, 8))
    &&& h.abi_version.minor as nat == le_value(b.subrange(8, 10))
    &&& h.abi_version.patch as nat == le_value(b.subrange(10, 12))
    &&& target_from_code(le_value(b.subrange(12, 14))) == Some(h.target)
    &&& h.flags as nat == le_value(b.subrange(14, 18))
    &&& h.export_table_offset as nat == le_value(b.subrange(18, 26))
    &&& h.export_table_count as nat == le_value(b.subrange(26, 30))
    &&& h.string_table_offset as nat == le_value(b.subrange(30, 38))
    &&& h.string_table_size as nat == le_value(b.subrange(38, 46))
    &&& h.code_offset as nat == le_value(b.subrange(46, 54))
    &&& h.code_size as nat == le_value(b.subrange(54, 62))
    &&& h.data_offset as nat == le_value(b.subrange(62, 70))
    &&& h.data_size as nat == le_value(b.subrange(70, 78))
}

/// The string table bytes of an export: its UTF-8 name and a NUL, then its
/// signature and a NUL when it has one.
pub open spec fn export_strings(e: MlibExport) -> Seq<u8> {
    encode_utf8(e.name@) + seq![0u8] + match e.signature {
        Some(sig) => sig@ + seq![0u8],
        None => Seq::empty(),
    }
}

/// The string table of the first `n` exports.
pub open spec fn string_table_of(exports: Seq<MlibExport>, n: int) -> Seq<u8>
    decreases n,
{
    if n <= 0 || n > exports.len() {
        Seq::empty()
    } else {
        string_table_of(exports, n - 1) + export_strings(exports[n - 1])
    }
}

/// The 24-byte export-table entry of an export whose strings start at `base`:
/// name offset (32 bits), name length (16 bits), kind, a zero byte, address (64 bits),
/// signature offset and length (32 bits each; both 0 without a signature).
/// Offsets and lengths are kept modulo the width of their fields.
pub open spec fn export_entry(e: MlibExport, base: nat) -> Seq<u8> {
    let name_len = encode_utf8(e.name@).len();
    let (sig_offset, sig_len) = match e.signature {
        Some(sig) => (base + name_len + 1, sig@.len()),
        None => (0nat, 0nat),
    };
    le_bytes(base, 4) + le_bytes(name_len, 2) + seq![kind_code(e.kind), 0u8] + le_bytes(
        e.address as nat,
        8,
    ) + le_bytes(sig_offset, 4) + le_bytes(sig_len, 4)
}

/// The export table of the first `n` exports.
pub open spec fn export_table_of(exports: Seq<MlibExport>, n: int) -> Seq<u8>
    decreases n,
{
    if n <= 0 || n > exports.len() {
        Seq::empty()
    } else {
        export_table_of(exports, n - 1) + export_entry(
            exports[n - 1],
            string_table_of(exports, n - 1).len(),
        )
    }
}

/// Whether the 24-byte entry `e` reads, against string table `st`, as an export.
pub open spec fn entry_readable(st: Seq<u8>, e: Seq<u8>) -> bool {
    let name_offset = le_value(e.subrange(0, 4));
    let name_len = le_value(e.subrange(4, 6));
    let sig_offset = le_value(e.subrange(16, 20));
    let sig_len = le_value(e.subrange(20, 24));
    &&& kind_from_code(e[6]) is Some
    &&& name_offset + name_len <= st.len()
    &&& valid_utf8(st.subrange(name_offset as int, (name_offset + name_len) as int))
    &&& sig_len != 0 ==> sig_offset + sig_len <= st.len()
}

/// `x` is the export read from entry `e` against string table `st`.
pub open spec fn entry_reads_as(st: Seq<u8>, e: Seq<u8>, x: MlibExport) -> bool {
    let name_offset = le_value(e.subrange(0, 4));
    let name_len = le_value(e.subrange(4, 6));
    let sig_offset = le_value(e.subrange(16, 20));
    let sig_len = le_value(e.subrange(20, 24));
    &&& x.name@ == decode_utf8(st.subrange(name_offset as int, (name_offset + name_len) as int))
    &&& Some(x.kind) == kind_from_code(e[6])
    &&& x.address as nat == le_value(e.subrange(8, 16))
    &&& if sig_len == 0 {
        x.signature is None
    } else {
        x.signature matches Some(sig) && sig@ == st.subrange(
            sig_offset as int,
            (sig_offset + sig_len) as int,
        )
    }
}

/// The section bounds of a header, as mathematical integers.
pub open spec fn export_end(h: MlibHeader) -> int {
    h.export_table_offset + h.export_table_count * 24
}

pub open spec fn string_end(h: MlibHeader) -> int {
    h.string_table_offset + h.string_table_size
}

pub open spec fn code_end(h: MlibHeader) -> int {
    h.code_offset + h.code_size
}

pub open spec fn data_end(h: MlibHeader) -> int {
    h.data_offset + h.data_size
}

/// Whether the sections a header describes lie inside a buffer of `len` bytes.
pub open spec fn sections_within(h: MlibHeader, len: int) -> bool {
    export_end(h) <= len && string_end(h) <= len && code_end(h) <= len && data_end(h) <= len
}

/// The `i`-th export-table entry of `bytes` under header `h`.
pub open spec fn entry_at(bytes: Seq<u8>, h: MlibHeader, i: int) -> Seq<u8> {
    bytes.subrange(h.export_table_offset + i * 24, h.export_table_offset + i * 24 + 24)
}

pub open spec fn string_table_in(bytes: Seq<u8>, h: MlibHeader) -> Seq<u8> {
    bytes.subrange(h.string_table_offset as int, string_end(h))
}

/// Whether the header's section bounds can be computed without exceeding `usize`.
pub open spec fn section_bounds_fit(bytes: Seq<u8>) -> bool {
    bytes.len() >= 80 ==> {
        let b = bytes.subrange(0, 80);
        &&& le_value(b.subrange(18, 26)) + le_value(b.subrange(26, 30)) * 24 <= usize::MAX
        &&& le_value(b.subrange(30, 38)) + le_value(b.subrange(38, 46)) <= usize::MAX
        &&& le_value(b.subrange(46, 54)) + le_value(b.subrange(54, 62)) <= usize::MAX
        &&& le_value(b.subrange(62, 70)) + le_value(b.subrange(70, 78)) <= usize::MAX
    }
}

fn array80(v: &Vec<u8>) -> (a: [u8; 80])
    requires
        v@.len() == 80,
    ensures
        a@ == v@,
{
    let a = [v[0], v[1], v[2], v[3], v[4], v[5], v[6], v[7], v[8], v[9], v[10], v[11], v[12], v[13], v[14], v[15], v[16], v[17], v[18], v[19], v[20], v[21], v[22], v[23], v[24], v[25], v[26], v[27], v[28], v[29], v[30], v[31], v[32], v[33], v[34], v[35], v[36], v[37], v[38], v[39], v[40], v[41], v[42], v[43], v[44], v[45], v[46], v[47], v[48], v[49], v[50], v[51], v[52], v[53], v[54], v[55], v[56], v[57], v[58], v[59], v[60], v[61], v[62], v[63], v[64], v[65], v[66], v[67], v[68], v[69], v[70], v[71], v[72], v[73], v[74], v[75], v[76], v[77], v[78], v[79]];
    assert(a@ =~= v@);
    a
}

fn encode_target(target: AbiTarget) -> (v: u16)
    ensures
        v == target_code(target),
{
    match target {
        AbiTarget::LinuxX86_64 => 1,
        AbiTarget::WindowsX86_64 => 2,
    }
}

fn decode_target(value: u16) -> (t: Option<AbiTarget>)
    ensures
        t == target_from_code(value as nat),
{
    match value {
        1 => Some(AbiTarget::LinuxX86_64),
        2 => Some(AbiTarget::WindowsX86_64),
        _ => None,
    }
}

impl MlibHeader {
    pub fn to_bytes(&self) -> (b: [u8; 80])
        ensures
            b@ == mlib_header_bytes(*self),
    {
        let mut v: Vec<u8> = Vec::new();
        v.push(self.magic[0]);
        v.push(self.magic[1]);
        v.push(self.magic[2]);
        v.push(self.magic[3]);
        assert(v@ =~= self.magic@);
        push_le(&mut v, self.version as u64, 2);
        push_le(&mut v, self.abi_version.major as u64, 2);
        push_le(&mut v, self.abi_version.minor as u64, 2);
        push_le(&mut v, self.abi_version.patch as u64, 2);
        push_le(&mut v, encode_target(self.target) as u64, 2);
        push_le(&mut v, self.flags as u64, 4);
        push_le(&mut v, self.export_table_offset, 8);
        push_le(&mut v, self.export_table_count as u64, 4);
        push_le(&mut v, self.string_table_offset, 8);
        push_le(&mut v, self.string_table_size, 8);
        push_le(&mut v, self.code_offset, 8);
        push_le(&mut v, self.code_size, 8);
        push_le(&mut v, self.data_offset, 8);
        push_le(&mut v, self.data_size, 8);
        v.push(0);
        v.push(0);
        proof {
            lemma_le_bytes_len(self.version as nat, 2);
            lemma_le_bytes_len(self.abi_version.major as nat, 2);
            lemma_le_bytes_len(self.abi_version.minor as nat, 2);
            lemma_le_bytes_len(self.abi_version.patch as nat, 2);
            lemma_le_bytes_len(target_code(self.target) as nat, 2);
            lemma_le_bytes_len(self.flags as nat, 4);
            lemma_le_bytes_len(self.export_table_offset as nat, 8);
            lemma_le_bytes_len(self.export_table_count as nat, 4);
            lemma_le_bytes_len(self.string_table_offset as nat, 8);
            lemma_le_bytes_len(self.string_table_size as nat, 8);
            lemma_le_bytes_len(self.code_offset as nat, 8);
            lemma_le_bytes_len(self.code_size as nat, 8);
            lemma_le_bytes_len(self.data_offset as nat, 8);
            lemma_le_bytes_len(self.data_size as nat, 8);
        }
        assert(v@ =~= mlib_header_bytes(*self));
        array80(&v)
    }

    pub fn from_bytes(bytes: [u8; 80]) -> (h: Option<Self>)
        ensures
            h is Some <==> target_from_code(le_value(bytes@.subrange(12, 14))) is Some,
            h matches Some(h) ==> decoded_mlib_header(bytes@, h),
    {
        let s = bytes.as_slice();
        let target = match decode_target(read_le(s, 12, 2) as u16) {
            Some(t) => t,
            None => return None,
        };
        proof {
            lemma_pow256_values();
            lemma_le_value_roundtrip(bytes@.subrange(4, 6));
            lemma_le_value_roundtrip(bytes@.subrange(6, 8));
            lemma_le_value_roundtrip(bytes@.subrange(8, 10));
            lemma_le_value_roundtrip(bytes@.subrange(10, 12));
            lemma_le_value_roundtrip(bytes@.subrange(12, 14));
            lemma_le_value_roundtrip(bytes@.subrange(14, 18));
            lemma_le_value_roundtrip(bytes@.subrange(26, 30));
        }
        let magic = [bytes[0], bytes[1], bytes[2], bytes[3]];
        assert(magic@ =~= bytes@.subrange(0, 4));
        Some(MlibHeader {
            magic,
            version: read_le(s, 4, 2) as u16,
            abi_version: AbiVersion::new(
                read_le(s, 6, 2) as u16,
                read_le(s, 8, 2) as u16,
                read_le(s, 10, 2) as u16,
            ),
            target,
            flags: read_le(s, 14, 4) as u32,
            export_table_offset: read_le(s, 18, 8),
            export_table_count: read_le(s, 26, 4) as u32,
            string_table_offset: read_le(s, 30, 8),
            string_table_size: read_le(s, 38, 8),
            code_offset: read_le(s, 46, 8),
            code_size: read_le(s, 54, 8),
            data_offset: read_le(s, 62, 8),
            data_size: read_le(s, 70, 8),
        })
    }
}

/// The string table and export table for `exports`.
fn build_string_table_and_exports(exports: &[MlibExport]) -> (r: (Vec<u8>, Vec<u8>))
    ensures
        r.0@ == string_table_of(exports@, exports@.len() as int),
        r.1@ == export_table_of(exports@, exports@.len() as int),
{
    let mut strings: Vec<u8> = Vec::new();
    let mut entries: Vec<u8> = Vec::new();
    let mut i: usize = 0;
    while i < exports.len()
        invariant
            i <= exports@.len(),
            strings@ == string_table_of(exports@, i as int),
            entries@ == export_table_of(exports@, i as int),
        decreases exports@.len() - i,
    {
        let export = &exports[i];
        let name_offset = strings.len();
        let name_bytes = export.name.as_str().as_bytes();
        let name_len = name_bytes.len();
        extend_bytes(&mut strings, name_bytes);
        strings.push(0);
        let (signature_offset, signature_len): (u64, u64) = match &export.signature {
            Some(signature) => {
                let offset = strings.len();
                extend_bytes(&mut strings, signature.as_slice());
                strings.push(0);
                (offset as u64, signature.len() as u64)
            },
            None => (0, 0),
        };
        push_le(&mut entries, name_offset as u64, 4);
        push_le(&mut entries, name_len as u64, 2);
        entries.push(export.kind.to_byte());
        entries.push(0);
        push_le(&mut entries, export.address, 8);
        push_le(&mut entries, signature_offset, 4);
        push_le(&mut entries, signature_len, 4);
        proof {
            let ex = exports@[i as int];
            assert(string_table_of(exports@, i + 1) == string_table_of(exports@, i as int)
                + export_strings(ex));
            assert(strings@ =~= string_table_of(exports@, i + 1));
            assert(export_table_of(exports@, i + 1) == export_table_of(exports@, i as int)
                + export_entry(ex, string_table_of(exports@, i as int).len()));
            assert(entries@ =~= export_table_of(exports@, i + 1));
        }
        i += 1;
    }
    (strings, entries)
}

/// The string stored at `offset..offset + len` of the string table.
fn read_string(strings: &[u8], offset: usize, len: usize) -> (r: Option<String>)
    ensures
        r is Some <==> (offset + len <= strings@.len() && valid_utf8(
            strings@.subrange(offset as int, offset + len),
        )),
        r matches Some(s) ==> s@ == decode_utf8(strings@.subrange(offset as int, offset + len)),
{
    if len > strings.len() || offset > strings.len() - len {
        return None;
    }
    let bytes = slice_subrange(strings, offset, offset + len);
    match utf8_str(bytes) {
        Some(value) => Some(owned(value)),
        None => None,
    }
}

/// Whether the sizes of a library fit the header fields when its layout is rebuilt.
pub open spec fn layout_sizes_fit(exports_len: nat, strings_len: nat, code_len: nat, data_len: nat) -> bool {
    &&& exports_len * 24 <= usize::MAX
    &&& exports_len <= u32::MAX
    &&& 80 + exports_len * 24 + strings_len + code_len + data_len <= u64::MAX
}

/// The header fields that describe the sections of a library laid out in order.
pub open spec fn laid_out(h: MlibHeader, n_exports: nat, strings_len: nat, code_len: nat, data_len: nat) -> bool {
    &&& h.export_table_offset == 80
    &&& h.export_table_count == n_exports
    &&& h.string_table_offset == 80 + n_exports * 24
    &&& h.string_table_size == strings_len
    &&& h.code_offset == 80 + n_exports * 24 + strings_len
    &&& h.code_size == code_len
    &&& h.data_offset == 80 + n_exports * 24 + strings_len + code_len
    &&& h.data_size == data_len
}

impl MlibFile {
    pub fn new(target: AbiTarget, exports: Vec<MlibExport>, code: Vec<u8>, data: Vec<u8>) -> (f: Self)
        requires
            layout_sizes_fit(
                exports@.len(),
                string_table_of(exports@, exports@.len() as int).len(),
                code@.len(),
                data@.len(),
            ),
        ensures
            f.header.magic@ == mlib_magic(),
            f.header.version == 1,
            f.header.abi_version == current_version(),
            f.header.target == target,
            f.header.flags == 0,
            laid_out(f.header, exports@.len(), f.string_table@.len(), code@.len(), data@.len()),
            f.exports@ == exports@,
            f.string_table@ == string_table_of(exports@, exports@.len() as int),
            f.code@ == code@,
            f.data@ == data@,
    {
        let magic = [77u8, 76u8, 73u8, 66u8];
        assert(magic@ =~= mlib_magic());
        let mut file = MlibFile {
            header: MlibHeader {
                magic,
                version: 1,
                abi_version: current_abi_version(),
                target,
                flags: 0,
                export_table_offset: 0,
                export_table_count: exports.len() as u32,
                string_table_offset: 0,
                string_table_size: 0,
                code_offset: 0,
                code_size: code.len() as u64,
                data_offset: 0,
                data_size: data.len() as u64,
            },
            exports,
            string_table: Vec::new(),
            code,
            data,
        };
        file.rebuild_layout();
        file
    }

    pub fn to_bytes(&self) -> (b: Vec<u8>)
        ensures
            b@ == mlib_file_bytes(*self),
    {
        let (string_table, export_table) = build_string_table_and_exports(self.exports.as_slice());
        let mut bytes: Vec<u8> = Vec::new();
        let header = self.header.to_bytes();
        extend_bytes(&mut bytes, header.as_slice());
        extend_bytes(&mut bytes, export_table.as_slice());
        extend_bytes(&mut bytes, string_table.as_slice());
        extend_bytes(&mut bytes, self.code.as_slice());
        extend_bytes(&mut bytes, self.data.as_slice());
        bytes
    }

    /// Reads a library from any bytes: `None` where a header's section bounds would
    /// overflow, else what `from_bytes` reads.
    pub fn from_bytes_checked(bytes: &[u8]) -> (f: Option<Self>)
        ensures
            !section_bounds_fit(bytes@) ==> f is None,
            section_bounds_fit(bytes@) ==> (f is Some <==> ({
                &&& bytes@.len() >= 80
                &&& exists|h: MlibHeader| {
                    &&& decoded_mlib_header(bytes@.subrange(0, 80), h)
                    &&& h.magic@ == mlib_magic()
                    &&& sections_within(h, bytes@.len() as int)
                    &&& forall|i: int|
                        0 <= i < h.export_table_count ==> entry_readable(
                            string_table_in(bytes@, h),
                            #[trigger] entry_at(bytes@, h, i),
                        )
                }
            })),
            f matches Some(g) ==> mlib_read_as(bytes@, g),
    {
        if bytes.len() >= 80 {
            let head = slice_subrange(bytes, 0, 80);
            proof {
                assert(head@ =~= bytes@.subrange(0, 80));
            }
            let export_offset = read_le(head, 18, 8) as u128;
            let export_count = read_le(head, 26, 4) as u128;
            let string_offset = read_le(head, 30, 8) as u128;
            let string_size = read_le(head, 38, 8) as u128;
            let code_offset = read_le(head, 46, 8) as u128;
            let code_size = read_le(head, 54, 8) as u128;
            let data_offset = read_le(head, 62, 8) as u128;
            let data_size = read_le(head, 70, 8) as u128;
            let limit = usize::MAX as u128;
            if export_offset + export_count * 24 > limit || string_offset + string_size > limit || code_offset + code_size
                > limit || data_offset + data_size > limit {
                return None;
            }
        }
        Self::from_bytes(bytes)
    }

    pub fn from_bytes(bytes: &[u8]) -> (f: Option<Self>)
        requires
            section_bounds_fit(bytes@),
        ensures
            f is Some <==> ({
                &&& bytes@.len() >= 80
                &&& exists|h: MlibHeader| {
                    &&& decoded_mlib_header(bytes@.subrange(0, 80), h)
                    &&& h.magic@ == mlib_magic()
                    &&& sections_within(h, bytes@.len() as int)
                    &&& forall|i: int|
                        0 <= i < h.export_table_count ==> entry_readable(
                            string_table_in(bytes@, h),
                            #[trigger] entry_at(bytes@, h, i),
                        )
                }
            }),
            f matches Some(f) ==> {
                &&& decoded_mlib_header(bytes@.subrange(0, 80), f.header)
                &&& f.string_table@ == string_table_in(bytes@, f.header)
                &&& f.exports@.len() == f.header.export_table_count
                &&& forall|i: int|
                    0 <= i < f.exports@.len() ==> entry_reads_as(
                        f.string_table@,
                        #[trigger] entry_at(bytes@, f.header, i),
                        f.exports@[i],
                    )
                &&& f.code@ == bytes@.subrange(f.header.code_offset as int, code_end(f.header))
                &&& f.data@ == bytes@.subrange(f.header.data_offset as int, data_end(f.header))
            },
    {
        if bytes.len() < MLIB_HEADER_SIZE {
            return None;
        }
        let head = slice_subrange(bytes, 0, 80);
        let mut v: Vec<u8> = slice_to_vec(head);
        let header = match MlibHeader::from_bytes(array80(&v)) {
            Some(h) => h,
            None => {
                proof {
                    assert forall|h: MlibHeader| !decoded_mlib_header(bytes@.subrange(0, 80), h) by {
                    }
                }
                return None;
            },
        };
        proof {
            decoded_header_unique(bytes@.subrange(0, 80), header);
        }
        if !(header.magic[0] == 77 && header.magic[1] == 76 && header.magic[2] == 73 && header.magic[3] == 66) {
            proof {
                assert(header.magic@ != mlib_magic()) by {
                    if header.magic@ == mlib_magic() {
                        assert(header.magic@[0] == 77 && header.magic@[1] == 76);
                        assert(header.magic@[2] == 73 && header.magic@[3] == 66);
                    }
                }
            }
            return None;
        }
        assert(header.magic@ =~= mlib_magic());
        let export_table_start = header.export_table_offset as usize;
        let export_table_end = export_table_start + header.export_table_count as usize * 24;
        let string_table_start = header.string_table_offset as usize;
        let string_table_end = string_table_start + header.string_table_size as usize;
        let code_start = header.code_offset as usize;
        let code_end = code_start + header.code_size as usize;
        let data_start = header.data_offset as usize;
        let data_end = data_start + header.data_size as usize;

        if export_table_end > bytes.len() || string_table_end > bytes.len() || code_end > bytes.len()
            || data_end > bytes.len() {
            return None;
        }
        let string_table = slice_to_vec(slice_subrange(bytes, string_table_start, string_table_end));
        let ghost st = string_table@;
        let mut exports: Vec<MlibExport> = Vec::new();
        let count = header.export_table_count as usize;
        let mut index: usize = 0;
        while index < count
            invariant
                index <= count,
                bytes@.len() >= 80,
                decoded_mlib_header(bytes@.subrange(0, 80), header),
                count == header.export_table_count,
                export_table_end == header.export_table_offset + count * 24,
                export_table_end <= bytes@.len(),
                export_table_start == header.export_table_offset,
                st == string_table@,
                st == string_table_in(bytes@, header),
                exports@.len() == index,
                forall|i: int|
                    0 <= i < index ==> entry_reads_as(st, #[trigger] entry_at(bytes@, header, i), exports@[i]),
                forall|i: int|
                    0 <= i < index ==> entry_readable(st, #[trigger] entry_at(bytes@, header, i)),
            decreases count - index,
        {
            assert(index * 24 + 24 <= count * 24) by (nonlinear_arith)
                requires index < count;
            let offset = export_table_start + index * 24;
            let entry = slice_subrange(bytes, offset, offset + 24);
            assert(entry@ == entry_at(bytes@, header, index as int));
            let name_offset = read_le(entry, 0, 4) as usize;
            let name_len = read_le(entry, 4, 2) as usize;
            let kind = MlibExportKind::from_byte(entry[6]);
            let address = read_le(entry, 8, 8);
            let signature_offset = read_le(entry, 16, 4);
            let signature_len = read_le(entry, 20, 4);
            proof {
                lemma_pow256_values();
                lemma_le_value_roundtrip(entry@.subrange(0, 4));
                lemma_le_value_roundtrip(entry@.subrange(4, 6));
                lemma_le_value_roundtrip(entry@.subrange(16, 20));
                lemma_le_value_roundtrip(entry@.subrange(20, 24));
            }
            let kind = match kind {
                Some(k) => k,
                None => {
                    proof {
                        no_header_reads(bytes@, header, index as int);
                    }
                    return None;
                },
            };
            let name = match read_string(string_table.as_slice(), name_offset, name_len) {
                Some(n) => n,
                None => {
                    proof {
                        no_header_reads(bytes@, header, index as int);
                    }
                    return None;
                },
            };
            let signature = if signature_len == 0 {
                None
            } else {
                if signature_offset + signature_len > string_table.len() as u64 {
                    proof {
                        no_header_reads(bytes@, header, index as int);
                    }
                    return None;
                }
                Some(slice_to_vec(slice_subrange(
                    string_table.as_slice(),
                    signature_offset as usize,
                    (signature_offset + signature_len) as usize,
                )))
            };
            exports.push(MlibExport { name, kind, address, signature });
            index += 1;
        }
        let code = slice_to_vec(slice_subrange(bytes, code_start, code_end));
        let data = slice_to_vec(slice_subrange(bytes, data_start, data_end));
        assert({
            &&& decoded_mlib_header(bytes@.subrange(0, 80), header)
            &&& header.magic@ == mlib_magic()
            &&& sections_within(header, bytes@.len() as int)
            &&& forall|i: int|
                0 <= i < header.export_table_count ==> entry_readable(
                    string_table_in(bytes@, header),
                    #[trigger] entry_at(bytes@, header, i),
                )
        });
        Some(MlibFile { header, exports, string_table, code, data })
    }

    /// The embedded source text, when the embedded-source flag is set and the data
    /// section is valid UTF-8.
    pub fn embedded_source(&self) -> (r: Option<&str>)
        ensures
            r is Some <==> (self.header.flags & 1 != 0 && valid_utf8(self.data@)),
            r matches Some(s) ==> s@ == decode_utf8(self.data@),
    {
        if self.header.flags & MLIB_FLAG_EMBEDDED_SOURCE == 0 {
            return None;
        }
        utf8_str(self.data.as_slice())
    }

    fn rebuild_layout(&mut self)
        requires
            layout_sizes_fit(
                old(self).exports@.len(),
                string_table_of(old(self).exports@, old(self).exports@.len() as int).len(),
                old(self).code@.len(),
                old(self).data@.len(),
            ),
        ensures
            final(self).exports@ == old(self).exports@,
            final(self).code@ == old(self).code@,
            final(self).data@ == old(self).data@,
            final(self).string_table@ == string_table_of(old(self).exports@, old(self).exports@.len() as int),
            laid_out(final(self).header, old(self).exports@.len(), final(self).string_table@.len(), old(self).code@.len(), old(self).data@.len()),
            final(self).header.magic == old(self).header.magic,
            final(self).header.version == old(self).header.version,
            final(self).header.abi_version == old(self).header.abi_version,
            final(self).header.target == old(self).header.target,
            final(self).header.flags == old(self).header.flags,
    {
        let (string_table, _) = build_string_table_and_exports(self.exports.as_slice());
        self.string_table = string_table;
        let export_table_size = (self.exports.len() * 24) as u64;
        let string_table_size = self.string_table.len() as u64;
        self.header.export_table_offset = 80;
        self.header.export_table_count = self.exports.len() as u32;
        self.header.string_table_offset = self.header.export_table_offset + export_table_size;
        self.header.string_table_size = string_table_size;
        self.header.code_offset = self.header.string_table_offset + string_table_size;
        self.header.code_size = self.code.len() as u64;
        self.header.data_offset = self.header.code_offset + self.header.code_size;
        self.header.data_size = self.data.len() as u64;
    }
}

/// When entry `i` under the decoded header `header` is unreadable, no header decoded
/// from the same bytes has all its entries readable.
proof fn no_header_reads(bytes: Seq<u8>, header: MlibHeader, i: int)
    requires
        bytes.len() >= 80,
        decoded_mlib_header(bytes.subrange(0, 80), header),
        0 <= i < header.export_table_count,
        !entry_readable(string_table_in(bytes, header), entry_at(bytes, header, i)),
    ensures
        !exists|h: MlibHeader| {
            &&& decoded_mlib_header(bytes.subrange(0, 80), h)
            &&& h.magic@ == mlib_magic()
            &&& sections_within(h, bytes.len() as int)
            &&& forall|j: int|
                0 <= j < h.export_table_count ==> entry_readable(
                    string_table_in(bytes, h),
                    #[trigger] entry_at(bytes, h, j),
                )
        },
{
    decoded_header_unique(bytes.subrange(0, 80), header);
    assert forall|h: MlibHeader| decoded_mlib_header(bytes.subrange(0, 80), h) implies !(forall|j: int|
        0 <= j < h.export_table_count ==> entry_readable(
            string_table_in(bytes, h),
            #[trigger] entry_at(bytes, h, j),
        )) by {
        assert(entry_at(bytes, h, i) == entry_at(bytes, header, i));
        assert(string_table_in(bytes, h) == string_table_in(bytes, header));
    }
}

proof fn decoded_header_unique(b: Seq<u8>, h: MlibHeader)
    requires
        decoded_mlib_header(b, h),
    ensures
        forall|g: MlibHeader| decoded_mlib_header(b, g) ==> g.magic@ == h.magic@ && g.export_table_offset == h.export_table_offset
            && g.export_table_count == h.export_table_count && g.string_table_offset == h.string_table_offset
            && g.string_table_size == h.string_table_size && g.code_offset == h.code_offset && g.code_size == h.code_size
            && g.data_offset == h.data_offset && g.data_size == h.data_size,
{
}

/// Reading back the bytes of a library header gives the header again: every field, the
/// target accepted, and the two trailing bytes zero.
pub proof fn lemma_mlib_header_roundtrip(h: MlibHeader, d: MlibHeader)
    requires
        decoded_mlib_header(mlib_header_bytes(h), d),
    ensures
        d.magic@ == h.magic@,
        d.version == h.version,
        d.abi_version == h.abi_version,
        d.target == h.target,
        d.flags == h.flags,
        d.export_table_offset == h.export_table_offset,
        d.export_table_count == h.export_table_count,
        d.string_table_offset == h.string_table_offset,
        d.string_table_size == h.string_table_size,
        d.code_offset == h.code_offset,
        d.code_size == h.code_size,
        d.data_offset == h.data_offset,
        d.data_size == h.data_size,
{
    lemma_mlib_header_bytes(h);
}

/// The bytes of a header are 80 long, the target is one `from_bytes` accepts, the fields
/// read back as written, and the last two bytes are zero.
pub proof fn lemma_mlib_header_bytes(h: MlibHeader)
    ensures
        mlib_header_bytes(h).len() == 80,
        mlib_header_bytes(h).subrange(0, 4) == h.magic@,
        le_value(mlib_header_bytes(h).subrange(4, 6)) == h.version,
        le_value(mlib_header_bytes(h).subrange(6, 8)) == h.abi_version.major,
        le_value(mlib_header_bytes(h).subrange(8, 10)) == h.abi_version.minor,
        le_value(mlib_header_bytes(h).subrange(10, 12)) == h.abi_version.patch,
        target_from_code(le_value(mlib_header_bytes(h).subrange(12, 14))) == Some(h.target),
        le_value(mlib_header_bytes(h).subrange(14, 18)) == h.flags,
        le_value(mlib_header_bytes(h).subrange(18, 26)) == h.export_table_offset,
        le_value(mlib_header_bytes(h).subrange(26, 30)) == h.export_table_count,
        le_value(mlib_header_bytes(h).subrange(30, 38)) == h.string_table_offset,
        le_value(mlib_header_bytes(h).subrange(38, 46)) == h.string_table_size,
        le_value(mlib_header_bytes(h).subrange(46, 54)) == h.code_offset,
        le_value(mlib_header_bytes(h).subrange(54, 62)) == h.code_size,
        le_value(mlib_header_bytes(h).subrange(62, 70)) == h.data_offset,
        le_value(mlib_header_bytes(h).subrange(70, 78)) == h.data_size,
        mlib_header_bytes(h).subrange(78, 80) == seq![0u8, 0u8],
{
    let front = h.magic@ + le_bytes(h.version as nat, 2) + le_bytes(h.abi_version.major as nat, 2) + le_bytes(
        h.abi_version.minor as nat,
        2,
    ) + le_bytes(h.abi_version.patch as nat, 2) + le_bytes(target_code(h.target) as nat, 2)
        + le_bytes(h.flags as nat, 4) + le_bytes(h.export_table_offset as nat, 8) + le_bytes(
        h.export_table_count as nat,
        4,
    );
    let back = le_bytes(h.string_table_offset as nat, 8) + le_bytes(h.string_table_size as nat, 8)
        + le_bytes(h.code_offset as nat, 8) + le_bytes(h.code_size as nat, 8) + le_bytes(
        h.data_offset as nat,
        8,
    ) + le_bytes(h.data_size as nat, 8) + seq![0u8, 0u8];
    lemma_header_front(h, front);
    lemma_header_back(h, back);
    let b = mlib_header_bytes(h);
    assert(b =~= front + back);
    assert forall|lo: int, hi: int| 0 <= lo <= hi <= 30 implies b.subrange(lo, hi) == front.subrange(lo, hi) by {
        assert(b.subrange(lo, hi) =~= front.subrange(lo, hi));
    }
    assert forall|lo: int, hi: int| 30 <= lo <= hi <= 80 implies b.subrange(lo, hi) == back.subrange(lo - 30, hi - 30) by {
        assert(b.subrange(lo, hi) =~= back.subrange(lo - 30, hi - 30));
    }
}

#[verifier::rlimit(40)]
proof fn lemma_header_front(h: MlibHeader, front: Seq<u8>)
    requires
        front == h.magic@ + le_bytes(h.version as nat, 2) + le_bytes(h.abi_version.major as nat, 2) + le_bytes(
            h.abi_version.minor as nat,
            2,
        ) + le_bytes(h.abi_version.patch as nat, 2) + le_bytes(target_code(h.target) as nat, 2)
            + le_bytes(h.flags as nat, 4) + le_bytes(h.export_table_offset as nat, 8) + le_bytes(
            h.export_table_count as nat,
            4,
        ),
    ensures
        front.len() == 30,
        front.subrange(0, 4) == h.magic@,
        le_value(front.subrange(4, 6)) == h.version,
        le_value(front.subrange(6, 8)) == h.abi_version.major,
        le_value(front.subrange(8, 10)) == h.abi_version.minor,
        le_value(front.subrange(10, 12)) == h.abi_version.patch,
        target_from_code(le_value(front.subrange(12, 14))) == Some(h.target),
        le_value(front.subrange(14, 18)) == h.flags,
        le_value(front.subrange(18, 26)) == h.export_table_offset,
        le_value(front.subrange(26, 30)) == h.export_table_count,
{
    lemma_pow256_values();
    lemma_le_roundtrip(h.version as nat, 2);
    lemma_le_roundtrip(h.abi_version.major as nat, 2);
    lemma_le_roundtrip(h.abi_version.minor as nat, 2);
    lemma_le_roundtrip(h.abi_version.patch as nat, 2);
    lemma_le_roundtrip(target_code(h.target) as nat, 2);
    lemma_le_roundtrip(h.flags as nat, 4);
    lemma_le_roundtrip(h.export_table_offset as nat, 8);
    lemma_le_roundtrip(h.export_table_count as nat, 4);
    assert(front.subrange(0, 4) =~= h.magic@);
    assert(front.subrange(4, 6) =~= le_bytes(h.version as nat, 2));
    assert(front.subrange(6, 8) =~= le_bytes(h.abi_version.major as nat, 2));
    assert(front.subrange(8, 10) =~= le_bytes(h.abi_version.minor as nat, 2));
    assert(front.subrange(10, 12) =~= le_bytes(h.abi_version.patch as nat, 2));
    assert(front.subrange(12, 14) =~= le_bytes(target_code(h.target) as nat, 2));
    assert(front.subrange(14, 18) =~= le_bytes(h.flags as nat, 4));
    assert(front.subrange(18, 26) =~= le_bytes(h.export_table_offset as nat, 8));
    assert(front.subrange(26, 30) =~= le_bytes(h.export_table_count as nat, 4));
}

#[verifier::rlimit(40)]
proof fn lemma_header_back(h: MlibHeader, back: Seq<u8>)
    requires
        back == le_bytes(h.string_table_offset as nat, 8) + le_bytes(h.string_table_size as nat, 8)
            + le_bytes(h.code_offset as nat, 8) + le_bytes(h.code_size as nat, 8) + le_bytes(
            h.data_offset as nat,
            8,
        ) + le_bytes(h.data_size as nat, 8) + seq![0u8, 0u8],
    ensures
        back.len() == 50,
        le_value(back.subrange(0, 8)) == h.string_table_offset,
        le_value(back.subrange(8, 16)) == h.string_table_size,
        le_value(back.subrange(16, 24)) == h.code_offset,
        le_value(back.subrange(24, 32)) == h.code_size,
        le_value(back.subrange(32, 40)) == h.data_offset,
        le_value(back.subrange(40, 48)) == h.data_size,
        back.subrange(48, 50) == seq![0u8, 0u8],
{
    lemma_pow256_values();
    lemma_le_roundtrip(h.string_table_offset as nat, 8);
    lemma_le_roundtrip(h.string_table_size as nat, 8);
    lemma_le_roundtrip(h.code_offset as nat, 8);
    lemma_le_roundtrip(h.code_size as nat, 8);
    lemma_le_roundtrip(h.data_offset as nat, 8);
    lemma_le_roundtrip(h.data_size as nat, 8);
    assert(back.subrange(0, 8) =~= le_bytes(h.string_table_offset as nat, 8));
    assert(back.subrange(8, 16) =~= le_bytes(h.string_table_size as nat, 8));
    assert(back.subrange(16, 24) =~= le_bytes(h.code_offset as nat, 8));
    assert(back.subrange(24, 32) =~= le_bytes(h.code_size as nat, 8));
    assert(back.subrange(32, 40) =~= le_bytes(h.data_offset as nat, 8));
    assert(back.subrange(40, 48) =~= le_bytes(h.data_size as nat, 8));
    assert(back.subrange(48, 50) =~= seq![0u8, 0u8]);
}

/// The bytes of a library file: the header, the export table, the string
/// table, the code and the data, one after another.
pub open spec fn mlib_file_bytes(f: MlibFile) -> Seq<u8> {
    mlib_header_bytes(f.header) + export_table_of(f.exports@, f.exports@.len() as int) + string_table_of(
        f.exports@,
        f.exports@.len() as int,
    ) + f.code@ + f.data@
}

proof fn lemma_export_table_len(exports: Seq<MlibExport>, n: int)
    requires
        0 <= n <= exports.len(),
    ensures
        export_table_of(exports, n).len() == 24 * n,
    decreases n,
{
    if n > 0 {
        lemma_export_table_len(exports, n - 1);
        let e = exports[n - 1];
        let base = string_table_of(exports, n - 1).len();
        let name_len = encode_utf8(e.name@).len();
        let (sig_offset, sig_len) = match e.signature {
            Some(sig) => (base + name_len + 1, sig@.len()),
            None => (0nat, 0nat),
        };
        lemma_le_bytes_len(base, 4);
        lemma_le_bytes_len(name_len, 2);
        lemma_le_bytes_len(e.address as nat, 8);
        lemma_le_bytes_len(sig_offset, 4);
        lemma_le_bytes_len(sig_len, 4);
    }
}

/// A library laid out by `new` writes its sections where its header says: the header in
/// the first 80 bytes, then the export table, the string table (each export's name and a
/// NUL, then its signature and a NUL where it has one, in export order), the code and the
/// data, which ends the file.
pub proof fn lemma_mlib_file_layout(f: MlibFile)
    requires
        laid_out(f.header, f.exports@.len(), f.string_table@.len(), f.code@.len(), f.data@.len()),
        f.string_table@ == string_table_of(f.exports@, f.exports@.len() as int),
    ensures
        ({
            let b = mlib_file_bytes(f);
            let h = f.header;
            &&& b.subrange(0, 80) == mlib_header_bytes(h)
            &&& b.len() == h.data_offset + f.data@.len()
            &&& b.subrange(h.string_table_offset as int, h.code_offset as int) == f.string_table@
            &&& b.subrange(h.code_offset as int, h.data_offset as int) == f.code@
            &&& b.subrange(h.data_offset as int, b.len() as int) == f.data@
        }),
{
    let n = f.exports@.len() as int;
    lemma_export_table_len(f.exports@, n);
    lemma_mlib_header_bytes(f.header);
    let hb = mlib_header_bytes(f.header);
    let et = export_table_of(f.exports@, n);
    let st = f.string_table@;
    let b = mlib_file_bytes(f);
    assert(b == hb + et + st + f.code@ + f.data@);
    assert(b.subrange(0, 80) =~= hb);
    assert(b.subrange(80 + 24 * n, 80 + 24 * n + st.len()) =~= st);
    assert(b.subrange(80 + 24 * n + st.len(), 80 + 24 * n + st.len() + f.code@.len()) =~= f.code@);
    assert(b.subrange(80 + 24 * n + st.len() + f.code@.len(), b.len() as int) =~= f.data@);
}

/// The fields of an export-table entry read back as written, when they fit their widths.
proof fn lemma_export_entry_fields(e: MlibExport, base: nat)
    requires
        base + encode_utf8(e.name@).len() + 1 + match e.signature {
            Some(sig) => sig@.len(),
            None => 0,
        } < 0x1_0000_0000,
        encode_utf8(e.name@).len() < 0x10000,
    ensures
        ({
            let x = export_entry(e, base);
            let name_len = encode_utf8(e.name@).len();
            &&& x.len() == 24
            &&& le_value(x.subrange(0, 4)) == base
            &&& le_value(x.subrange(4, 6)) == name_len
            &&& x[6] == kind_code(e.kind)
            &&& le_value(x.subrange(8, 16)) == e.address
            &&& le_value(x.subrange(16, 20)) == (match e.signature {
                Some(sig) => base + name_len + 1,
                None => 0nat,
            })
            &&& le_value(x.subrange(20, 24)) == (match e.signature {
                Some(sig) => sig@.len(),
                None => 0nat,
            })
        }),
{
    lemma_pow256_values();
    let name_len = encode_utf8(e.name@).len();
    let (sig_offset, sig_len) = match e.signature {
        Some(sig) => (base + name_len + 1, sig@.len()),
        None => (0nat, 0nat),
    };
    lemma_le_roundtrip(base, 4);
    lemma_le_roundtrip(name_len, 2);
    lemma_le_roundtrip(e.address as nat, 8);
    lemma_le_roundtrip(sig_offset, 4);
    lemma_le_roundtrip(sig_len, 4);
    let x = export_entry(e, base);
    assert(x.subrange(0, 4) =~= le_bytes(base, 4));
    assert(x.subrange(4, 6) =~= le_bytes(name_len, 2));
    assert(x.subrange(8, 16) =~= le_bytes(e.address as nat, 8));
    assert(x.subrange(16, 20) =~= le_bytes(sig_offset, 4));
    assert(x.subrange(20, 24) =~= le_bytes(sig_len, 4));
}

/// Entry `i` of the export table of the first `n` exports is the entry of export `i`, with
/// its strings where the string table of the exports before it ends.
proof fn lemma_export_table_entry(exports: Seq<MlibExport>, n: int, i: int)
    requires
        0 <= i < n <= exports.len(),
    ensures
        export_table_of(exports, n).subrange(24 * i, 24 * i + 24) == export_entry(
            exports[i],
            string_table_of(exports, i).len(),
        ),
    decreases n,
{
    lemma_export_table_len(exports, n - 1);
    let prev = export_table_of(exports, n - 1);
    let last = export_entry(exports[n - 1], string_table_of(exports, n - 1).len());
    assert(export_table_of(exports, n) == prev + last);
    lemma_export_entry_len(exports[n - 1], string_table_of(exports, n - 1).len());
    if i < n - 1 {
        lemma_export_table_entry(exports, n - 1, i);
        assert((prev + last).subrange(24 * i, 24 * i + 24) =~= prev.subrange(24 * i, 24 * i + 24));
    } else {
        assert((prev + last).subrange(24 * i, 24 * i + 24) =~= last);
    }
}

proof fn lemma_export_entry_len(e: MlibExport, base: nat)
    ensures
        export_entry(e, base).len() == 24,
{
    let name_len = encode_utf8(e.name@).len();
    let (sig_offset, sig_len) = match e.signature {
        Some(sig) => (base + name_len + 1, sig@.len()),
        None => (0nat, 0nat),
    };
    lemma_le_bytes_len(base, 4);
    lemma_le_bytes_len(name_len, 2);
    lemma_le_bytes_len(e.address as nat, 8);
    lemma_le_bytes_len(sig_offset, 4);
    lemma_le_bytes_len(sig_len, 4);
}

/// The string table of the first `i` exports begins the string table of the first `n`.
proof fn lemma_string_table_prefix(exports: Seq<MlibExport>, i: int, n: int)
    requires
        0 <= i <= n <= exports.len(),
    ensures
        string_table_of(exports, i).len() <= string_table_of(exports, n).len(),
        string_table_of(exports, n).subrange(0, string_table_of(exports, i).len() as int) == string_table_of(exports, i),
    decreases n - i,
{
    if i < n {
        lemma_string_table_prefix(exports, i, n - 1);
        let a = string_table_of(exports, n - 1);
        let b = string_table_of(exports, n);
        assert(b == a + export_strings(exports[n - 1]));
        let k = string_table_of(exports, i).len() as int;
        assert(b.subrange(0, k) =~= a.subrange(0, k));
    } else {
        assert(string_table_of(exports, n).subrange(0, string_table_of(exports, n).len() as int) =~= string_table_of(exports, n));
    }
}

/// Export `i`'s strings lie in the string table where the strings of the exports before it
/// end: its name's UTF-8 bytes, then, with a signature, the signature's bytes after a NUL.
proof fn lemma_export_strings_at(exports: Seq<MlibExport>, i: int, n: int)
    requires
        0 <= i < n <= exports.len(),
    ensures
        ({
            let st = string_table_of(exports, n);
            let base = string_table_of(exports, i).len() as int;
            let name = encode_utf8(exports[i].name@);
            &&& base + export_strings(exports[i]).len() <= st.len()
            &&& st.subrange(base, base + name.len()) == name
            &&& (exports[i].signature matches Some(sig) ==> st.subrange(base + name.len() + 1, base + name.len() + 1 + sig@.len())
                == sig@)
        }),
{
    lemma_string_table_prefix(exports, i + 1, n);
    let st = string_table_of(exports, n);
    let upto = string_table_of(exports, i + 1);
    let base = string_table_of(exports, i).len() as int;
    let es = export_strings(exports[i]);
    assert(upto == string_table_of(exports, i) + es);
    let name = encode_utf8(exports[i].name@);
    assert(st.subrange(base, base + name.len()) =~= upto.subrange(base, base + name.len()));
    assert(upto.subrange(base, base + name.len()) =~= name);
    if let Some(sig) = exports[i].signature {
        let lo = base + name.len() + 1;
        assert(st.subrange(lo, lo + sig@.len()) =~= upto.subrange(lo, lo + sig@.len()));
        assert(upto.subrange(lo, lo + sig@.len()) =~= sig@);
    }
}

/// A file laid out by `new` whose sizes fit the entry fields: names under 64 KiB, a string
/// table under 4 GiB, no empty signature (an empty one is written as none), and bytes that
/// fit in memory.
pub open spec fn mlib_round_trip_ready(f: MlibFile) -> bool {
    let n = f.exports@.len();
    &&& f.header.magic@ == mlib_magic()
    &&& laid_out(f.header, n, f.string_table@.len(), f.code@.len(), f.data@.len())
    &&& f.string_table@ == string_table_of(f.exports@, n as int)
    &&& f.string_table@.len() < 0x1_0000_0000
    &&& forall|i: int| 0 <= i < n ==> encode_utf8((#[trigger] f.exports@[i]).name@).len() < 0x10000
    &&& forall|i: int| 0 <= i < n ==> !((#[trigger] f.exports@[i]).signature matches Some(sig) && sig@.len() == 0)
    &&& mlib_file_bytes(f).len() <= usize::MAX
}

/// What `from_bytes` reads from `bytes` when it gives `g`.
pub open spec fn mlib_read_as(bytes: Seq<u8>, g: MlibFile) -> bool {
    &&& decoded_mlib_header(bytes.subrange(0, 80), g.header)
    &&& g.string_table@ == string_table_in(bytes, g.header)
    &&& g.exports@.len() == g.header.export_table_count
    &&& forall|i: int|
        0 <= i < g.exports@.len() ==> entry_reads_as(g.string_table@, #[trigger] entry_at(bytes, g.header, i), g.exports@[i])
    &&& g.code@ == bytes.subrange(g.header.code_offset as int, code_end(g.header))
    &&& g.data@ == bytes.subrange(g.header.data_offset as int, data_end(g.header))
}

proof fn lemma_entry_in_file(f: MlibFile, i: int)
    requires
        mlib_round_trip_ready(f),
        0 <= i < f.exports@.len(),
    ensures
        entry_at(mlib_file_bytes(f), f.header, i) == export_entry(f.exports@[i], string_table_of(f.exports@, i).len()),
        string_table_in(mlib_file_bytes(f), f.header) == f.string_table@,
{
    let n = f.exports@.len() as int;
    lemma_export_table_len(f.exports@, n);
    lemma_export_table_entry(f.exports@, n, i);
    lemma_mlib_header_bytes(f.header);
    lemma_mlib_file_layout(f);
    let b = mlib_file_bytes(f);
    let hb = mlib_header_bytes(f.header);
    let et = export_table_of(f.exports@, n);
    assert(b == hb + et + f.string_table@ + f.code@ + f.data@);
    assert(b.subrange(80 + 24 * i, 80 + 24 * i + 24) =~= et.subrange(24 * i, 24 * i + 24));
}

proof fn lemma_entry_facts(f: MlibFile, i: int)
    requires
        mlib_round_trip_ready(f),
        0 <= i < f.exports@.len(),
    ensures
        ({
            let e = f.exports@[i];
            let base = string_table_of(f.exports@, i).len();
            let x = export_entry(e, base);
            let st = f.string_table@;
            let name = encode_utf8(e.name@);
            &&& x.len() == 24
            &&& le_value(x.subrange(0, 4)) == base
            &&& le_value(x.subrange(4, 6)) == name.len()
            &&& x[6] == kind_code(e.kind)
            &&& le_value(x.subrange(8, 16)) == e.address
            &&& base + name.len() <= st.len()
            &&& st.subrange(base as int, (base + name.len()) as int) == name
            &&& (match e.signature {
                Some(sig) => le_value(x.subrange(20, 24)) == sig@.len() && sig@.len() > 0 && le_value(x.subrange(16, 20))
                    == base + name.len() + 1 && base + name.len() + 1 + sig@.len() <= st.len() && st.subrange(
                    (base + name.len() + 1) as int,
                    (base + name.len() + 1 + sig@.len()) as int,
                ) == sig@,
                None => le_value(x.subrange(20, 24)) == 0,
            })
        }),
{
    let n = f.exports@.len() as int;
    let e = f.exports@[i];
    lemma_export_strings_at(f.exports@, i, n);
    assert(encode_utf8(e.name@).len() < 0x10000);
    assert(!(e.signature matches Some(sig) && sig@.len() == 0));
    lemma_export_entry_fields(e, string_table_of(f.exports@, i).len());
}

/// Reading the bytes of a file gives it back: `from_bytes` accepts them, and what it reads
/// has the file's header, string table, code, data and exports.
pub proof fn lemma_mlib_file_accepted(f: MlibFile)
    requires
        mlib_round_trip_ready(f),
    ensures
        ({
            let b = mlib_file_bytes(f);
            &&& section_bounds_fit(b)
            &&& b.len() >= 80
            &&& decoded_mlib_header(b.subrange(0, 80), f.header)
            &&& f.header.magic@ == mlib_magic()
            &&& sections_within(f.header, b.len() as int)
            &&& forall|i: int| 0 <= i < f.header.export_table_count ==> entry_readable(
                string_table_in(b, f.header),
                #[trigger] entry_at(b, f.header, i),
            )
        }),
{
    let b = mlib_file_bytes(f);
    lemma_mlib_file_layout(f);
    lemma_mlib_header_bytes(f.header);
    assert(b.subrange(0, 80).subrange(0, 4) =~= b.subrange(0, 4));
    assert forall|lo: int, hi: int| 0 <= lo <= hi <= 80 implies b.subrange(0, 80).subrange(lo, hi) == mlib_header_bytes(
        f.header,
    ).subrange(lo, hi) by {
        assert(b.subrange(0, 80).subrange(lo, hi) =~= b.subrange(lo, hi));
        assert(mlib_header_bytes(f.header).subrange(lo, hi) =~= b.subrange(0, 80).subrange(lo, hi));
    }
    assert forall|i: int| 0 <= i < f.header.export_table_count implies entry_readable(
        string_table_in(b, f.header),
        #[trigger] entry_at(b, f.header, i),
    ) by {
        lemma_entry_in_file(f, i);
        lemma_entry_facts(f, i);
        let e = f.exports@[i];
        vstd::utf8::encode_utf8_valid_utf8(e.name@);
    }
}

/// What `from_bytes` reads from the bytes of a file is the file again.
pub proof fn lemma_mlib_file_roundtrip(f: MlibFile, g: MlibFile)
    requires
        mlib_round_trip_ready(f),
        mlib_read_as(mlib_file_bytes(f), g),
    ensures
        g.header.magic@ == f.header.magic@,
        g.header.version == f.header.version,
        g.header.abi_version == f.header.abi_version,
        g.header.target == f.header.target,
        g.header.flags == f.header.flags,
        g.header.export_table_offset == f.header.export_table_offset,
        g.header.export_table_count == f.header.export_table_count,
        g.header.string_table_offset == f.header.string_table_offset,
        g.header.string_table_size == f.header.string_table_size,
        g.header.code_offset == f.header.code_offset,
        g.header.code_size == f.header.code_size,
        g.header.data_offset == f.header.data_offset,
        g.header.data_size == f.header.data_size,
        g.string_table@ == f.string_table@,
        g.code@ == f.code@,
        g.data@ == f.data@,
        g.exports@.len() == f.exports@.len(),
        forall|i: int| 0 <= i < f.exports@.len() ==> {
            &&& (#[trigger] g.exports@[i]).name@ == f.exports@[i].name@
            &&& g.exports@[i].kind == f.exports@[i].kind
            &&& g.exports@[i].address == f.exports@[i].address
            &&& match f.exports@[i].signature {
                Some(sig) => g.exports@[i].signature matches Some(s) && s@ == sig@,
                None => g.exports@[i].signature is None,
            }
        },
{
    let b = mlib_file_bytes(f);
    lemma_mlib_file_accepted(f);
    lemma_mlib_header_roundtrip_in(b, f.header, g.header);
    lemma_mlib_file_layout(f);
    assert forall|i: int| 0 <= i < f.exports@.len() implies {
        &&& (#[trigger] g.exports@[i]).name@ == f.exports@[i].name@
        &&& g.exports@[i].kind == f.exports@[i].kind
        &&& g.exports@[i].address == f.exports@[i].address
        &&& match f.exports@[i].signature {
            Some(sig) => g.exports@[i].signature matches Some(s) && s@ == sig@,
            None => g.exports@[i].signature is None,
        }
    } by {
        lemma_entry_in_file(f, i);
        lemma_entry_facts(f, i);
        assert(entry_at(b, g.header, i) == entry_at(b, f.header, i));
        assert(entry_reads_as(g.string_table@, entry_at(b, g.header, i), g.exports@[i]));
        let e = f.exports@[i];
        vstd::utf8::encode_utf8_decode_utf8(e.name@);
    }
}

/// Two headers decoded from the same bytes, one of them written there, agree.
proof fn lemma_mlib_header_roundtrip_in(b: Seq<u8>, h: MlibHeader, d: MlibHeader)
    requires
        decoded_mlib_header(b.subrange(0, 80), h),
        decoded_mlib_header(b.subrange(0, 80), d),
    ensures
        d.magic@ == h.magic@,
        d.version == h.version,
        d.abi_version == h.abi_version,
        d.target == h.target,
        d.flags == h.flags,
        d.export_table_offset == h.export_table_offset,
        d.export_table_count == h.export_table_count,
        d.string_table_offset == h.string_table_offset,
        d.string_table_size == h.string_table_size,
        d.code_offset == h.code_offset,
        d.code_size == h.code_size,
        d.data_offset == h.data_offset,
        d.data_size == h.data_size,
{
}

} // verus!
