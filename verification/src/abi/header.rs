//! The fixed-size header that marks Inscribe ABI artifacts.

use vstd::prelude::*;
use crate::bytes::{le_bytes, le_value, push_le, read_le, lemma_le_roundtrip, lemma_pow256_values};
use crate::text::{chars_of, string_from_chars};
use super::calling_conv::{AbiTarget, CallingConvention, target_convention};
use super::stability::{Stability, stability_name};
use super::version::{AbiVersion, current_abi_version, current_version, versions_compatible, version_text};

verus! {

broadcast use vstd::array::group_array_axioms;

pub const ABI_MAGIC: [u8; 8] = [73u8, 78u8, 83u8, 67u8, 82u8, 73u8, 66u8, 69u8];

pub const ABI_HEADER_SIZE: usize = 24;

/// The bytes of `INSCRIBE`.
pub open spec fn abi_magic() -> Seq<u8> {
    seq![73u8, 78u8, 83u8, 67u8, 82u8, 73u8, 66u8, 69u8]
}

#[derive(Debug, Clone, PartialEq, Eq)]
pub struct AbiHeader {
    pub magic: [u8; 8],
    pub version: AbiVersion,
    pub target: AbiTarget,
    pub calling_convention: CallingConvention,
    pub stability: Stability,
    pub flags: u32,
}

#[derive(Debug, Clone, PartialEq, Eq)]
pub struct AbiCompatibilityError {
    pub message: String,
}

impl AbiCompatibilityError {
    pub fn new(message: &str) -> (e: Self)
        ensures
            e.message@ == message@,
    {
        AbiCompatibilityError { message: string_from_chars(&chars_of(message)) }
    }
}

pub open spec fn target_code(target: AbiTarget) -> u8 {
    match target {
        AbiTarget::LinuxX86_64 => 1,
        AbiTarget::WindowsX86_64 => 2,
    }
}

pub open spec fn target_from_code(byte: nat) -> Option<AbiTarget> {
    if byte == 1 {
        Some(AbiTarget::LinuxX86_64)
    } else if byte == 2 {
        Some(AbiTarget::WindowsX86_64)
    } else {
        None
    }
}

pub open spec fn convention_code(cc: CallingConvention) -> u8 {
    match cc {
        CallingConvention::Mantelogue => 1,
        CallingConvention::C => 2,
        CallingConvention::SystemV64 => 3,
        CallingConvention::Win64 => 4,
    }
}

pub open spec fn convention_from_code(byte: u8) -> Option<CallingConvention> {
    if byte == 1 {
        Some(CallingConvention::Mantelogue)
    } else if byte == 2 {
        Some(CallingConvention::C)
    } else if byte == 3 {
        Some(CallingConvention::SystemV64)
    } else if byte == 4 {
        Some(CallingConvention::Win64)
    } else {
        None
    }
}

pub open spec fn stability_code(s: Stability) -> u8 {
    match s {
        Stability::Experimental => 1,
        Stability::Stable => 2,
        Stability::Deprecated { .. } => 3,
        Stability::Internal => 4,
    }
}

/// Whether `s` is what decoding the stability byte `byte` gives: a deprecation note
/// and version are not stored, so a deprecated level comes back deprecated since the
/// current version with an empty note.
pub open spec fn stability_decodes_to(byte: u8, s: Stability) -> bool {
    if byte == 1 {
        s is Experimental
    } else if byte == 2 {
        s is Stable
    } else if byte == 3 {
        s matches Stability::Deprecated { since, note } && since == current_version()
            && note@ == Seq::<char>::empty()
    } else if byte == 4 {
        s is Internal
    } else {
        false
    }
}

pub open spec fn valid_stability_code(byte: u8) -> bool {
    1 <= byte <= 4
}

/// The 24 bytes of a header: magic, version (three little-endian `u16`), target,
/// calling convention and stability codes, three zero bytes, little-endian flags.
pub open spec fn header_bytes(h: AbiHeader) -> Seq<u8> {
    h.magic@ + le_bytes(h.version.major as nat, 2) + le_bytes(h.version.minor as nat, 2)
        + le_bytes(h.version.patch as nat, 2) + seq![target_code(h.target)] + seq![
        convention_code(h.calling_convention),
    ] + seq![stability_code(h.stability)] + seq![0u8, 0u8, 0u8] + le_bytes(h.flags as nat, 4)
}

/// The header that `from_bytes` reads from 24 bytes whose codes are all valid.
pub open spec fn decoded_header(b: Seq<u8>, h: AbiHeader) -> bool {
    &&& h.magic@ == b.subrange(0, 8)
    &&& h.version.major as nat == le_value(b.subrange(8, 10))
    &&& h.version.minor as nat == le_value(b.subrange(10, 12))
    &&& h.version.patch as nat == le_value(b.subrange(12, 14))
    &&& target_from_code(b[14] as nat) == Some(h.target)
    &&& convention_from_code(b[15]) == Some(h.calling_convention)
    &&& stability_decodes_to(b[16], h.stability)
    &&& h.flags as nat == le_value(b.subrange(20, 24))
}

/// Whether 24 bytes carry valid target, calling-convention and stability codes.
pub open spec fn header_codes_valid(b: Seq<u8>) -> bool {
    &&& target_from_code(b[14] as nat) is Some
    &&& convention_from_code(b[15]) is Some
    &&& valid_stability_code(b[16])
}

/// The debug name of a target.
pub open spec fn target_debug_name(t: AbiTarget) -> Seq<char> {
    match t {
        AbiTarget::LinuxX86_64 => "LinuxX86_64"@,
        AbiTarget::WindowsX86_64 => "WindowsX86_64"@,
    }
}

/// The debug name of a calling convention.
pub open spec fn convention_debug_name(c: CallingConvention) -> Seq<char> {
    match c {
        CallingConvention::Mantelogue => "Mantelogue"@,
        CallingConvention::C => "C"@,
        CallingConvention::SystemV64 => "SystemV64"@,
        CallingConvention::Win64 => "Win64"@,
    }
}

/// Why a header cannot be linked for `target` (checks in order), or `None` when it can.
pub open spec fn link_error(h: AbiHeader, target: AbiTarget, require_stable: bool) -> Option<
    Seq<char>,
> {
    if h.magic@ != abi_magic() {
        Some("ABI header magic does not match Inscribe"@)
    } else if !versions_compatible(current_version(), h.version) {
        Some(
            "ABI version "@ + version_text(h.version) + " is not compatible with current "@
                + version_text(current_version()),
        )
    } else if h.target != target {
        Some(
            "ABI target mismatch: header is "@ + target_debug_name(h.target) + ", requested "@
                + target_debug_name(target),
        )
    } else if h.calling_convention != target_convention(target) && h.calling_convention
        != CallingConvention::C {
        Some(
            "calling convention "@ + convention_debug_name(h.calling_convention)
                + " is not link-compatible with target "@ + target_debug_name(target),
        )
    } else if require_stable && !(h.stability is Stable || h.stability is Deprecated) {
        Some("ABI stability `"@ + stability_name(h.stability) + "` is not allowed for external linking"@)
    } else {
        None
    }
}

fn encode_target(target: AbiTarget) -> (b: u8)
    ensures
        b == target_code(target),
{
    match target {
        AbiTarget::LinuxX86_64 => 1,
        AbiTarget::WindowsX86_64 => 2,
    }
}

fn decode_target(byte: u8) -> (t: Option<AbiTarget>)
    ensures
        t == target_from_code(byte as nat),
{
    match byte {
        1 => Some(AbiTarget::LinuxX86_64),
        2 => Some(AbiTarget::WindowsX86_64),
        _ => None,
    }
}

fn encode_calling_convention(calling_convention: CallingConvention) -> (b: u8)
    ensures
        b == convention_code(calling_convention),
{
    match calling_convention {
        CallingConvention::Mantelogue => 1,
        CallingConvention::C => 2,
        CallingConvention::SystemV64 => 3,
        CallingConvention::Win64 => 4,
    }
}

fn decode_calling_convention(byte: u8) -> (c: Option<CallingConvention>)
    ensures
        c == convention_from_code(byte),
{
    match byte {
        1 => Some(CallingConvention::Mantelogue),
        2 => Some(CallingConvention::C),
        3 => Some(CallingConvention::SystemV64),
        4 => Some(CallingConvention::Win64),
        _ => None,
    }
}

fn encode_stability(stability: &Stability) -> (b: u8)
    ensures
        b == stability_code(*stability),
{
    match stability {
        Stability::Experimental => 1,
        Stability::Stable => 2,
        Stability::Deprecated { .. } => 3,
        Stability::Internal => 4,
    }
}

fn decode_stability(byte: u8) -> (s: Option<Stability>)
    ensures
        s is Some <==> valid_stability_code(byte),
        s matches Some(v) ==> stability_decodes_to(byte, v),
{
    match byte {
        1 => Some(Stability::Experimental),
        2 => Some(Stability::Stable),
        3 => Some(Stability::Deprecated { since: current_abi_version(), note: String::new() }),
        4 => Some(Stability::Internal),
        _ => None,
    }
}

fn array24(v: &Vec<u8>) -> (a: [u8; 24])
    requires
        v@.len() == 24,
    ensures
        a@ == v@,
{
    let a = [v[0], v[1], v[2], v[3], v[4], v[5], v[6], v[7], v[8], v[9], v[10], v[11], v[12], v[13], v[14], v[15], v[16], v[17], v[18], v[19], v[20], v[21], v[22], v[23]];
    assert(a@ =~= v@);
    a
}

fn text_message(parts: &Vec<char>) -> (e: AbiCompatibilityError)
    ensures
        e.message@ == parts@,
{
    AbiCompatibilityError { message: string_from_chars(parts) }
}

fn push_str(out: &mut Vec<char>, s: &str)
    ensures
        final(out)@ == old(out)@ + s@,
{
    let mut c = chars_of(s);
    out.append(&mut c);
}

fn target_name(t: AbiTarget) -> (s: &'static str)
    ensures
        s@ == target_debug_name(t),
{
    match t {
        AbiTarget::LinuxX86_64 => "LinuxX86_64",
        AbiTarget::WindowsX86_64 => "WindowsX86_64",
    }
}

pub(crate) fn convention_name(c: CallingConvention) -> (s: &'static str)
    ensures
        s@ == convention_debug_name(c),
{
    match c {
        CallingConvention::Mantelogue => "Mantelogue",
        CallingConvention::C => "C",
        CallingConvention::SystemV64 => "SystemV64",
        CallingConvention::Win64 => "Win64",
    }
}

fn magic_matches(magic: &[u8; 8]) -> (r: bool)
    ensures
        r == (magic@ == abi_magic()),
{
    let r = magic[0] == 73 && magic[1] == 78 && magic[2] == 83 && magic[3] == 67 && magic[4] == 82
        && magic[5] == 73 && magic[6] == 66 && magic[7] == 69;
    if r {
        assert(magic@ =~= abi_magic());
    } else {
        assert(magic@ != abi_magic()) by {
            if magic@ == abi_magic() {
                assert(magic@[0] == 73 && magic@[1] == 78 && magic@[2] == 83 && magic@[3] == 67);
                assert(magic@[4] == 82 && magic@[5] == 73 && magic@[6] == 66 && magic@[7] == 69);
            }
        }
    }
    r
}

impl AbiHeader {
    pub fn current(target: AbiTarget, stability: Stability) -> (h: Self)
        ensures
            h.magic@ == abi_magic(),
            h.version == current_version(),
            h.target == target,
            h.calling_convention == target_convention(target),
            h.stability == stability,
            h.flags == 0,
    {
        let h = AbiHeader {
            magic: ABI_MAGIC,
            version: current_abi_version(),
            target,
            calling_convention: CallingConvention::for_target(target),
            stability,
            flags: 0,
        };
        assert(h.magic@ =~= abi_magic());
        h
    }

    pub fn is_compatible_with_current(&self) -> (r: bool)
        ensures
            r == (self.magic@ == abi_magic() && versions_compatible(current_version(), self.version)),
    {
        magic_matches(&self.magic) && current_abi_version().is_compatible_with(self.version)
    }

    pub fn ensure_link_compatible(&self, target: AbiTarget, require_stable: bool) -> (r: Result<
        (),
        AbiCompatibilityError,
    >)
        ensures
            r is Ok <==> link_error(*self, target, require_stable) is None,
            r matches Err(e) ==> Some(e.message@) == link_error(*self, target, require_stable),
    {
        if !magic_matches(&self.magic) {
            return Err(AbiCompatibilityError::new("ABI header magic does not match Inscribe"));
        }
        if !current_abi_version().is_compatible_with(self.version) {
            let mut m = Vec::new();
            push_str(&mut m, "ABI version ");
            let mut v = self.version.to_text();
            m.append(&mut v);
            push_str(&mut m, " is not compatible with current ");
            let mut c = current_abi_version().to_text();
            m.append(&mut c);
            return Err(text_message(&m));
        }
        if self.target != target {
            let mut m = Vec::new();
            push_str(&mut m, "ABI target mismatch: header is ");
            push_str(&mut m, target_name(self.target));
            push_str(&mut m, ", requested ");
            push_str(&mut m, target_name(target));
            return Err(text_message(&m));
        }
        let target_cc = CallingConvention::for_target(target);
        if self.calling_convention != target_cc && self.calling_convention != CallingConvention::C {
            let mut m = Vec::new();
            push_str(&mut m, "calling convention ");
            push_str(&mut m, convention_name(self.calling_convention));
            push_str(&mut m, " is not link-compatible with target ");
            push_str(&mut m, target_name(target));
            return Err(text_message(&m));
        }
        if require_stable && !self.stability.allows_external_linking() {
            let mut m = Vec::new();
            push_str(&mut m, "ABI stability `");
            push_str(&mut m, self.stability.display_name());
            push_str(&mut m, "` is not allowed for external linking");
            return Err(text_message(&m));
        }
        Ok(())
    }

    pub fn to_bytes(&self) -> (b: [u8; 24])
        ensures
            b@ == header_bytes(*self),
    {
        let mut v: Vec<u8> = Vec::new();
        let mut i: usize = 0;
        while i < 8
            invariant
                i <= 8,
                v@ == self.magic@.take(i as int),
            decreases 8 - i,
        {
            v.push(self.magic[i]);
            assert(self.magic@.take(i as int).push(self.magic@[i as int]) =~= self.magic@.take(i + 1));
            i += 1;
        }
        assert(self.magic@.take(8) =~= self.magic@);
        push_le(&mut v, self.version.major as u64, 2);
        push_le(&mut v, self.version.minor as u64, 2);
        push_le(&mut v, self.version.patch as u64, 2);
        v.push(encode_target(self.target));
        v.push(encode_calling_convention(self.calling_convention));
        v.push(encode_stability(&self.stability));
        v.push(0);
        v.push(0);
        v.push(0);
        push_le(&mut v, self.flags as u64, 4);
        assert(v@ =~= header_bytes(*self));
        proof {
            crate::bytes::lemma_le_bytes_len(self.version.major as nat, 2);
            crate::bytes::lemma_le_bytes_len(self.version.minor as nat, 2);
            crate::bytes::lemma_le_bytes_len(self.version.patch as nat, 2);
            crate::bytes::lemma_le_bytes_len(self.flags as nat, 4);
        }
        array24(&v)
    }

    pub fn from_bytes(bytes: [u8; 24]) -> (h: Option<Self>)
        ensures
            h is Some <==> header_codes_valid(bytes@),
            h matches Some(h) ==> decoded_header(bytes@, h),
    {
        let target = match decode_target(bytes[14]) {
            Some(t) => t,
            None => return None,
        };
        let calling_convention = match decode_calling_convention(bytes[15]) {
            Some(c) => c,
            None => return None,
        };
        let stability = match decode_stability(bytes[16]) {
            Some(s) => s,
            None => return None,
        };
        let slice = bytes.as_slice();
        let major = read_le(slice, 8, 2);
        let minor = read_le(slice, 10, 2);
        let patch = read_le(slice, 12, 2);
        let flags = read_le(slice, 20, 4);
        proof {
            crate::bytes::lemma_le_value_roundtrip(bytes@.subrange(8, 10));
            crate::bytes::lemma_le_value_roundtrip(bytes@.subrange(10, 12));
            crate::bytes::lemma_le_value_roundtrip(bytes@.subrange(12, 14));
            crate::bytes::lemma_le_value_roundtrip(bytes@.subrange(20, 24));
            lemma_pow256_values();
        }
        let magic = [bytes[0], bytes[1], bytes[2], bytes[3], bytes[4], bytes[5], bytes[6], bytes[7]];
        assert(magic@ =~= bytes@.subrange(0, 8));
        Some(AbiHeader {
            magic,
            version: AbiVersion::new(major as u16, minor as u16, patch as u16),
            target,
            calling_convention,
            stability,
            flags: flags as u32,
        })
    }
}

/// Reading back the bytes of a header gives the header again, except that a
/// deprecation note and version are not stored.
pub proof fn lemma_header_roundtrip(h: AbiHeader, d: AbiHeader)
    requires
        decoded_header(header_bytes(h), d),
    ensures
        d.magic@ == h.magic@,
        d.version == h.version,
        d.target == h.target,
        d.calling_convention == h.calling_convention,
        d.flags == h.flags,
        stability_decodes_to(stability_code(h.stability), d.stability),
{
    header_bytes_facts(h);
}

/// The bytes of every header carry valid codes.
pub proof fn lemma_header_bytes_valid(h: AbiHeader)
    ensures
        header_bytes(h).len() == 24,
        header_codes_valid(header_bytes(h)),
{
    header_bytes_facts(h);
}

proof fn header_bytes_facts(h: AbiHeader)
    ensures
        header_bytes(h).len() == 24,
        header_bytes(h).subrange(0, 8) == h.magic@,
        le_value(header_bytes(h).subrange(8, 10)) == h.version.major,
        le_value(header_bytes(h).subrange(10, 12)) == h.version.minor,
        le_value(header_bytes(h).subrange(12, 14)) == h.version.patch,
        header_bytes(h)[14] == target_code(h.target),
        header_bytes(h)[15] == convention_code(h.calling_convention),
        header_bytes(h)[16] == stability_code(h.stability),
        le_value(header_bytes(h).subrange(20, 24)) == h.flags,
{
    lemma_pow256_values();
    lemma_le_roundtrip(h.version.major as nat, 2);
    lemma_le_roundtrip(h.version.minor as nat, 2);
    lemma_le_roundtrip(h.version.patch as nat, 2);
    lemma_le_roundtrip(h.flags as nat, 4);
    let b = header_bytes(h);
    assert(b.subrange(0, 8) =~= h.magic@);
    assert(b.subrange(8, 10) =~= le_bytes(h.version.major as nat, 2));
    assert(b.subrange(10, 12) =~= le_bytes(h.version.minor as nat, 2));
    assert(b.subrange(12, 14) =~= le_bytes(h.version.patch as nat, 2));
    assert(b.subrange(20, 24) =~= le_bytes(h.flags as nat, 4));
}

/// The header for the current ABI version on the target.
pub fn current_header(target: AbiTarget, stability: Stability) -> (h: AbiHeader)
    ensures
        h.magic@ == abi_magic(),
        h.version == current_version(),
        h.target == target,
        h.calling_convention == target_convention(target),
        h.stability == stability,
        h.flags == 0,
{
    AbiHeader::current(target, stability)
}

} // verus!
