//! Recognising native executables and computing content hashes.
use vstd::prelude::*;
use crate::text::{contains_text, occurs_in};

verus! {

/// The four bytes that open every ELF file.
pub open spec fn elf_magic() -> Seq<u8> {
    seq![0x7fu8, 0x45u8, 0x4cu8, 0x46u8]
}

/// The component sequence that marks a device-file tree.
pub open spec fn device_marker() -> Seq<char> {
    seq!['/', 'd', 'e', 'v', '/']
}

/// The path whose header is to be read to decide whether `path` (whose link
/// target is `link_target`, where it is a symbolic link) is an executable:
/// none where either lies under a device-file tree.
pub open spec fn sniff_path_spec(path: Seq<char>, link_target: Option<Seq<char>>) -> Option<
    Seq<char>,
> {
    let resolved = match link_target {
        Some(t) => t,
        None => path,
    };
    if occurs_in(path, device_marker()) || occurs_in(resolved, device_marker()) {
        None
    } else {
        Some(resolved)
    }
}

/// The file to open to sniff `path`, or `None` where the path or its link
/// target lies under a device-file tree and is no executable.
pub fn path_to_sniff(path: &str, link_target: Option<&str>) -> (r: Option<String>)
    ensures
        match sniff_path_spec(path@, crate::process::opt_view(link_target)) {
            Some(p) => r is Some && r->0@ == p,
            None => r is None,
        },
{
    let marker = "/dev/";
    proof {
        reveal_strlit("/dev/");
        assert(marker@ =~= device_marker());
    }
    if contains_text(path, marker) {
        return None;
    }
    let resolved = match link_target {
        Some(t) => t,
        None => path,
    };
    if contains_text(resolved, marker) {
        return None;
    }
    Some(String::from_str(resolved))
}

/// Whether the first bytes of a file are the ELF magic.
pub open spec fn is_elf_header(header: Seq<u8>) -> bool {
    header.len() >= 4 && header.subrange(0, 4) == elf_magic()
}

/// Whether `header`, the first bytes read from a file (at most four are
/// needed), opens with the ELF magic.
pub fn has_elf_magic(header: &[u8]) -> (r: bool)
    ensures
        r == is_elf_header(header@),
{
    if header.len() < 4 {
        return false;
    }
    let ok = header[0] == 0x7f && header[1] == 0x45 && header[2] == 0x4c && header[3] == 0x46;
    assert(ok ==> header@.subrange(0, 4) =~= elf_magic());
    assert(header@.subrange(0, 4) == elf_magic() ==> header@.subrange(0, 4)[0] == 0x7fu8
        && header@.subrange(0, 4)[1] == 0x45u8 && header@.subrange(0, 4)[2] == 0x4cu8
        && header@.subrange(0, 4)[3] == 0x46u8);
    ok
}

/// Whether a file is a native executable: it does not lie under a
/// device-file tree, and `header` (the bytes read from the file to sniff,
/// `None` where it could not be opened or read) opens with the ELF magic.
pub fn is_executable(path: &str, link_target: Option<&str>, header: Option<&[u8]>) -> (r: bool)
    ensures
        r == (sniff_path_spec(path@, crate::process::opt_view(link_target)) is Some
            && header is Some && is_elf_header(header->0@)),
{
    match path_to_sniff(path, link_target) {
        None => false,
        Some(_) => match header {
            None => false,
            Some(h) => has_elf_magic(h),
        },
    }
}

/// The MD5 digest of a byte sequence.
pub uninterp spec fn md5_of(data: Seq<u8>) -> Seq<u8>;

/// Relies on md5::compute: the sixteen digest bytes of the input.
#[verifier::external_body]
fn md5_digest(data: &[u8]) -> (r: Vec<u8>)
    ensures
        r@ == md5_of(data@),
        r@.len() == 16,
{
    md5::compute(data).0.to_vec()
}

/// The lower-case hexadecimal digits.
pub open spec fn hex_digits() -> Seq<char> {
    seq!['0', '1', '2', '3', '4', '5', '6', '7', '8', '9', 'a', 'b', 'c', 'd', 'e', 'f']
}

/// Two lower-case hexadecimal digits per byte, high nibble first.
pub open spec fn hex_of(bytes: Seq<u8>) -> Seq<char>
    decreases bytes.len(),
{
    if bytes.len() == 0 {
        Seq::empty()
    } else {
        let b = bytes.last();
        hex_of(bytes.drop_last()) + seq![hex_digits()[(b / 16) as int], hex_digits()[(b % 16) as int]]
    }
}

/// Lower-case hexadecimal text of `bytes`.
pub fn to_hex(bytes: &[u8]) -> (r: String)
    ensures
        r@ == hex_of(bytes@),
        r@.len() == 2 * bytes@.len(),
{
    let digits = "0123456789abcdef";
    proof {
        reveal_strlit("0123456789abcdef");
        assert(digits@ =~= hex_digits());
    }
    let mut out = String::new();
    let mut i: usize = 0;
    assert(bytes@.take(0) =~= Seq::<u8>::empty());
    while i < bytes.len()
        invariant
            i <= bytes@.len(),
            digits@ == hex_digits(),
            out@ == hex_of(bytes@.take(i as int)),
            out@.len() == 2 * i,
        decreases bytes@.len() - i,
    {
        let b = bytes[i];
        let hi = (b / 16) as usize;
        let lo = (b % 16) as usize;
        out.append(digits.substring_char(hi, hi + 1));
        out.append(digits.substring_char(lo, lo + 1));
        proof {
            assert(bytes@.take(i + 1).drop_last() =~= bytes@.take(i as int));
            assert(bytes@.take(i + 1).last() == b);
            assert(out@ =~= hex_of(bytes@.take(i + 1)));
        }
        i = i + 1;
    }
    assert(bytes@.take(i as int) =~= bytes@);
    out
}

/// The content hash that fingerprints a file: the MD5 digest of its bytes,
/// in lower-case hexadecimal.
pub open spec fn content_hash_spec(data: Seq<u8>) -> Seq<char> {
    hex_of(md5_of(data))
}

/// The content hash of a file's bytes.
pub fn content_hash(data: &[u8]) -> (r: String)
    ensures
        r@ == content_hash_spec(data@),
        r@.len() == 32,
{
    let digest = md5_digest(data);
    to_hex(digest.as_slice())
}

} // verus!
