//! The 64-bit name hash that an archive stores beside every folder and file
//! record, and by which the records are keyed.

use crate::cp1252::{encode_str, spec_encode_str, EncodingError};
use vstd::prelude::*;
use vstd::slice::slice_subrange;

verus! {

/// What a path names. A file's name is split at its last dot; a directory's
/// is not.
#[non_exhaustive]
#[derive(Clone, Copy, Debug, PartialEq, Eq, Structural)]
pub enum Type {
    Directory,
    File,
}

/// `byte` with an ASCII capital turned into its small letter.
pub open spec fn spec_lower(byte: u8) -> u8 {
    if 0x41 <= byte <= 0x5A {
        (byte + 0x20) as u8
    } else {
        byte
    }
}

/// `bytes` with every ASCII capital turned into its small letter.
pub open spec fn spec_lowercase(bytes: Seq<u8>) -> Seq<u8> {
    Seq::new(bytes.len(), |i: int| spec_lower(bytes[i]))
}

/// The value of `bytes` as the digits of a number in base `0x1003f`, kept to
/// 32 bits at every step.
pub open spec fn polynomial(bytes: Seq<u8>) -> u32
    decreases bytes.len(),
{
    if bytes.len() == 0 {
        0
    } else {
        ((polynomial(bytes.drop_last()) * 0x1003f + bytes.last()) % 0x1_0000_0000) as u32
    }
}

/// The low word before the extension is marked in it: from the lowest byte
/// up, the stem's last byte, its last but one (if it has three or more), the
/// low byte of its length, and its first byte.
pub open spec fn stem_word(stem: Seq<u8>) -> u32 {
    let n = stem.len() as int;
    let last: int = if n == 0 { 0 } else { stem[n - 1] as int };
    let before_last: int = if n < 3 { 0 } else { stem[n - 2] as int };
    let first: int = if n == 0 { 0 } else { stem[0] as int };
    (last + before_last * 0x100 + (n % 0x100) * 0x1_0000 + first * 0x100_0000) as u32
}

/// The bits that a known extension sets in the low word: `.kf`, `.nif`,
/// `.dds` and `.wav` have some, any other extension has none.
pub open spec fn extension_bits(ext: Seq<u8>) -> u32 {
    if ext == seq![0x2Eu8, 0x6B, 0x66] {
        0x80
    } else if ext == seq![0x2Eu8, 0x6E, 0x69, 0x66] {
        0x8000
    } else if ext == seq![0x2Eu8, 0x64, 0x64, 0x73] {
        0x8080
    } else if ext == seq![0x2Eu8, 0x77, 0x61, 0x76] {
        0x8000_0000
    } else {
        0
    }
}

/// The hash of a stem and an extension, both given as bytes of the code
/// page. The low word holds the stem's edges and the extension's bits; the
/// high word is the sum, kept to 32 bits, of the polynomial of the stem's
/// inner bytes and that of the extension.
pub open spec fn spec_compute_hash_with_ext(name: Seq<u8>, ext: Seq<u8>) -> u64 {
    let stem = spec_lowercase(name);
    let ext = spec_lowercase(ext);
    let low = stem_word(stem) | extension_bits(ext);
    let inner: u32 = if stem.len() >= 3 {
        polynomial(stem.subrange(1, stem.len() - 2))
    } else {
        0
    };
    let high = (inner + polynomial(ext)) % 0x1_0000_0000;
    (high * 0x1_0000_0000 + low) as u64
}

/// The hash does not tell capitals from small letters.
pub proof fn lemma_hash_ignores_case(name: Seq<u8>, ext: Seq<u8>)
    ensures
        spec_compute_hash_with_ext(spec_lowercase(name), spec_lowercase(ext))
            == spec_compute_hash_with_ext(name, ext),
{
    assert(spec_lowercase(spec_lowercase(name)) =~= spec_lowercase(name));
    assert(spec_lowercase(spec_lowercase(ext)) =~= spec_lowercase(ext));
}

fn lower(byte: u8) -> (r: u8)
    ensures
        r == spec_lower(byte),
{
    if 0x41 <= byte && byte <= 0x5A {
        byte + 0x20
    } else {
        byte
    }
}

proof fn lemma_polynomial_step(r: u32, byte: u8)
    ensures
        vstd::wrapping::u32_specs::wrapping_add(
            vstd::wrapping::u32_specs::wrapping_mul(r, 0x1003f),
            byte as u32,
        ) == (r * 0x1003f + byte) % 0x1_0000_0000,
{
    let product: int = r * 0x1003f;
    let kept: int = product % 0x1_0000_0000;
    assert(kept == (r as nat * 0x1003fu32 as nat) % 0x1_0000_0000nat);
    assert((kept + byte) % 0x1_0000_0000 == (product + byte) % 0x1_0000_0000);
}

/// The polynomial of `bytes[from..to]`, lowercased.
fn polynomial_of(bytes: &[u8], from: usize, to: usize) -> (r: u32)
    requires
        from <= to <= bytes.len(),
    ensures
        r == polynomial(spec_lowercase(bytes@).subrange(from as int, to as int)),
{
    let ghost lowered = spec_lowercase(bytes@);
    let mut r: u32 = 0;
    let mut i: usize = from;
    while i < to
        invariant
            from <= i <= to <= bytes.len(),
            lowered == spec_lowercase(bytes@),
            r == polynomial(lowered.subrange(from as int, i as int)),
        decreases to - i,
    {
        let byte = lower(bytes[i]);
        assert(lowered.subrange(from as int, i + 1).drop_last() == lowered.subrange(
            from as int,
            i as int,
        ));
        proof {
            lemma_polynomial_step(r, byte);
        }
        r = r.wrapping_mul(0x1003f).wrapping_add(byte as u32);
        i += 1;
    }
    r
}

fn extension_bits_of(ext: &[u8]) -> (r: u32)
    ensures
        r == extension_bits(spec_lowercase(ext@)),
{
    let ghost lowered = spec_lowercase(ext@);
    let ghost kf = seq![0x2Eu8, 0x6B, 0x66];
    let ghost nif = seq![0x2Eu8, 0x6E, 0x69, 0x66];
    let ghost dds = seq![0x2Eu8, 0x64, 0x64, 0x73];
    let ghost wav = seq![0x2Eu8, 0x77, 0x61, 0x76];
    assert(kf.len() == 3 && kf[0] == 0x2E && kf[1] == 0x6B && kf[2] == 0x66);
    assert(nif.len() == 4 && nif[0] == 0x2E && nif[1] == 0x6E && nif[2] == 0x69 && nif[3] == 0x66);
    assert(dds.len() == 4 && dds[0] == 0x2E && dds[1] == 0x64 && dds[2] == 0x64 && dds[3] == 0x73);
    assert(wav.len() == 4 && wav[0] == 0x2E && wav[1] == 0x77 && wav[2] == 0x61 && wav[3] == 0x76);
    if ext.len() == 3 {
        let a = lower(ext[0]);
        let b = lower(ext[1]);
        let c = lower(ext[2]);
        assert(lowered =~= seq![a, b, c]);
        if a == 0x2E && b == 0x6B && c == 0x66 {
            assert(lowered =~= kf);
            0x80
        } else {
            0
        }
    } else if ext.len() == 4 {
        let a = lower(ext[0]);
        let b = lower(ext[1]);
        let c = lower(ext[2]);
        let d = lower(ext[3]);
        assert(lowered =~= seq![a, b, c, d]);
        if a == 0x2E && b == 0x6E && c == 0x69 && d == 0x66 {
            assert(lowered =~= nif);
            0x8000
        } else if a == 0x2E && b == 0x64 && c == 0x64 && d == 0x73 {
            assert(lowered =~= dds);
            0x8080
        } else if a == 0x2E && b == 0x77 && c == 0x61 && d == 0x76 {
            assert(lowered =~= wav);
            0x8000_0000
        } else {
            0
        }
    } else {
        0
    }
}

/// Hashes a stem and an extension that are already bytes of the code page.
pub fn compute_hash_with_ext(name: &[u8], ext: &[u8]) -> (hash: u64)
    ensures
        hash == spec_compute_hash_with_ext(name@, ext@),
{
    let ghost stem = spec_lowercase(name@);
    let n = name.len();
    let last: u32 = if n == 0 { 0 } else { lower(name[n - 1]) as u32 };
    let before_last: u32 = if n < 3 { 0 } else { lower(name[n - 2]) as u32 };
    let first: u32 = if n == 0 { 0 } else { lower(name[0]) as u32 };
    let length: u32 = (n % 0x100) as u32;
    let word: u32 = last + before_last * 0x100 + length * 0x1_0000 + first * 0x100_0000;
    assert(word == stem_word(stem));
    let low: u32 = word | extension_bits_of(ext);
    let inner: u32 = if n >= 3 { polynomial_of(name, 1, n - 2) } else { 0 };
    let outer: u32 = polynomial_of(ext, 0, ext.len());
    assert(spec_lowercase(ext@).subrange(0, ext.len() as int) == spec_lowercase(ext@));
    let high: u32 = inner.wrapping_add(outer);
    (high as u64) * 0x1_0000_0000 + (low as u64)
}

/// `bytes` with every `/` turned into `\`.
pub open spec fn spec_normalize(bytes: Seq<u8>) -> Seq<u8> {
    Seq::new(bytes.len(), |i: int| if bytes[i] == 0x2F { 0x5Cu8 } else { bytes[i] })
}

/// Where the last `.` of `bytes` stands, if there is one.
pub open spec fn last_dot(bytes: Seq<u8>) -> Option<int>
    decreases bytes.len(),
{
    if bytes.len() == 0 {
        None
    } else if bytes.last() == 0x2E {
        Some(bytes.len() - 1)
    } else {
        last_dot(bytes.drop_last())
    }
}

/// `last_dot` finds a `.` with none behind it, and finds one whenever there
/// is one.
pub proof fn lemma_last_dot(bytes: Seq<u8>)
    ensures
        match last_dot(bytes) {
            Some(at) => 0 <= at < bytes.len() && bytes[at] == 0x2E && forall|i: int|
                at < i < bytes.len() ==> bytes[i] != 0x2E,
            None => forall|i: int| 0 <= i < bytes.len() ==> bytes[i] != 0x2E,
        },
    decreases bytes.len(),
{
    if bytes.len() > 0 && bytes.last() != 0x2E {
        let head = bytes.drop_last();
        lemma_last_dot(head);
        assert forall|i: int| 0 <= i < head.len() implies head[i] == bytes[i] by {}
    }
}

/// The hash of a path whose separators are all `\`. A directory is hashed
/// whole. A file is split before its last `.`, which goes with the
/// extension; without a `.` it has no extension.
pub open spec fn hash_of_path(path: Seq<u8>, kind: Type) -> u64 {
    match kind {
        Type::Directory => spec_compute_hash_with_ext(path, Seq::empty()),
        Type::File => match last_dot(path) {
            Some(at) => spec_compute_hash_with_ext(
                path.subrange(0, at),
                path.subrange(at, path.len() as int),
            ),
            None => spec_compute_hash_with_ext(path, Seq::empty()),
        },
    }
}

/// The hash of a name: that of its bytes in the code page, `/` read as `\`.
/// A name with a character outside the code page has none.
pub open spec fn spec_compute_hash(name: Seq<char>, kind: Type) -> Result<u64, EncodingError> {
    match spec_encode_str(name) {
        Ok(bytes) => Ok(hash_of_path(spec_normalize(bytes), kind)),
        Err(e) => Err(e),
    }
}

/// The hash of a path does not tell `/` from `\\`.
pub proof fn lemma_hash_ignores_separator(bytes: Seq<u8>)
    ensures
        hash_of_bytes(spec_normalize(bytes)) == hash_of_bytes(bytes),
{
    assert(spec_normalize(spec_normalize(bytes)) =~= spec_normalize(bytes));
}

fn normalize(bytes: &[u8]) -> (r: Vec<u8>)
    ensures
        r@ == spec_normalize(bytes@),
{
    let mut r: Vec<u8> = Vec::new();
    let mut i: usize = 0;
    while i < bytes.len()
        invariant
            i <= bytes.len(),
            r@ == spec_normalize(bytes@.take(i as int)),
        decreases bytes.len() - i,
    {
        let byte = bytes[i];
        r.push(if byte == 0x2F { 0x5C } else { byte });
        i += 1;
        assert(r@ == spec_normalize(bytes@.take(i as int)));
    }
    assert(bytes@.take(bytes.len() as int) == bytes@);
    r
}

fn find_last_dot(bytes: &[u8]) -> (r: Option<usize>)
    ensures
        match r {
            Some(at) => last_dot(bytes@) == Some(at as int) && at < bytes.len(),
            None => last_dot(bytes@) is None,
        },
{
    let mut i: usize = bytes.len();
    assert(bytes@.take(i as int) == bytes@);
    while i > 0
        invariant
            i <= bytes.len(),
            last_dot(bytes@) == last_dot(bytes@.take(i as int)),
        decreases i,
    {
        if bytes[i - 1] == 0x2E {
            return Some(i - 1);
        }
        assert(bytes@.take(i as int).drop_last() == bytes@.take(i - 1));
        i -= 1;
    }
    None
}

/// Hashes a path given as bytes of the code page, with either separator.
pub fn hash_path(path: &[u8], kind: Type) -> (hash: u64)
    ensures
        hash == hash_of_path(spec_normalize(path@), kind),
{
    let normalized = normalize(path);
    let none: Vec<u8> = Vec::new();
    match kind {
        Type::Directory => compute_hash_with_ext(normalized.as_slice(), none.as_slice()),
        Type::File => match find_last_dot(normalized.as_slice()) {
            Some(at) => {
                let stem = slice_subrange(normalized.as_slice(), 0, at);
                let ext = slice_subrange(normalized.as_slice(), at, normalized.len());
                compute_hash_with_ext(stem, ext)
            },
            None => compute_hash_with_ext(normalized.as_slice(), none.as_slice()),
        },
    }
}

/// Hashes the name of a directory or of a file.
pub fn compute_hash(name: &str, t: Type) -> (r: Result<u64, EncodingError>)
    ensures
        r == spec_compute_hash(name@, t),
{
    match encode_str(name) {
        Ok(bytes) => Ok(hash_path(bytes.as_slice(), t)),
        Err(e) => Err(e),
    }
}

/// What a path names when nothing says so: a directory if it holds a `\`,
/// a file otherwise.
pub open spec fn kind_of_path(path: Seq<u8>) -> Type {
    if path.contains(0x5Cu8) {
        Type::Directory
    } else {
        Type::File
    }
}

/// The hash of a path given as bytes, `/` read as `\`, its kind taken from
/// the path itself.
pub open spec fn hash_of_bytes(bytes: Seq<u8>) -> u64 {
    let path = spec_normalize(bytes);
    hash_of_path(path, kind_of_path(path))
}

/// The hash that an archive stores for `name`: that of its bytes in the
/// code page. A name with a character outside the code page is hashed over
/// its UTF-8 bytes.
pub open spec fn spec_name_hash(name: Seq<char>) -> u64 {
    match spec_encode_str(name) {
        Ok(bytes) => hash_of_bytes(bytes),
        Err(_) => hash_of_bytes(vstd::utf8::encode_utf8(name)),
    }
}

fn holds_separator(path: &[u8]) -> (r: bool)
    ensures
        r == path@.contains(0x5Cu8),
{
    let mut i: usize = 0;
    while i < path.len()
        invariant
            i <= path.len(),
            forall|k: int| 0 <= k < i ==> path@[k] != 0x5C,
        decreases path.len() - i,
    {
        if path[i] == 0x5C {
            return true;
        }
        i += 1;
    }
    false
}

/// Hashes a path given as bytes, with either separator, as a directory if it
/// holds a separator and as a file otherwise.
pub fn hash_bytes(bytes: &[u8]) -> (hash: u64)
    ensures
        hash == hash_of_bytes(bytes@),
{
    let normalized = normalize(bytes);
    let none: Vec<u8> = Vec::new();
    if holds_separator(normalized.as_slice()) {
        compute_hash_with_ext(normalized.as_slice(), none.as_slice())
    } else {
        match find_last_dot(normalized.as_slice()) {
            Some(at) => {
                let stem = slice_subrange(normalized.as_slice(), 0, at);
                let ext = slice_subrange(normalized.as_slice(), at, normalized.len());
                compute_hash_with_ext(stem, ext)
            },
            None => compute_hash_with_ext(normalized.as_slice(), none.as_slice()),
        }
    }
}

/// Hashes a name as the archive does, telling a directory from a file by
/// the name itself.
pub fn hash_name(name: &str) -> (hash: u64)
    ensures
        hash == spec_name_hash(name@),
{
    match encode_str(name) {
        Ok(bytes) => hash_bytes(bytes.as_slice()),
        Err(_) => hash_bytes(name.as_bytes()),
    }
}

} // verus!
