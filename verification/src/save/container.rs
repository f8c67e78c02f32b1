//! The outer `.sav` container: a 12-byte header (uncompressed length,
//! compressed length, three magic bytes, compression type) followed by
//! the compressed GVAS stream. Two eras exist: `PlZ` (zlib) and `PlM`
//! (Oodle); Xbox saves wrap either in a `CNK` prefix.

use std::io::Read;
use vstd::prelude::*;

use crate::save::guard::guarded;
use crate::text::decimal;
use crate::text::decimal_of;

verus! {

// ---------------------------------------------------------------------
// Trusted decompressors
// ---------------------------------------------------------------------
/// What inflating a zlib stream gives, or the words in which it fails.
pub uninterp spec fn zlib_inflated(body: Seq<u8>) -> Result<Seq<u8>, Seq<char>>;

/// What extracting an Oodle stream of known length gives, or the words
/// in which it fails; nothing when the extractor panics.
pub uninterp spec fn oodle_extracted(body: Seq<u8>, len: nat) -> Option<
    Result<Seq<u8>, Seq<char>>,
>;

/// `flate2::read::ZlibDecoder`, read to the end: the inflated stream or
/// the text of the failure, a function of the body alone.
#[verifier::external_body]
fn zlib(body: &[u8]) -> (r: Result<Vec<u8>, String>)
    ensures
        match r {
            Ok(out) => zlib_inflated(body@) == Ok::<Seq<u8>, Seq<char>>(out@),
            Err(text) => zlib_inflated(body@) == Err::<Seq<u8>, Seq<char>>(text@),
        },
{
    let mut out = Vec::new();
    match flate2::read::ZlibDecoder::new(body).read_to_end(&mut out) {
        Ok(_) => Ok(out),
        Err(error) => Err(error.to_string()),
    }
}

/// `oozextract::Extractor::read_from_slice` into a buffer of `len`
/// bytes: the extracted stream, which fills the buffer, or the text of
/// the failure, a function of the body and the length. On some malformed
/// bodies the extractor panics, so it is [`guarded`]; then there is no
/// result.
#[verifier::external_body]
fn oodle(body: &[u8], len: usize) -> (r: Option<Result<Vec<u8>, String>>)
    ensures
        match r {
            Some(Ok(out)) => oodle_extracted(body@, len as nat) == Some(
                Ok::<Seq<u8>, Seq<char>>(out@),
            ) && out@.len() == len,
            Some(Err(text)) => oodle_extracted(body@, len as nat) == Some(
                Err::<Seq<u8>, Seq<char>>(text@),
            ),
            None => oodle_extracted(body@, len as nat) is None,
        },
{
    let body = body.to_vec();
    guarded(move || {
        let mut out = vec![0u8; len];
        match oozextract::Extractor::new().read_from_slice(&body, &mut out) {
            Ok(_) => Ok(out),
            Err(error) => Err(format!("{error:?}")),
        }
    })
}

// ---------------------------------------------------------------------
// The header
// ---------------------------------------------------------------------
/// Why a container could not be stripped.
#[derive(Debug, PartialEq, Eq)]
pub enum ContainerError {
    NotASave,
    Unsupported { magic: [u8; 3], save_type: u8 },
    Zlib(String),
    Oodle(String),
    LengthMismatch { expected: usize, actual: usize },
}

/// The four bytes at `at` as a little-endian number.
pub open spec fn u32_at(bytes: Seq<u8>, at: int) -> nat {
    (bytes[at] + 256 * bytes[at + 1] + 65_536 * bytes[at + 2] + 16_777_216 * bytes[at + 3]) as nat
}

/// The magic bytes of a header that starts at `at`.
pub open spec fn magic_at(bytes: Seq<u8>, at: int) -> Seq<u8> {
    bytes.subrange(at + 8, at + 11)
}

pub open spec fn plz() -> Seq<u8> {
    seq![0x50u8, 0x6C, 0x5A]
}

pub open spec fn plm() -> Seq<u8> {
    seq![0x50u8, 0x6C, 0x4D]
}

pub open spec fn cnk() -> Seq<u8> {
    seq![0x43u8, 0x4E, 0x4B]
}

/// The bytes start with a recognizable container header.
pub open spec fn contained(bytes: Seq<u8>) -> bool {
    bytes.len() > 12 && (magic_at(bytes, 0) == plz() || magic_at(bytes, 0) == plm() || magic_at(
        bytes,
        0,
    ) == cnk())
}

/// Where the inner header starts: behind an Xbox prefix, or at once.
pub open spec fn header_at(bytes: Seq<u8>) -> int {
    if bytes.len() >= 24 && magic_at(bytes, 0) == cnk() {
        12
    } else {
        0
    }
}

/// Where the compressed stream starts.
pub open spec fn body_at(bytes: Seq<u8>) -> int {
    header_at(bytes) + 12
}

/// What stripping a container leads to.
pub enum Stripped {
    NotASave,
    Unsupported { magic: Seq<u8>, save_type: u8 },
    Zlib(Seq<char>),
    Oodle(Seq<char>),
    LengthMismatch { expected: nat, actual: nat },
    Data(Seq<u8>),
}

/// A decompressed stream is accepted when it is as long as the header
/// claims.
pub open spec fn measured(data: Seq<u8>, expected: nat) -> Stripped {
    if data.len() == expected {
        Stripped::Data(data)
    } else {
        Stripped::LengthMismatch { expected, actual: data.len() }
    }
}

/// What is said of an Oodle stream on which the extractor panics.
pub open spec fn oodle_panic() -> Seq<char> {
    "the extractor panicked"@
}

/// What stripping the container of `bytes` leads to.
pub open spec fn stripped(bytes: Seq<u8>) -> Stripped {
    let at = header_at(bytes);
    let magic = magic_at(bytes, at);
    let save_type = bytes[at + 11];
    let expected = u32_at(bytes, at);
    let body = bytes.skip(body_at(bytes));
    if bytes.len() <= body_at(bytes) {
        Stripped::NotASave
    } else if magic == plz() && save_type == 0x31 {
        match zlib_inflated(body) {
            Ok(data) => measured(data, expected),
            Err(text) => Stripped::Zlib(text),
        }
    } else if magic == plz() && save_type == 0x32 {
        match zlib_inflated(body) {
            Ok(once) => match zlib_inflated(once) {
                Ok(data) => measured(data, expected),
                Err(text) => Stripped::Zlib(text),
            },
            Err(text) => Stripped::Zlib(text),
        }
    } else if magic == plm() && save_type == 0x31 {
        match oodle_extracted(body, expected) {
            Some(Ok(data)) => measured(data, expected),
            Some(Err(text)) => Stripped::Oodle(text),
            None => Stripped::Oodle(oodle_panic()),
        }
    } else if magic == plz() || magic == plm() {
        Stripped::Unsupported { magic, save_type }
    } else {
        Stripped::NotASave
    }
}

/// An error reports what stripping led to.
pub open spec fn reports(error: ContainerError, s: Stripped) -> bool {
    match error {
        ContainerError::NotASave => s is NotASave,
        ContainerError::Unsupported { magic, save_type } => s == (Stripped::Unsupported {
            magic: magic@,
            save_type,
        }),
        ContainerError::Zlib(text) => s == Stripped::Zlib(text@),
        ContainerError::Oodle(text) => s == Stripped::Oodle(text@),
        ContainerError::LengthMismatch { expected, actual } => s == (Stripped::LengthMismatch {
            expected: expected as nat,
            actual: actual as nat,
        }),
    }
}

/// Whether the three bytes at `at` are `a`, `b`, `c`.
pub(crate) fn three_at(bytes: &[u8], at: usize, a: u8, b: u8, c: u8) -> (r: bool)
    requires
        at + 3 <= bytes@.len(),
    ensures
        r == (bytes@.subrange(at as int, at + 3) == seq![a, b, c]),
{
    let r = bytes[at] == a && bytes[at + 1] == b && bytes[at + 2] == c;
    proof {
        let part = bytes@.subrange(at as int, at + 3);
        assert(part[0] == bytes@[at as int] && part[1] == bytes@[at + 1] && part[2] == bytes@[at
            + 2]);
        if r {
            assert(part =~= seq![a, b, c]);
        } else {
            assert(part != seq![a, b, c]) by {
                if part == seq![a, b, c] {
                    assert(part[0] == a && part[1] == b && part[2] == c);
                }
            }
        }
    }
    r
}

/// Whether `bytes` start with a recognizable save container header.
pub fn has_save_magic(bytes: &[u8]) -> (r: bool)
    ensures
        r == contained(bytes@),
{
    bytes.len() > 12 && (three_at(bytes, 8, 0x50, 0x6C, 0x5A) || three_at(
        bytes,
        8,
        0x50,
        0x6C,
        0x4D,
    ) || three_at(bytes, 8, 0x43, 0x4E, 0x4B))
}

/// The four bytes at `at` as a little-endian number.
pub fn read_u32(bytes: &[u8], at: usize) -> (r: u32)
    requires
        at + 4 <= bytes@.len(),
    ensures
        r == u32_at(bytes@, at as int),
{
    (bytes[at] as u32) + 256 * (bytes[at + 1] as u32) + 65_536 * (bytes[at + 2] as u32)
        + 16_777_216 * (bytes[at + 3] as u32)
}

/// Accepts a decompressed stream that is as long as the header claims.
pub fn check_length(data: Vec<u8>, expected: usize) -> (r: Result<Vec<u8>, ContainerError>)
    ensures
        match r {
            Ok(out) => out@ == data@ && measured(data@, expected as nat) == Stripped::Data(data@),
            Err(error) => data@.len() != expected && reports(
                error,
                measured(data@, expected as nat),
            ),
        },
{
    if data.len() != expected {
        return Err(ContainerError::LengthMismatch { expected, actual: data.len() });
    }
    Ok(data)
}

/// The bytes from `at` on.
fn tail(bytes: &[u8], at: usize) -> (r: Vec<u8>)
    requires
        at <= bytes@.len(),
    ensures
        r@ == bytes@.skip(at as int),
{
    let mut out: Vec<u8> = Vec::new();
    let mut i: usize = at;
    while i < bytes.len()
        invariant
            at <= i <= bytes@.len(),
            out@ == bytes@.subrange(at as int, i as int),
        decreases bytes@.len() - i,
    {
        out.push(bytes[i]);
        i = i + 1;
        proof {
            assert(bytes@.subrange(at as int, i as int) =~= bytes@.subrange(
                at as int,
                i - 1,
            ).push(bytes@[i - 1]));
        }
    }
    proof {
        assert(out@ =~= bytes@.skip(at as int));
    }
    out
}

/// Strips the container: checks the header and returns the decompressed
/// GVAS bytes.
pub fn decompress(bytes: &[u8]) -> (r: Result<Vec<u8>, ContainerError>)
    ensures
        match r {
            Ok(data) => stripped(bytes@) == Stripped::Data(data@),
            Err(error) => reports(error, stripped(bytes@)),
        },
{
    let wrapped = bytes.len() >= 24 && three_at(bytes, 8, 0x43, 0x4E, 0x4B);
    let at: usize = if wrapped {
        12
    } else {
        0
    };
    if bytes.len() <= at + 12 {
        return Err(ContainerError::NotASave);
    }
    let expected: usize = read_u32(bytes, at) as usize;
    let save_type: u8 = bytes[at + 11];
    let is_plz = three_at(bytes, at + 8, 0x50, 0x6C, 0x5A);
    let is_plm = three_at(bytes, at + 8, 0x50, 0x6C, 0x4D);
    let body = tail(bytes, at + 12);
    proof {
        assert(plz() != plm()) by {
            assert(plz()[2] != plm()[2]);
        }
    }
    if is_plz && save_type == 0x31 {
        match zlib(body.as_slice()) {
            Ok(data) => check_length(data, expected),
            Err(text) => Err(ContainerError::Zlib(text)),
        }
    } else if is_plz && save_type == 0x32 {
        match zlib(body.as_slice()) {
            Ok(once) => match zlib(once.as_slice()) {
                Ok(data) => check_length(data, expected),
                Err(text) => Err(ContainerError::Zlib(text)),
            },
            Err(text) => Err(ContainerError::Zlib(text)),
        }
    } else if is_plm && save_type == 0x31 {
        match oodle(body.as_slice(), expected) {
            Some(Ok(data)) => check_length(data, expected),
            Some(Err(text)) => Err(ContainerError::Oodle(text)),
            None => Err(ContainerError::Oodle("the extractor panicked".to_owned())),
        }
    } else if is_plz || is_plm {
        let magic: [u8; 3] = [bytes[at + 8], bytes[at + 9], bytes[at + 10]];
        proof {
            assert(magic@ =~= magic_at(bytes@, at as int));
        }
        Err(ContainerError::Unsupported { magic, save_type })
    } else {
        Err(ContainerError::NotASave)
    }
}

// ---------------------------------------------------------------------
// What a user is told
// ---------------------------------------------------------------------
/// The hexadecimal digit of a number below sixteen.
pub open spec fn hex_digit(n: nat) -> char {
    if n < 10 {
        crate::text::digit(n)
    } else {
        (('a' as u32) + (n - 10)) as char
    }
}

/// A byte in hexadecimal notation, without leading zeros.
pub open spec fn hex(n: u8) -> Seq<char> {
    if n < 16 {
        seq![hex_digit(n as nat)]
    } else {
        seq![hex_digit(n as nat / 16), hex_digit(n as nat % 16)]
    }
}

fn hex_char(n: u8) -> (r: char)
    requires
        n < 16,
    ensures
        r == hex_digit(n as nat),
{
    if n < 10 {
        (48u8 + n) as char
    } else {
        (97u8 + (n - 10)) as char
    }
}

impl ContainerError {
    /// What a user is told.
    pub open spec fn text(self) -> Seq<char> {
        match self {
            ContainerError::NotASave => "not a Palworld save container (no PlZ/PlM magic)"@,
            ContainerError::Unsupported { magic, save_type } => "unsupported compression: magic ["@
                + decimal(magic@[0] as nat) + ", "@ + decimal(magic@[1] as nat) + ", "@ + decimal(
                magic@[2] as nat,
            ) + "], save type 0x"@ + hex(save_type),
            ContainerError::Zlib(cause) => "zlib decompression failed: "@ + cause@,
            ContainerError::Oodle(cause) => "oodle decompression failed: "@ + cause@,
            ContainerError::LengthMismatch { expected, actual } => "decompressed length "@
                + decimal(actual as nat) + " does not match header claim "@ + decimal(
                expected as nat,
            ),
        }
    }

    pub fn message(&self) -> (r: String)
        ensures
            r@ == self.text(),
    {
        match self {
            ContainerError::NotASave => {
                "not a Palworld save container (no PlZ/PlM magic)".to_owned()
            },
            ContainerError::Unsupported { magic, save_type } => {
                let mut out = "unsupported compression: magic [".to_owned();
                out.append(decimal_of(magic[0] as u128).as_str());
                out.append(", ");
                out.append(decimal_of(magic[1] as u128).as_str());
                out.append(", ");
                out.append(decimal_of(magic[2] as u128).as_str());
                out.append("], save type 0x");
                let ghost front = out@;
                if *save_type >= 16 {
                    out.push(hex_char(*save_type / 16));
                }
                out.push(hex_char(*save_type % 16));
                proof {
                    assert(out@ =~= front + hex(*save_type));
                }
                out
            },
            ContainerError::Zlib(cause) => {
                let mut out = "zlib decompression failed: ".to_owned();
                out.append(cause.as_str());
                out
            },
            ContainerError::Oodle(cause) => {
                let mut out = "oodle decompression failed: ".to_owned();
                out.append(cause.as_str());
                out
            },
            ContainerError::LengthMismatch { expected, actual } => {
                let mut out = "decompressed length ".to_owned();
                out.append(decimal_of(*actual as u128).as_str());
                out.append(" does not match header claim ");
                out.append(decimal_of(*expected as u128).as_str());
                out
            },
        }
    }
}

/// What a container without its magic is: no save.
pub proof fn law_no_save_without_magic(bytes: Seq<u8>)
    requires
        bytes.len() > 12,
        !contained(bytes),
    ensures
        stripped(bytes) is NotASave,
{
}

/// A stripped container holds as many bytes as its header claims.
pub proof fn law_stripped_length_is_the_claim(bytes: Seq<u8>)
    ensures
        stripped(bytes) matches Stripped::Data(data) ==> data.len() == u32_at(
            bytes,
            header_at(bytes),
        ),
{
}

/// The Xbox prefix changes nothing of what stripping leads to, whatever
/// its other bytes are.
pub proof fn law_the_xbox_prefix_changes_nothing(prefix: Seq<u8>, inner: Seq<u8>)
    requires
        prefix.len() == 12,
        magic_at(prefix, 0) == cnk(),
        inner.len() > 12,
        magic_at(inner, 0) != cnk(),
    ensures
        stripped(prefix + inner) == stripped(inner),
{
    let bytes = prefix + inner;
    assert(magic_at(bytes, 0) =~= magic_at(prefix, 0));
    assert(header_at(bytes) == 12);
    assert(header_at(inner) == 0);
    assert(magic_at(bytes, 12) =~= magic_at(inner, 0));
    assert(bytes[23] == inner[11]);
    assert(bytes[12] == inner[0] && bytes[13] == inner[1] && bytes[14] == inner[2] && bytes[15]
        == inner[3]);
    assert(bytes.skip(24) =~= inner.skip(12));
}

/// What was compressed into a container comes out again: under `PlZ` and
/// 0x31 inflated once, under `PlZ` and 0x32 twice, under `PlM` and 0x31
/// extracted, whatever the header says of the compressed length.
pub proof fn law_containers_give_back_what_they_hold(
    header: Seq<u8>,
    body: Seq<u8>,
    data: Seq<u8>,
)
    requires
        header.len() == 12,
        body.len() > 0,
        data.len() == header[0] + 256 * header[1] + 65_536 * header[2] + 16_777_216 * header[3],
        header[8] == 0x50,
        header[9] == 0x6C,
        ({
            ||| header[10] == 0x5A && header[11] == 0x31 && zlib_inflated(body) == Ok::<
                Seq<u8>,
                Seq<char>,
            >(data)
            ||| header[10] == 0x5A && header[11] == 0x32 && (zlib_inflated(body) matches Ok(once)
                && zlib_inflated(once) == Ok::<Seq<u8>, Seq<char>>(data))
            ||| header[10] == 0x4D && header[11] == 0x31 && (oodle_extracted(body, data.len())
                matches Some(Ok(out)) && out == data)
        }),
    ensures
        stripped(header + body) == Stripped::Data(data),
{
    let bytes = header + body;
    let magic = magic_at(bytes, 0);
    assert(magic[0] == header[8] && magic[1] == header[9] && magic[2] == header[10]);
    assert(cnk()[0] == 0x43);
    assert(magic != cnk());
    assert(header_at(bytes) == 0);
    assert(bytes.skip(12) =~= body);
    assert(u32_at(bytes, 0) == data.len());
    if header[10] == 0x5A {
        assert(magic =~= plz());
    } else {
        assert(magic =~= plm());
        assert(plz()[2] == 0x5A);
    }
}

/// A container with a known magic and a save type that cannot be read is
/// refused by both.
pub proof fn law_unread_kinds_are_named(header: Seq<u8>, body: Seq<u8>)
    requires
        header.len() == 12,
        body.len() > 0,
        header[8] == 0x50,
        header[9] == 0x6C,
        (header[10] == 0x5A && header[11] != 0x31 && header[11] != 0x32) || (header[10] == 0x4D
            && header[11] != 0x31),
    ensures
        stripped(header + body) == (Stripped::Unsupported {
            magic: header.subrange(8, 11),
            save_type: header[11],
        }),
{
    let bytes = header + body;
    let magic = magic_at(bytes, 0);
    assert(magic =~= header.subrange(8, 11));
    assert(magic[0] == header[8] && magic[1] == header[9] && magic[2] == header[10]);
    assert(cnk()[0] == 0x43);
    assert(magic != cnk());
    if header[10] == 0x5A {
        assert(magic =~= plz());
        assert(plm()[2] == 0x4D);
    } else {
        assert(magic =~= plm());
        assert(plz()[2] == 0x5A);
    }
}

} // verus!
