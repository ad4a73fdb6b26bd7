//! The payload that is encrypted: one file's bytes or the archive of a
//! directory, and its compact binary form.
//!
//! The binary form is a variant tag, the payload's length and the payload.
//! Tag and length are variable-length integers: a value up to 250 is one
//! byte; a larger one is a marker byte (251, 252 or 253) followed by the
//! value in 2, 4 or 8 bytes, least significant first.

use crate::error::VaultError;
use vstd::prelude::*;

verus! {

/// What is protected: the raw bytes of a single file, or a directory as
/// the bytes of its archive.
#[derive(Debug, Clone, PartialEq, Eq)]
pub enum EnvironmentPack {
    /// A directory tree, as an archive byte stream.
    Folder(Vec<u8>),
    /// A single file's bytes.
    File(Vec<u8>),
}

/// A pack as a mathematical value.
pub enum PackModel {
    Folder(Seq<u8>),
    File(Seq<u8>),
}

/// What was found at a path.
#[derive(Debug, Clone, Copy, PartialEq, Eq, Structural)]
pub enum PathKind {
    /// Nothing exists there.
    Missing,
    /// A regular file.
    File,
    /// A directory.
    Folder,
    /// Something that is neither.
    Other,
}

impl View for EnvironmentPack {
    type V = PackModel;

    open spec fn view(&self) -> PackModel {
        match self {
            EnvironmentPack::Folder(bytes) => PackModel::Folder(bytes@),
            EnvironmentPack::File(bytes) => PackModel::File(bytes@),
        }
    }
}

impl PackModel {
    /// The tag that stands for the variant in the binary form.
    pub open spec fn tag(self) -> nat {
        match self {
            PackModel::Folder(_) => 0,
            PackModel::File(_) => 1,
        }
    }

    /// The bytes that the pack holds.
    pub open spec fn payload(self) -> Seq<u8> {
        match self {
            PackModel::Folder(bytes) => bytes,
            PackModel::File(bytes) => bytes,
        }
    }
}

/// The pack in `r`, or its error.
pub open spec fn pack_view(r: Result<EnvironmentPack, VaultError>) -> Result<
    PackModel,
    VaultError,
> {
    match r {
        Ok(pack) => Ok(pack@),
        Err(e) => Err(e),
    }
}

/// 256 to the power of `k`.
pub open spec fn pow256(k: nat) -> nat
    decreases k,
{
    if k == 0 {
        1
    } else {
        256 * pow256((k - 1) as nat)
    }
}

/// The `width` low bytes of `n`, least significant first.
pub open spec fn le_bytes(n: nat, width: nat) -> Seq<u8>
    decreases width,
{
    if width == 0 {
        Seq::empty()
    } else {
        seq![(n % 256) as u8] + le_bytes(n / 256, (width - 1) as nat)
    }
}

/// The number that `bytes` are, least significant first.
pub open spec fn le_value(bytes: Seq<u8>) -> nat
    decreases bytes.len(),
{
    if bytes.len() == 0 {
        0
    } else {
        bytes[0] as nat + 256 * le_value(bytes.drop_first())
    }
}

/// The variable-length form of `n`, which must fit in 64 bits.
pub open spec fn varint(n: nat) -> Seq<u8> {
    if n <= 250 {
        seq![n as u8]
    } else if n <= 0xFFFF {
        seq![251u8] + le_bytes(n, 2)
    } else if n <= 0xFFFF_FFFF {
        seq![252u8] + le_bytes(n, 4)
    } else {
        seq![253u8] + le_bytes(n, 8)
    }
}

/// The number of bytes that follow the marker byte `marker`, if it is one.
pub open spec fn marker_width(marker: u8) -> Option<nat> {
    if marker == 251 {
        Some(2)
    } else if marker == 252 {
        Some(4)
    } else if marker == 253 {
        Some(8)
    } else {
        None
    }
}

/// The variable-length integer at the start of `bytes` and the number of
/// bytes it takes, where there is one of at most `widest` bytes after its
/// marker. A value may stand in more bytes than it needs.
pub open spec fn parse_varint(bytes: Seq<u8>, widest: nat) -> Option<(nat, nat)> {
    if bytes.len() == 0 {
        None
    } else if bytes[0] <= 250 {
        Some((bytes[0] as nat, 1))
    } else {
        match marker_width(bytes[0]) {
            None => None,
            Some(width) => if width > widest || bytes.len() < 1 + width {
                None
            } else {
                Some((le_value(bytes.subrange(1, 1 + width as int)), 1 + width))
            },
        }
    }
}

/// The binary form of `pack`: tag, length, payload.
pub open spec fn pack_bytes(pack: PackModel) -> Seq<u8> {
    varint(pack.tag()) + varint(pack.payload().len()) + pack.payload()
}

/// The pack that `bytes` start with, if they start with one. The tag may
/// take up to 4 bytes after its marker and the length up to 8; bytes
/// after the payload are ignored.
pub open spec fn parse_pack(bytes: Seq<u8>) -> Option<PackModel> {
    match parse_varint(bytes, 4) {
        None => None,
        Some((tag, tag_len)) => if tag > 1 {
            None
        } else {
            match parse_varint(bytes.skip(tag_len as int), 8) {
                None => None,
                Some((len, len_len)) => if tag_len + len_len + len > bytes.len() {
                    None
                } else {
                    let payload = bytes.subrange(
                        (tag_len + len_len) as int,
                        (tag_len + len_len + len) as int,
                    );
                    if tag == 0 {
                        Some(PackModel::Folder(payload))
                    } else {
                        Some(PackModel::File(payload))
                    }
                },
            }
        },
    }
}

/// The pack that `bytes` hold, or the error for bytes that hold none.
pub open spec fn parsed(bytes: Seq<u8>) -> Result<PackModel, VaultError> {
    match parse_pack(bytes) {
        Some(pack) => Ok(pack),
        None => Err(VaultError::EncodingError),
    }
}

/// The pack that comes of what was found at a path and of the bytes that
/// were read there.
pub open spec fn pack_at(kind: PathKind, bytes: Seq<u8>) -> Result<PackModel, VaultError> {
    match kind {
        PathKind::Missing => Err(VaultError::PathNotFound),
        PathKind::File => Ok(PackModel::File(bytes)),
        PathKind::Folder => Ok(PackModel::Folder(bytes)),
        PathKind::Other => Err(VaultError::UnsupportedPathType),
    }
}

/// `le_bytes` gives as many bytes as it was asked for.
pub proof fn lemma_le_bytes_len(n: nat, width: nat)
    ensures
        le_bytes(n, width).len() == width,
    decreases width,
{
    if width > 0 {
        lemma_le_bytes_len(n / 256, (width - 1) as nat);
    }
}

/// A number that fits in `width` bytes is read back from them.
pub proof fn lemma_le_round_trip(n: nat, width: nat)
    requires
        n < pow256(width),
    ensures
        le_value(le_bytes(n, width)) == n,
    decreases width,
{
    if width > 0 {
        let rest = le_bytes(n / 256, (width - 1) as nat);
        lemma_le_round_trip(n / 256, (width - 1) as nat);
        assert(le_bytes(n, width).drop_first() == rest);
    }
}

/// The number in `bytes` is below 256 to the power of their count.
pub proof fn lemma_le_value_bound(bytes: Seq<u8>)
    ensures
        le_value(bytes) < pow256(bytes.len()),
    decreases bytes.len(),
{
    if bytes.len() > 0 {
        lemma_le_value_bound(bytes.drop_first());
    }
}

/// The powers of 256 that the format uses.
pub proof fn lemma_pow256()
    ensures
        pow256(2) == 0x1_0000,
        pow256(4) == 0x1_0000_0000,
        pow256(8) == 0x1_0000_0000_0000_0000,
{
    reveal_with_fuel(pow256, 9);
}

/// A variable-length integer is read back from its own form, whatever
/// follows it.
pub proof fn lemma_varint_round_trip(n: nat, rest: Seq<u8>, widest: nat)
    requires
        n <= u64::MAX,
        widest == 8 || (widest == 4 && n <= 0xFFFF_FFFF),
    ensures
        parse_varint(varint(n) + rest, widest) == Some((n, varint(n).len())),
{
    let bytes = varint(n) + rest;
    lemma_pow256();
    if n <= 250 {
        assert(bytes[0] == n as u8);
    } else {
        let width: nat = if n <= 0xFFFF {
            2
        } else if n <= 0xFFFF_FFFF {
            4
        } else {
            8
        };
        lemma_le_bytes_len(n, width);
        lemma_le_round_trip(n, width);
        assert(bytes[0] == varint(n)[0]);
        assert(bytes.subrange(1, 1 + width as int) == le_bytes(n, width));
    }
}

/// Reading the binary form of a pack gives the pack back, also where
/// other bytes follow it.
pub proof fn lemma_pack_round_trip(pack: PackModel, rest: Seq<u8>)
    requires
        pack.payload().len() <= u64::MAX,
    ensures
        parse_pack(pack_bytes(pack) + rest) == Some(pack),
        parsed(pack_bytes(pack)) == Ok::<PackModel, VaultError>(pack),
{
    let payload = pack.payload();
    let tag = varint(pack.tag());
    let len = varint(payload.len());
    assert forall|tail: Seq<u8>| parse_pack(#[trigger] (pack_bytes(pack) + tail)) == Some(
        pack,
    ) by {
        let bytes = pack_bytes(pack) + tail;
        assert(bytes == tag + (len + payload + tail));
        lemma_varint_round_trip(pack.tag(), len + payload + tail, 4);
        assert(bytes.skip(1) == len + (payload + tail));
        lemma_varint_round_trip(payload.len(), payload + tail, 8);
        assert(bytes.subrange((1 + len.len()) as int, (1 + len.len() + payload.len()) as int)
            == payload);
    }
    assert(pack_bytes(pack) + Seq::<u8>::empty() == pack_bytes(pack));
}

/// The binary form is at most 10 bytes longer than the payload.
pub proof fn lemma_pack_bytes_len(pack: PackModel)
    ensures
        pack.payload().len() + 2 <= pack_bytes(pack).len() <= pack.payload().len() + 10,
{
    let n = pack.payload().len();
    lemma_le_bytes_len(n, 2);
    lemma_le_bytes_len(n, 4);
    lemma_le_bytes_len(n, 8);
}

/// Appends the `width` low bytes of `n`, least significant first.
fn write_le(out: &mut Vec<u8>, n: u64, width: usize)
    requires
        width <= 8,
    ensures
        final(out)@ == old(out)@ + le_bytes(n as nat, width as nat),
{
    let mut rest: u64 = n;
    let mut i: usize = 0;
    while i < width
        invariant
            i <= width,
            old(out)@ + le_bytes(n as nat, width as nat) == out@ + le_bytes(
                rest as nat,
                (width - i) as nat,
            ),
        decreases width - i,
    {
        let ghost before = out@;
        out.push((rest % 256) as u8);
        proof {
            let tail = le_bytes((rest / 256) as nat, (width - i - 1) as nat);
            assert(le_bytes(rest as nat, (width - i) as nat) == seq![(rest % 256) as u8] + tail);
            assert(before + (seq![(rest % 256) as u8] + tail) == out@ + tail);
        }
        rest = rest / 256;
        i += 1;
    }
    assert(out@ + le_bytes(rest as nat, 0) == out@);
}

/// Appends the variable-length form of `n`.
fn write_varint(out: &mut Vec<u8>, n: u64)
    ensures
        final(out)@ == old(out)@ + varint(n as nat),
{
    let ghost before = out@;
    if n <= 250 {
        out.push(n as u8);
    } else if n <= 0xFFFF {
        out.push(251);
        write_le(out, n, 2);
        assert(before.push(251u8) + le_bytes(n as nat, 2) == before + (seq![251u8] + le_bytes(
            n as nat,
            2,
        )));
    } else if n <= 0xFFFF_FFFF {
        out.push(252);
        write_le(out, n, 4);
        assert(before.push(252u8) + le_bytes(n as nat, 4) == before + (seq![252u8] + le_bytes(
            n as nat,
            4,
        )));
    } else {
        out.push(253);
        write_le(out, n, 8);
        assert(before.push(253u8) + le_bytes(n as nat, 8) == before + (seq![253u8] + le_bytes(
            n as nat,
            8,
        )));
    }
}

/// The number in the `width` bytes of `bytes` from `pos` on.
fn read_le(bytes: &[u8], pos: usize, width: usize) -> (n: u64)
    requires
        width <= 8,
        pos + width <= bytes@.len(),
    ensures
        n == le_value(bytes@.subrange(pos as int, pos + width)),
{
    let mut n: u64 = 0;
    let mut i: usize = width;
    let len = bytes.len();
    proof {
        lemma_pow256();
    }
    while i > 0
        invariant
            i <= width <= 8,
            pos + width <= len == bytes@.len(),
            n == le_value(bytes@.subrange(pos + i, pos + width)),
            n < pow256((width - i) as nat),
        decreases i,
    {
        i -= 1;
        proof {
            let taken = bytes@.subrange(pos + i, pos + width);
            assert(taken.drop_first() == bytes@.subrange(pos + i + 1, pos + width));
            lemma_le_value_bound(taken);
            lemma_pow_grows((width - i) as nat, 8);
            reveal_with_fuel(pow256, 9);
        }
        n = n * 256 + bytes[pos + i] as u64;
    }
    n
}

/// The powers of 256 grow.
pub proof fn lemma_pow_grows(a: nat, b: nat)
    requires
        a <= b,
    ensures
        pow256(a) <= pow256(b),
    decreases b,
{
    if a < b {
        lemma_pow_grows(a, (b - 1) as nat);
    }
}

/// The variable-length integer in `bytes` at `pos`, and where the bytes
/// after it start.
fn read_varint(bytes: &[u8], pos: usize, widest: usize) -> (r: Option<(u64, usize)>)
    requires
        pos <= bytes@.len(),
        widest == 4 || widest == 8,
    ensures
        match r {
            Some((n, next)) => pos < next <= bytes@.len() && parse_varint(
                bytes@.skip(pos as int),
                widest as nat,
            ) == Some((n as nat, (next - pos) as nat)),
            None => parse_varint(bytes@.skip(pos as int), widest as nat) is None,
        },
{
    let ghost tail = bytes@.skip(pos as int);
    if pos >= bytes.len() {
        return None;
    }
    let marker = bytes[pos];
    assert(tail[0] == marker);
    if marker <= 250 {
        return Some((marker as u64, pos + 1));
    }
    let width: usize = if marker == 251 {
        2
    } else if marker == 252 {
        4
    } else if marker == 253 {
        8
    } else {
        return None;
    };
    if width > widest || bytes.len() - pos < 1 + width {
        return None;
    }
    let n = read_le(bytes, pos + 1, width);
    assert(tail.subrange(1, 1 + width) == bytes@.subrange(pos + 1, pos + 1 + width));
    Some((n, pos + 1 + width))
}

impl EnvironmentPack {
    /// The pack for what was found at a path. `bytes` is what was read
    /// there: the content of a file, or the archive made of a directory;
    /// for a path of any other kind it is not looked at.
    pub fn from_path(kind: PathKind, bytes: Vec<u8>) -> (r: Result<EnvironmentPack, VaultError>)
        ensures
            pack_view(r) == pack_at(kind, bytes@),
    {
        match kind {
            PathKind::Missing => Err(VaultError::PathNotFound),
            PathKind::File => Ok(EnvironmentPack::File(bytes)),
            PathKind::Folder => Ok(EnvironmentPack::Folder(bytes)),
            PathKind::Other => Err(VaultError::UnsupportedPathType),
        }
    }

    /// The binary form of the pack, which is what gets encrypted.
    /// `from_bytes` reads the same pack from it.
    pub fn to_bytes(&self) -> (out: Vec<u8>)
        ensures
            out@ == pack_bytes(self@),
            parsed(out@) == Ok::<PackModel, VaultError>(self@),
    {
        let mut out: Vec<u8> = Vec::new();
        match self {
            EnvironmentPack::Folder(payload) => {
                write_varint(&mut out, 0);
                write_varint(&mut out, payload.len() as u64);
                out.extend_from_slice(payload.as_slice());
            },
            EnvironmentPack::File(payload) => {
                write_varint(&mut out, 1);
                write_varint(&mut out, payload.len() as u64);
                out.extend_from_slice(payload.as_slice());
            },
        }
        proof {
            assert(out@ == pack_bytes(self@));
            lemma_pack_round_trip(self@, Seq::empty());
        }
        out
    }

    /// The pack at the start of `bytes`. Bytes after it are ignored.
    pub fn from_bytes(bytes: &[u8]) -> (r: Result<EnvironmentPack, VaultError>)
        ensures
            pack_view(r) == parsed(bytes@),
    {
        let (tag, after_tag) = match read_varint(bytes, 0, 4) {
            Some(found) => found,
            None => {
                assert(bytes@.skip(0) == bytes@);
                return Err(VaultError::EncodingError);
            },
        };
        assert(bytes@.skip(0) == bytes@);
        if tag > 1 {
            return Err(VaultError::EncodingError);
        }
        let (len, start) = match read_varint(bytes, after_tag, 8) {
            Some(found) => found,
            None => {
                return Err(VaultError::EncodingError);
            },
        };
        if len > (bytes.len() - start) as u64 {
            return Err(VaultError::EncodingError);
        }
        let end: usize = start + len as usize;
        let payload = vstd::slice::slice_to_vec(vstd::slice::slice_subrange(bytes, start, end));
        if tag == 0 {
            Ok(EnvironmentPack::Folder(payload))
        } else {
            Ok(EnvironmentPack::File(payload))
        }
    }
}

impl PathKind {
    /// The kind of a path, from what the file system says of it. A path
    /// that does not exist is missing, whatever the other answers are.
    pub fn of(exists: bool, is_file: bool, is_dir: bool) -> (kind: PathKind)
        ensures
            kind == (if !exists {
                PathKind::Missing
            } else if is_file {
                PathKind::File
            } else if is_dir {
                PathKind::Folder
            } else {
                PathKind::Other
            }),
    {
        if !exists {
            PathKind::Missing
        } else if is_file {
            PathKind::File
        } else if is_dir {
            PathKind::Folder
        } else {
            PathKind::Other
        }
    }
}

} // verus!
