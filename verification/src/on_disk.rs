//! The "version 2" disk representation of the dirstate.
//!
//! A dirstate consists of a small docket file and a separate data file.
//! The docket carries a format marker, the two parent identifiers, the tree
//! metadata, the size of the data file and the UUID naming it. The data
//! file is a flat byte region holding fixed-size tree nodes, path bytes and
//! copy-source bytes, all addressed by offsets from its start; all
//! multi-byte integers are big-endian.

use vstd::prelude::*;
use crate::entry::DirstateEntry;

verus! {

/// Unexpected file format found in a "v2" dirstate.
///
/// This should only happen when a repository is corrupted.
#[derive(Debug, Clone, Copy, PartialEq, Eq, Structural)]
pub struct DirstateV2ParseError;

/// The size in bytes of an on-disk node record.
pub const NODE_BYTES: usize = 43;

/// The size in bytes of the tree metadata carried in the docket.
pub const TREE_METADATA_BYTES: usize = 44;

/// The size in bytes of the docket up to and including the UUID length.
pub const DOCKET_HEADER_BYTES: usize = 125;

// The node flag bits.
pub const FLAG_WDIR_TRACKED: u8 = 1;
pub const FLAG_P1_TRACKED: u8 = 2;
pub const FLAG_P2_INFO: u8 = 4;
pub const FLAG_HAS_MODE_AND_SIZE: u8 = 8;
pub const FLAG_HAS_MTIME: u8 = 16;

/// The big-endian 16-bit value at offset `i`.
pub open spec fn be16_at(s: Seq<u8>, i: int) -> int {
    s[i] * 0x100 + s[i + 1]
}

/// The big-endian 32-bit value at offset `i`.
pub open spec fn be32_at(s: Seq<u8>, i: int) -> int {
    s[i] * 0x100_0000 + s[i + 1] * 0x1_0000 + s[i + 2] * 0x100 + s[i + 3]
}

/// The big-endian 64-bit value at offset `i`.
pub open spec fn be64_at(s: Seq<u8>, i: int) -> int {
    be32_at(s, i) * 0x1_0000_0000 + be32_at(s, i + 4)
}

/// A 32-bit value reinterpreted as two's-complement signed.
pub open spec fn signed32(u: int) -> int {
    if u < 0x8000_0000 {
        u
    } else {
        u - 0x1_0000_0000
    }
}

/// A 64-bit value reinterpreted as two's-complement signed.
pub open spec fn signed64(u: int) -> int {
    if u < 0x8000_0000_0000_0000 {
        u
    } else {
        u - 0x1_0000_0000_0000_0000
    }
}

pub fn read_u16_be(s: &[u8], i: usize) -> (r: u16)
    requires
        i + 2 <= s@.len(),
    ensures
        r as int == be16_at(s@, i as int),
{
    (s[i] as u16) * 0x100 + (s[i + 1] as u16)
}

pub fn read_u32_be(s: &[u8], i: usize) -> (r: u32)
    requires
        i + 4 <= s@.len(),
    ensures
        r as int == be32_at(s@, i as int),
{
    (s[i] as u32) * 0x100_0000 + (s[i + 1] as u32) * 0x1_0000 + (s[i + 2] as u32) * 0x100 + (s[i
        + 3] as u32)
}

pub fn read_u64_be(s: &[u8], i: usize) -> (r: u64)
    requires
        i + 8 <= s@.len(),
    ensures
        r as int == be64_at(s@, i as int),
{
    let n = s.len();
    assert(i + 8 <= n);
    let hi = read_u32_be(s, i);
    let lo = read_u32_be(s, i + 4);
    (hi as u64) * 0x1_0000_0000 + (lo as u64)
}

pub fn read_i32_be(s: &[u8], i: usize) -> (r: i32)
    requires
        i + 4 <= s@.len(),
    ensures
        r as int == signed32(be32_at(s@, i as int)),
{
    let u = read_u32_be(s, i);
    if u >= 0x8000_0000 {
        -((0xFFFF_FFFFu32 - u) as i32) - 1
    } else {
        u as i32
    }
}

pub fn read_i64_be(s: &[u8], i: usize) -> (r: i64)
    requires
        i + 8 <= s@.len(),
    ensures
        r as int == signed64(be64_at(s@, i as int)),
{
    let u = read_u64_be(s, i);
    if u >= 0x8000_0000_0000_0000 {
        -((0xFFFF_FFFF_FFFF_FFFFu64 - u) as i64) - 1
    } else {
        u as i64
    }
}

/// The four big-endian bytes of a 32-bit value.
pub open spec fn u32_bytes(x: u32) -> Seq<u8> {
    seq![
        (x as int / 0x100_0000) as u8,
        ((x as int / 0x1_0000) % 0x100) as u8,
        ((x as int / 0x100) % 0x100) as u8,
        (x as int % 0x100) as u8,
    ]
}

/// The two big-endian bytes of a 16-bit value.
pub open spec fn u16_bytes(x: u16) -> Seq<u8> {
    seq![(x as int / 0x100) as u8, (x as int % 0x100) as u8]
}

/// The eight big-endian bytes of a 64-bit value.
pub open spec fn u64_bytes(x: u64) -> Seq<u8> {
    u32_bytes((x as int / 0x1_0000_0000) as u32) + u32_bytes((x as int % 0x1_0000_0000) as u32)
}

pub fn push_u16_be(out: &mut Vec<u8>, x: u16)
    ensures
        final(out)@ == old(out)@ + u16_bytes(x),
{
    out.push((x / 0x100) as u8);
    out.push((x % 0x100) as u8);
    assert(out@ =~= old(out)@ + u16_bytes(x));
}

pub fn push_u32_be(out: &mut Vec<u8>, x: u32)
    ensures
        final(out)@ == old(out)@ + u32_bytes(x),
{
    out.push((x / 0x100_0000) as u8);
    out.push(((x / 0x1_0000) % 0x100) as u8);
    out.push(((x / 0x100) % 0x100) as u8);
    out.push((x % 0x100) as u8);
    assert(out@ =~= old(out)@ + u32_bytes(x));
}

pub fn push_u64_be(out: &mut Vec<u8>, x: u64)
    ensures
        final(out)@ == old(out)@ + u64_bytes(x),
{
    push_u32_be(out, (x / 0x1_0000_0000) as u32);
    push_u32_be(out, (x % 0x1_0000_0000) as u32);
    assert(out@ =~= old(out)@ + u64_bytes(x));
}

/// The unsigned 32-bit pattern of a signed value.
pub open spec fn u32_of_i32(x: i32) -> u32 {
    x as u32
}

/// The unsigned 64-bit pattern of a signed value.
pub open spec fn u64_of_i64(x: i64) -> u64 {
    x as u64
}

pub fn push_i32_be(out: &mut Vec<u8>, x: i32)
    ensures
        final(out)@ == old(out)@ + u32_bytes(u32_of_i32(x)),
{
    push_u32_be(out, x as u32);
}

pub fn push_i64_be(out: &mut Vec<u8>, x: i64)
    ensures
        final(out)@ == old(out)@ + u64_bytes(u64_of_i64(x)),
{
    push_u64_be(out, x as u64);
}

/// The marker that starts every v2 docket.
pub open spec fn v2_marker() -> Seq<u8> {
    // "dirstate-v2\n"
    seq![100u8, 105u8, 114u8, 115u8, 116u8, 97u8, 116u8, 101u8, 45u8, 118u8, 50u8, 10u8]
}

fn v2_marker_bytes() -> (r: Vec<u8>)
    ensures
        r@ == v2_marker(),
{
    let r: Vec<u8> = vec![100u8, 105u8, 114u8, 115u8, 116u8, 97u8, 116u8, 101u8, 45u8, 118u8, 50u8, 10u8];
    assert(r@ =~= v2_marker());
    r
}

/// A docket, owned: the fixed header fields and the UUID naming the data
/// file.
#[derive(Debug)]
pub struct Docket {
    pub parent_1: Vec<u8>,
    pub parent_2: Vec<u8>,
    pub metadata: Vec<u8>,
    pub data_size: u32,
    pub uuid: Vec<u8>,
}

pub open spec fn docket_wf(d: Docket) -> bool {
    d.parent_1@.len() == 32 && d.parent_2@.len() == 32 && d.metadata@.len() == 44
}

/// Parses a docket: the marker must match and the bytes after the fixed
/// header must be exactly as long as the UUID length byte says.
pub fn read_docket(on_disk: &[u8]) -> (r: Result<Docket, DirstateV2ParseError>)
    ensures
        r is Ok <==> (on_disk@.len() >= 125 && on_disk@.subrange(0, 12) == v2_marker()
            && on_disk@.len() == 125 + on_disk@[124]),
        r matches Ok(d) ==> docket_wf(d) && d.parent_1@ == on_disk@.subrange(12, 44)
            && d.parent_2@ == on_disk@.subrange(44, 76) && d.metadata@ == on_disk@.subrange(
            76,
            120,
        ) && d.data_size as int == be32_at(on_disk@, 120) && d.uuid@ == on_disk@.skip(125),
{
    if on_disk.len() < 125 {
        return Err(DirstateV2ParseError);
    }
    let marker = v2_marker_bytes();
    if !bytes_eq_od(&on_disk[0..12], marker.as_slice()) {
        return Err(DirstateV2ParseError);
    }
    let uuid_size = on_disk[124] as usize;
    if on_disk.len() - 125 != uuid_size {
        return Err(DirstateV2ParseError);
    }
    Ok(
        Docket {
            parent_1: vstd::slice::slice_to_vec(&on_disk[12..44]),
            parent_2: vstd::slice::slice_to_vec(&on_disk[44..76]),
            metadata: vstd::slice::slice_to_vec(&on_disk[76..120]),
            data_size: read_u32_be(on_disk, 120),
            uuid: vstd::slice::slice_to_vec(&on_disk[125..on_disk.len()]),
        },
    )
}

/// Whether the two byte strings are equal.
fn bytes_eq_od(a: &[u8], b: &[u8]) -> (r: bool)
    ensures
        r == (a@ == b@),
{
    if a.len() != b.len() {
        return false;
    }
    let mut i: usize = 0;
    while i < a.len()
        invariant
            i <= a.len() == b.len(),
            forall|k: int| 0 <= k < i ==> a@[k] == b@[k],
        decreases a.len() - i,
    {
        if a[i] != b[i] {
            return false;
        }
        i = i + 1;
    }
    assert(a@ =~= b@);
    true
}

impl Docket {
    /// The two parent identifiers: the 20 bytes of each 32-byte slot that a
    /// SHA-1 identifier uses.
    pub fn parents(&self) -> (r: (Vec<u8>, Vec<u8>))
        requires
            docket_wf(*self),
        ensures
            r.0@ == self.parent_1@.subrange(0, 20),
            r.1@ == self.parent_2@.subrange(0, 20),
    {
        (
            vstd::slice::slice_to_vec(&self.parent_1.as_slice()[0..20]),
            vstd::slice::slice_to_vec(&self.parent_2.as_slice()[0..20]),
        )
    }

    /// The serialized tree metadata carried in the docket.
    pub fn tree_metadata(&self) -> (r: &Vec<u8>)
        ensures
            r@ == self.metadata@,
    {
        &self.metadata
    }

    pub fn data_size(&self) -> (r: usize)
        ensures
            r == self.data_size,
    {
        self.data_size as usize
    }

    /// The name of the data file the docket points to: `dirstate.` followed
    /// by the UUID bytes.
    pub fn data_filename(&self) -> (r: Vec<u8>)
        ensures
            r@ == data_filename_prefix() + self.uuid@,
    {
        // "dirstate."
        let mut r: Vec<u8> = vec![100u8, 105u8, 114u8, 115u8, 116u8, 97u8, 116u8, 101u8, 46u8];
        r.extend_from_slice(self.uuid.as_slice());
        proof {
            assert(r@ =~= data_filename_prefix() + self.uuid@);
        }
        r
    }
}

pub open spec fn data_filename_prefix() -> Seq<u8> {
    // "dirstate."
    seq![100u8, 105u8, 114u8, 115u8, 116u8, 97u8, 116u8, 101u8, 46u8]
}

/// The tree metadata stored in the docket: where the root nodes live in
/// the data file, the counters, and the hash of the ignore patterns.
#[derive(Debug)]
pub struct TreeMetadata {
    pub root_nodes_start: u32,
    pub root_nodes_len: u32,
    pub nodes_with_entry_count: u32,
    pub nodes_with_copy_source_count: u32,
    pub unreachable_bytes: u32,
    pub ignore_patterns_hash: Vec<u8>,
}

/// Parses the 44-byte tree metadata; extra trailing bytes are ignored.
pub fn parse_tree_metadata(metadata: &[u8]) -> (r: Result<TreeMetadata, DirstateV2ParseError>)
    ensures
        r is Ok <==> metadata@.len() >= 44,
        r matches Ok(m) ==> m.root_nodes_start as int == be32_at(metadata@, 0)
            && m.root_nodes_len as int == be32_at(metadata@, 4) && m.nodes_with_entry_count as int
            == be32_at(metadata@, 8) && m.nodes_with_copy_source_count as int == be32_at(
            metadata@,
            12,
        ) && m.unreachable_bytes as int == be32_at(metadata@, 16) && m.ignore_patterns_hash@
            == metadata@.subrange(24, 44),
{
    if metadata.len() < 44 {
        return Err(DirstateV2ParseError);
    }
    Ok(
        TreeMetadata {
            root_nodes_start: read_u32_be(metadata, 0),
            root_nodes_len: read_u32_be(metadata, 4),
            nodes_with_entry_count: read_u32_be(metadata, 8),
            nodes_with_copy_source_count: read_u32_be(metadata, 12),
            unreachable_bytes: read_u32_be(metadata, 16),
            ignore_patterns_hash: vstd::slice::slice_to_vec(&metadata[24..44]),
        },
    )
}

/// Duration since the Unix epoch, as cached for a directory.
#[derive(Debug, Clone, Copy, PartialEq, Eq, Structural)]
pub struct Timestamp {
    pub seconds: i64,
    /// In `0 .. 1_000_000_000`; the instant is later or earlier than
    /// `(seconds, 0)` by this much, for non-negative or negative seconds
    /// respectively.
    pub nanoseconds: u32,
}

impl Timestamp {
    pub fn seconds(&self) -> (r: i64)
        ensures
            r == self.seconds,
    {
        self.seconds
    }
}

/// An on-disk node record, decoded field by field. The twelve data bytes
/// are decoded both ways: as the `(mode, mtime, size)` of an entry and as
/// the `(seconds, nanoseconds)` of a cached directory mtime; the flags say
/// which reading is meaningful.
#[derive(Debug, Clone, Copy)]
pub struct Node {
    pub full_path_start: u32,
    pub full_path_len: u16,
    /// In bytes from the start of `full_path`.
    pub base_name_start: u16,
    /// A zero start means there is no copy source.
    pub copy_source_start: u32,
    pub copy_source_len: u16,
    pub children_start: u32,
    pub children_len: u32,
    pub descendants_with_entry_count: u32,
    pub tracked_descendants_count: u32,
    pub flags: u8,
    pub mode: i32,
    pub mtime: i32,
    pub size: i32,
    pub mtime_seconds: i64,
    pub mtime_nanoseconds: u32,
}

/// Decodes the 43-byte node record at `offset`.
pub fn read_node(on_disk: &[u8], offset: usize) -> (r: Result<Node, DirstateV2ParseError>)
    ensures
        r is Ok <==> offset + 43 <= on_disk@.len(),
        r matches Ok(n) ==> {
            let o = offset as int;
            n.full_path_start as int == be32_at(on_disk@, o) && n.full_path_len as int == be16_at(
                on_disk@,
                o + 4,
            ) && n.base_name_start as int == be16_at(on_disk@, o + 6) && n.copy_source_start as int
                == be32_at(on_disk@, o + 8) && n.copy_source_len as int == be16_at(on_disk@, o + 12)
                && n.children_start as int == be32_at(on_disk@, o + 14) && n.children_len as int
                == be32_at(on_disk@, o + 18) && n.descendants_with_entry_count as int == be32_at(
                on_disk@,
                o + 22,
            ) && n.tracked_descendants_count as int == be32_at(on_disk@, o + 26) && n.flags
                == on_disk@[o + 30] && n.mode as int == signed32(be32_at(on_disk@, o + 31))
                && n.mtime as int == signed32(be32_at(on_disk@, o + 35)) && n.size as int
                == signed32(be32_at(on_disk@, o + 39)) && n.mtime_seconds as int == signed64(
                be64_at(on_disk@, o + 31),
            ) && n.mtime_nanoseconds as int == be32_at(on_disk@, o + 39)
        },
{
    if on_disk.len() < 43 || offset > on_disk.len() - 43 {
        return Err(DirstateV2ParseError);
    }
    Ok(
        Node {
            full_path_start: read_u32_be(on_disk, offset),
            full_path_len: read_u16_be(on_disk, offset + 4),
            base_name_start: read_u16_be(on_disk, offset + 6),
            copy_source_start: read_u32_be(on_disk, offset + 8),
            copy_source_len: read_u16_be(on_disk, offset + 12),
            children_start: read_u32_be(on_disk, offset + 14),
            children_len: read_u32_be(on_disk, offset + 18),
            descendants_with_entry_count: read_u32_be(on_disk, offset + 22),
            tracked_descendants_count: read_u32_be(on_disk, offset + 26),
            flags: on_disk[offset + 30],
            mode: read_i32_be(on_disk, offset + 31),
            mtime: read_i32_be(on_disk, offset + 35),
            size: read_i32_be(on_disk, offset + 39),
            mtime_seconds: read_i64_be(on_disk, offset + 31),
            mtime_nanoseconds: read_u32_be(on_disk, offset + 39),
        },
    )
}

impl Node {
    /// A node carries an entry exactly when one of the three tracking flags
    /// is set.
    pub fn has_entry(&self) -> (r: bool)
        ensures
            r == (self.flags & 7 != 0),
    {
        let f = self.flags;
        proof {
            assert(f & (1u8 | 2u8 | 4u8) == f & 7u8) by (bit_vector);
        }
        f & (FLAG_WDIR_TRACKED | FLAG_P1_TRACKED | FLAG_P2_INFO) != 0
    }

    pub fn has_copy_source(&self) -> (r: bool)
        ensures
            r == (self.copy_source_start != 0),
    {
        self.copy_source_start != 0
    }

    /// The full path bytes this node names, read out of the data file.
    pub fn full_path(&self, on_disk: &[u8]) -> (r: Result<Vec<u8>, DirstateV2ParseError>)
        ensures
            r is Ok <==> self.full_path_start + self.full_path_len <= on_disk@.len(),
            r matches Ok(p) ==> p@ == on_disk@.subrange(
                self.full_path_start as int,
                self.full_path_start + self.full_path_len,
            ),
    {
        read_slice_bytes(on_disk, self.full_path_start, self.full_path_len as u32)
    }

    /// Where the base name starts inside the full path; an index past the
    /// path is a parse error.
    pub fn base_name_start(&self) -> (r: Result<usize, DirstateV2ParseError>)
        ensures
            r is Ok <==> self.base_name_start < self.full_path_len,
            r matches Ok(s) ==> s == self.base_name_start,
    {
        if self.base_name_start < self.full_path_len {
            Ok(self.base_name_start as usize)
        } else {
            Err(DirstateV2ParseError)
        }
    }

    /// The copy source bytes, if the node has any.
    pub fn copy_source(&self, on_disk: &[u8]) -> (r: Result<
        Option<Vec<u8>>,
        DirstateV2ParseError,
    >)
        ensures
            self.copy_source_start == 0 ==> (r matches Ok(o) && o is None),
            self.copy_source_start != 0 ==> {
                &&& r is Ok <==> self.copy_source_start + self.copy_source_len <= on_disk@.len()
                &&& r matches Ok(o) ==> (o matches Some(p) && p@ == on_disk@.subrange(
                    self.copy_source_start as int,
                    self.copy_source_start + self.copy_source_len,
                ))
            },
    {
        if self.copy_source_start == 0 {
            Ok(None)
        } else {
            match read_slice_bytes(on_disk, self.copy_source_start, self.copy_source_len as u32) {
                Ok(p) => Ok(Some(p)),
                Err(e) => Err(e),
            }
        }
    }

    /// The entry encoded in the node's flags and data, assuming it has one.
    pub fn assume_entry(&self) -> (r: DirstateEntry)
        ensures
            r.wdir_tracked == (self.flags & 1 != 0),
            r.p1_tracked == (self.flags & 2 != 0),
            r.p2_info == (self.flags & 4 != 0),
            r.mode_size == if self.flags & 8 != 0 {
                Some((self.mode, self.size))
            } else {
                None::<(i32, i32)>
            },
            r.mtime == if self.flags & 16 != 0 {
                Some(self.mtime)
            } else {
                None::<i32>
            },
    {
        let wdir_tracked = self.flags & FLAG_WDIR_TRACKED != 0;
        let p1_tracked = self.flags & FLAG_P1_TRACKED != 0;
        let p2_info = self.flags & FLAG_P2_INFO != 0;
        let mode_size = if self.flags & FLAG_HAS_MODE_AND_SIZE != 0 {
            Some((self.mode, self.size))
        } else {
            None
        };
        let mtime = if self.flags & FLAG_HAS_MTIME != 0 {
            Some(self.mtime)
        } else {
            None
        };
        DirstateEntry::from_v2_data(wdir_tracked, p1_tracked, p2_info, mode_size, mtime)
    }

    /// The entry this node carries, if any.
    pub fn entry(&self) -> (r: Option<DirstateEntry>)
        ensures
            r is Some <==> self.flags & 7 != 0,
            r matches Some(e) ==> e.wdir_tracked == (self.flags & 1 != 0) && e.p1_tracked == (
            self.flags & 2 != 0) && e.p2_info == (self.flags & 4 != 0) && e.mode_size == (
            if self.flags & 8 != 0 {
                Some((self.mode, self.size))
            } else {
                None::<(i32, i32)>
            }) && e.mtime == (if self.flags & 16 != 0 {
                Some(self.mtime)
            } else {
                None::<i32>
            }),
    {
        if self.has_entry() {
            Some(self.assume_entry())
        } else {
            None
        }
    }

    /// The cached directory mtime: meaningful when the node has no entry
    /// but carries an mtime.
    pub fn cached_directory_mtime(&self) -> (r: Option<Timestamp>)
        ensures
            r is Some <==> (self.flags & 16 != 0 && self.flags & 7 == 0),
            r matches Some(t) ==> t.seconds == self.mtime_seconds && t.nanoseconds
                == self.mtime_nanoseconds,
    {
        if self.flags & FLAG_HAS_MTIME != 0 && !self.has_entry() {
            Some(Timestamp { seconds: self.mtime_seconds, nanoseconds: self.mtime_nanoseconds })
        } else {
            None
        }
    }
}

/// Reads `len` bytes at `start` out of the data file.
fn read_slice_bytes(on_disk: &[u8], start: u32, len: u32) -> (r: Result<
    Vec<u8>,
    DirstateV2ParseError,
>)
    ensures
        r is Ok <==> start + len <= on_disk@.len(),
        r matches Ok(p) ==> p@ == on_disk@.subrange(start as int, start + len),
{
    let start_us = start as usize;
    let len_us = len as usize;
    if start_us > on_disk.len() || len_us > on_disk.len() - start_us {
        return Err(DirstateV2ParseError);
    }
    Ok(vstd::slice::slice_to_vec(&on_disk[start_us..start_us + len_us]))
}

/// Round trip of the 16-bit byte codec.
pub proof fn lemma_u16_bytes_roundtrip(x: u16)
    ensures
        be16_at(u16_bytes(x), 0) == x,
{
    let v = x as int;
    assert(0 <= v / 0x100 < 0x100 && (v / 0x100) * 0x100 + v % 0x100 == v) by (nonlinear_arith)
        requires
            0 <= v < 0x1_0000,
    ;
}

/// Round trip of the 64-bit byte codec.
pub proof fn lemma_u64_bytes_roundtrip(x: u64)
    ensures
        be64_at(u64_bytes(x), 0) == x,
{
    let v = x as int;
    let hi = (v / 0x1_0000_0000) as u32;
    let lo = (v % 0x1_0000_0000) as u32;
    assert(0 <= v / 0x1_0000_0000 < 0x1_0000_0000 && 0 <= v % 0x1_0000_0000 < 0x1_0000_0000 && (v
        / 0x1_0000_0000) * 0x1_0000_0000 + v % 0x1_0000_0000 == v) by (nonlinear_arith)
        requires
            0 <= v < 0x1_0000_0000_0000_0000,
    ;
    lemma_u32_bytes_roundtrip(hi);
    lemma_u32_bytes_roundtrip(lo);
    let s = u64_bytes(x);
    assert(be32_at(s, 0) == be32_at(u32_bytes(hi), 0)) by {
        assert(s[0] == u32_bytes(hi)[0] && s[1] == u32_bytes(hi)[1] && s[2] == u32_bytes(hi)[2]
            && s[3] == u32_bytes(hi)[3]);
    }
    assert(be32_at(s, 4) == be32_at(u32_bytes(lo), 0)) by {
        assert(s[4] == u32_bytes(lo)[0] && s[5] == u32_bytes(lo)[1] && s[6] == u32_bytes(lo)[2]
            && s[7] == u32_bytes(lo)[3]);
    }
}

/// The signed and unsigned 32-bit views of the same bits agree.
pub proof fn lemma_signed32_roundtrip(x: i32)
    ensures
        signed32(u32_of_i32(x) as int) == x,
{
    assert((x as u32) as int == (if x >= 0 {
        x as int
    } else {
        x as int + 0x1_0000_0000
    })) by (bit_vector);
}

/// The signed and unsigned 64-bit views of the same bits agree.
pub proof fn lemma_signed64_roundtrip(x: i64)
    ensures
        signed64(u64_of_i64(x) as int) == x,
{
    assert((x as u64) as int == (if x >= 0 {
        x as int
    } else {
        x as int + 0x1_0000_0000_0000_0000
    })) by (bit_vector);
}

/// The flags byte a node's data serializes to.
pub open spec fn spec_node_flags(d: crate::dirstate_map::NodeData) -> u8 {
    match d {
        crate::dirstate_map::NodeData::Entry(e) => (((if e.wdir_tracked {
            1u8
        } else {
            0u8
        }) + (if e.p1_tracked {
            2u8
        } else {
            0u8
        }) + (if e.p2_info {
            4u8
        } else {
            0u8
        }) + (if e.mode_size is Some {
            8u8
        } else {
            0u8
        }) + (if e.mtime is Some {
            16u8
        } else {
            0u8
        })) as u8),
        crate::dirstate_map::NodeData::CachedDirectory(_) => 16u8,
        crate::dirstate_map::NodeData::NoData => 0u8,
    }
}

/// The flags byte of an entry answers the bit tests that decoding uses:
/// encoding then decoding the flags gives the original entry bits back.
pub proof fn lemma_node_flags_bits(e: DirstateEntry)
    ensures
        (spec_node_flags(crate::dirstate_map::NodeData::Entry(e)) & 1 != 0) == e.wdir_tracked,
        (spec_node_flags(crate::dirstate_map::NodeData::Entry(e)) & 2 != 0) == e.p1_tracked,
        (spec_node_flags(crate::dirstate_map::NodeData::Entry(e)) & 4 != 0) == e.p2_info,
        (spec_node_flags(crate::dirstate_map::NodeData::Entry(e)) & 8 != 0) == (e.mode_size
            is Some),
        (spec_node_flags(crate::dirstate_map::NodeData::Entry(e)) & 16 != 0) == (e.mtime is Some),
        (spec_node_flags(crate::dirstate_map::NodeData::Entry(e)) & 7 != 0) == (e.wdir_tracked
            || e.p1_tracked || e.p2_info),
{
    let w = e.wdir_tracked;
    let p1 = e.p1_tracked;
    let p2 = e.p2_info;
    let ms = e.mode_size is Some;
    let mt = e.mtime is Some;
    let f = spec_node_flags(crate::dirstate_map::NodeData::Entry(e));
    assert(f == ((if w {
        1u8
    } else {
        0u8
    }) + (if p1 {
        2u8
    } else {
        0u8
    }) + (if p2 {
        4u8
    } else {
        0u8
    }) + (if ms {
        8u8
    } else {
        0u8
    }) + (if mt {
        16u8
    } else {
        0u8
    })) as u8);
    assert(f == ((if w {
        1u8
    } else {
        0u8
    }) + (if p1 {
        2u8
    } else {
        0u8
    }) + (if p2 {
        4u8
    } else {
        0u8
    }) + (if ms {
        8u8
    } else {
        0u8
    }) + (if mt {
        16u8
    } else {
        0u8
    })) as u8 ==> ((f & 1 != 0) == w && (f & 2 != 0) == p1 && (f & 4 != 0) == p2 && (f & 8 != 0)
        == ms && (f & 16 != 0) == mt && (f & 7 != 0) == (w || p1 || p2))) by (bit_vector);
}

/// The raw payload channels of an entry, absent values encoded as zero.
pub open spec fn raw_mode(e: DirstateEntry) -> i32 {
    match e.mode_size {
        Some((m, _s)) => m,
        None => 0,
    }
}

pub open spec fn raw_size(e: DirstateEntry) -> i32 {
    match e.mode_size {
        Some((_m, s)) => s,
        None => 0,
    }
}

pub open spec fn raw_mtime(e: DirstateEntry) -> i32 {
    match e.mtime {
        Some(m) => m,
        None => 0,
    }
}

/// The twelve data bytes a node's data serializes to: `(mode, mtime, size)`
/// for an entry, `(seconds, nanoseconds)` for a cached directory mtime,
/// zeros otherwise.
pub open spec fn spec_node_data_bytes(d: crate::dirstate_map::NodeData) -> Seq<u8> {
    match d {
        crate::dirstate_map::NodeData::Entry(e) => u32_bytes(u32_of_i32(raw_mode(e))) + u32_bytes(
            u32_of_i32(raw_mtime(e)),
        ) + u32_bytes(u32_of_i32(raw_size(e))),
        crate::dirstate_map::NodeData::CachedDirectory(t) => u64_bytes(u64_of_i64(t.seconds))
            + u32_bytes(t.nanoseconds),
        crate::dirstate_map::NodeData::NoData => Seq::new(12nat, |i: int| 0u8),
    }
}

/// The 43 bytes of one node record.
#[verifier::opaque]
pub open spec fn spec_node_record(
    fp_start: u32,
    fp_len: u16,
    bns: u16,
    copy_start: u32,
    copy_len: u16,
    ch_start: u32,
    ch_len: u32,
    desc: u32,
    tracked_count: u32,
    d: crate::dirstate_map::NodeData,
) -> Seq<u8> {
    u32_bytes(fp_start) + u16_bytes(fp_len) + u16_bytes(bns) + u32_bytes(copy_start) + u16_bytes(
        copy_len,
    ) + u32_bytes(ch_start) + u32_bytes(ch_len) + u32_bytes(desc) + u32_bytes(tracked_count) + seq![
        spec_node_flags(d),
    ] + spec_node_data_bytes(d)
}

/// The bytes of one field of a record, read out of the surrounding buffer.
proof fn lemma_field_bytes(s: Seq<u8>, o: int, rec: Seq<u8>, a: int, b: int, piece: Seq<u8>)
    requires
        0 <= o,
        o + 43 <= s.len(),
        s.subrange(o, o + 43) == rec,
        rec.len() == 43,
        0 <= a <= b <= 43,
        rec.subrange(a, b) == piece,
    ensures
        forall|i: int| 0 <= i < b - a ==> s[o + a + i] == piece[i],
{
    assert forall|i: int| 0 <= i < b - a implies s[o + a + i] == piece[i] by {
        assert(s.subrange(o, o + 43)[a + i] == s[o + a + i]);
        assert(rec.subrange(a, b)[i] == rec[a + i]);
    }
}

/// One node record round-trips: a buffer that holds the encoding of a node
/// record decodes, field by field, to the values that were encoded. This is
/// the per-record core of the serialize/re-read round trip; `read_node`'s
/// contract turns these byte-level facts into the decoded node.
#[verifier::rlimit(100)]
#[verifier::spinoff_prover]
pub proof fn lemma_node_record_roundtrip(
    s: Seq<u8>,
    o: int,
    fp_start: u32,
    fp_len: u16,
    bns: u16,
    copy_start: u32,
    copy_len: u16,
    ch_start: u32,
    ch_len: u32,
    desc: u32,
    tracked_count: u32,
    d: crate::dirstate_map::NodeData,
)
    requires
        0 <= o,
        o + 43 <= s.len(),
        s.subrange(o, o + 43) == spec_node_record(
            fp_start,
            fp_len,
            bns,
            copy_start,
            copy_len,
            ch_start,
            ch_len,
            desc,
            tracked_count,
            d,
        ),
    ensures
        be32_at(s, o) == fp_start,
        be16_at(s, o + 4) == fp_len,
        be16_at(s, o + 6) == bns,
        be32_at(s, o + 8) == copy_start,
        be16_at(s, o + 12) == copy_len,
        be32_at(s, o + 14) == ch_start,
        be32_at(s, o + 18) == ch_len,
        be32_at(s, o + 22) == desc,
        be32_at(s, o + 26) == tracked_count,
        s[o + 30] == spec_node_flags(d),
        d matches crate::dirstate_map::NodeData::Entry(e) ==> signed32(be32_at(s, o + 31))
            == raw_mode(e) && signed32(be32_at(s, o + 35)) == raw_mtime(e) && signed32(
            be32_at(s, o + 39),
        ) == raw_size(e),
        d matches crate::dirstate_map::NodeData::CachedDirectory(t) ==> signed64(
            be64_at(s, o + 31),
        ) == t.seconds && be32_at(s, o + 39) == t.nanoseconds,
{
    reveal(spec_node_record);
    let rec = spec_node_record(
        fp_start,
        fp_len,
        bns,
        copy_start,
        copy_len,
        ch_start,
        ch_len,
        desc,
        tracked_count,
        d,
    );
    let data = spec_node_data_bytes(d);
    assert(rec.subrange(0, 4) =~= u32_bytes(fp_start));
    assert(rec.subrange(4, 6) =~= u16_bytes(fp_len));
    assert(rec.subrange(6, 8) =~= u16_bytes(bns));
    assert(rec.subrange(8, 12) =~= u32_bytes(copy_start));
    assert(rec.subrange(12, 14) =~= u16_bytes(copy_len));
    assert(rec.subrange(14, 18) =~= u32_bytes(ch_start));
    assert(rec.subrange(18, 22) =~= u32_bytes(ch_len));
    assert(rec.subrange(22, 26) =~= u32_bytes(desc));
    assert(rec.subrange(26, 30) =~= u32_bytes(tracked_count));
    assert(rec[30] == spec_node_flags(d));
    assert(rec.subrange(31, 43) =~= data);
    lemma_field_bytes(s, o, rec, 0, 4, u32_bytes(fp_start));
    lemma_field_bytes(s, o, rec, 4, 6, u16_bytes(fp_len));
    lemma_field_bytes(s, o, rec, 6, 8, u16_bytes(bns));
    lemma_field_bytes(s, o, rec, 8, 12, u32_bytes(copy_start));
    lemma_field_bytes(s, o, rec, 12, 14, u16_bytes(copy_len));
    lemma_field_bytes(s, o, rec, 14, 18, u32_bytes(ch_start));
    lemma_field_bytes(s, o, rec, 18, 22, u32_bytes(ch_len));
    lemma_field_bytes(s, o, rec, 22, 26, u32_bytes(desc));
    lemma_field_bytes(s, o, rec, 26, 30, u32_bytes(tracked_count));
    lemma_field_bytes(s, o, rec, 31, 43, data);
    assert(s[o + 30] == rec[30]) by {
        assert(s.subrange(o, o + 43)[30] == s[o + 30]);
    }
    lemma_u32_bytes_roundtrip(fp_start);
    lemma_u16_bytes_roundtrip(fp_len);
    lemma_u16_bytes_roundtrip(bns);
    lemma_u32_bytes_roundtrip(copy_start);
    lemma_u16_bytes_roundtrip(copy_len);
    lemma_u32_bytes_roundtrip(ch_start);
    lemma_u32_bytes_roundtrip(ch_len);
    lemma_u32_bytes_roundtrip(desc);
    lemma_u32_bytes_roundtrip(tracked_count);
    match d {
        crate::dirstate_map::NodeData::Entry(e) => {
            assert(data.subrange(0, 4) =~= u32_bytes(u32_of_i32(raw_mode(e))));
            assert(data.subrange(4, 8) =~= u32_bytes(u32_of_i32(raw_mtime(e))));
            assert(data.subrange(8, 12) =~= u32_bytes(u32_of_i32(raw_size(e))));
            assert forall|i: int| 0 <= i < 4 implies s[o + 31 + i] == u32_bytes(
                u32_of_i32(raw_mode(e)),
            )[i] && s[o + 35 + i] == u32_bytes(u32_of_i32(raw_mtime(e)))[i] && s[o + 39 + i]
                == u32_bytes(u32_of_i32(raw_size(e)))[i] by {
                assert(data.subrange(0, 4)[i] == data[i]);
                assert(data.subrange(4, 8)[i] == data[4 + i]);
                assert(data.subrange(8, 12)[i] == data[8 + i]);
            }
            lemma_u32_bytes_roundtrip(u32_of_i32(raw_mode(e)));
            lemma_u32_bytes_roundtrip(u32_of_i32(raw_mtime(e)));
            lemma_u32_bytes_roundtrip(u32_of_i32(raw_size(e)));
            lemma_signed32_roundtrip(raw_mode(e));
            lemma_signed32_roundtrip(raw_mtime(e));
            lemma_signed32_roundtrip(raw_size(e));
            assert(be32_at(s, o + 31) == be32_at(u32_bytes(u32_of_i32(raw_mode(e))), 0));
            assert(be32_at(s, o + 35) == be32_at(u32_bytes(u32_of_i32(raw_mtime(e))), 0));
            assert(be32_at(s, o + 39) == be32_at(u32_bytes(u32_of_i32(raw_size(e))), 0));
        },
        crate::dirstate_map::NodeData::CachedDirectory(t) => {
            assert(data.subrange(0, 8) =~= u64_bytes(u64_of_i64(t.seconds)));
            assert(data.subrange(8, 12) =~= u32_bytes(t.nanoseconds));
            assert forall|i: int| 0 <= i < 8 implies s[o + 31 + i] == u64_bytes(
                u64_of_i64(t.seconds),
            )[i] by {
                assert(data.subrange(0, 8)[i] == data[i]);
            }
            assert forall|i: int| 0 <= i < 4 implies s[o + 39 + i] == u32_bytes(t.nanoseconds)[i]
                by {
                assert(data.subrange(8, 12)[i] == data[8 + i]);
            }
            lemma_u64_bytes_roundtrip(u64_of_i64(t.seconds));
            lemma_u32_bytes_roundtrip(t.nanoseconds);
            lemma_signed64_roundtrip(t.seconds);
            assert(be32_at(s, o + 31) == be32_at(u64_bytes(u64_of_i64(t.seconds)), 0));
            assert(be32_at(s, o + 35) == be32_at(u64_bytes(u64_of_i64(t.seconds)), 4));
            assert(be64_at(s, o + 31) == be64_at(u64_bytes(u64_of_i64(t.seconds)), 0));
            assert(be32_at(s, o + 39) == be32_at(u32_bytes(t.nanoseconds), 0));
        },
        crate::dirstate_map::NodeData::NoData => {},
    }
}

/// Round trip of the 32-bit byte codec: decoding the four bytes of a value
/// gives the value back.
pub proof fn lemma_u32_bytes_roundtrip(x: u32)
    ensures
        be32_at(u32_bytes(x), 0) == x,
{
    let v = x as int;
    let d0 = v / 0x100_0000;
    let d1 = (v / 0x1_0000) % 0x100;
    let d2 = (v / 0x100) % 0x100;
    let d3 = v % 0x100;
    assert(0 <= d0 < 0x100 && 0 <= d1 < 0x100 && 0 <= d2 < 0x100 && 0 <= d3 < 0x100 && d0
        * 0x100_0000 + d1 * 0x1_0000 + d2 * 0x100 + d3 == v) by (nonlinear_arith)
        requires
            0 <= v < 0x1_0000_0000,
            d0 == v / 0x100_0000,
            d1 == (v / 0x1_0000) % 0x100,
            d2 == (v / 0x100) % 0x100,
            d3 == v % 0x100,
    ;
}

/// Checks that `lex_lt` agrees with its executable comparison.
pub fn lex_lt_bytes(a: &[u8], b: &[u8]) -> (r: bool)
    ensures
        r == crate::dirstate_map::lex_lt(a@, b@),
{
    let mut i: usize = 0;
    proof {
        assert(a@.skip(0) =~= a@);
        assert(b@.skip(0) =~= b@);
    }
    loop
        invariant
            i <= a@.len(),
            i <= b@.len(),
            crate::dirstate_map::lex_lt(a@, b@) == crate::dirstate_map::lex_lt(
                a@.skip(i as int),
                b@.skip(i as int),
            ),
        decreases a.len() - i,
    {
        if i >= b.len() {
            return false;
        }
        if i >= a.len() {
            return true;
        }
        if a[i] < b[i] {
            return true;
        }
        if a[i] > b[i] {
            return false;
        }
        proof {
            assert(a@.skip(i as int).skip(1) =~= a@.skip(i as int + 1));
            assert(b@.skip(i as int).skip(1) =~= b@.skip(i as int + 1));
        }
        i = i + 1;
    }
}

/// The in-memory node is what the record at offset `o` encodes: every
/// field decodes from the bytes, the remembered offsets are the record's
/// own, and the children decode likewise from the referenced array.
pub open spec fn node_decodes(on_disk: Seq<u8>, o: int, n: crate::dirstate_map::Node) -> bool
    decreases n,
{
    let fp_start = be32_at(on_disk, o);
    let fp_len = be16_at(on_disk, o + 4);
    let bns = be16_at(on_disk, o + 6);
    let cs_start = be32_at(on_disk, o + 8);
    let cs_len = be16_at(on_disk, o + 12);
    let ch_start = be32_at(on_disk, o + 14);
    let ch_len = be32_at(on_disk, o + 18);
    let flags = on_disk[o + 30];
    &&& fp_start + fp_len <= on_disk.len()
    &&& n.full_path@ == on_disk.subrange(fp_start, fp_start + fp_len)
    &&& n.base_name_start == bns && bns < fp_len
    &&& (match n.copy_source {
        Some(c) => cs_start != 0 && cs_start + cs_len <= on_disk.len() && c@ == on_disk.subrange(
            cs_start,
            cs_start + cs_len,
        ),
        None => cs_start == 0,
    })
    &&& n.descendants_with_entry_count == be32_at(on_disk, o + 22)
    &&& n.tracked_descendants_count == be32_at(on_disk, o + 26)
    &&& (if flags & 7 != 0 {
        match n.data {
            crate::dirstate_map::NodeData::Entry(e) => {
                &&& e.wdir_tracked == (flags & 1 != 0)
                &&& e.p1_tracked == (flags & 2 != 0)
                &&& e.p2_info == (flags & 4 != 0)
                &&& (match e.mode_size {
                    Some((m, sz)) => flags & 8 != 0 && m as int == signed32(be32_at(on_disk, o + 31))
                        && sz as int == signed32(be32_at(on_disk, o + 39)),
                    None => flags & 8 == 0,
                })
                &&& (match e.mtime {
                    Some(mt) => flags & 16 != 0 && mt as int == signed32(be32_at(on_disk, o + 35)),
                    None => flags & 16 == 0,
                })
            },
            _ => false,
        }
    } else if flags & 16 != 0 {
        match n.data {
            crate::dirstate_map::NodeData::CachedDirectory(t) => t.seconds as int == signed64(
                be64_at(on_disk, o + 31),
            ) && t.nanoseconds as int == be32_at(on_disk, o + 39),
            _ => false,
        }
    } else {
        n.data matches crate::dirstate_map::NodeData::NoData
    })
    &&& (match n.path_offset {
        Some(po) => po as int == fp_start,
        None => false,
    })
    &&& (match n.copy_offset {
        Some(co) => cs_start != 0 && co as int == cs_start,
        None => cs_start == 0,
    })
    &&& (match n.children_offsets {
        Some(t) => t.0 as int == ch_start && t.1 as int == ch_len,
        None => false,
    })
    &&& nodes_decode(on_disk, ch_start, ch_len, n.children@)
}

/// The node sequence is what the record array at `(start, len)` encodes.
pub open spec fn nodes_decode(
    on_disk: Seq<u8>,
    start: int,
    len: int,
    ns: Seq<crate::dirstate_map::Node>,
) -> bool
    decreases ns,
{
    &&& ns.len() == len
    &&& start + len * 43 <= on_disk.len()
    &&& forall|k: int| 0 <= k < len ==> node_decodes(on_disk, start + k * 43, #[trigger] ns[k])
}

/// Whether scanning the record array at `(start, len)` with this much fuel
/// succeeds, and with how much fuel left: the exact success condition of
/// the reader, mirrored over the bytes. `prev` carries the previous base
/// name for the order check.
pub open spec fn spec_scan_level(
    on_disk: Seq<u8>,
    start: int,
    len: int,
    k: int,
    fuel: int,
    prev: Option<Seq<u8>>,
) -> Option<int>
    decreases fuel, 0int, len - k,
{
    if k >= len {
        Some(fuel)
    } else if fuel <= 0 {
        None
    } else {
        let o = start + k * 43;
        let fp_start = be32_at(on_disk, o);
        let fp_len = be16_at(on_disk, o + 4);
        let bns = be16_at(on_disk, o + 6);
        let cs_start = be32_at(on_disk, o + 8);
        let cs_len = be16_at(on_disk, o + 12);
        let ch_start = be32_at(on_disk, o + 14);
        let ch_len = be32_at(on_disk, o + 18);
        if fp_start + fp_len > on_disk.len() {
            None
        } else if bns >= fp_len {
            None
        } else if cs_start != 0 && cs_start + cs_len > on_disk.len() {
            None
        } else {
            match spec_scan_nodes(on_disk, ch_start, ch_len, fuel - 1) {
                None => None,
                Some(f2) => {
                    let f2c = if 0 <= f2 < fuel {
                        f2
                    } else {
                        0
                    };
                    let base = on_disk.subrange(fp_start + bns, fp_start + fp_len);
                    if (match prev {
                        Some(p) => !crate::dirstate_map::lex_lt(p, base),
                        None => false,
                    }) {
                        None
                    } else {
                        spec_scan_level(on_disk, start, len, k + 1, f2c, Some(base))
                    }
                },
            }
        }
    }
}

pub open spec fn spec_scan_nodes(on_disk: Seq<u8>, start: int, len: int, fuel: int) -> Option<
    int,
>
    decreases fuel, 1int, 0int,
{
    if start + len * 43 > on_disk.len() {
        None
    } else {
        spec_scan_level(on_disk, start, len, 0, fuel, None)
    }
}

/// Reads the node array at `(start, len)` into in-memory nodes,
/// recursively; `fuel` bounds the total number of nodes so that reference
/// cycles in a corrupted file surface as a parse error instead of endless
/// recursion. Children out of order are a parse error too.
fn read_nodes_rec(on_disk: &[u8], start: u32, len: u32, fuel: u64) -> (r: Result<
    (Vec<crate::dirstate_map::Node>, u64),
    DirstateV2ParseError,
>)
    ensures
        r matches Ok(t) ==> crate::dirstate_map::nodes_wf(t.0@) && t.0@.len() == len && t.1
            <= fuel,
        r is Ok <==> spec_scan_nodes(on_disk@, start as int, len as int, fuel as int) is Some,
        r matches Ok(t) ==> spec_scan_nodes(on_disk@, start as int, len as int, fuel as int)
            == Some(t.1 as int) && nodes_decode(on_disk@, start as int, len as int, t.0@),
    decreases fuel,
{
    let total = on_disk.len();
    if (start as u64) + (len as u64) * 43 > total as u64 {
        proof {
            assert(spec_scan_nodes(on_disk@, start as int, len as int, fuel as int) is None);
        }
        return Err(DirstateV2ParseError);
    }
    let mut result: Vec<crate::dirstate_map::Node> = Vec::new();
    let mut fuel_left: u64 = fuel;
    let mut k: u32 = 0;
    while k < len
        invariant
            k <= len,
            fuel_left <= fuel,
            result@.len() == k,
            (start as int) + (len as int) * 43 <= on_disk@.len(),
            on_disk@.len() <= usize::MAX,
            crate::dirstate_map::children_sorted(result@),
            forall|i: int|
                0 <= i < result@.len() ==> crate::dirstate_map::node_wf(#[trigger] result@[i]),
            forall|i: int|
                0 <= i < result@.len() ==> node_decodes(
                    on_disk@,
                    start as int + i * 43,
                    #[trigger] result@[i],
                ),
            spec_scan_nodes(on_disk@, start as int, len as int, fuel as int) == spec_scan_level(
                on_disk@,
                start as int,
                len as int,
                k as int,
                fuel_left as int,
                if k == 0 {
                    None
                } else {
                    Some(crate::dirstate_map::base_name(result@[k as int - 1]))
                },
            ),
        decreases len - k,
    {
        let ghost fuel0: int = fuel_left as int;
        let ghost prev0: Option<Seq<u8>> = if k == 0 {
            None
        } else {
            Some(crate::dirstate_map::base_name(result@[k as int - 1]))
        };
        if fuel_left == 0 {
            proof {
                assert(spec_scan_level(
                    on_disk@,
                    start as int,
                    len as int,
                    k as int,
                    0,
                    prev0,
                ) is None);
            }
            return Err(DirstateV2ParseError);
        }
        fuel_left = fuel_left - 1;
        proof {
            assert((k as int) * 43 < (len as int) * 43) by (nonlinear_arith)
                requires
                    0 <= k < len,
            ;
            assert((k as int) * 43 + 43 <= (len as int) * 43) by (nonlinear_arith)
                requires
                    0 <= k < len,
            ;
        }
        assert((start as int) + (k as int) * 43 + 43 <= on_disk@.len());
        let offset = (start as usize) + (k as usize) * 43;
        let ghost o: int = offset as int;
        let raw = match read_node(on_disk, offset) {
            Ok(n) => n,
            Err(e) => {
                return Err(e);
            },
        };
        let full_path = match raw.full_path(on_disk) {
            Ok(p) => p,
            Err(e) => {
                proof {
                    assert(spec_scan_level(
                        on_disk@,
                        start as int,
                        len as int,
                        k as int,
                        fuel0,
                        prev0,
                    ) is None);
                }
                return Err(e);
            },
        };
        let bns = match raw.base_name_start() {
            Ok(s) => s,
            Err(e) => {
                proof {
                    assert(spec_scan_level(
                        on_disk@,
                        start as int,
                        len as int,
                        k as int,
                        fuel0,
                        prev0,
                    ) is None);
                }
                return Err(e);
            },
        };
        let copy_source = match raw.copy_source(on_disk) {
            Ok(c) => c,
            Err(e) => {
                proof {
                    assert(spec_scan_level(
                        on_disk@,
                        start as int,
                        len as int,
                        k as int,
                        fuel0,
                        prev0,
                    ) is None);
                }
                return Err(e);
            },
        };
        let data = if raw.has_entry() {
            proof {
                let f = raw.flags;
                assert(f & 7 != 0 ==> (f & 1 != 0) || (f & 2 != 0) || (f & 4 != 0))
                    by (bit_vector);
            }
            crate::dirstate_map::NodeData::Entry(raw.assume_entry())
        } else {
            match raw.cached_directory_mtime() {
                Some(t) => crate::dirstate_map::NodeData::CachedDirectory(t),
                None => crate::dirstate_map::NodeData::NoData,
            }
        };
        let (children, fuel_after) = match read_nodes_rec(
            on_disk,
            raw.children_start,
            raw.children_len,
            fuel_left,
        ) {
            Ok(t) => t,
            Err(e) => {
                proof {
                    assert(spec_scan_level(
                        on_disk@,
                        start as int,
                        len as int,
                        k as int,
                        fuel0,
                        prev0,
                    ) is None);
                }
                return Err(e);
            },
        };
        fuel_left = fuel_after;
        assert(spec_scan_nodes(
            on_disk@,
            raw.children_start as int,
            raw.children_len as int,
            fuel0 - 1,
        ) == Some(fuel_after as int));
        let copy_offset: Option<u32> = if raw.copy_source_start != 0 {
            Some(raw.copy_source_start)
        } else {
            None
        };
        let node = crate::dirstate_map::Node {
            full_path,
            base_name_start: bns,
            copy_source,
            data,
            descendants_with_entry_count: raw.descendants_with_entry_count,
            tracked_descendants_count: raw.tracked_descendants_count,
            children,
            path_offset: Some(raw.full_path_start),
            copy_offset,
            children_offsets: Some((raw.children_start, raw.children_len)),
        };
        if result.len() > 0 {
            let prev = &result[result.len() - 1];
            let in_order = lex_lt_bytes(
                &prev.full_path.as_slice()[prev.base_name_start..prev.full_path.len()],
                &node.full_path.as_slice()[node.base_name_start..node.full_path.len()],
            );
            proof {
                assert(prev.full_path@.subrange(
                    prev.base_name_start as int,
                    prev.full_path@.len() as int,
                ) =~= crate::dirstate_map::base_name(*prev));
                assert(node.full_path@.subrange(
                    node.base_name_start as int,
                    node.full_path@.len() as int,
                ) =~= crate::dirstate_map::base_name(node));
            }
            if !in_order {
                proof {
                    assert(node.full_path@.skip(node.base_name_start as int) =~= on_disk@.subrange(
                        be32_at(on_disk@, o) + be16_at(on_disk@, o + 6),
                        be32_at(on_disk@, o) + be16_at(on_disk@, o + 4),
                    ));
                    assert(spec_scan_level(
                        on_disk@,
                        start as int,
                        len as int,
                        k as int,
                        fuel0,
                        prev0,
                    ) is None);
                }
                return Err(DirstateV2ParseError);
            }
        }
        proof {
            assert(node.full_path@.skip(node.base_name_start as int) =~= on_disk@.subrange(
                be32_at(on_disk@, o) + be16_at(on_disk@, o + 6),
                be32_at(on_disk@, o) + be16_at(on_disk@, o + 4),
            ));
            assert(node_decodes(on_disk@, o, node));
        }
        let ghost before: Seq<crate::dirstate_map::Node> = result@;
        result.push(node);
        proof {
            assert forall|i: int, j: int| 0 <= i < j < result@.len() implies
                crate::dirstate_map::lex_lt(
                crate::dirstate_map::base_name(#[trigger] result@[i]),
                crate::dirstate_map::base_name(#[trigger] result@[j]),
            ) by {
                if j < before.len() {
                } else {
                    if i < before.len() - 1 {
                        crate::dirstate_map::lemma_lex_trans(
                            crate::dirstate_map::base_name(before[i]),
                            crate::dirstate_map::base_name(before[before.len() - 1]),
                            crate::dirstate_map::base_name(result@[j]),
                        );
                    }
                }
            }
        }
        k = k + 1;
    }
    proof {
        assert(spec_scan_nodes(on_disk@, start as int, len as int, fuel as int) == Some(
            fuel_left as int,
        ));
        assert(nodes_decode(on_disk@, start as int, len as int, result@));
    }
    Ok((result, fuel_left))
}

/// Reads a dirstate-v2 data file, given the tree metadata from the docket,
/// into an in-memory tree. Empty data is an empty dirstate.
pub fn read(on_disk: &[u8], metadata: &[u8]) -> (r: Result<
    crate::dirstate_map::DirstateMap,
    DirstateV2ParseError,
>)
    ensures
        r is Ok <==> (on_disk@.len() == 0 || (metadata@.len() >= 44 && spec_scan_nodes(
            on_disk@,
            be32_at(metadata@, 0),
            be32_at(metadata@, 4),
            on_disk@.len() as int / 43 + 1,
        ) is Some)),
        on_disk@.len() > 0 ==> (r matches Ok(m) ==> nodes_decode(
            on_disk@,
            be32_at(metadata@, 0),
            be32_at(metadata@, 4),
            m.root@,
        )),
        r matches Ok(m) ==> crate::dirstate_map::map_wf(m) && m.on_disk_len == on_disk@.len(),
        on_disk@.len() > 0 ==> (r matches Ok(m) ==> metadata@.len() >= 44
            && m.root@.len() == be32_at(metadata@, 4)
            && (m.root_offsets matches Some(t) && t.0 == be32_at(metadata@, 0) && t.1 == be32_at(
            metadata@,
            4,
        ))
            && m.nodes_with_entry_count as int == be32_at(metadata@, 8)
            && m.nodes_with_copy_source_count as int == be32_at(metadata@, 12)
            && m.unreachable_bytes as int == be32_at(metadata@, 16) && m.ignore_patterns_hash@
            == metadata@.subrange(24, 44)),
        on_disk@.len() == 0 ==> (r matches Ok(m) ==> m.root@.len() == 0),
{
    if on_disk.len() == 0 {
        return Ok(crate::dirstate_map::DirstateMap::empty(on_disk));
    }
    let meta = match parse_tree_metadata(metadata) {
        Ok(m) => m,
        Err(e) => {
            return Err(e);
        },
    };
    let fuel: u64 = (on_disk.len() as u64) / 43 + 1;
    let (root, _fuel_left) = match read_nodes_rec(
        on_disk,
        meta.root_nodes_start,
        meta.root_nodes_len,
        fuel,
    ) {
        Ok(t) => t,
        Err(e) => {
            return Err(e);
        },
    };
    Ok(
        crate::dirstate_map::DirstateMap {
            root,
            root_offsets: Some((meta.root_nodes_start, meta.root_nodes_len)),
            nodes_with_entry_count: meta.nodes_with_entry_count,
            nodes_with_copy_source_count: meta.nodes_with_copy_source_count,
            ignore_patterns_hash: meta.ignore_patterns_hash,
            unreachable_bytes: meta.unreachable_bytes,
            on_disk_len: on_disk.len(),
        },
    )
}

/// The byte offset a write at the current output length lands at, or
/// nothing when it would exceed the format's 32-bit offset space.
pub open spec fn spec_offset(out_len: int, append: bool, base: int) -> Option<int> {
    let b = if append {
        base
    } else {
        0
    };
    if b > 0xFFFF_FFFF || out_len > 0xFFFF_FFFF {
        None
    } else if out_len + b > 0xFFFF_FFFF {
        None
    } else {
        Some(out_len + b)
    }
}

/// What serializing one node does to the byte output, and the record it
/// contributes, or nothing when the offset space runs out.
#[verifier::opaque]
pub open spec fn spec_write_one(
    n: crate::dirstate_map::Node,
    append: bool,
    base: int,
    out: Seq<u8>,
) -> Option<(Seq<u8>, Seq<u8>)>
    decreases n, 2int, 0int,
{
    match spec_write_nodes(n.children@, n.children_offsets, append, base, out) {
        None => None,
        Some((out1, ch_start, ch_len)) => {
            let fp = (match (append, n.path_offset) {
                (true, Some(po)) => Some((out1, po as int)),
                _ => (match spec_offset(out1.len() as int, append, base) {
                    None => None,
                    Some(o) => Some((out1 + n.full_path@, o)),
                }),
            });
            match fp {
                None => None,
                Some((out2, fp_start)) => {
                    let cp = (match n.copy_source {
                        None => Some((out2, 0int, 0int)),
                        Some(c) => (match (append, n.copy_offset) {
                            (true, Some(co)) => Some((out2, co as int, c@.len() as int)),
                            _ => (match spec_offset(out2.len() as int, append, base) {
                                None => None,
                                Some(o) => Some((out2 + c@, o, c@.len() as int)),
                            }),
                        }),
                    });
                    match cp {
                        None => None,
                        Some((out3, cs_start, cs_len)) => Some(
                            (
                                out3,
                                spec_node_record(
                                    fp_start as u32,
                                    n.full_path@.len() as u16,
                                    n.base_name_start as u16,
                                    cs_start as u32,
                                    cs_len as u16,
                                    ch_start as u32,
                                    ch_len as u32,
                                    n.descendants_with_entry_count,
                                    n.tracked_descendants_count,
                                    n.data,
                                ),
                            ),
                        ),
                    }
                },
            }
        },
    }
}

/// What serializing the nodes from index `k` on does to the byte output
/// and the accumulated record bytes: the writer, mirrored one node at a
/// time.
pub open spec fn spec_write_level(
    ns: Seq<crate::dirstate_map::Node>,
    k: int,
    append: bool,
    base: int,
    out: Seq<u8>,
    records: Seq<u8>,
) -> Option<(Seq<u8>, Seq<u8>)>
    decreases ns, 0int, ns.len() - k,
{
    if k < 0 || k >= ns.len() {
        Some((out, records))
    } else {
        match spec_write_one(ns[k], append, base, out) {
            None => None,
            Some((out3, rec)) => spec_write_level(ns, k + 1, append, base, out3, records + rec),
        }
    }
}

/// What serializing one node array does: in append mode an untouched
/// on-disk array is referenced at its old place and nothing is emitted;
/// otherwise children arrays and path bytes land depth first, followed by
/// the level's records, and the array's own slice is returned.
pub open spec fn spec_write_nodes(
    ns: Seq<crate::dirstate_map::Node>,
    origin: Option<(u32, u32)>,
    append: bool,
    base: int,
    out: Seq<u8>,
) -> Option<(Seq<u8>, int, int)>
    decreases ns, 1int, 0int,
{
    if append && (match origin {
        Some((s, l)) => l as int == ns.len(),
        None => false,
    }) {
        Some(
            (
                out,
                (match origin {
                    Some((s, l)) => s as int,
                    None => 0,
                }),
                ns.len() as int,
            ),
        )
    } else {
        match spec_write_level(ns, 0, append, base, out, Seq::empty()) {
            None => None,
            Some((out2, records)) => (match spec_offset(out2.len() as int, append, base) {
                None => None,
                Some(st) => Some((out2 + records, st, ns.len() as int)),
            }),
        }
    }
}

/// Evaluates the one-node serializer mirror: given what serializing the
/// children did and which reuse branches apply, the node's contribution is
/// its record.
proof fn lemma_write_one_some(
    n: crate::dirstate_map::Node,
    append: bool,
    base: int,
    out0: Seq<u8>,
    out1: Seq<u8>,
    ch_start: int,
    ch_len: int,
    fp_start: int,
    out2: Seq<u8>,
    cs_start: int,
    cs_len: int,
    out3: Seq<u8>,
)
    requires
        spec_write_nodes(n.children@, n.children_offsets, append, base, out0) == Some(
            (out1, ch_start, ch_len),
        ),
        (match (append, n.path_offset) {
            (true, Some(po)) => out2 == out1 && fp_start == po as int,
            _ => spec_offset(out1.len() as int, append, base) == Some(fp_start) && out2 == out1
                + n.full_path@,
        }),
        (match n.copy_source {
            None => out3 == out2 && cs_start == 0 && cs_len == 0,
            Some(c) => (match (append, n.copy_offset) {
                (true, Some(co)) => out3 == out2 && cs_start == co as int && cs_len == c@.len(),
                _ => spec_offset(out2.len() as int, append, base) == Some(cs_start) && out3 == out2
                    + c@ && cs_len == c@.len(),
            }),
        }),
    ensures
        spec_write_one(n, append, base, out0) == Some(
            (
                out3,
                spec_node_record(
                    fp_start as u32,
                    n.full_path@.len() as u16,
                    n.base_name_start as u16,
                    cs_start as u32,
                    cs_len as u16,
                    ch_start as u32,
                    ch_len as u32,
                    n.descendants_with_entry_count,
                    n.tracked_descendants_count,
                    n.data,
                ),
            ),
        ),
{
    reveal(spec_write_one);
}

/// The one-node mirror fails when serializing the children fails.
proof fn lemma_write_one_none_children(
    n: crate::dirstate_map::Node,
    append: bool,
    base: int,
    out0: Seq<u8>,
)
    requires
        spec_write_nodes(n.children@, n.children_offsets, append, base, out0) is None,
    ensures
        spec_write_one(n, append, base, out0) is None,
{
    reveal(spec_write_one);
}

/// The one-node mirror fails when the path bytes have no offset left.
proof fn lemma_write_one_none_fp(
    n: crate::dirstate_map::Node,
    append: bool,
    base: int,
    out0: Seq<u8>,
    out1: Seq<u8>,
    ch_start: int,
    ch_len: int,
)
    requires
        spec_write_nodes(n.children@, n.children_offsets, append, base, out0) == Some(
            (out1, ch_start, ch_len),
        ),
        !(append && n.path_offset is Some),
        spec_offset(out1.len() as int, append, base) is None,
    ensures
        spec_write_one(n, append, base, out0) is None,
{
    reveal(spec_write_one);
}

/// The one-node mirror fails when the copy-source bytes have no offset
/// left.
proof fn lemma_write_one_none_copy(
    n: crate::dirstate_map::Node,
    append: bool,
    base: int,
    out0: Seq<u8>,
    out1: Seq<u8>,
    ch_start: int,
    ch_len: int,
    fp_start: int,
    out2: Seq<u8>,
)
    requires
        spec_write_nodes(n.children@, n.children_offsets, append, base, out0) == Some(
            (out1, ch_start, ch_len),
        ),
        (match (append, n.path_offset) {
            (true, Some(po)) => out2 == out1 && fp_start == po as int,
            _ => spec_offset(out1.len() as int, append, base) == Some(fp_start) && out2 == out1
                + n.full_path@,
        }),
        n.copy_source is Some,
        !(append && n.copy_offset is Some),
        spec_offset(out2.len() as int, append, base) is None,
    ensures
        spec_write_one(n, append, base, out0) is None,
{
    reveal(spec_write_one);
}

/// One failing node fails its whole level.
proof fn lemma_level_none(
    ns: Seq<crate::dirstate_map::Node>,
    k: int,
    append: bool,
    base: int,
    out: Seq<u8>,
    records: Seq<u8>,
)
    requires
        0 <= k < ns.len(),
        spec_write_one(ns[k], append, base, out) is None,
    ensures
        spec_write_level(ns, k, append, base, out, records) is None,
{
    reveal(spec_write_one);
    reveal_with_fuel(spec_write_level, 2);
}

/// One serialized node advances its level by its record.
proof fn lemma_level_step(
    ns: Seq<crate::dirstate_map::Node>,
    k: int,
    append: bool,
    base: int,
    out: Seq<u8>,
    records: Seq<u8>,
    out3: Seq<u8>,
    rec: Seq<u8>,
)
    requires
        0 <= k < ns.len(),
        spec_write_one(ns[k], append, base, out) == Some((out3, rec)),
    ensures
        spec_write_level(ns, k, append, base, out, records) == spec_write_level(
            ns,
            k + 1,
            append,
            base,
            out3,
            records + rec,
        ),
{
    reveal(spec_write_one);
    reveal_with_fuel(spec_write_level, 2);
}

/// A finished level leaves the output and records as they stand.
proof fn lemma_level_done(
    ns: Seq<crate::dirstate_map::Node>,
    k: int,
    append: bool,
    base: int,
    out: Seq<u8>,
    records: Seq<u8>,
)
    requires
        k >= ns.len(),
    ensures
        spec_write_level(ns, k, append, base, out, records) == Some((out, records)),
{
    reveal(spec_write_one);
    reveal_with_fuel(spec_write_level, 2);
}

/// The array serializer, unfolded once past its reuse check.
proof fn lemma_write_nodes_unfold(
    ns: Seq<crate::dirstate_map::Node>,
    origin: Option<(u32, u32)>,
    append: bool,
    base: int,
    out: Seq<u8>,
)
    requires
        !(append && (match origin {
            Some((s, l)) => l as int == ns.len(),
            None => false,
        })),
    ensures
        spec_write_nodes(ns, origin, append, base, out) == (match spec_write_level(
            ns,
            0,
            append,
            base,
            out,
            Seq::<u8>::empty(),
        ) {
            None => None,
            Some((out2, records)) => (match spec_offset(out2.len() as int, append, base) {
                None => None::<(Seq<u8>, int, int)>,
                Some(st) => Some((out2 + records, st, ns.len() as int)),
            }),
        }),
{
    reveal(spec_write_one);
    reveal_with_fuel(spec_write_nodes, 2);
}

/// The byte offset the next write will land at: past the old file in
/// append mode, else just past what is already in `out`. Exceeding the
/// 32-bit offset space means the data file would outgrow its format.
fn current_offset(out: &Vec<u8>, append: bool, on_disk_len: usize) -> (r: Result<
    u32,
    crate::errors::DirstateError,
>)
    ensures
        r is Ok <==> spec_offset(out@.len() as int, append, on_disk_len as int) is Some,
        r matches Ok(o) ==> Some(o as int) == spec_offset(
            out@.len() as int,
            append,
            on_disk_len as int,
        ),
        r matches Ok(o) ==> o as int == out@.len() + (if append {
            on_disk_len as int
        } else {
            0
        }),
{
    let base: u64 = if append {
        on_disk_len as u64
    } else {
        0
    };
    if base > 0xFFFF_FFFFu64 || (out.len() as u64) > 0xFFFF_FFFFu64 {
        return Err(crate::errors::DirstateError::TooLarge);
    }
    let offset: u64 = (out.len() as u64) + base;
    if offset > 0xFFFF_FFFFu64 {
        return Err(crate::errors::DirstateError::TooLarge);
    }
    Ok(offset as u32)
}

/// Emits the 43 bytes of one node record: exactly the encoding whose
/// decoding the record round-trip lemma pins down.
#[verifier::rlimit(100)]
fn push_node_record(
    records: &mut Vec<u8>,
    fp_start: u32,
    fp_len: u16,
    bns: u16,
    copy_start: u32,
    copy_len: u16,
    children_slice: (u32, u32),
    desc: u32,
    tracked_count: u32,
    data: &crate::dirstate_map::NodeData,
)
    ensures
        final(records)@ == old(records)@ + spec_node_record(
            fp_start,
            fp_len,
            bns,
            copy_start,
            copy_len,
            children_slice.0,
            children_slice.1,
            desc,
            tracked_count,
            *data,
        ),
{
    proof {
        reveal(spec_node_record);
    }
    let ghost snap: Seq<u8> = records@;
    push_u32_be(records, fp_start);
    push_u16_be(records, fp_len);
    push_u16_be(records, bns);
    push_u32_be(records, copy_start);
    push_u16_be(records, copy_len);
    push_u32_be(records, children_slice.0);
    push_u32_be(records, children_slice.1);
    push_u32_be(records, desc);
    push_u32_be(records, tracked_count);
    match data {
        crate::dirstate_map::NodeData::Entry(e) => {
            let mut flags: u8 = 0;
            if e.wdir_tracked {
                flags = flags + FLAG_WDIR_TRACKED;
            }
            if e.p1_tracked {
                flags = flags + FLAG_P1_TRACKED;
            }
            if e.p2_info {
                flags = flags + FLAG_P2_INFO;
            }
            let (mode, size): (i32, i32) = match e.mode_size {
                Some((m, s)) => {
                    flags = flags + FLAG_HAS_MODE_AND_SIZE;
                    (m, s)
                },
                None => (0, 0),
            };
            let mtime: i32 = match e.mtime {
                Some(m) => {
                    flags = flags + FLAG_HAS_MTIME;
                    m
                },
                None => 0,
            };
            assert(flags == spec_node_flags(*data));
            records.push(flags);
            push_i32_be(records, mode);
            push_i32_be(records, mtime);
            push_i32_be(records, size);
        },
        crate::dirstate_map::NodeData::CachedDirectory(t) => {
            records.push(FLAG_HAS_MTIME);
            push_i64_be(records, t.seconds);
            push_u32_be(records, t.nanoseconds);
        },
        crate::dirstate_map::NodeData::NoData => {
            records.push(0);
            let mut zeros: Vec<u8> = vec![0u8, 0u8, 0u8, 0u8, 0u8, 0u8, 0u8, 0u8, 0u8, 0u8, 0u8, 0u8];
            records.append(&mut zeros);
        },
    }
    assert(records@ =~= snap + spec_node_record(
        fp_start,
        fp_len,
        bns,
        copy_start,
        copy_len,
        children_slice.0,
        children_slice.1,
        desc,
        tracked_count,
        *data,
    ));
}

/// Serializes a sorted node array, depth first: children arrays and path
/// bytes land before the records that point at them. In append mode, an
/// array or path that was read from the old file and left untouched is
/// referenced at its old offset instead of being written again.
#[verifier::rlimit(100)]
fn write_nodes(
    nodes: &Vec<crate::dirstate_map::Node>,
    origin: &Option<(u32, u32)>,
    append: bool,
    on_disk_len: usize,
    out: &mut Vec<u8>,
) -> (r: Result<(u32, u32), crate::errors::DirstateError>)
    requires
        nodes@.len() <= 0xFFFF_FFFF,
        forall|i: int| 0 <= i < nodes@.len() ==> crate::dirstate_map::node_wf(#[trigger] nodes@[i]),
    ensures
        final(out)@.len() >= old(out)@.len(),
        (match spec_write_nodes(nodes@, *origin, append, on_disk_len as int, old(out)@) {
            Some(t) => r matches Ok(rr) && final(out)@ == t.0 && rr.0 as int == t.1 && rr.1 as int
                == t.2,
            None => r is Err,
        }),
    decreases nodes,
{
    if append {
        if let Some((s, l)) = origin {
            if (*l as usize) == nodes.len() {
                return Ok((*s, *l));
            }
        }
    }
    let ghost base: int = on_disk_len as int;
    let ghost out0: Seq<u8> = out@;
    let mut records: Vec<u8> = Vec::new();
    let mut k: usize = 0;
    while k < nodes.len()
        invariant
            k <= nodes@.len(),
            nodes@.len() <= 0xFFFF_FFFF,
            forall|i: int|
                0 <= i < nodes@.len() ==> crate::dirstate_map::node_wf(#[trigger] nodes@[i]),
            out@.len() >= old(out)@.len(),
            base == on_disk_len as int,
            out0 == old(out)@,
            !(append && (match *origin {
                Some((s, l)) => l as int == nodes@.len(),
                None => false,
            })),
            spec_write_level(nodes@, 0, append, base, out0, Seq::<u8>::empty())
                == spec_write_level(nodes@, k as int, append, base, out@, records@),
        decreases nodes@.len() - k,
    {
        let ghost out_at_k: Seq<u8> = out@;
        let ghost records_at_k: Seq<u8> = records@;
        let node = &nodes[k];
        assert(crate::dirstate_map::node_wf(nodes@[k as int]));
        let children_slice = match write_nodes(
            &node.children,
            &node.children_offsets,
            append,
            on_disk_len,
            out,
        ) {
            Ok(t) => t,
            Err(e) => {
                proof {
                    lemma_write_one_none_children(nodes@[k as int], append, base, out_at_k);
                    lemma_level_none(nodes@, k as int, append, base, out_at_k, records_at_k);
                    lemma_write_nodes_unfold(nodes@, *origin, append, base, out0);
                }
                return Err(e);
            },
        };
        // full path bytes: reuse the old offset or write them out
        let fp_len: u16 = node.full_path.len() as u16;
        let ghost out1: Seq<u8> = out@;
        let fp_start: u32 = match (append, &node.path_offset) {
            (true, Some(o)) => *o,
            _ => {
                let o = match current_offset(out, append, on_disk_len) {
                    Ok(o) => o,
                    Err(e) => {
                        proof {
                            lemma_write_one_none_fp(
                                nodes@[k as int],
                                append,
                                base,
                                out_at_k,
                                out1,
                                children_slice.0 as int,
                                children_slice.1 as int,
                            );
                    lemma_level_none(nodes@, k as int, append, base, out_at_k, records_at_k);
                    lemma_write_nodes_unfold(nodes@, *origin, append, base, out0);
                        }
                        return Err(e);
                    },
                };
                out.extend_from_slice(node.full_path.as_slice());
                o
            },
        };
        // copy source bytes, absent encoded as a zero offset
        let ghost out2: Seq<u8> = out@;
        proof {
            assert((match (append, nodes@[k as int].path_offset) {
                (true, Some(po)) => out2 == out1 && fp_start as int == po as int,
                _ => spec_offset(out1.len() as int, append, base) == Some(fp_start as int) && out2
                    == out1 + nodes@[k as int].full_path@,
            }));
        }
        let (copy_start, copy_len): (u32, u16) = match &node.copy_source {
            None => (0u32, 0u16),
            Some(c) => {
                let cl: u16 = c.len() as u16;
                match (append, &node.copy_offset) {
                    (true, Some(o)) => (*o, cl),
                    _ => {
                        let o = match current_offset(out, append, on_disk_len) {
                            Ok(o) => o,
                            Err(e) => {
                                proof {
                                    lemma_write_one_none_copy(
                                        nodes@[k as int],
                                        append,
                                        base,
                                        out_at_k,
                                        out1,
                                        children_slice.0 as int,
                                        children_slice.1 as int,
                                        fp_start as int,
                                        out2,
                                    );
                    lemma_level_none(nodes@, k as int, append, base, out_at_k, records_at_k);
                    lemma_write_nodes_unfold(nodes@, *origin, append, base, out0);
                                }
                                return Err(e);
                            },
                        };
                        out.extend_from_slice(c.as_slice());
                        (o, cl)
                    },
                }
            },
        };
        push_node_record(
            &mut records,
            fp_start,
            fp_len,
            node.base_name_start as u16,
            copy_start,
            copy_len,
            children_slice,
            node.descendants_with_entry_count,
            node.tracked_descendants_count,
            &node.data,
        );
        proof {
            assert((match nodes@[k as int].copy_source {
                None => out@ == out2 && copy_start as int == 0 && copy_len as int == 0,
                Some(c) => (match (append, nodes@[k as int].copy_offset) {
                    (true, Some(co)) => out@ == out2 && copy_start as int == co as int
                        && copy_len as int == c@.len(),
                    _ => spec_offset(out2.len() as int, append, base) == Some(copy_start as int)
                        && out@ == out2 + c@ && copy_len as int == c@.len(),
                }),
            }));
            lemma_write_one_some(
                nodes@[k as int],
                append,
                base,
                out_at_k,
                out1,
                children_slice.0 as int,
                children_slice.1 as int,
                fp_start as int,
                out2,
                copy_start as int,
                copy_len as int,
                out@,
            );
            assert(records@ == records_at_k + spec_node_record(
                (fp_start as int) as u32,
                nodes@[k as int].full_path@.len() as u16,
                nodes@[k as int].base_name_start as u16,
                (copy_start as int) as u32,
                (copy_len as int) as u16,
                (children_slice.0 as int) as u32,
                (children_slice.1 as int) as u32,
                nodes@[k as int].descendants_with_entry_count,
                nodes@[k as int].tracked_descendants_count,
                nodes@[k as int].data,
            ));
            lemma_level_step(
                nodes@,
                k as int,
                append,
                base,
                out_at_k,
                records_at_k,
                out@,
                spec_node_record(
                    (fp_start as int) as u32,
                    nodes@[k as int].full_path@.len() as u16,
                    nodes@[k as int].base_name_start as u16,
                    (copy_start as int) as u32,
                    (copy_len as int) as u16,
                    (children_slice.0 as int) as u32,
                    (children_slice.1 as int) as u32,
                    nodes@[k as int].descendants_with_entry_count,
                    nodes@[k as int].tracked_descendants_count,
                    nodes@[k as int].data,
                ),
            );
        }
        k = k + 1;
    }
    proof {
        lemma_level_done(nodes@, nodes@.len() as int, append, base, out@, records@);
        lemma_write_nodes_unfold(nodes@, *origin, append, base, out0);
    }
    let start = match current_offset(out, append, on_disk_len) {
        Ok(o) => o,
        Err(e) => {
            return Err(e);
        },
    };
    let len: u32 = nodes.len() as u32;
    let ghost out_done: Seq<u8> = out@;
    let ghost rec_done: Seq<u8> = records@;
    out.append(&mut records);
    proof {
        assert(out@ == out_done + rec_done);
        assert(spec_write_nodes(nodes@, *origin, append, base, out0) == Some(
            (out@, start as int, len as int),
        ));
    }
    Ok((start, len))
}

/// Serializes the tree: returns the new data bytes, the new tree metadata,
/// and whether the data should be appended to the existing data file
/// rather than written to a fresh one. Whether appending is worthwhile is
/// the caller's policy, passed in as `can_append`.
pub fn write(dirstate_map: &crate::dirstate_map::DirstateMap, can_append: bool) -> (r: Result<
    (Vec<u8>, Vec<u8>, bool),
    crate::errors::DirstateError,
>)
    requires
        crate::dirstate_map::map_wf(*dirstate_map),
    ensures
        r is Ok <==> spec_write_nodes(
            dirstate_map.root@,
            dirstate_map.root_offsets,
            can_append,
            dirstate_map.on_disk_len as int,
            Seq::<u8>::empty(),
        ) is Some,
        r matches Ok(t) ==> (match spec_write_nodes(
            dirstate_map.root@,
            dirstate_map.root_offsets,
            can_append,
            dirstate_map.on_disk_len as int,
            Seq::<u8>::empty(),
        ) {
            Some(w) => t.0@ == w.0 && be32_at(t.1@, 0) == w.1 && be32_at(t.1@, 4) == w.2,
            None => false,
        }),
        r matches Ok(t) ==> t.2 == can_append && t.1@.len() == 44 && be32_at(t.1@, 8)
            == dirstate_map.nodes_with_entry_count && be32_at(t.1@, 12)
            == dirstate_map.nodes_with_copy_source_count && be32_at(t.1@, 16)
            == dirstate_map.unreachable_bytes && t.1@.subrange(24, 44)
            == dirstate_map.ignore_patterns_hash@,
{
    let append = can_append;
    let mut out: Vec<u8> = Vec::new();
    proof {
        assert(out@ =~= Seq::<u8>::empty());
    }
    let root_slice = match write_nodes(
        &dirstate_map.root,
        &dirstate_map.root_offsets,
        append,
        dirstate_map.on_disk_len,
        &mut out,
    ) {
        Ok(t) => t,
        Err(e) => {
            return Err(e);
        },
    };
    let mut meta: Vec<u8> = Vec::new();
    push_u32_be(&mut meta, root_slice.0);
    push_u32_be(&mut meta, root_slice.1);
    push_u32_be(&mut meta, dirstate_map.nodes_with_entry_count);
    push_u32_be(&mut meta, dirstate_map.nodes_with_copy_source_count);
    push_u32_be(&mut meta, dirstate_map.unreachable_bytes);
    let mut unused: Vec<u8> = vec![0u8, 0u8, 0u8, 0u8];
    meta.append(&mut unused);
    meta.extend_from_slice(dirstate_map.ignore_patterns_hash.as_slice());
    proof {
        lemma_u32_bytes_roundtrip(root_slice.0);
        lemma_u32_bytes_roundtrip(root_slice.1);
        lemma_u32_bytes_roundtrip(dirstate_map.nodes_with_entry_count);
        lemma_u32_bytes_roundtrip(dirstate_map.nodes_with_copy_source_count);
        lemma_u32_bytes_roundtrip(dirstate_map.unreachable_bytes);
        assert(meta@.subrange(24, 44) =~= dirstate_map.ignore_patterns_hash@);
        assert(meta@.subrange(8, 12) =~= u32_bytes(dirstate_map.nodes_with_entry_count));
        assert(meta@.subrange(12, 16) =~= u32_bytes(dirstate_map.nodes_with_copy_source_count));
        assert(meta@.subrange(16, 20) =~= u32_bytes(dirstate_map.unreachable_bytes));
        assert(be32_at(meta@, 8) == be32_at(u32_bytes(dirstate_map.nodes_with_entry_count), 0));
        assert(be32_at(meta@, 12) == be32_at(
            u32_bytes(dirstate_map.nodes_with_copy_source_count),
            0,
        ));
        assert(be32_at(meta@, 16) == be32_at(u32_bytes(dirstate_map.unreachable_bytes), 0));
    }
    Ok((out, meta, append))
}

} // verus!
