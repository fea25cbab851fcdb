//! Fixed-layout on-disk records: the root descriptor, object-table entries,
//! stream listings, directory elements, auxiliary security and device
//! records, and the `VolumeSpan` used both for allocation bookkeeping and as
//! the interior node of the indirection tree.
//!
//! All multi-byte integers are little-endian. Optional 64-bit references
//! (`name_ref`, `label_ref`, `root_object_id`, `objidx`, `strings_stream`)
//! are stored as plain `u64` where zero means absent, so the absent encoding
//! is all-zero bytes. Each record `R` has a byte layout given by
//! `spec_encode_R`, a decoding characterized by the predicate
//! `R_matches_bytes`, and executable codecs proved against them.

use vstd::prelude::*;
use vstd::bytes::*;
use vstd::slice::{slice_index_get, slice_subrange};

verus! {

broadcast use vstd::array::group_array_axioms;

/// Size in bytes of an encoded `RootDescriptor`.
pub const DESC_SIZE: usize = 128;

/// Size in bytes of an encoded `Object`.
pub const OBJECT_SIZE: usize = 64;

/// Size in bytes of an encoded `StreamListing`.
pub const LISTING_SIZE: usize = 128;

/// Size in bytes of an encoded `DirectoryElement`.
pub const DIRELEM_SIZE: usize = 64;

/// Size in bytes of an encoded `VolumeSpan`.
pub const SPAN_SIZE: usize = 32;

/// Format major version written and accepted by this engine.
pub const VERSION_MAJOR: u16 = 1;

/// Copies `N` bytes of `b` starting at `off` into a fresh array.
#[verifier::loop_isolation(false)]
pub fn bytes_from_slice<const N: usize>(b: &[u8], off: usize) -> (r: [u8; N])
    requires
        off + N <= b@.len(),
    ensures
        r@ == b@.subrange(off as int, off + N),
{
    let blen = b.len();
    let mut arr: [u8; N] = [0u8; N];
    let mut i: usize = 0;
    while i < N
        invariant
            i <= N,
            off + N <= b@.len(),
            forall|k: int| 0 <= k < i ==> arr@[k] == b@[off + k],
        decreases N - i,
    {
        arr[i] = *slice_index_get(b, off + i);
        i = i + 1;
    }
    proof {
        assert(arr@ =~= b@.subrange(off as int, off + N));
    }
    arr
}

/// A 32-byte allocation / indirection node: a run of `extent` sectors
/// starting at `base_sector`. The third field is reserved on disk; the
/// indirection walker does not interpret it.
#[derive(Copy, Clone, Debug, Hash, PartialEq, Eq, Structural)]
pub struct VolumeSpan {
    pub base_sector: u128,
    pub extent: u64,
    pub reserved: u64,
}

pub open spec fn spec_encode_span(x: VolumeSpan) -> Seq<u8> {
    spec_u128_to_le_bytes(x.base_sector) + spec_u64_to_le_bytes(x.extent) + spec_u64_to_le_bytes(
        x.reserved,
    )
}

/// `x` is the decoding of the 32-byte sequence `b`.
pub open spec fn span_matches_bytes(x: VolumeSpan, b: Seq<u8>) -> bool {
    &&& x.base_sector == spec_u128_from_le_bytes(b.subrange(0, 16))
    &&& x.extent == spec_u64_from_le_bytes(b.subrange(16, 24))
    &&& x.reserved == spec_u64_from_le_bytes(b.subrange(24, 32))
}

pub fn encode_span(x: &VolumeSpan) -> (r: Vec<u8>)
    ensures
        r@ == spec_encode_span(*x),
        r@.len() == SPAN_SIZE,
{
    proof {
        lemma_auto_spec_u64_to_from_le_bytes();
        lemma_auto_spec_u128_to_from_le_bytes();
    }
    let mut v = u128_to_le_bytes(x.base_sector);
    let mut p1 = u64_to_le_bytes(x.extent);
    v.append(&mut p1);
    let mut p2 = u64_to_le_bytes(x.reserved);
    v.append(&mut p2);
    v
}

pub fn decode_span(b: &[u8]) -> (r: VolumeSpan)
    requires
        b@.len() == SPAN_SIZE,
    ensures
        span_matches_bytes(r, b@),
{
    VolumeSpan {
        base_sector: u128_from_le_bytes(slice_subrange(b, 0, 16)),
        extent: u64_from_le_bytes(slice_subrange(b, 16, 24)),
        reserved: u64_from_le_bytes(slice_subrange(b, 24, 32)),
    }
}

/// Encoding and decoding of a `VolumeSpan` round-trip.
pub proof fn lemma_encode_span_matches(x: VolumeSpan)
    ensures
        spec_encode_span(x).len() == SPAN_SIZE,
        span_matches_bytes(x, spec_encode_span(x)),
{
    lemma_auto_spec_u64_to_from_le_bytes();
    lemma_auto_spec_u128_to_from_le_bytes();
    let b = spec_encode_span(x);
    assert(b.subrange(0, 16) =~= spec_u128_to_le_bytes(x.base_sector));
    assert(b.subrange(16, 24) =~= spec_u64_to_le_bytes(x.extent));
    assert(b.subrange(24, 32) =~= spec_u64_to_le_bytes(x.reserved));
}

/// Two spans decoded from the same bytes are the same span.
pub proof fn lemma_span_matches_unique(x: VolumeSpan, y: VolumeSpan, b: Seq<u8>)
    requires
        span_matches_bytes(x, b),
        span_matches_bytes(y, b),
    ensures
        x == y,
{
}


/// A sector number on the volume.
#[derive(Copy, Clone, Debug, Hash, PartialEq, Eq, Structural)]
pub struct SectorPos(pub u128);

/// A strictly positive 64-bit object handle; zero is reserved for "absent".
#[derive(Copy, Clone, Debug, Hash, PartialEq, Eq, Structural)]
pub struct ObjectId(pub u64);

/// Zero-origin index into an object's stream array.
#[derive(Copy, Clone, Debug, Hash, PartialEq, Eq, Structural)]
pub struct StreamId(pub u64);

/// Per-stream flag bits.
#[derive(Copy, Clone, Debug, Hash, PartialEq, Eq, Structural)]
pub struct StreamFlags(pub u64);

/// The stream must be understood to read the object.
pub const STREAM_REQUIRED: u64 = 0x1;

/// The stream must be understood to write the object.
pub const STREAM_WRITE_REQUIRED: u64 = 0x2;

/// The stream must be understood to enumerate the object.
pub const STREAM_ENUMERATE_REQUIRED: u64 = 0x4;

/// The stream must be preserved on rewrite.
pub const STREAM_PRESERVED: u64 = 0x8;

/// Bits 4..8 hold the indirection level.
pub const STREAM_INDIRECTION_MASK: u64 = 0xF0;

/// The top twelve bits are reserved for implementation use.
pub const STREAM_IMPL_USE_MASK: u64 = 0xFFF0000000000000;

impl StreamFlags {
    /// The indirection level held in bits 4..8.
    pub open spec fn spec_indirection(&self) -> u64 {
        (self.0 & STREAM_INDIRECTION_MASK) >> 4
    }

    /// The indirection level held in bits 4..8.
    pub fn get_indirection(&self) -> (r: u64)
        ensures
            r == self.spec_indirection(),
    {
        (self.0 & STREAM_INDIRECTION_MASK) >> 4
    }

    /// Flag bits placing `level` in the indirection field.
    pub fn indirection(level: u64) -> (r: StreamFlags)
        requires
            level <= 15,
        ensures
            r.0 == level << 4,
    {
        StreamFlags(level << 4)
    }
}

/// An indirection level read from flag bits never exceeds 15.
pub proof fn lemma_indirection_bound(f: StreamFlags)
    ensures
        f.spec_indirection() <= 15,
{
    let x = f.0;
    assert((x & 0xF0u64) >> 4u64 <= 15u64) by (bit_vector);
}

/// Per-object flag bits; all bits are currently reserved.
#[derive(Copy, Clone, Debug, Hash, PartialEq, Eq, Structural)]
pub struct ObjectFlags(pub u32);

/// A 16-bit object-type tag; the set of tags is open.
#[derive(Copy, Clone, Debug, Hash, PartialEq, Eq, Structural)]
pub struct ObjectType(pub u16);

pub const OBJECT_TYPE_REGULAR_FILE: u16 = 0;

pub const OBJECT_TYPE_DIRECTORY: u16 = 1;

pub const OBJECT_TYPE_SYMLINK: u16 = 2;

pub const OBJECT_TYPE_POSIX_FIFO: u16 = 3;

pub const OBJECT_TYPE_UNIX_SOCKET: u16 = 4;

pub const OBJECT_TYPE_BLOCK_DEVICE: u16 = 5;

pub const OBJECT_TYPE_CHAR_DEVICE: u16 = 6;

pub const OBJECT_TYPE_CUSTOM: u16 = 65535;

/// Per-directory-element flag bits.
#[derive(Copy, Clone, Debug, Hash, PartialEq, Eq, Structural)]
pub struct DirectoryElementFlags(pub u64);

pub const DIRECTORY_ELEMENT_WEAK: u64 = 0x1;

pub const DIRECTORY_ELEMENT_HIDDEN: u64 = 0x2;

/// Flag-and-mode bits of one access-control row.
#[derive(Copy, Clone, Debug, Hash, PartialEq, Eq, Structural)]
pub struct SecurityDescRowFlags(pub u64);

/// The low eight bits hold the access mode.
pub const SECURITY_ROW_MODE_MASK: u64 = 0xFF;

/// The row must be understood to interpret the descriptor.
pub const SECURITY_ROW_REQUIRED: u64 = 0x100;

/// The top eight bits are reserved for implementation use.
pub const SECURITY_ROW_IMPL_BITS_MASK: u64 = 0xFF00000000000000;

/// Access mode of one access-control row.
#[derive(Copy, Clone, Debug, Hash, PartialEq, Eq, Structural)]
pub struct SecurityDescRowMode(pub u64);

pub const SECURITY_MODE_PERMIT: u64 = 0;

pub const SECURITY_MODE_DENY: u64 = 1;

pub const SECURITY_MODE_FORBID: u64 = 2;

pub const SECURITY_MODE_INHERIT: u64 = 3;

impl SecurityDescRowFlags {
    /// The access mode held in the low eight bits.
    pub open spec fn spec_mode(&self) -> SecurityDescRowMode {
        SecurityDescRowMode(self.0 & SECURITY_ROW_MODE_MASK)
    }

    /// The access mode held in the low eight bits.
    pub fn mode(&self) -> (r: SecurityDescRowMode)
        ensures
            r == self.spec_mode(),
    {
        SecurityDescRowMode(self.0 & SECURITY_ROW_MODE_MASK)
    }
}

impl From<SecurityDescRowMode> for SecurityDescRowFlags {
    /// A mode value placed in the mode bits of a fresh flags value.
    fn from(mode: SecurityDescRowMode) -> (r: Self) {
        SecurityDescRowFlags(mode.0)
    }
}

impl vstd::std_specs::convert::FromSpecImpl<SecurityDescRowMode> for SecurityDescRowFlags {
    open spec fn obeys_from_spec() -> bool {
        true
    }

    open spec fn from_spec(mode: SecurityDescRowMode) -> Self {
        SecurityDescRowFlags(mode.0)
    }
}

/// The principal that stands for the system itself.
pub const SYSTEM_PRINCIPAL: u128 = 0;

/// The principal that stands for the default (all-ones) subject.
pub const DEFAULT_PRINCIPAL: u128 = 0xFFFFFFFFFFFFFFFFFFFFFFFFFFFFFFFF;

/// The four magic bytes that open a root descriptor.
#[derive(Copy, Clone, Debug, Hash, PartialEq, Eq)]
pub struct PhantomFSMagic(pub [u8; 4]);

impl PhantomFSMagic {
    /// The magic as a byte sequence.
    pub open spec fn spec_magic_bytes() -> Seq<u8> {
        seq![0xF3u8, 0x50u8, 0x48u8, 0x53u8]
    }

    /// The magic value `F3 50 48 53`.
    pub fn magic() -> (r: PhantomFSMagic)
        ensures
            r.0@ == Self::spec_magic_bytes(),
    {
        let r = PhantomFSMagic([0xF3u8, 0x50u8, 0x48u8, 0x53u8]);
        proof {
            assert(r.0@ =~= Self::spec_magic_bytes());
        }
        r
    }
}

/// Required-feature bits of a volume; all bits are currently reserved.
#[derive(Copy, Clone, Debug, Hash, PartialEq, Eq, Structural)]
pub struct FSRequiredFeatures(pub u32);

/// Optional-feature bits of a volume; all bits are currently reserved.
#[derive(Copy, Clone, Debug, Hash, PartialEq, Eq, Structural)]
pub struct FSOptionalFeatures(pub u32);

/// A device identity carried by the `DeviceId` stream.
#[derive(Copy, Clone, Debug, Hash, PartialEq, Eq, Structural)]
pub struct DeviceId {
    pub devid_lo: u64,
    pub devid_hi: u64,
}

/// A legacy major/minor device number.
#[derive(Copy, Clone, Debug, Hash, PartialEq, Eq, Structural)]
pub struct LegacyDeviceNumber {
    pub major: u32,
    pub minor: u32,
}

/// One access-control row of a security descriptor.
#[derive(Copy, Clone, Debug, Hash, PartialEq, Eq)]
pub struct SecurityDescriptorRow {
    pub principal: u128,
    pub stream_id: StreamId,
    pub flags_and_mode: SecurityDescRowFlags,
    pub permission_name_ref: u64,
    pub permission_name: [u8; 24],
}

/// A legacy uid/gid/mode carrier.
#[derive(Copy, Clone, Debug, Hash, PartialEq, Eq)]
pub struct LegacySecurityDescriptor {
    pub sd_uid: u32,
    pub sd_gid: u32,
    pub sd_mode: u16,
    pub sd_reserved: [u8; 6],
}

/// An object-table entry. A slot with `weak_ref == 0` is unused; one with
/// `weak_ref > 0` and `strong_ref == 0` is a tombstone. The object's named
/// streams live in a block addressed by the `(streams_ref,
/// streams_indirection, streams_size)` triple; `strings_stream`, when
/// non-zero, is the index of the stream holding this object's string table.
#[derive(Copy, Clone, Debug, Hash, PartialEq, Eq)]
pub struct Object {
    pub strong_ref: u32,
    pub weak_ref: u32,
    pub streams_size: u64,
    pub streams_ref: u128,
    pub streams_indirection: u8,
    pub reserved33: [u8; 5],
    pub ty: ObjectType,
    pub flags: ObjectFlags,
    pub strings_stream: u64,
    pub reserved52: [u8; 12],
}

pub open spec fn spec_encode_object(x: Object) -> Seq<u8> {
    spec_u32_to_le_bytes(x.strong_ref) + spec_u32_to_le_bytes(x.weak_ref) + spec_u64_to_le_bytes(x.streams_size) + spec_u128_to_le_bytes(x.streams_ref) + seq![x.streams_indirection] + x.reserved33@ + spec_u16_to_le_bytes(x.ty.0) + spec_u32_to_le_bytes(x.flags.0) + spec_u64_to_le_bytes(x.strings_stream) + x.reserved52@
}

/// `x` is the decoding of the 64-byte sequence `b`.
pub open spec fn object_matches_bytes(x: Object, b: Seq<u8>) -> bool {
    &&& x.strong_ref == spec_u32_from_le_bytes(b.subrange(0, 4))
    &&& x.weak_ref == spec_u32_from_le_bytes(b.subrange(4, 8))
    &&& x.streams_size == spec_u64_from_le_bytes(b.subrange(8, 16))
    &&& x.streams_ref == spec_u128_from_le_bytes(b.subrange(16, 32))
    &&& x.streams_indirection == b[32]
    &&& x.reserved33@ == b.subrange(33, 38)
    &&& x.ty.0 == spec_u16_from_le_bytes(b.subrange(38, 40))
    &&& x.flags.0 == spec_u32_from_le_bytes(b.subrange(40, 44))
    &&& x.strings_stream == spec_u64_from_le_bytes(b.subrange(44, 52))
    &&& x.reserved52@ == b.subrange(52, 64)
}

pub fn encode_object(x: &Object) -> (r: Vec<u8>)
    ensures
        r@ == spec_encode_object(*x),
        r@.len() == OBJECT_SIZE,
{
    proof {
        lemma_auto_spec_u16_to_from_le_bytes();
        lemma_auto_spec_u32_to_from_le_bytes();
        lemma_auto_spec_u64_to_from_le_bytes();
        lemma_auto_spec_u128_to_from_le_bytes();
    }
    let mut v: Vec<u8> = Vec::new();
    let mut p0 = u32_to_le_bytes(x.strong_ref);
    v.append(&mut p0);
    let mut p1 = u32_to_le_bytes(x.weak_ref);
    v.append(&mut p1);
    let mut p2 = u64_to_le_bytes(x.streams_size);
    v.append(&mut p2);
    let mut p3 = u128_to_le_bytes(x.streams_ref);
    v.append(&mut p3);
    v.push(x.streams_indirection);
    v.extend_from_slice(x.reserved33.as_slice());
    let mut p4 = u16_to_le_bytes(x.ty.0);
    v.append(&mut p4);
    let mut p5 = u32_to_le_bytes(x.flags.0);
    v.append(&mut p5);
    let mut p6 = u64_to_le_bytes(x.strings_stream);
    v.append(&mut p6);
    v.extend_from_slice(x.reserved52.as_slice());
    proof {
        assert(v@ =~= spec_encode_object(*x));
    }
    v
}

pub fn decode_object(b: &[u8]) -> (r: Object)
    requires
        b@.len() == OBJECT_SIZE,
    ensures
        object_matches_bytes(r, b@),
{
    Object {
        strong_ref: u32_from_le_bytes(slice_subrange(b, 0, 4)),
        weak_ref: u32_from_le_bytes(slice_subrange(b, 4, 8)),
        streams_size: u64_from_le_bytes(slice_subrange(b, 8, 16)),
        streams_ref: u128_from_le_bytes(slice_subrange(b, 16, 32)),
        streams_indirection: *slice_index_get(b, 32),
        reserved33: bytes_from_slice::<5>(b, 33),
        ty: ObjectType(u16_from_le_bytes(slice_subrange(b, 38, 40))),
        flags: ObjectFlags(u32_from_le_bytes(slice_subrange(b, 40, 44))),
        strings_stream: u64_from_le_bytes(slice_subrange(b, 44, 52)),
        reserved52: bytes_from_slice::<12>(b, 52),
    }
}

/// Encoding and decoding of a `Object` round-trip.
pub proof fn lemma_encode_object_matches(x: Object)
    ensures
        spec_encode_object(x).len() == OBJECT_SIZE,
        object_matches_bytes(x, spec_encode_object(x)),
{
    lemma_auto_spec_u16_to_from_le_bytes();
    lemma_auto_spec_u32_to_from_le_bytes();
    lemma_auto_spec_u64_to_from_le_bytes();
    lemma_auto_spec_u128_to_from_le_bytes();
    let b = spec_encode_object(x);
    assert(b.subrange(0, 4) =~= spec_u32_to_le_bytes(x.strong_ref));
    assert(b.subrange(4, 8) =~= spec_u32_to_le_bytes(x.weak_ref));
    assert(b.subrange(8, 16) =~= spec_u64_to_le_bytes(x.streams_size));
    assert(b.subrange(16, 32) =~= spec_u128_to_le_bytes(x.streams_ref));
    assert(b.subrange(33, 38) =~= x.reserved33@);
    assert(b.subrange(38, 40) =~= spec_u16_to_le_bytes(x.ty.0));
    assert(b.subrange(40, 44) =~= spec_u32_to_le_bytes(x.flags.0));
    assert(b.subrange(44, 52) =~= spec_u64_to_le_bytes(x.strings_stream));
    assert(b.subrange(52, 64) =~= x.reserved52@);
}

/// Two `Object` values decoded from the same bytes are equal.
pub proof fn lemma_object_matches_unique(x: Object, y: Object, b: Seq<u8>)
    requires
        object_matches_bytes(x, b),
        object_matches_bytes(y, b),
    ensures
        x == y,
{
    assert(x.reserved33@ =~= y.reserved33@);
    assert(x.reserved33 =~= y.reserved33);
    assert(x.reserved52@ =~= y.reserved52@);
    assert(x.reserved52 =~= y.reserved52);
}

/// One named stream of an object. Either `name_ref == 0` and the name lies
/// in the inline 32-byte `name` array (NUL-terminated or full), or
/// `name_ref > 0` and the name lies at that byte offset in the object's
/// Strings stream. Indirection 0 means the content lives in
/// `inline_data`; otherwise the content is at sector `content_ref` with
/// logical length `size`.
#[derive(Copy, Clone, Debug, Hash, PartialEq, Eq)]
pub struct StreamListing {
    pub name: [u8; 32],
    pub name_ref: u64,
    pub flags: StreamFlags,
    pub content_ref: u128,
    pub size: u64,
    pub reserved: [u8; 24],
    pub inline_data: [u8; 32],
}

pub open spec fn spec_encode_listing(x: StreamListing) -> Seq<u8> {
    x.name@ + spec_u64_to_le_bytes(x.name_ref) + spec_u64_to_le_bytes(x.flags.0) + spec_u128_to_le_bytes(x.content_ref) + spec_u64_to_le_bytes(x.size) + x.reserved@ + x.inline_data@
}

/// `x` is the decoding of the 128-byte sequence `b`.
pub open spec fn listing_matches_bytes(x: StreamListing, b: Seq<u8>) -> bool {
    &&& x.name@ == b.subrange(0, 32)
    &&& x.name_ref == spec_u64_from_le_bytes(b.subrange(32, 40))
    &&& x.flags.0 == spec_u64_from_le_bytes(b.subrange(40, 48))
    &&& x.content_ref == spec_u128_from_le_bytes(b.subrange(48, 64))
    &&& x.size == spec_u64_from_le_bytes(b.subrange(64, 72))
    &&& x.reserved@ == b.subrange(72, 96)
    &&& x.inline_data@ == b.subrange(96, 128)
}

pub fn encode_listing(x: &StreamListing) -> (r: Vec<u8>)
    ensures
        r@ == spec_encode_listing(*x),
        r@.len() == LISTING_SIZE,
{
    proof {
        lemma_auto_spec_u16_to_from_le_bytes();
        lemma_auto_spec_u32_to_from_le_bytes();
        lemma_auto_spec_u64_to_from_le_bytes();
        lemma_auto_spec_u128_to_from_le_bytes();
    }
    let mut v: Vec<u8> = Vec::new();
    v.extend_from_slice(x.name.as_slice());
    let mut p0 = u64_to_le_bytes(x.name_ref);
    v.append(&mut p0);
    let mut p1 = u64_to_le_bytes(x.flags.0);
    v.append(&mut p1);
    let mut p2 = u128_to_le_bytes(x.content_ref);
    v.append(&mut p2);
    let mut p3 = u64_to_le_bytes(x.size);
    v.append(&mut p3);
    v.extend_from_slice(x.reserved.as_slice());
    v.extend_from_slice(x.inline_data.as_slice());
    proof {
        assert(v@ =~= spec_encode_listing(*x));
    }
    v
}

pub fn decode_listing(b: &[u8]) -> (r: StreamListing)
    requires
        b@.len() == LISTING_SIZE,
    ensures
        listing_matches_bytes(r, b@),
{
    StreamListing {
        name: bytes_from_slice::<32>(b, 0),
        name_ref: u64_from_le_bytes(slice_subrange(b, 32, 40)),
        flags: StreamFlags(u64_from_le_bytes(slice_subrange(b, 40, 48))),
        content_ref: u128_from_le_bytes(slice_subrange(b, 48, 64)),
        size: u64_from_le_bytes(slice_subrange(b, 64, 72)),
        reserved: bytes_from_slice::<24>(b, 72),
        inline_data: bytes_from_slice::<32>(b, 96),
    }
}

/// Encoding and decoding of a `StreamListing` round-trip.
pub proof fn lemma_encode_listing_matches(x: StreamListing)
    ensures
        spec_encode_listing(x).len() == LISTING_SIZE,
        listing_matches_bytes(x, spec_encode_listing(x)),
{
    lemma_auto_spec_u16_to_from_le_bytes();
    lemma_auto_spec_u32_to_from_le_bytes();
    lemma_auto_spec_u64_to_from_le_bytes();
    lemma_auto_spec_u128_to_from_le_bytes();
    let b = spec_encode_listing(x);
    assert(b.subrange(0, 32) =~= x.name@);
    assert(b.subrange(32, 40) =~= spec_u64_to_le_bytes(x.name_ref));
    assert(b.subrange(40, 48) =~= spec_u64_to_le_bytes(x.flags.0));
    assert(b.subrange(48, 64) =~= spec_u128_to_le_bytes(x.content_ref));
    assert(b.subrange(64, 72) =~= spec_u64_to_le_bytes(x.size));
    assert(b.subrange(72, 96) =~= x.reserved@);
    assert(b.subrange(96, 128) =~= x.inline_data@);
}

/// Two `StreamListing` values decoded from the same bytes are equal.
pub proof fn lemma_listing_matches_unique(x: StreamListing, y: StreamListing, b: Seq<u8>)
    requires
        listing_matches_bytes(x, b),
        listing_matches_bytes(y, b),
    ensures
        x == y,
{
    assert(x.name@ =~= y.name@);
    assert(x.name =~= y.name);
    assert(x.reserved@ =~= y.reserved@);
    assert(x.reserved =~= y.reserved);
    assert(x.inline_data@ =~= y.inline_data@);
    assert(x.inline_data =~= y.inline_data);
}

/// One child name in a directory. Name resolution mirrors `StreamListing`;
/// an absent `objidx` (zero) is a soft-absent child.
#[derive(Copy, Clone, Debug, Hash, PartialEq, Eq)]
pub struct DirectoryElement {
    pub objidx: u64,
    pub name_index: u64,
    pub flags: DirectoryElementFlags,
    pub name: [u8; 40],
}

pub open spec fn spec_encode_direlem(x: DirectoryElement) -> Seq<u8> {
    spec_u64_to_le_bytes(x.objidx) + spec_u64_to_le_bytes(x.name_index) + spec_u64_to_le_bytes(x.flags.0) + x.name@
}

/// `x` is the decoding of the 64-byte sequence `b`.
pub open spec fn direlem_matches_bytes(x: DirectoryElement, b: Seq<u8>) -> bool {
    &&& x.objidx == spec_u64_from_le_bytes(b.subrange(0, 8))
    &&& x.name_index == spec_u64_from_le_bytes(b.subrange(8, 16))
    &&& x.flags.0 == spec_u64_from_le_bytes(b.subrange(16, 24))
    &&& x.name@ == b.subrange(24, 64)
}

pub fn encode_direlem(x: &DirectoryElement) -> (r: Vec<u8>)
    ensures
        r@ == spec_encode_direlem(*x),
        r@.len() == DIRELEM_SIZE,
{
    proof {
        lemma_auto_spec_u16_to_from_le_bytes();
        lemma_auto_spec_u32_to_from_le_bytes();
        lemma_auto_spec_u64_to_from_le_bytes();
        lemma_auto_spec_u128_to_from_le_bytes();
    }
    let mut v: Vec<u8> = Vec::new();
    let mut p0 = u64_to_le_bytes(x.objidx);
    v.append(&mut p0);
    let mut p1 = u64_to_le_bytes(x.name_index);
    v.append(&mut p1);
    let mut p2 = u64_to_le_bytes(x.flags.0);
    v.append(&mut p2);
    v.extend_from_slice(x.name.as_slice());
    proof {
        assert(v@ =~= spec_encode_direlem(*x));
    }
    v
}

pub fn decode_direlem(b: &[u8]) -> (r: DirectoryElement)
    requires
        b@.len() == DIRELEM_SIZE,
    ensures
        direlem_matches_bytes(r, b@),
{
    DirectoryElement {
        objidx: u64_from_le_bytes(slice_subrange(b, 0, 8)),
        name_index: u64_from_le_bytes(slice_subrange(b, 8, 16)),
        flags: DirectoryElementFlags(u64_from_le_bytes(slice_subrange(b, 16, 24))),
        name: bytes_from_slice::<40>(b, 24),
    }
}

/// Encoding and decoding of a `DirectoryElement` round-trip.
pub proof fn lemma_encode_direlem_matches(x: DirectoryElement)
    ensures
        spec_encode_direlem(x).len() == DIRELEM_SIZE,
        direlem_matches_bytes(x, spec_encode_direlem(x)),
{
    lemma_auto_spec_u16_to_from_le_bytes();
    lemma_auto_spec_u32_to_from_le_bytes();
    lemma_auto_spec_u64_to_from_le_bytes();
    lemma_auto_spec_u128_to_from_le_bytes();
    let b = spec_encode_direlem(x);
    assert(b.subrange(0, 8) =~= spec_u64_to_le_bytes(x.objidx));
    assert(b.subrange(8, 16) =~= spec_u64_to_le_bytes(x.name_index));
    assert(b.subrange(16, 24) =~= spec_u64_to_le_bytes(x.flags.0));
    assert(b.subrange(24, 64) =~= x.name@);
}

/// Two `DirectoryElement` values decoded from the same bytes are equal.
pub proof fn lemma_direlem_matches_unique(x: DirectoryElement, y: DirectoryElement, b: Seq<u8>)
    requires
        direlem_matches_bytes(x, b),
        direlem_matches_bytes(y, b),
    ensures
        x == y,
{
    assert(x.name@ =~= y.name@);
    assert(x.name =~= y.name);
}

/// The volume header stored at sector 1. The object table ends at sector
/// `objtab_end` and grows downward for `objtab_size` bytes; the allocation
/// table begins at byte `alloc_tab_begin` and spans `alloc_tab_size` bytes.
/// `crc` is a CRC-32/cksum over the descriptor bytes with the `crc` field
/// taken as zero during computation.
#[derive(Copy, Clone, Debug, Hash, PartialEq, Eq)]
pub struct RootDescriptor {
    pub magic: PhantomFSMagic,
    pub version_major: u16,
    pub version_minor: u16,
    pub required_features: FSRequiredFeatures,
    pub optional_features: FSOptionalFeatures,
    pub volume_id_lo: u64,
    pub volume_id_hi: u64,
    pub root_object_id: u64,
    pub objtab_size: u64,
    pub objtab_end: u128,
    pub alloc_tab_size: u64,
    pub alloc_tab_begin: u64,
    pub label_ref: u64,
    pub label: [u8; 32],
    pub header_size: u32,
    pub crc: u32,
}

pub open spec fn spec_encode_desc(x: RootDescriptor) -> Seq<u8> {
    x.magic.0@ + spec_u16_to_le_bytes(x.version_major) + spec_u16_to_le_bytes(x.version_minor) + spec_u32_to_le_bytes(x.required_features.0) + spec_u32_to_le_bytes(x.optional_features.0) + spec_u64_to_le_bytes(x.volume_id_lo) + spec_u64_to_le_bytes(x.volume_id_hi) + spec_u64_to_le_bytes(x.root_object_id) + spec_u64_to_le_bytes(x.objtab_size) + spec_u128_to_le_bytes(x.objtab_end) + spec_u64_to_le_bytes(x.alloc_tab_size) + spec_u64_to_le_bytes(x.alloc_tab_begin) + spec_u64_to_le_bytes(x.label_ref) + x.label@ + spec_u32_to_le_bytes(x.header_size) + spec_u32_to_le_bytes(x.crc)
}

/// `x` is the decoding of the 128-byte sequence `b`.
pub open spec fn desc_matches_bytes(x: RootDescriptor, b: Seq<u8>) -> bool {
    &&& x.magic.0@ == b.subrange(0, 4)
    &&& x.version_major == spec_u16_from_le_bytes(b.subrange(4, 6))
    &&& x.version_minor == spec_u16_from_le_bytes(b.subrange(6, 8))
    &&& x.required_features.0 == spec_u32_from_le_bytes(b.subrange(8, 12))
    &&& x.optional_features.0 == spec_u32_from_le_bytes(b.subrange(12, 16))
    &&& x.volume_id_lo == spec_u64_from_le_bytes(b.subrange(16, 24))
    &&& x.volume_id_hi == spec_u64_from_le_bytes(b.subrange(24, 32))
    &&& x.root_object_id == spec_u64_from_le_bytes(b.subrange(32, 40))
    &&& x.objtab_size == spec_u64_from_le_bytes(b.subrange(40, 48))
    &&& x.objtab_end == spec_u128_from_le_bytes(b.subrange(48, 64))
    &&& x.alloc_tab_size == spec_u64_from_le_bytes(b.subrange(64, 72))
    &&& x.alloc_tab_begin == spec_u64_from_le_bytes(b.subrange(72, 80))
    &&& x.label_ref == spec_u64_from_le_bytes(b.subrange(80, 88))
    &&& x.label@ == b.subrange(88, 120)
    &&& x.header_size == spec_u32_from_le_bytes(b.subrange(120, 124))
    &&& x.crc == spec_u32_from_le_bytes(b.subrange(124, 128))
}

pub fn encode_desc(x: &RootDescriptor) -> (r: Vec<u8>)
    ensures
        r@ == spec_encode_desc(*x),
        r@.len() == DESC_SIZE,
{
    proof {
        lemma_auto_spec_u16_to_from_le_bytes();
        lemma_auto_spec_u32_to_from_le_bytes();
        lemma_auto_spec_u64_to_from_le_bytes();
        lemma_auto_spec_u128_to_from_le_bytes();
    }
    let mut v: Vec<u8> = Vec::new();
    v.extend_from_slice(x.magic.0.as_slice());
    let mut p0 = u16_to_le_bytes(x.version_major);
    v.append(&mut p0);
    let mut p1 = u16_to_le_bytes(x.version_minor);
    v.append(&mut p1);
    let mut p2 = u32_to_le_bytes(x.required_features.0);
    v.append(&mut p2);
    let mut p3 = u32_to_le_bytes(x.optional_features.0);
    v.append(&mut p3);
    let mut p4 = u64_to_le_bytes(x.volume_id_lo);
    v.append(&mut p4);
    let mut p5 = u64_to_le_bytes(x.volume_id_hi);
    v.append(&mut p5);
    let mut p6 = u64_to_le_bytes(x.root_object_id);
    v.append(&mut p6);
    let mut p7 = u64_to_le_bytes(x.objtab_size);
    v.append(&mut p7);
    let mut p8 = u128_to_le_bytes(x.objtab_end);
    v.append(&mut p8);
    let mut p9 = u64_to_le_bytes(x.alloc_tab_size);
    v.append(&mut p9);
    let mut p10 = u64_to_le_bytes(x.alloc_tab_begin);
    v.append(&mut p10);
    let mut p11 = u64_to_le_bytes(x.label_ref);
    v.append(&mut p11);
    v.extend_from_slice(x.label.as_slice());
    let mut p12 = u32_to_le_bytes(x.header_size);
    v.append(&mut p12);
    let mut p13 = u32_to_le_bytes(x.crc);
    v.append(&mut p13);
    proof {
        assert(v@ =~= spec_encode_desc(*x));
    }
    v
}

pub fn decode_desc(b: &[u8]) -> (r: RootDescriptor)
    requires
        b@.len() == DESC_SIZE,
    ensures
        desc_matches_bytes(r, b@),
{
    RootDescriptor {
        magic: PhantomFSMagic(bytes_from_slice::<4>(b, 0)),
        version_major: u16_from_le_bytes(slice_subrange(b, 4, 6)),
        version_minor: u16_from_le_bytes(slice_subrange(b, 6, 8)),
        required_features: FSRequiredFeatures(u32_from_le_bytes(slice_subrange(b, 8, 12))),
        optional_features: FSOptionalFeatures(u32_from_le_bytes(slice_subrange(b, 12, 16))),
        volume_id_lo: u64_from_le_bytes(slice_subrange(b, 16, 24)),
        volume_id_hi: u64_from_le_bytes(slice_subrange(b, 24, 32)),
        root_object_id: u64_from_le_bytes(slice_subrange(b, 32, 40)),
        objtab_size: u64_from_le_bytes(slice_subrange(b, 40, 48)),
        objtab_end: u128_from_le_bytes(slice_subrange(b, 48, 64)),
        alloc_tab_size: u64_from_le_bytes(slice_subrange(b, 64, 72)),
        alloc_tab_begin: u64_from_le_bytes(slice_subrange(b, 72, 80)),
        label_ref: u64_from_le_bytes(slice_subrange(b, 80, 88)),
        label: bytes_from_slice::<32>(b, 88),
        header_size: u32_from_le_bytes(slice_subrange(b, 120, 124)),
        crc: u32_from_le_bytes(slice_subrange(b, 124, 128)),
    }
}

/// Encoding and decoding of a `RootDescriptor` round-trip.
pub proof fn lemma_encode_desc_matches(x: RootDescriptor)
    ensures
        spec_encode_desc(x).len() == DESC_SIZE,
        desc_matches_bytes(x, spec_encode_desc(x)),
{
    lemma_auto_spec_u16_to_from_le_bytes();
    lemma_auto_spec_u32_to_from_le_bytes();
    lemma_auto_spec_u64_to_from_le_bytes();
    lemma_auto_spec_u128_to_from_le_bytes();
    let b = spec_encode_desc(x);
    assert(b.subrange(0, 4) =~= x.magic.0@);
    assert(b.subrange(4, 6) =~= spec_u16_to_le_bytes(x.version_major));
    assert(b.subrange(6, 8) =~= spec_u16_to_le_bytes(x.version_minor));
    assert(b.subrange(8, 12) =~= spec_u32_to_le_bytes(x.required_features.0));
    assert(b.subrange(12, 16) =~= spec_u32_to_le_bytes(x.optional_features.0));
    assert(b.subrange(16, 24) =~= spec_u64_to_le_bytes(x.volume_id_lo));
    assert(b.subrange(24, 32) =~= spec_u64_to_le_bytes(x.volume_id_hi));
    assert(b.subrange(32, 40) =~= spec_u64_to_le_bytes(x.root_object_id));
    assert(b.subrange(40, 48) =~= spec_u64_to_le_bytes(x.objtab_size));
    assert(b.subrange(48, 64) =~= spec_u128_to_le_bytes(x.objtab_end));
    assert(b.subrange(64, 72) =~= spec_u64_to_le_bytes(x.alloc_tab_size));
    assert(b.subrange(72, 80) =~= spec_u64_to_le_bytes(x.alloc_tab_begin));
    assert(b.subrange(80, 88) =~= spec_u64_to_le_bytes(x.label_ref));
    assert(b.subrange(88, 120) =~= x.label@);
    assert(b.subrange(120, 124) =~= spec_u32_to_le_bytes(x.header_size));
    assert(b.subrange(124, 128) =~= spec_u32_to_le_bytes(x.crc));
}

/// Two `RootDescriptor` values decoded from the same bytes are equal.
pub proof fn lemma_desc_matches_unique(x: RootDescriptor, y: RootDescriptor, b: Seq<u8>)
    requires
        desc_matches_bytes(x, b),
        desc_matches_bytes(y, b),
    ensures
        x == y,
{
    assert(x.magic.0@ =~= y.magic.0@);
    assert(x.magic.0 =~= y.magic.0);
    assert(x.label@ =~= y.label@);
    assert(x.label =~= y.label);
}


/// The bytes of the well-known stream name `"Streams"`.
pub open spec fn spec_name_streams() -> Seq<u8> {
    seq![83u8, 116u8, 114u8, 101u8, 97u8, 109u8, 115u8]
}

/// The bytes of the well-known stream name `"Streams"`.
pub fn name_streams() -> (r: Vec<u8>)
    ensures
        r@ == spec_name_streams(),
{
    let mut v: Vec<u8> = Vec::new();
    v.push(83u8);
    v.push(116u8);
    v.push(114u8);
    v.push(101u8);
    v.push(97u8);
    v.push(109u8);
    v.push(115u8);
    proof {
        assert(v@ =~= spec_name_streams());
    }
    v
}

/// The bytes of the well-known stream name `"Strings"`.
pub open spec fn spec_name_strings() -> Seq<u8> {
    seq![83u8, 116u8, 114u8, 105u8, 110u8, 103u8, 115u8]
}

/// The bytes of the well-known stream name `"Strings"`.
pub fn name_strings() -> (r: Vec<u8>)
    ensures
        r@ == spec_name_strings(),
{
    let mut v: Vec<u8> = Vec::new();
    v.push(83u8);
    v.push(116u8);
    v.push(114u8);
    v.push(105u8);
    v.push(110u8);
    v.push(103u8);
    v.push(115u8);
    proof {
        assert(v@ =~= spec_name_strings());
    }
    v
}

/// The bytes of the well-known stream name `"SecurityDescriptor"`.
pub open spec fn spec_name_security_descriptor() -> Seq<u8> {
    seq![83u8, 101u8, 99u8, 117u8, 114u8, 105u8, 116u8, 121u8, 68u8, 101u8, 115u8, 99u8, 114u8, 105u8, 112u8, 116u8, 111u8, 114u8]
}

/// The bytes of the well-known stream name `"SecurityDescriptor"`.
pub fn name_security_descriptor() -> (r: Vec<u8>)
    ensures
        r@ == spec_name_security_descriptor(),
{
    let mut v: Vec<u8> = Vec::new();
    v.push(83u8);
    v.push(101u8);
    v.push(99u8);
    v.push(117u8);
    v.push(114u8);
    v.push(105u8);
    v.push(116u8);
    v.push(121u8);
    v.push(68u8);
    v.push(101u8);
    v.push(115u8);
    v.push(99u8);
    v.push(114u8);
    v.push(105u8);
    v.push(112u8);
    v.push(116u8);
    v.push(111u8);
    v.push(114u8);
    proof {
        assert(v@ =~= spec_name_security_descriptor());
    }
    v
}

/// The bytes of the well-known stream name `"DirectoryContent"`.
pub open spec fn spec_name_directory_content() -> Seq<u8> {
    seq![68u8, 105u8, 114u8, 101u8, 99u8, 116u8, 111u8, 114u8, 121u8, 67u8, 111u8, 110u8, 116u8, 101u8, 110u8, 116u8]
}

/// The bytes of the well-known stream name `"DirectoryContent"`.
pub fn name_directory_content() -> (r: Vec<u8>)
    ensures
        r@ == spec_name_directory_content(),
{
    let mut v: Vec<u8> = Vec::new();
    v.push(68u8);
    v.push(105u8);
    v.push(114u8);
    v.push(101u8);
    v.push(99u8);
    v.push(116u8);
    v.push(111u8);
    v.push(114u8);
    v.push(121u8);
    v.push(67u8);
    v.push(111u8);
    v.push(110u8);
    v.push(116u8);
    v.push(101u8);
    v.push(110u8);
    v.push(116u8);
    proof {
        assert(v@ =~= spec_name_directory_content());
    }
    v
}

} // verus!
