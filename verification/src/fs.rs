//! The filesystem engine: descriptor bootstrap, object-table access, the
//! indirection walker, stream and directory lookup, and volume creation.
//!
//! Every operation seeks explicitly before reading or writing and assumes
//! nothing about the prior cursor. The engine caches the root descriptor in
//! memory; `sync` writes it back (with a freshly computed CRC) and drops the
//! cache. Transient `Interrupted` failures of the backing stream are retried
//! a bounded number of times and otherwise passed through.

use vstd::prelude::*;
use vstd::bytes::*;
use core::cmp::Ordering;
use vstd::string::StringSliceAdditionalSpecFns;
use crate::io::{Backing, Error, Read, Seek, SeekPos, Write, RETRY_LIMIT};
use crate::object::{
    bytes_from_slice, lemma_encode_object_matches, spec_encode_object, SectorPos, decode_direlem, decode_listing, decode_object, decode_span, decode_desc,
    desc_matches_bytes, direlem_matches_bytes, encode_desc, encode_listing, encode_span,
    encode_object, listing_matches_bytes, object_matches_bytes, spec_encode_desc,
    spec_encode_listing,
    spec_encode_span, span_matches_bytes, spec_name_directory_content, spec_name_security_descriptor,
    spec_name_streams, spec_name_strings, name_directory_content, name_security_descriptor,
    name_streams, name_strings, DirectoryElement, Object, ObjectId, ObjectType, PhantomFSMagic,
    RootDescriptor, StreamFlags, StreamId, StreamListing, VolumeSpan, DESC_SIZE, DIRELEM_SIZE,
    LISTING_SIZE, OBJECT_SIZE, SPAN_SIZE, STREAM_REQUIRED, VERSION_MAJOR,
};
use crate::uuid::Uuid;
use crate::indirection::{
    byte_at, bytes_at, lemma_children_in_bounds_at, lemma_children_prefix,
    lemma_children_segment, lemma_span_at_bytes, spec_child_bytes, spec_child_in_bounds,
    spec_children_bytes, spec_children_in_bounds, spec_listing_content, spec_obj_streams_content,
    spec_root_span, spec_run_end_in_child, spec_run_end_in_node, spec_span_abs, spec_span_at,
    spec_stream_content, lemma_run_end_locate, lemma_span_abs_bytes,
};

verus! {

/// The 128 descriptor bytes stored at sector 1.
pub open spec fn disk_desc_bytes(disk: Seq<u8>) -> Seq<u8> {
    bytes_at(disk, 1024, DESC_SIZE as nat)
}

/// Descriptor bytes with the four CRC bytes taken as zero, the form over
/// which the checksum is computed.
pub open spec fn spec_zero_crc(b: Seq<u8>) -> Seq<u8>
    recommends
        b.len() == DESC_SIZE,
{
    b.take(124) + seq![0u8, 0u8, 0u8, 0u8]
}

/// The CRC-32/cksum of a byte sequence, as the crc crate computes it.
pub uninterp spec fn crc32_cksum(data: Seq<u8>) -> u32;

/// What a valid stored descriptor looks like: the magic opens it, the major
/// version is the one this engine understands, the recorded header size
/// covers the fixed layout, and the stored CRC equals the CRC-32/cksum of
/// the descriptor bytes with the CRC field zeroed.
pub open spec fn desc_valid_bytes(b: Seq<u8>) -> bool
    recommends
        b.len() == DESC_SIZE,
{
    &&& b.subrange(0, 4) == PhantomFSMagic::spec_magic_bytes()
    &&& spec_u16_from_le_bytes(b.subrange(4, 6)) == VERSION_MAJOR
    &&& spec_u32_from_le_bytes(b.subrange(120, 124)) >= DESC_SIZE
    &&& spec_u32_from_le_bytes(b.subrange(124, 128)) == crc32_cksum(spec_zero_crc(b))
}

/// The descriptor that a call obtained: the cached one when a cache was
/// held, else the decoding of the valid descriptor bytes at sector 1.
pub open spec fn desc_obtained(
    pre: Option<RootDescriptor>,
    disk: Seq<u8>,
    de: RootDescriptor,
) -> bool {
    match pre {
        Some(d) => de == d,
        None => desc_matches_bytes(de, disk_desc_bytes(disk)) && desc_valid_bytes(
            disk_desc_bytes(disk),
        ),
    }
}

/// The descriptor `d` with its CRC field replaced by `c`.
pub open spec fn spec_desc_with_crc(d: RootDescriptor, c: u32) -> RootDescriptor {
    RootDescriptor { crc: c, ..d }
}

/// The CRC that `sync` stores: the checksum of the encoded descriptor
/// with its four CRC bytes taken as zero.
pub open spec fn spec_sync_crc(d: RootDescriptor) -> u32 {
    crc32_cksum(spec_zero_crc(spec_encode_desc(d)))
}

/// The descriptor as `sync` writes it: `d` stamped with its checksum.
pub open spec fn spec_synced_desc(d: RootDescriptor) -> RootDescriptor {
    spec_desc_with_crc(d, spec_sync_crc(d))
}

/// Absolute byte position of object slot `id`: the object table ends at
/// sector `objtab_end` and slot `id` lies `id * 64` bytes before that end.
pub open spec fn spec_obj_slot_pos(de: RootDescriptor, id: u64) -> int {
    de.objtab_end * 1024 - id * OBJECT_SIZE
}

/// The 64 on-disk bytes of object slot `id`.
pub open spec fn disk_obj_bytes(disk: Seq<u8>, de: RootDescriptor, id: u64) -> Seq<u8> {
    bytes_at(disk, spec_obj_slot_pos(de, id), OBJECT_SIZE as nat)
}

/// The weak reference count stored in object slot `id`.
pub open spec fn slot_weak_ref(disk: Seq<u8>, de: RootDescriptor, id: u64) -> u32 {
    spec_u32_from_le_bytes(disk_obj_bytes(disk, de, id).subrange(4, 8))
}

/// The access engine over a backing stream `S`. It owns the stream
/// exclusively and holds the cached root descriptor between `sync`s.
pub struct FilesystemAccess<S> {
    stream: S,
    root_desc: Option<RootDescriptor>,
    label: Option<String>,
}

impl<S> FilesystemAccess<S> {
    /// The cached root descriptor, if one is held.
    pub closed spec fn cached(&self) -> Option<RootDescriptor> {
        self.root_desc
    }
}

impl<S: Backing> FilesystemAccess<S> {
    /// An engine over `stream` with nothing cached.
    pub fn new(stream: S) -> (r: Self)
        ensures
            r.cached() is None,
            r.disk() == stream.data(),
            r.cursor() == stream.pos(),
    {
        FilesystemAccess { stream, root_desc: None, label: None }
    }

    /// The bytes of the backing volume.
    pub closed spec fn disk(&self) -> Seq<u8> {
        self.stream.data()
    }

    /// The backing stream's cursor.
    pub closed spec fn cursor(&self) -> int {
        self.stream.pos()
    }

    /// Releases the backing stream, discarding any unsynced descriptor.
    pub fn into_stream(self) -> (r: S)
        ensures
            r.data() == self.disk(),
            r.pos() == self.cursor(),
    {
        self.stream
    }
}

/// Relies on the crc crate's `Crc::<u32>` with the CRC-32/cksum algorithm:
/// the checksum is a pure function of the input bytes.
#[verifier::external_body]
fn crc32_of(data: &[u8]) -> (r: u32)
    ensures
        r == crc32_cksum(data@),
{
    crc::Crc::<u32>::new(&crc::CRC_32_CKSUM).checksum(data)
}

impl<S: Backing + Read + Seek> FilesystemAccess<S> {
    /// Returns the cached descriptor, or reads sector 1, validates magic,
    /// version, header size and CRC, caches the result and returns it.
    /// `InvalidData` reports exactly an on-disk validation failure.
    #[verifier::loop_isolation(false)]
    pub fn get_or_read_descriptor(&mut self) -> (r: Result<RootDescriptor, Error>)
        ensures
            final(self).disk() == old(self).disk(),
            match r {
                Ok(d) => {
                    &&& final(self).cached() == Some(d)
                    &&& desc_obtained(old(self).cached(), old(self).disk(), d)
                },
                Err(e) => {
                    &&& final(self).cached() == old(self).cached()
                    &&& old(self).cached() is None
                    &&& e != Error::NotFound
                    &&& e == Error::InvalidData ==> !desc_valid_bytes(
                        disk_desc_bytes(old(self).disk()),
                    )
                },
            },
            old(self).cached() is None && !desc_valid_bytes(disk_desc_bytes(old(self).disk()))
                ==> r is Err,
    {
        if let Some(d) = self.root_desc {
            return Ok(d);
        }
        self.stream.seek(SeekPos::StartSector(1))?;
        let mut buf: Vec<u8> = vec![0u8; DESC_SIZE];
        self.stream.read_fully(&mut buf)?;
        proof {
            assert(buf@ =~= disk_desc_bytes(self.disk()));
        }
        let d = decode_desc(buf.as_slice());
        if !(buf[0] == 0xF3 && buf[1] == 0x50 && buf[2] == 0x48 && buf[3] == 0x53) {
            proof {
                assert(disk_desc_bytes(self.disk()).subrange(0, 4)
                    != PhantomFSMagic::spec_magic_bytes());
            }
            return Err(Error::InvalidData);
        }
        proof {
            assert(buf@.subrange(0, 4) =~= PhantomFSMagic::spec_magic_bytes());
        }
        if d.version_major != VERSION_MAJOR {
            return Err(Error::InvalidData);
        }
        if d.header_size < DESC_SIZE as u32 {
            return Err(Error::InvalidData);
        }
        let mut crc_input = buf.clone();
        crc_input[124] = 0;
        crc_input[125] = 0;
        crc_input[126] = 0;
        crc_input[127] = 0;
        proof {
            assert(crc_input@ =~= spec_zero_crc(buf@));
        }
        let c = crc32_of(crc_input.as_slice());
        if d.crc != c {
            return Err(Error::InvalidData);
        }
        self.root_desc = Some(d);
        Ok(d)
    }

    /// Reads object slot `id`. Returns the decoded slot when it is in use;
    /// `NotFound` when the slot lies beyond the object table or is unused.
    pub fn get_obj_by_id(&mut self, id: ObjectId) -> (r: Result<Object, Error>)
        requires
            id.0 != 0,
        ensures
            final(self).disk() == old(self).disk(),
            match r {
                Ok(obj) => {
                    &&& final(self).cached() matches Some(de) && desc_obtained(
                        old(self).cached(),
                        old(self).disk(),
                        de,
                    ) && id.0 * OBJECT_SIZE <= de.objtab_size && object_matches_bytes(
                        obj,
                        disk_obj_bytes(old(self).disk(), de, id.0),
                    )
                    &&& obj.weak_ref != 0
                },
                Err(e) => {
                    &&& e == Error::NotFound ==> (final(self).cached() matches Some(de)
                        && desc_obtained(old(self).cached(), old(self).disk(), de) && (id.0
                        * OBJECT_SIZE > de.objtab_size || slot_weak_ref(
                        old(self).disk(),
                        de,
                        id.0,
                    ) == 0))
                    &&& e == Error::InvalidData ==> old(self).cached() is None
                        && !desc_valid_bytes(disk_desc_bytes(old(self).disk()))
                },
            },
    {
        let desc = self.get_or_read_descriptor()?;
        let pos = match id.0.checked_mul(OBJECT_SIZE as u64) {
            Some(p) => p,
            None => {
                return Err(Error::NotFound);
            },
        };
        if pos > desc.objtab_size {
            return Err(Error::NotFound);
        }
        if pos > i64::MAX as u64 {
            return Err(Error::Unsupported);
        }
        self.stream.seek(SeekPos::StartSector(desc.objtab_end))?;
        self.stream.seek(SeekPos::Curr(-(pos as i64)))?;
        let mut buf: Vec<u8> = vec![0u8; OBJECT_SIZE];
        self.stream.read_fully(&mut buf)?;
        proof {
            assert(buf@ =~= disk_obj_bytes(self.disk(), self.cached()->Some_0, id.0));
        }
        let obj = decode_object(buf.as_slice());
        if obj.weak_ref == 0 {
            proof {
                assert(buf@.subrange(4, 8) =~= disk_obj_bytes(
                    self.disk(),
                    self.cached()->Some_0,
                    id.0,
                ).subrange(4, 8));
            }
            return Err(Error::NotFound);
        }
        Ok(obj)
    }
}

impl<S: Backing + Write + Seek> FilesystemAccess<S> {
    /// Writes the cached descriptor (stamped with a fresh CRC) to sector 1
    /// and drops the cache; with nothing cached this is a no-op. On failure
    /// the cache is kept and no byte outside the descriptor's 128 bytes has
    /// been changed.
    pub fn sync(&mut self) -> (r: Result<(), Error>)
        ensures
            final(self).disk().len() == old(self).disk().len(),
            forall|i: int|
                0 <= i < old(self).disk().len() && !(1024 <= i < 1024 + DESC_SIZE)
                    ==> final(self).disk()[i] == old(self).disk()[i],
            match r {
                Ok(()) => {
                    &&& final(self).cached() is None
                    &&& match old(self).cached() {
                        None => final(self).disk() == old(self).disk(),
                        Some(d) => {
                            &&& 1024 + DESC_SIZE <= old(self).disk().len()
                            &&& forall|i: int|
                                0 <= i < DESC_SIZE ==> #[trigger] final(self).disk()[1024 + i]
                                    == spec_encode_desc(spec_synced_desc(d))[i]
                        },
                    }
                },
                Err(e) => {
                    &&& final(self).cached() == old(self).cached()
                    &&& e != Error::InvalidData
                    &&& e != Error::NotFound
                },
            },
            old(self).cached() is None ==> r is Ok,
    {
        let d = match self.root_desc {
            Some(d) => d,
            None => {
                return Ok(());
            },
        };
        let mut enc0 = encode_desc(&d);
        enc0[124] = 0;
        enc0[125] = 0;
        enc0[126] = 0;
        enc0[127] = 0;
        proof {
            assert(enc0@ =~= spec_zero_crc(spec_encode_desc(d)));
        }
        let c = crc32_of(enc0.as_slice());
        let mut d1 = d;
        d1.crc = c;
        proof {
            assert(d1 == spec_synced_desc(d));
        }
        let bytes = encode_desc(&d1);
        self.stream.seek(SeekPos::StartSector(1))?;
        self.stream.write_all(bytes.as_slice())?;
        self.root_desc = None;
        self.label = None;
        Ok(())
    }
}

/// What `create_filesystem` stages as the root descriptor: the magic, both
/// version fields at the engine's major version, no feature bits, the given
/// volume identity, root object 1, an object table of 1024 bytes ending at
/// the last sector, an allocation table of 1024 bytes at byte 2048, no
/// label, the fixed header size, and a CRC left for `sync` to compute.
pub open spec fn initial_desc(d: RootDescriptor, id: Uuid, volsize: u128) -> bool {
    &&& d.magic.0@ == PhantomFSMagic::spec_magic_bytes()
    &&& d.version_major == VERSION_MAJOR
    &&& d.version_minor == VERSION_MAJOR
    &&& d.required_features.0 == 0
    &&& d.optional_features.0 == 0
    &&& d.volume_id_lo == id.lo
    &&& d.volume_id_hi == id.hi
    &&& d.root_object_id == 1
    &&& d.objtab_end == volsize
    &&& d.objtab_size == 1024
    &&& d.alloc_tab_begin == 2048
    &&& d.alloc_tab_size == 1024
    &&& d.label_ref == 0
    &&& d.label@ == Seq::new(32, |i: int| 0u8)
    &&& d.header_size == DESC_SIZE
    &&& d.crc == 0
}

/// The allocation-table seed span: the first eight sectors (boot area,
/// descriptor, and the allocation table itself) are reserved.
pub open spec fn spec_seed_span() -> VolumeSpan {
    VolumeSpan { base_sector: 0, extent: 8, reserved: 0 }
}

impl<S: Backing + Write + Seek> FilesystemAccess<S> {
    /// Initializes a blank volume of `volsize` sectors: zeroes the final
    /// sector (the object table's initial empty area), writes the
    /// allocation-table seed at sector 2 reserving the first eight sectors,
    /// and stages the root descriptor for `sync`. The label argument is
    /// accepted but not yet stored; the staged descriptor carries no label.
    #[allow(unused_variables)]
    pub fn create_filesystem(&mut self, label: &str, id: Uuid, volsize: u128) -> (r: Result<
        (),
        Error,
    >)
        ensures
            final(self).disk().len() == old(self).disk().len(),
            forall|i: int|
                0 <= i < old(self).disk().len() && !(volsize * 1024 - 1024 <= i < volsize * 1024)
                    && !(2048 <= i < 3072) ==> final(self).disk()[i] == old(self).disk()[i],
            match r {
                Ok(()) => {
                    &&& final(self).cached() matches Some(d) && initial_desc(d, id, volsize)
                    &&& 1 <= volsize && volsize * 1024 <= old(self).disk().len()
                    &&& 3072 <= old(self).disk().len()
                    &&& forall|i: int|
                        volsize * 1024 - 1024 <= i < volsize * 1024 && !(2048 <= i < 3072)
                            ==> final(self).disk()[i] == 0u8
                    &&& forall|i: int|
                        0 <= i < SPAN_SIZE ==> #[trigger] final(self).disk()[2048 + i]
                            == spec_encode_span(spec_seed_span())[i]
                    &&& forall|i: int| 2048 + SPAN_SIZE <= i < 3072 ==> final(self).disk()[i] == 0u8
                },
                Err(e) => {
                    &&& final(self).cached() == old(self).cached()
                    &&& e != Error::InvalidData
                    &&& e != Error::NotFound
                },
            },
    {
        self.stream.seek(SeekPos::StartSector(volsize))?;
        self.stream.seek(SeekPos::Curr(-1024))?;
        let ghost z0 = self.cursor();
        self.stream.write_zeroes(1024)?;
        let ghost d1 = self.disk();
        proof {
            assert forall|i: int| z0 <= i < z0 + 1024 implies #[trigger] d1[i] == 0u8 by {
                assert(self.stream.data()[z0 + (i - z0)] == 0u8);
            }
        }
        self.stream.seek(SeekPos::StartSector(2))?;
        let init_reserve = VolumeSpan { base_sector: 0, extent: 8, reserved: 0 };
        let span_bytes = encode_span(&init_reserve);
        self.stream.write_all(span_bytes.as_slice())?;
        let ghost d2 = self.disk();
        proof {
            assert(init_reserve == spec_seed_span());
            assert forall|i: int| 0 <= i < SPAN_SIZE implies #[trigger] d2[2048 + i]
                == spec_encode_span(spec_seed_span())[i] by {
                assert(self.stream.data()[2048 + i] == span_bytes@[i]);
            }
            assert forall|i: int|
                0 <= i < d1.len() && !(2048 <= i < 2048 + SPAN_SIZE) implies #[trigger] d2[i]
                == d1[i] by {}
        }
        self.stream.write_zeroes(1024 - SPAN_SIZE)?;
        let ghost d3 = self.disk();
        proof {
            assert forall|i: int| 2048 + SPAN_SIZE <= i < 3072 implies #[trigger] d3[i] == 0u8 by {
                assert(self.stream.data()[2048 + SPAN_SIZE + (i - 2048 - SPAN_SIZE)] == 0u8);
            }
            assert forall|i: int|
                0 <= i < d2.len() && !(2048 + SPAN_SIZE <= i < 3072) implies #[trigger] d3[i]
                == d2[i] by {}
            assert forall|i: int| 0 <= i < SPAN_SIZE implies #[trigger] d3[2048 + i]
                == spec_encode_span(spec_seed_span())[i] by {
                assert(d3[2048 + i] == d2[2048 + i]);
            }
            assert forall|i: int|
                z0 <= i < z0 + 1024 && !(2048 <= i < 3072) implies #[trigger] d3[i] == 0u8 by {
                assert(d2[i] == d1[i]);
                assert(d3[i] == d2[i]);
            }
        }
        let desc = RootDescriptor {
            magic: PhantomFSMagic::magic(),
            version_major: VERSION_MAJOR,
            version_minor: VERSION_MAJOR,
            required_features: crate::object::FSRequiredFeatures(0),
            optional_features: crate::object::FSOptionalFeatures(0),
            volume_id_lo: id.lo,
            volume_id_hi: id.hi,
            root_object_id: 1,
            objtab_size: 1024,
            objtab_end: volsize,
            alloc_tab_size: 1024,
            alloc_tab_begin: 2048,
            label_ref: 0,
            label: [0u8; 32],
            header_size: DESC_SIZE as u32,
            crc: 0,
        };
        proof {
            assert(desc.label@ =~= Seq::new(32, |i: int| 0u8));
        }
        self.root_desc = Some(desc);
        Ok(())
    }
}


impl<S: Backing + Read + Seek> FilesystemAccess<S> {
    /// Positions the cursor at an absolute byte offset of the volume;
    /// offsets past the device's 64-bit range are `Unsupported`.
    fn seek_to_byte(&mut self, byte: u128) -> (r: Result<(), Error>)
        ensures
            final(self).disk() == old(self).disk(),
            final(self).cached() == old(self).cached(),
            match r {
                Ok(()) => final(self).cursor() == byte,
                Err(e) => e != Error::InvalidData && e != Error::NotFound,
            },
    {
        if byte > u64::MAX as u128 {
            return Err(Error::Unsupported);
        }
        self.stream.seek(SeekPos::Start(byte as u64))?;
        Ok(())
    }

    /// Reads the `i`-th 32-byte span of the array at sector `base`.
    fn read_span_at(&mut self, base: u128, i: u128) -> (r: Result<VolumeSpan, Error>)
        ensures
            final(self).disk() == old(self).disk(),
            final(self).cached() == old(self).cached(),
            match r {
                Ok(s) => s == spec_span_at(old(self).disk(), base, i as int) && base * 1024 + i
                    * SPAN_SIZE + SPAN_SIZE <= old(self).disk().len(),
                Err(e) => e != Error::InvalidData && e != Error::NotFound,
            },
    {
        let b1 = match base.checked_mul(1024) {
            Some(x) => x,
            None => {
                return Err(Error::Unsupported);
            },
        };
        let b2 = match i.checked_mul(SPAN_SIZE as u128) {
            Some(x) => x,
            None => {
                return Err(Error::Unsupported);
            },
        };
        let byte = match b1.checked_add(b2) {
            Some(x) => x,
            None => {
                return Err(Error::Unsupported);
            },
        };
        self.seek_to_byte(byte)?;
        let mut buf: Vec<u8> = vec![0u8; SPAN_SIZE];
        self.stream.read_fully(&mut buf)?;
        let s = decode_span(buf.as_slice());
        proof {
            assert(buf@ =~= bytes_at(self.disk(), byte as int, SPAN_SIZE as nat));
            lemma_span_at_bytes(self.disk(), base, i as int, s);
        }
        Ok(s)
    }

    /// The number of logical bytes below the subtree `(span, level)`,
    /// obtained by walking its span arrays.
    #[verifier::loop_isolation(false)]
    fn tree_size(&mut self, span: VolumeSpan, level: u8) -> (r: Result<u128, Error>)
        requires
            1 <= level <= 15,
        ensures
            final(self).disk() == old(self).disk(),
            final(self).cached() == old(self).cached(),
            match r {
                Ok(sz) => sz == spec_child_bytes(old(self).disk(), span, level as int).len(),
                Err(e) => e != Error::InvalidData && e != Error::NotFound,
            },
        decreases level,
    {
        if level == 1 {
            return Ok(span.extent as u128 * 1024);
        }
        let count: u128 = span.extent as u128 * 32;
        let mut i: u128 = 0;
        let mut acc: u128 = 0;
        while i < count
            invariant
                2 <= level <= 15,
                count == span.extent as u128 * 32,
                i <= count,
                acc == spec_children_bytes(
                    self.disk(),
                    span.base_sector,
                    i as int,
                    level as int,
                ).len(),
                self.disk() == old(self).disk(),
                self.cached() == old(self).cached(),
            decreases count - i,
        {
            let child = self.read_span_at(span.base_sector, i)?;
            let csz = self.tree_size(child, level - 1)?;
            acc = match acc.checked_add(csz) {
                Some(a) => a,
                None => {
                    return Err(Error::Unsupported);
                },
            };
            i = i + 1;
        }
        Ok(acc)
    }

    /// Serves one read from the subtree `(span, level)` at in-subtree
    /// offset `inner`, filling at most `cap` bytes of `buf`'s prefix and
    /// never crossing a level-1 run boundary. A zero count means an empty
    /// request, an offset at or past the subtree's end, or a subtree that
    /// runs past the end of the volume.
    #[verifier::loop_isolation(false)]
    fn read_in_child(
        &mut self,
        span: VolumeSpan,
        level: u8,
        inner: u128,
        buf: &mut Vec<u8>,
        cap: usize,
    ) -> (r: Result<usize, Error>)
        requires
            1 <= level <= 15,
            cap <= old(buf)@.len(),
        ensures
            final(self).disk() == old(self).disk(),
            final(self).cached() == old(self).cached(),
            final(buf)@.len() == old(buf)@.len(),
            match r {
                Ok(n) => {
                    &&& n <= cap
                    &&& forall|j: int|
                        n <= j < old(buf)@.len() ==> final(buf)@[j] == old(buf)@[j]
                    &&& n > 0 ==> inner + n <= spec_child_bytes(
                        old(self).disk(),
                        span,
                        level as int,
                    ).len() && inner + n <= spec_run_end_in_child(
                        old(self).disk(),
                        span,
                        level as int,
                        inner as int,
                    ) && (forall|j: int|
                        0 <= j < n ==> final(buf)@[j] == spec_child_bytes(
                            old(self).disk(),
                            span,
                            level as int,
                        )[inner + j])
                    &&& n == 0 ==> cap == 0 || inner >= spec_child_bytes(
                        old(self).disk(),
                        span,
                        level as int,
                    ).len() || !spec_child_in_bounds(old(self).disk(), span, level as int)
                },
                Err(e) => {
                    &&& e != Error::InvalidData
                    &&& e != Error::NotFound
                    &&& final(buf)@ == old(buf)@
                },
            },
        decreases level,
    {
        if level == 1 {
            let total: u128 = span.extent as u128 * 1024;
            if inner >= total {
                return Ok(0);
            }
            let avail: u128 = total - inner;
            let want: usize = if (cap as u128) <= avail {
                cap
            } else {
                avail as usize
            };
            if want == 0 {
                return Ok(0);
            }
            let b1 = match span.base_sector.checked_mul(1024) {
                Some(x) => x,
                None => {
                    return Err(Error::Unsupported);
                },
            };
            let byte = match b1.checked_add(inner) {
                Some(x) => x,
                None => {
                    return Err(Error::Unsupported);
                },
            };
            self.seek_to_byte(byte)?;
            let mut scratch: Vec<u8> = vec![0u8; want];
            let n = match self.stream.read(&mut scratch) {
                Ok(n) => n,
                Err(e) => {
                    return Err(e);
                },
            };
            let mut j: usize = 0;
            while j < n
                invariant
                    n <= want,
                    j <= n,
                    buf@.len() == old(buf)@.len(),
                    cap <= buf@.len(),
                    n > 0 ==> byte + n <= self.disk().len(),
                    forall|t: int| 0 <= t < n ==> scratch@[t] == self.disk()[byte + t],
                    forall|t: int| 0 <= t < j ==> buf@[t] == scratch@[t],
                    forall|t: int| j <= t < buf@.len() ==> buf@[t] == old(buf)@[t],
                    self.disk() == old(self).disk(),
                    self.cached() == old(self).cached(),
                decreases n - j,
            {
                let b = scratch[j];
                buf[j] = b;
                j = j + 1;
            }
            proof {
                if n > 0 {
                    assert(j == n);
                    assert forall|t: int| 0 <= t < n implies buf@[t] == spec_child_bytes(
                        self.disk(),
                        span,
                        level as int,
                    )[inner + t] by {
                        assert(buf@[t] == scratch@[t]);
                        assert(scratch@[t] == self.disk()[byte + t]);
                        assert(buf@[t] == self.disk()[byte + t]);
                    }
                } else {
                    assert(self.cursor() + 1 > self.disk().len() || want == 0);
                }
            }
            return Ok(n);
        }
        let ghost d = self.disk();
        let ghost lv = level as int;
        let count: u128 = span.extent as u128 * 32;
        let mut i: u128 = 0;
        let mut skipped: u128 = 0;
        while i < count
            invariant
                2 <= level <= 15,
                lv == level as int,
                d == self.disk(),
                count == span.extent as u128 * 32,
                i <= count,
                skipped == spec_children_bytes(d, span.base_sector, i as int, lv).len(),
                skipped <= inner,
                cap <= buf@.len(),
                buf@ == old(buf)@,
                self.disk() == old(self).disk(),
                self.cached() == old(self).cached(),
            decreases count - i,
        {
            let child = self.read_span_at(span.base_sector, i)?;
            let csz = self.tree_size(child, level - 1)?;
            if inner - skipped < csz {
                let m = self.read_in_child(child, level - 1, inner - skipped, buf, cap)?;
                proof {
                    lemma_children_segment(d, span.base_sector, i as int, count as int, lv);
                    if m > 0 {
                        lemma_run_end_locate(
                            d,
                            span.base_sector,
                            count as int,
                            lv,
                            i as int,
                            inner as int,
                        );
                    }
                    if m > 0 {
                        assert forall|j: int| 0 <= j < m implies buf@[j] == spec_child_bytes(
                            d,
                            span,
                            lv,
                        )[inner + j] by {
                            assert(buf@[j] == spec_child_bytes(d, child, lv - 1)[inner - skipped
                                + j]);
                            assert(spec_children_bytes(d, span.base_sector, count as int, lv)[
                                skipped + (inner - skipped + j)] == spec_child_bytes(
                                d,
                                child,
                                lv - 1,
                            )[inner - skipped + j]);
                        }
                    } else {
                        if cap != 0 {
                            assert(inner - skipped < spec_child_bytes(d, child, lv - 1).len());
                            assert(!spec_child_in_bounds(d, child, lv - 1));
                            if spec_child_in_bounds(d, span, lv) {
                                lemma_children_in_bounds_at(
                                    d,
                                    span.base_sector,
                                    count as int,
                                    lv,
                                    i as int,
                                );
                            }
                        }
                    }
                }
                return Ok(m);
            }
            skipped = skipped + csz;
            i = i + 1;
        }
        proof {
            assert(skipped == spec_child_bytes(d, span, lv).len());
        }
        Ok(0)
    }

    /// Reads up to `buf.len()` bytes of the stream body `(baseref,
    /// indirection, len)` beginning at logical `offset`, without crossing
    /// an internal span boundary; the count returned may be short. An
    /// offset at or past `len` reads zero bytes. Indirection levels 0 and
    /// above 15 are refused as `InvalidData`; transient backing errors are
    /// passed through as `Interrupted` for the caller to retry.
    #[verifier::loop_isolation(false)]
    pub fn read_by_indirection(
        &mut self,
        offset: u64,
        buf: &mut Vec<u8>,
        baseref: u128,
        indirection: u8,
        len: u64,
    ) -> (r: Result<usize, Error>)
        ensures
            final(self).disk() == old(self).disk(),
            final(self).cached() == old(self).cached(),
            final(buf)@.len() == old(buf)@.len(),
            indirection == 0 || indirection > 15 ==> r == Err::<usize, Error>(Error::InvalidData),
            1 <= indirection <= 15 && offset >= len ==> r == Ok::<usize, Error>(0),
            match r {
                Ok(n) => {
                    &&& n <= old(buf)@.len()
                    &&& forall|j: int|
                        n <= j < old(buf)@.len() ==> final(buf)@[j] == old(buf)@[j]
                    &&& n > 0 ==> offset + n <= spec_stream_content(
                        old(self).disk(),
                        baseref,
                        indirection as int,
                        len,
                    ).len() && (indirection >= 2 ==> offset + n <= spec_run_end_in_child(
                        old(self).disk(),
                        spec_root_span(baseref),
                        indirection as int,
                        offset as int,
                    )) && (forall|j: int|
                        0 <= j < n ==> final(buf)@[j] == spec_stream_content(
                            old(self).disk(),
                            baseref,
                            indirection as int,
                            len,
                        )[offset + j])
                    &&& offset >= len ==> n == 0
                    &&& n == 0 ==> old(buf)@.len() == 0 || offset >= len || (indirection == 1
                        && baseref * 1024 + offset >= old(self).disk().len()) || (indirection >= 2
                        && (offset >= spec_child_bytes(
                        old(self).disk(),
                        spec_root_span(baseref),
                        indirection as int,
                    ).len() || !spec_child_in_bounds(
                        old(self).disk(),
                        spec_root_span(baseref),
                        indirection as int,
                    )))
                },
                Err(e) => {
                    &&& e != Error::NotFound
                    &&& final(buf)@ == old(buf)@
                    &&& e == Error::InvalidData ==> indirection == 0 || indirection > 15
                },
            },
    {
        if indirection == 0 || indirection > 15 {
            return Err(Error::InvalidData);
        }
        if offset >= len {
            return Ok(0);
        }
        let rem: u64 = len - offset;
        let cap: usize = if rem >= buf.len() as u64 {
            buf.len()
        } else {
            rem as usize
        };
        let ghost c = spec_stream_content(self.disk(), baseref, indirection as int, len);
        if indirection == 1 {
            if cap == 0 {
                return Ok(0);
            }
            let b1 = match baseref.checked_mul(1024) {
                Some(x) => x,
                None => {
                    return Err(Error::Unsupported);
                },
            };
            let byte = match b1.checked_add(offset as u128) {
                Some(x) => x,
                None => {
                    return Err(Error::Unsupported);
                },
            };
            self.seek_to_byte(byte)?;
            let mut scratch: Vec<u8> = vec![0u8; cap];
            let n = match self.stream.read(&mut scratch) {
                Ok(n) => n,
                Err(e) => {
                    return Err(e);
                },
            };
            let mut j: usize = 0;
            while j < n
                invariant
                    n <= cap,
                    cap <= buf@.len(),
                    j <= n,
                    buf@.len() == old(buf)@.len(),
                    n > 0 ==> byte + n <= self.disk().len(),
                    forall|t: int| 0 <= t < n ==> scratch@[t] == self.disk()[byte + t],
                    forall|t: int| 0 <= t < j ==> buf@[t] == scratch@[t],
                    forall|t: int| j <= t < buf@.len() ==> buf@[t] == old(buf)@[t],
                    self.disk() == old(self).disk(),
                    self.cached() == old(self).cached(),
                decreases n - j,
            {
                let b = scratch[j];
                buf[j] = b;
                j = j + 1;
            }
            proof {
                if n > 0 {
                    assert forall|j: int| 0 <= j < n implies buf@[j] == c[offset + j] by {
                        assert(buf@[j] == scratch@[j]);
                        assert(scratch@[j] == self.disk()[byte + j]);
                    }
                }
            }
            return Ok(n);
        }
        let root = VolumeSpan { base_sector: baseref, extent: u64::MAX, reserved: 0 };
        proof {
            assert(root == spec_root_span(baseref));
        }
        let n = self.read_in_child(root, indirection, offset as u128, buf, cap)?;
        proof {
            if n > 0 {
                let t = spec_child_bytes(self.disk(), spec_root_span(baseref), indirection as int);
                assert(offset + n <= t.len());
                assert(offset + n <= len);
                assert forall|j: int| 0 <= j < n implies buf@[j] == c[offset + j] by {
                    assert(buf@[j] == t[offset + j]);
                }
            }
        }
        Ok(n)
    }

    /// Loops `read_by_indirection` until `buf` is filled, retrying a
    /// bounded number of transient interruptions; a stream body that ends
    /// before `buf` is filled surfaces `UnexpectedEof`.
    #[verifier::loop_isolation(false)]
    pub fn read_fully_by_indirection(
        &mut self,
        offset: u64,
        buf: &mut Vec<u8>,
        baseref: u128,
        indirection: u8,
        len: u64,
    ) -> (r: Result<(), Error>)
        ensures
            final(self).disk() == old(self).disk(),
            final(self).cached() == old(self).cached(),
            final(buf)@.len() == old(buf)@.len(),
            match r {
                Ok(()) => {
                    &&& old(buf)@.len() > 0 ==> offset + old(buf)@.len() <= spec_stream_content(
                        old(self).disk(),
                        baseref,
                        indirection as int,
                        len,
                    ).len()
                    &&& forall|j: int|
                        0 <= j < old(buf)@.len() ==> final(buf)@[j] == spec_stream_content(
                            old(self).disk(),
                            baseref,
                            indirection as int,
                            len,
                        )[offset + j]
                },
                Err(e) => {
                    &&& e != Error::NotFound
                    &&& e == Error::InvalidData ==> indirection == 0 || indirection > 15
                },
            },
    {
        let ghost c = spec_stream_content(old(self).disk(), baseref, indirection as int, len);
        let mut filled: usize = 0;
        let mut budget: u64 = RETRY_LIMIT;
        loop
            invariant
                filled <= buf@.len(),
                buf@.len() == old(buf)@.len(),
                filled > 0 ==> offset + filled <= c.len(),
                forall|j: int| 0 <= j < filled ==> buf@[j] == c[offset + j],
                budget <= RETRY_LIMIT,
                self.disk() == old(self).disk(),
                self.cached() == old(self).cached(),
            decreases buf@.len() - filled + budget,
        {
            if filled == buf.len() {
                return Ok(());
            }
            let pos = match offset.checked_add(filled as u64) {
                Some(p) => p,
                None => {
                    return Err(Error::UnexpectedEof);
                },
            };
            let want = buf.len() - filled;
            let mut scratch: Vec<u8> = vec![0u8; want];
            match self.read_by_indirection(pos, &mut scratch, baseref, indirection, len) {
                Ok(0) => {
                    return Err(Error::UnexpectedEof);
                },
                Ok(n) => {
                    let mut j: usize = 0;
                    while j < n
                        invariant
                            n <= want,
                            j <= n,
                            want == buf@.len() - filled,
                            filled + n <= buf@.len(),
                            buf@.len() == old(buf)@.len(),
                            pos == offset + filled,
                            offset + filled + n <= c.len(),
                            forall|t: int| 0 <= t < n ==> scratch@[t] == c[pos + t],
                            forall|t: int| 0 <= t < filled + j ==> buf@[t] == c[offset + t],
                            self.disk() == old(self).disk(),
                            self.cached() == old(self).cached(),
                        decreases n - j,
                    {
                        let b = scratch[j];
                        buf[filled + j] = b;
                        j = j + 1;
                    }
                    filled = filled + n;
                },
                Err(Error::Interrupted) => {
                    if budget == 0 {
                        return Err(Error::Interrupted);
                    }
                    budget = budget - 1;
                },
                Err(e) => {
                    return Err(e);
                },
            }
        }
    }
}


/// The bytes of `c` from `off` up to the first NUL, or `None` when `c`
/// ends before a NUL is found.
pub open spec fn spec_nullterm_at(c: Seq<u8>, off: int) -> Option<Seq<u8>>
    decreases c.len() - off,
{
    if off < 0 || off >= c.len() {
        None
    } else if c[off] == 0 {
        Some(Seq::<u8>::empty())
    } else {
        match spec_nullterm_at(c, off + 1) {
            None => None,
            Some(t) => Some(seq![c[off]] + t),
        }
    }
}

/// A scan that found the first NUL at distance `k` has found the stored
/// name `c[off .. off + k]`.
pub proof fn lemma_nullterm_found(c: Seq<u8>, off: int, k: int)
    requires
        0 <= off,
        0 <= k,
        off + k < c.len(),
        forall|i: int| 0 <= i < k ==> #[trigger] c[off + i] != 0,
        c[off + k] == 0,
    ensures
        spec_nullterm_at(c, off) == Some(c.subrange(off, off + k)),
    decreases k,
{
    if k > 0 {
        assert forall|i: int| 0 <= i < k - 1 implies #[trigger] c[(off + 1) + i] != 0 by {
            assert(c[off + (i + 1)] != 0);
        }
        lemma_nullterm_found(c, off + 1, k - 1);
        assert(c[off + 0] != 0);
        assert(c.subrange(off, off + k) =~= seq![c[off]] + c.subrange(off + 1, off + 1 + (k - 1)));
    } else {
        assert(c.subrange(off, off) =~= Seq::<u8>::empty());
    }
}

/// Comparison of a candidate name against the NUL-terminated bytes of `c`
/// starting at `off`: `None` when `c` ends before a decision is reached,
/// otherwise the byte-wise order with the stored side cut at its NUL and a
/// shorter name less than its extensions.
pub open spec fn spec_nullstr_cmp(name: Seq<u8>, c: Seq<u8>, off: int) -> Option<Ordering>
    decreases name.len(),
{
    if off < 0 || off >= c.len() {
        None
    } else if c[off] == 0 {
        if name.len() == 0 {
            Some(Ordering::Equal)
        } else {
            Some(Ordering::Greater)
        }
    } else if name.len() == 0 {
        Some(Ordering::Less)
    } else if name[0] < c[off] {
        Some(Ordering::Less)
    } else if name[0] > c[off] {
        Some(Ordering::Greater)
    } else {
        spec_nullstr_cmp(name.drop_first(), c, off + 1)
    }
}

/// Byte-wise lexicographic order of two byte strings, shorter-is-less.
pub open spec fn spec_lex_cmp(a: Seq<u8>, b: Seq<u8>) -> Ordering
    decreases a.len(),
{
    if a.len() == 0 && b.len() == 0 {
        Ordering::Equal
    } else if a.len() == 0 {
        Ordering::Less
    } else if b.len() == 0 {
        Ordering::Greater
    } else if a[0] < b[0] {
        Ordering::Less
    } else if a[0] > b[0] {
        Ordering::Greater
    } else {
        spec_lex_cmp(a.drop_first(), b.drop_first())
    }
}

/// Ordering law: when the stored side holds a NUL-terminated name, the
/// incremental comparison decides, and its result is exactly the byte-wise
/// lexicographic order of the candidate and the stored name, with shorter
/// strings less than their prefix-extensions.
pub proof fn lemma_nullstr_cmp_is_lex(name: Seq<u8>, c: Seq<u8>, off: int, stored: Seq<u8>)
    requires
        spec_nullterm_at(c, off) == Some(stored),
    ensures
        spec_nullstr_cmp(name, c, off) == Some(spec_lex_cmp(name, stored)),
    decreases stored.len(),
{
    if c[off] == 0 {
    } else {
        let t = spec_nullterm_at(c, off + 1)->Some_0;
        assert(stored == seq![c[off]] + t);
        assert(stored[0] == c[off]);
        assert(stored.len() > 0);
        if name.len() == 0 {
        } else if name[0] == c[off] {
            lemma_nullstr_cmp_is_lex(name.drop_first(), c, off + 1, t);
            assert(stored.drop_first() =~= t);
        }
    }
}

/// One equal byte advances the incremental comparison by one position.
pub proof fn lemma_nullstr_cmp_step(name: Seq<u8>, c: Seq<u8>, off: int)
    requires
        0 <= off < c.len(),
        c[off] != 0,
        name.len() > 0,
        name[0] == c[off],
    ensures
        spec_nullstr_cmp(name, c, off) == spec_nullstr_cmp(name.drop_first(), c, off + 1),
{
}

/// Compares `name` against the NUL-terminated bytes at `pos` of the fully
/// materialized buffer `data`.
fn cmp_nullstr_in_buffer(name: &[u8], data: &[u8], pos: usize) -> (r: Result<Ordering, Error>)
    ensures
        match r {
            Ok(o) => spec_nullstr_cmp(name@, data@, pos as int) == Some(o),
            Err(e) => e == Error::UnexpectedEof && spec_nullstr_cmp(name@, data@, pos as int)
                is None,
        },
{
    let nlen = name.len();
    let dlen = data.len();
    let mut idx: usize = 0;
    proof {
        assert(name@.skip(0) =~= name@);
    }
    loop
        invariant
            idx <= nlen,
            nlen == name@.len(),
            dlen == data@.len(),
            pos + idx <= pos + nlen,
            spec_nullstr_cmp(name@, data@, pos as int) == spec_nullstr_cmp(
                name@.skip(idx as int),
                data@,
                pos + idx,
            ),
        decreases nlen - idx,
    {
        let off = match pos.checked_add(idx) {
            Some(o) => o,
            None => {
                return Err(Error::UnexpectedEof);
            },
        };
        if off >= dlen {
            return Err(Error::UnexpectedEof);
        }
        let b = *vstd::slice::slice_index_get(data, off);
        proof {
            assert(name@.skip(idx as int).len() == nlen - idx);
        }
        if b == 0 {
            if idx == nlen {
                return Ok(Ordering::Equal);
            } else {
                return Ok(Ordering::Greater);
            }
        }
        if idx == nlen {
            return Ok(Ordering::Less);
        }
        let a = *vstd::slice::slice_index_get(name, idx);
        proof {
            assert(name@.skip(idx as int)[0] == name@[idx as int]);
        }
        if a < b {
            return Ok(Ordering::Less);
        }
        if a > b {
            return Ok(Ordering::Greater);
        }
        proof {
            lemma_nullstr_cmp_step(name@.skip(idx as int), data@, pos + idx);
            assert(name@.skip(idx as int).drop_first() =~= name@.skip(idx + 1));
        }
        idx = idx + 1;
    }
}

impl<S: Backing + Read + Seek> FilesystemAccess<S> {
    /// Reads up to `buf.len()` bytes of the listed stream's content
    /// starting at `pos`: from the inline area at indirection 0, else
    /// through the indirection walker.
    pub fn read_from_stream(&mut self, buf: &mut Vec<u8>, pos: u64, stream: &StreamListing) -> (r:
        Result<usize, Error>)
        ensures
            final(self).disk() == old(self).disk(),
            final(self).cached() == old(self).cached(),
            final(buf)@.len() == old(buf)@.len(),
            match r {
                Ok(n) => {
                    &&& n <= old(buf)@.len()
                    &&& forall|j: int|
                        n <= j < old(buf)@.len() ==> final(buf)@[j] == old(buf)@[j]
                    &&& n > 0 ==> pos + n <= spec_listing_content(old(self).disk(), *stream).len()
                        && (forall|j: int|
                        0 <= j < n ==> final(buf)@[j] == spec_listing_content(
                            old(self).disk(),
                            *stream,
                        )[pos + j])
                },
                Err(e) => {
                    &&& e != Error::NotFound
                    &&& e == Error::InvalidData ==> stream.flags.spec_indirection() > 15
                },
            },
            stream.flags.spec_indirection() == 0 ==> r is Ok,
    {
        let ind = stream.flags.get_indirection();
        proof {
            crate::object::lemma_indirection_bound(stream.flags);
        }
        if ind == 0 {
            let limit: u64 = if stream.size <= 32 {
                stream.size
            } else {
                32
            };
            if pos >= limit {
                return Ok(0);
            }
            let avail = (limit - pos) as usize;
            let n: usize = if buf.len() <= avail {
                buf.len()
            } else {
                avail
            };
            let mut j: usize = 0;
            while j < n
                invariant
                    n <= buf@.len(),
                    j <= n,
                    pos + n <= limit <= 32,
                    limit == if stream.size <= 32 { stream.size as int } else { 32int },
                    buf@.len() == old(buf)@.len(),
                    forall|t: int| 0 <= t < j ==> buf@[t] == stream.inline_data@[pos + t],
                    forall|t: int| j <= t < buf@.len() ==> buf@[t] == old(buf)@[t],
                    self == old(self),
                decreases n - j,
            {
                let b = stream.inline_data[(pos as usize) + j];
                buf[j] = b;
                j = j + 1;
            }
            return Ok(n);
        }
        self.read_by_indirection(pos, buf, stream.content_ref, ind as u8, stream.size)
    }

    /// Fills `buf` from the listed stream's content at `pos`; content that
    /// ends too early surfaces `UnexpectedEof`.
    pub fn read_fully_from_stream(
        &mut self,
        buf: &mut Vec<u8>,
        pos: u64,
        stream: &StreamListing,
    ) -> (r: Result<(), Error>)
        ensures
            final(self).disk() == old(self).disk(),
            final(self).cached() == old(self).cached(),
            final(buf)@.len() == old(buf)@.len(),
            match r {
                Ok(()) => {
                    &&& old(buf)@.len() > 0 ==> pos + old(buf)@.len() <= spec_listing_content(
                        old(self).disk(),
                        *stream,
                    ).len()
                    &&& forall|j: int|
                        0 <= j < old(buf)@.len() ==> final(buf)@[j] == spec_listing_content(
                            old(self).disk(),
                            *stream,
                        )[pos + j]
                },
                Err(e) => {
                    &&& e != Error::NotFound
                    &&& e == Error::InvalidData ==> stream.flags.spec_indirection() > 15
                },
            },
            old(buf)@.len() > 0 && pos + old(buf)@.len() > stream.size ==> r == Err::<(), Error>(
                Error::UnexpectedEof,
            ) && final(buf)@ == old(buf)@,
    {
        let avail: u64 = if stream.size >= pos {
            stream.size - pos
        } else {
            0
        };
        if (avail as u128) < buf.len() as u128 {
            return Err(Error::UnexpectedEof);
        }
        let ind = stream.flags.get_indirection();
        proof {
            crate::object::lemma_indirection_bound(stream.flags);
        }
        if ind == 0 {
            let limit: u64 = if stream.size <= 32 {
                stream.size
            } else {
                32
            };
            if pos >= limit || buf.len() as u64 > limit - pos {
                if buf.len() == 0 {
                    return Ok(());
                }
                return Err(Error::UnexpectedEof);
            }
            let n = buf.len();
            let mut j: usize = 0;
            while j < n
                invariant
                    n == buf@.len(),
                    j <= n,
                    pos + n <= limit <= 32,
                    limit == if stream.size <= 32 { stream.size as int } else { 32int },
                    buf@.len() == old(buf)@.len(),
                    forall|t: int| 0 <= t < j ==> buf@[t] == stream.inline_data@[pos + t],
                    self == old(self),
                decreases n - j,
            {
                let b = stream.inline_data[(pos as usize) + j];
                buf[j] = b;
                j = j + 1;
            }
            return Ok(());
        }
        self.read_fully_by_indirection(pos, buf, stream.content_ref, ind as u8, stream.size)
    }

    /// Reads the NUL-terminated UTF-8 string at logical `offset` of the
    /// stream body `(baseref, indirection, len)`. Content that ends before
    /// a NUL surfaces `UnexpectedEof`; bytes that are not valid UTF-8
    /// surface `InvalidData`.
    #[verifier::loop_isolation(false)]
    pub fn read_nullstr_by_indirection(
        &mut self,
        offset: u64,
        baseref: u128,
        indirection: u8,
        len: u64,
    ) -> (r: Result<String, Error>)
        ensures
            final(self).disk() == old(self).disk(),
            final(self).cached() == old(self).cached(),
            match r {
                Ok(s) => spec_nullterm_at(
                    spec_stream_content(old(self).disk(), baseref, indirection as int, len),
                    offset as int,
                ) matches Some(b) && vstd::utf8::valid_utf8(b) && s@ == vstd::utf8::decode_utf8(b),
                Err(e) => {
                    &&& e != Error::NotFound
                    &&& e == Error::InvalidData ==> indirection == 0 || indirection > 15 || (
                    spec_nullterm_at(
                        spec_stream_content(old(self).disk(), baseref, indirection as int, len),
                        offset as int,
                    ) matches Some(b) && !vstd::utf8::valid_utf8(b))
                },
            },
    {
        let ghost c = spec_stream_content(old(self).disk(), baseref, indirection as int, len);
        let mut acc: Vec<u8> = Vec::new();
        let mut budget: u64 = RETRY_LIMIT;
        loop
            invariant
                self.disk() == old(self).disk(),
                self.cached() == old(self).cached(),
                acc@.len() > 0 ==> offset + acc@.len() <= c.len(),
                acc@.len() <= len,
                forall|i: int| 0 <= i < acc@.len() ==> acc@[i] == c[offset + i],
                forall|i: int| 0 <= i < acc@.len() ==> #[trigger] c[offset + i] != 0,
                budget <= RETRY_LIMIT,
            decreases len - acc@.len() + budget,
        {
            let cur = match offset.checked_add(acc.len() as u64) {
                Some(p) => p,
                None => {
                    return Err(Error::UnexpectedEof);
                },
            };
            let mut scratch: Vec<u8> = vec![0u8; 1024];
            match self.read_by_indirection(cur, &mut scratch, baseref, indirection, len) {
                Ok(0) => {
                    return Err(Error::UnexpectedEof);
                },
                Ok(n) => {
                    let mut t: usize = 0;
                    while t < n
                        invariant
                            t <= n,
                            n <= scratch@.len(),
                            cur == offset + acc@.len() - t,
                            offset + acc@.len() + (n - t) <= c.len(),
                            forall|i: int| 0 <= i < n ==> scratch@[i] == c[cur + i],
                            forall|i: int| 0 <= i < acc@.len() ==> acc@[i] == c[offset + i],
                            forall|i: int| 0 <= i < acc@.len() ==> #[trigger] c[offset + i] != 0,
                            self.disk() == old(self).disk(),
                            self.cached() == old(self).cached(),
                        decreases n - t,
                    {
                        let b = scratch[t];
                        if b == 0 {
                            proof {
                                lemma_nullterm_found(c, offset as int, acc@.len() as int);
                                assert(acc@ =~= c.subrange(
                                    offset as int,
                                    offset + acc@.len(),
                                ));
                            }
                            return string_from_utf8(acc);
                        }
                        acc.push(b);
                        t = t + 1;
                    }
                },
                Err(Error::Interrupted) => {
                    if budget == 0 {
                        return Err(Error::Interrupted);
                    }
                    budget = budget - 1;
                },
                Err(e) => {
                    return Err(e);
                },
            }
        }
    }

    /// Compares candidate bytes against the NUL-terminated name stored at
    /// logical `offset` of the stream body `(baseref, indirection, len)`.
    #[verifier::loop_isolation(false)]
    fn cmp_nullstr_bytes(
        &mut self,
        name: &[u8],
        offset: u64,
        baseref: u128,
        indirection: u8,
        len: u64,
    ) -> (r: Result<Ordering, Error>)
        ensures
            final(self).disk() == old(self).disk(),
            final(self).cached() == old(self).cached(),
            match r {
                Ok(o) => spec_nullstr_cmp(
                    name@,
                    spec_stream_content(old(self).disk(), baseref, indirection as int, len),
                    offset as int,
                ) == Some(o),
                Err(e) => {
                    &&& e != Error::NotFound
                    &&& e == Error::InvalidData ==> indirection == 0 || indirection > 15
                },
            },
    {
        let ghost c = spec_stream_content(old(self).disk(), baseref, indirection as int, len);
        let nlen = name.len();
        let mut idx: usize = 0;
        let mut budget: u64 = RETRY_LIMIT;
        proof {
            assert(name@.skip(0) =~= name@);
        }
        loop
            invariant
                self.disk() == old(self).disk(),
                self.cached() == old(self).cached(),
                idx <= nlen,
                nlen == name@.len(),
                spec_nullstr_cmp(name@, c, offset as int) == spec_nullstr_cmp(
                    name@.skip(idx as int),
                    c,
                    offset + idx,
                ),
                budget <= RETRY_LIMIT,
            decreases nlen - idx + budget,
        {
            let cur = match offset.checked_add(idx as u64) {
                Some(p) => p,
                None => {
                    return Err(Error::UnexpectedEof);
                },
            };
            let mut scratch: Vec<u8> = vec![0u8; 1024];
            match self.read_by_indirection(cur, &mut scratch, baseref, indirection, len) {
                Ok(0) => {
                    return Err(Error::UnexpectedEof);
                },
                Ok(n) => {
                    let mut t: usize = 0;
                    while t < n
                        invariant
                            t <= n,
                            n <= scratch@.len(),
                            idx + t <= nlen || t == 0,
                            idx <= nlen,
                            nlen == name@.len(),
                            cur == offset + idx,
                            cur + n <= c.len(),
                            forall|i: int| 0 <= i < n ==> scratch@[i] == c[cur + i],
                            spec_nullstr_cmp(name@, c, offset as int) == spec_nullstr_cmp(
                                name@.skip(idx + t),
                                c,
                                offset + idx + t,
                            ),
                            idx + t <= nlen,
                            self.disk() == old(self).disk(),
                            self.cached() == old(self).cached(),
                        decreases n - t,
                    {
                        let b = scratch[t];
                        proof {
                            assert(name@.skip(idx + t).len() == nlen - idx - t);
                            assert(scratch@[t as int] == c[offset + idx + t]);
                        }
                        if b == 0 {
                            if idx + t == nlen {
                                return Ok(Ordering::Equal);
                            } else {
                                return Ok(Ordering::Greater);
                            }
                        }
                        if idx + t == nlen {
                            return Ok(Ordering::Less);
                        }
                        let a = *vstd::slice::slice_index_get(name, idx + t);
                        proof {
                            assert(name@.skip(idx + t)[0] == name@[idx + t]);
                        }
                        if a < b {
                            return Ok(Ordering::Less);
                        }
                        if a > b {
                            return Ok(Ordering::Greater);
                        }
                        proof {
                            lemma_nullstr_cmp_step(name@.skip(idx + t), c, offset + idx + t);
                            assert(name@.skip(idx + t).drop_first() =~= name@.skip(idx + t + 1));
                        }
                        t = t + 1;
                    }
                    idx = idx + n;
                },
                Err(Error::Interrupted) => {
                    if budget == 0 {
                        return Err(Error::Interrupted);
                    }
                    budget = budget - 1;
                },
                Err(e) => {
                    return Err(e);
                },
            }
        }
    }

    /// Compares a candidate name against the NUL-terminated name stored at
    /// logical `offset` of a stream body; the result is the byte-wise
    /// lexicographic order over the candidate's UTF-8 bytes.
    pub fn cmp_nullstr_by_indirection(
        &mut self,
        name: &str,
        offset: u64,
        baseref: u128,
        indirection: u8,
        len: u64,
    ) -> (r: Result<Ordering, Error>)
        ensures
            final(self).disk() == old(self).disk(),
            final(self).cached() == old(self).cached(),
            match r {
                Ok(o) => spec_nullstr_cmp(
                    name.spec_bytes(),
                    spec_stream_content(old(self).disk(), baseref, indirection as int, len),
                    offset as int,
                ) == Some(o),
                Err(e) => {
                    &&& e != Error::NotFound
                    &&& e == Error::InvalidData ==> indirection == 0 || indirection > 15
                },
            },
    {
        self.cmp_nullstr_bytes(name.as_bytes(), offset, baseref, indirection, len)
    }

    /// Compares candidate bytes against the NUL-terminated name at byte
    /// offset `pos` of a listed stream's content (inline or walked).
    fn cmp_from_stream_bytes(&mut self, name: &[u8], pos: u64, stream: &StreamListing) -> (r:
        Result<Ordering, Error>)
        ensures
            final(self).disk() == old(self).disk(),
            final(self).cached() == old(self).cached(),
            match r {
                Ok(o) => pos <= stream.size && spec_nullstr_cmp(
                    name@,
                    spec_listing_content(old(self).disk(), *stream),
                    pos as int,
                ) == Some(o),
                Err(e) => {
                    &&& e != Error::NotFound
                    &&& e == Error::InvalidData ==> stream.flags.spec_indirection() > 15
                },
            },
    {
        if pos > stream.size {
            return Err(Error::UnexpectedEof);
        }
        let ind = stream.flags.get_indirection();
        proof {
            crate::object::lemma_indirection_bound(stream.flags);
        }
        if ind == 0 {
            let limit: usize = if stream.size <= 32 {
                stream.size as usize
            } else {
                32
            };
            if pos > limit as u64 {
                return Err(Error::UnexpectedEof);
            }
            let inline = vstd::slice::slice_subrange(
                vstd::array::array_as_slice(&stream.inline_data),
                0,
                limit,
            );
            proof {
                assert(inline@ =~= spec_listing_content(self.disk(), *stream));
            }
            return cmp_nullstr_in_buffer(name, inline, pos as usize);
        }
        self.cmp_nullstr_bytes(name, pos, stream.content_ref, ind as u8, stream.size)
    }

    /// Compares a candidate name against the NUL-terminated name at byte
    /// offset `pos` of a listed stream's content.
    pub fn cmp_nullstr_from_stream(&mut self, name: &str, pos: u64, stream: &StreamListing) -> (r:
        Result<Ordering, Error>)
        ensures
            final(self).disk() == old(self).disk(),
            final(self).cached() == old(self).cached(),
            match r {
                Ok(o) => pos <= stream.size && spec_nullstr_cmp(
                    name.spec_bytes(),
                    spec_listing_content(old(self).disk(), *stream),
                    pos as int,
                ) == Some(o),
                Err(e) => {
                    &&& e != Error::NotFound
                    &&& e == Error::InvalidData ==> stream.flags.spec_indirection() > 15
                },
            },
    {
        self.cmp_from_stream_bytes(name.as_bytes(), pos, stream)
    }
}

/// Relies on String::from_utf8: it returns the string carrying exactly the
/// given bytes when they are valid UTF-8, and an error otherwise.
#[verifier::external_body]
fn string_from_utf8(v: Vec<u8>) -> (r: Result<String, Error>)
    ensures
        match r {
            Ok(s) => vstd::utf8::valid_utf8(v@) && s@ == vstd::utf8::decode_utf8(v@),
            Err(e) => !vstd::utf8::valid_utf8(v@) && e == Error::InvalidData,
        },
{
    String::from_utf8(v).map_err(|_e| Error::InvalidData)
}


/// The `i`-th 128-byte stream entry of a streams-array content `c`.
pub open spec fn spec_entry_bytes(c: Seq<u8>, i: int) -> Seq<u8> {
    c.subrange(i * LISTING_SIZE, i * LISTING_SIZE + LISTING_SIZE)
}

/// The `i`-th 64-byte directory element of a directory content `c`.
pub open spec fn spec_element_bytes(c: Seq<u8>, i: int) -> Seq<u8> {
    c.subrange(i * DIRELEM_SIZE, i * DIRELEM_SIZE + DIRELEM_SIZE)
}

/// Whether candidate bytes match a stream entry's name: through the
/// object's Strings stream when `name_ref` is set (an entry with a
/// `name_ref` but no Strings stream never matches), else against the
/// inline name up to its first NUL. `None` means the comparison itself
/// fails (a reference past the string table, or a table that ends before
/// a NUL).
pub open spec fn spec_listing_name_matches(
    disk: Seq<u8>,
    strings: Option<StreamListing>,
    l: StreamListing,
    nameb: Seq<u8>,
) -> Option<bool> {
    if l.name_ref != 0 {
        match strings {
            None => Some(false),
            Some(sl) => {
                if l.name_ref > sl.size {
                    None
                } else {
                    match spec_nullstr_cmp(
                        nameb,
                        spec_listing_content(disk, sl),
                        l.name_ref as int,
                    ) {
                        None => None,
                        Some(o) => Some(o == Ordering::Equal),
                    }
                }
            },
        }
    } else {
        Some(nameb == crate::helpers::spec_before_nul(l.name@))
    }
}

/// Whether candidate bytes match a directory element's name; resolution
/// mirrors `spec_listing_name_matches`.
pub open spec fn spec_element_name_matches(
    disk: Seq<u8>,
    strings: Option<StreamListing>,
    el: DirectoryElement,
    nameb: Seq<u8>,
) -> Option<bool> {
    if el.name_index != 0 {
        match strings {
            None => Some(false),
            Some(sl) => {
                if el.name_index > sl.size {
                    None
                } else {
                    match spec_nullstr_cmp(
                        nameb,
                        spec_listing_content(disk, sl),
                        el.name_index as int,
                    ) {
                        None => None,
                        Some(o) => Some(o == Ordering::Equal),
                    }
                }
            },
        }
    } else {
        Some(nameb == crate::helpers::spec_before_nul(el.name@))
    }
}



/// A successful directory search: the descriptor in effect, the object,
/// its Strings stream, a stream whose name is `DirectoryContent`, and an
/// element of it matching the candidate name and carrying `ox`.
pub open spec fn spec_search_ok(
    pre: Option<RootDescriptor>,
    disk: Seq<u8>,
    now: Option<RootDescriptor>,
    objid: u64,
    nameb: Seq<u8>,
    ox: u64,
) -> bool {
    now matches Some(de) && desc_obtained(pre, disk, de) && (exists|
        ob: Object,
        strings: Option<StreamListing>,
        dstream: StreamListing,
    |
        #![trigger spec_strings_of_obj(disk, de, objid, ob, strings), spec_dir_stream_hit(disk, strings, dstream, nameb, ox)]
        {
            &&& spec_strings_of_obj(disk, de, objid, ob, strings)
            &&& spec_listing_name_matches(disk, strings, dstream, spec_name_directory_content())
                == Some(true)
            &&& spec_dir_stream_hit(disk, strings, dstream, nameb, ox)
        })
}


/// Why a directory search reports `NotFound`: the object slot is out of
/// the table or unused; the object's Strings reference dangles; no stream
/// of the object is named `DirectoryContent`; or the directory stream was
/// found and either no element's name matches the candidate or the first
/// matching element's object reference is absent (a soft-absent child).
pub open spec fn spec_search_not_found(
    pre: Option<RootDescriptor>,
    disk: Seq<u8>,
    now: Option<RootDescriptor>,
    objid: u64,
    nameb: Seq<u8>,
) -> bool {
    now matches Some(de) && desc_obtained(pre, disk, de) && (objid * OBJECT_SIZE
        > de.objtab_size || slot_weak_ref(disk, de, objid) == 0 || (exists|ob: Object|
        #![trigger object_matches_bytes(ob, disk_obj_bytes(disk, de, objid))]
        {
            &&& object_matches_bytes(ob, disk_obj_bytes(disk, de, objid))
            &&& ob.weak_ref != 0
            &&& ob.strings_stream != 0
            &&& (ob.strong_ref == 0 || ob.strings_stream * LISTING_SIZE >= ob.streams_size)
        }) || (exists|ob: Object, strings: Option<StreamListing>|
        #![trigger spec_strings_of_obj(disk, de, objid, ob, strings)]
        {
            &&& spec_strings_of_obj(disk, de, objid, ob, strings)
            &&& forall|k: int|
                0 <= k && k * LISTING_SIZE < ob.streams_size ==> spec_entry_no_match(
                    disk,
                    ob,
                    strings,
                    k,
                    spec_name_directory_content(),
                )
        }) || (exists|ob: Object, strings: Option<StreamListing>, dstream: StreamListing|
        #![trigger spec_strings_of_obj(disk, de, objid, ob, strings), spec_listing_name_matches(disk, strings, dstream, spec_name_directory_content())]
        {
            &&& spec_strings_of_obj(disk, de, objid, ob, strings)
            &&& spec_listing_name_matches(disk, strings, dstream, spec_name_directory_content())
                == Some(true)
            &&& ((forall|j: int|
                0 <= j < dstream.size as int / (DIRELEM_SIZE as int) ==> spec_element_no_match(
                    disk,
                    dstream,
                    strings,
                    j,
                    nameb,
                )) || (exists|k: int, el: DirectoryElement|
                #![trigger direlem_matches_bytes(el, spec_element_bytes(spec_listing_content(disk, dstream), k))]
                {
                    &&& 0 <= k
                    &&& k * DIRELEM_SIZE + DIRELEM_SIZE <= spec_listing_content(
                        disk,
                        dstream,
                    ).len()
                    &&& direlem_matches_bytes(
                        el,
                        spec_element_bytes(spec_listing_content(disk, dstream), k),
                    )
                    &&& spec_element_name_matches(disk, strings, el, nameb) == Some(true)
                    &&& el.objidx == 0
                    &&& forall|j: int|
                        0 <= j < k ==> spec_element_no_match(disk, dstream, strings, j, nameb)
                }))
        }))
}

/// `ob` is the object stored in slot `objid` under descriptor `de`, and
/// `strings` is its Strings stream (or absent).
pub open spec fn spec_strings_of_obj(
    disk: Seq<u8>,
    de: RootDescriptor,
    objid: u64,
    ob: Object,
    strings: Option<StreamListing>,
) -> bool {
    &&& object_matches_bytes(ob, disk_obj_bytes(disk, de, objid))
    &&& ob.weak_ref != 0
    &&& spec_strings_of(disk, ob, strings)
}

/// The first directory element of `dstream`'s content whose name matches
/// the candidate carries the (present) object reference `ox`: every
/// earlier element decodes to a non-matching name.
pub open spec fn spec_dir_stream_hit(
    disk: Seq<u8>,
    strings: Option<StreamListing>,
    dstream: StreamListing,
    nameb: Seq<u8>,
    ox: u64,
) -> bool {
    exists|k: int, el: DirectoryElement|
        #![trigger direlem_matches_bytes(el, spec_element_bytes(spec_listing_content(disk, dstream), k))]
        {
            &&& 0 <= k
            &&& k * DIRELEM_SIZE + DIRELEM_SIZE <= spec_listing_content(disk, dstream).len()
            &&& direlem_matches_bytes(
                el,
                spec_element_bytes(spec_listing_content(disk, dstream), k),
            )
            &&& spec_element_name_matches(disk, strings, el, nameb) == Some(true)
            &&& el.objidx == ox
            &&& forall|j: int|
                0 <= j < k ==> spec_element_no_match(disk, dstream, strings, j, nameb)
        }
}

/// Entry `sid` of `ob`'s stream array decodes to `l`.
pub open spec fn spec_stream_entry_ok(disk: Seq<u8>, ob: Object, sid: u64, l: StreamListing) -> bool {
    &&& sid * LISTING_SIZE < ob.streams_size
    &&& sid * LISTING_SIZE + LISTING_SIZE <= spec_obj_streams_content(disk, ob).len()
    &&& listing_matches_bytes(l, spec_entry_bytes(spec_obj_streams_content(disk, ob), sid as int))
}

/// `strings` is the Strings stream of `ob`: absent exactly when the object
/// records none, else the listing at the recorded stream index.
pub open spec fn spec_strings_of(disk: Seq<u8>, ob: Object, strings: Option<StreamListing>) -> bool {
    match strings {
        None => ob.strings_stream == 0,
        Some(sl) => ob.strings_stream != 0 && spec_stream_entry_ok(disk, ob, ob.strings_stream, sl),
    }
}

/// Stream entry `k` of `ob` decodes to some listing whose name does not
/// match the candidate.
pub open spec fn spec_entry_no_match(
    disk: Seq<u8>,
    ob: Object,
    strings: Option<StreamListing>,
    k: int,
    nameb: Seq<u8>,
) -> bool {
    exists|l: StreamListing|
        #![trigger listing_matches_bytes(l, spec_entry_bytes(spec_obj_streams_content(disk, ob), k))]
        listing_matches_bytes(l, spec_entry_bytes(spec_obj_streams_content(disk, ob), k))
            && spec_listing_name_matches(disk, strings, l, nameb) == Some(false)
}

/// Compares two byte slices for equality.
fn bytes_eq(a: &[u8], b: &[u8]) -> (r: bool)
    ensures
        r <==> a@ == b@,
{
    let alen = a.len();
    let blen = b.len();
    if alen != blen {
        proof {
            assert(a@ != b@);
        }
        return false;
    }
    let mut i: usize = 0;
    while i < alen
        invariant
            i <= alen,
            alen == a@.len(),
            alen == b@.len(),
            forall|k: int| 0 <= k < i ==> a@[k] == b@[k],
        decreases alen - i,
    {
        if *vstd::slice::slice_index_get(a, i) != *vstd::slice::slice_index_get(b, i) {
            return false;
        }
        i = i + 1;
    }
    proof {
        assert(a@ =~= b@);
    }
    true
}

impl<S: Backing + Read + Seek> FilesystemAccess<S> {
    /// Reads stream entry `stream` of object `objid`: `NotFound` when the
    /// object is absent or a tombstone or the index lies past the stream
    /// array.
    pub fn get_stream_by_id(&mut self, objid: ObjectId, stream: StreamId) -> (r: Result<
        StreamListing,
        Error,
    >)
        requires
            objid.0 != 0,
        ensures
            final(self).disk() == old(self).disk(),
            match r {
                Ok(l) => final(self).cached() matches Some(de) && desc_obtained(
                    old(self).cached(),
                    old(self).disk(),
                    de,
                ) && (exists|ob: Object|
                    #![trigger object_matches_bytes(ob, disk_obj_bytes(old(self).disk(), de, objid.0))]
                    {
                        &&& object_matches_bytes(
                            ob,
                            disk_obj_bytes(old(self).disk(), de, objid.0),
                        )
                        &&& ob.weak_ref != 0
                        &&& ob.strong_ref != 0
                        &&& spec_stream_entry_ok(old(self).disk(), ob, stream.0, l)
                    }),
                Err(e) => e == Error::NotFound ==> (final(self).cached() matches Some(de)
                    && desc_obtained(old(self).cached(), old(self).disk(), de) && (objid.0
                    * OBJECT_SIZE > de.objtab_size || slot_weak_ref(old(self).disk(), de, objid.0)
                    == 0 || (exists|ob: Object|
                    #![trigger object_matches_bytes(ob, disk_obj_bytes(old(self).disk(), de, objid.0))]
                    {
                        &&& object_matches_bytes(
                            ob,
                            disk_obj_bytes(old(self).disk(), de, objid.0),
                        )
                        &&& ob.weak_ref != 0
                        &&& (ob.strong_ref == 0 || stream.0 * LISTING_SIZE >= ob.streams_size)
                    }))),
            },
    {
        let obj = self.get_obj_by_id(objid)?;
        if obj.strong_ref == 0 {
            return Err(Error::NotFound);
        }
        let pos = match stream.0.checked_mul(LISTING_SIZE as u64) {
            Some(p) => p,
            None => {
                return Err(Error::NotFound);
            },
        };
        if pos >= obj.streams_size {
            return Err(Error::NotFound);
        }
        let mut buf: Vec<u8> = vec![0u8; LISTING_SIZE];
        self.read_fully_by_indirection(
            pos,
            &mut buf,
            obj.streams_ref,
            obj.streams_indirection,
            obj.streams_size,
        )?;
        let l = decode_listing(buf.as_slice());
        proof {
            assert(buf@ =~= spec_entry_bytes(
                spec_obj_streams_content(self.disk(), obj),
                stream.0 as int,
            ));
            assert(spec_stream_entry_ok(old(self).disk(), obj, stream.0, l));
            let de = self.cached()->Some_0;
            assert(object_matches_bytes(obj, disk_obj_bytes(old(self).disk(), de, objid.0)));
        }
        Ok(l)
    }
}


/// Directory element `k` of the content of `dstream` decodes to some
/// element whose name does not match the candidate.
pub open spec fn spec_element_no_match(
    disk: Seq<u8>,
    dstream: StreamListing,
    strings: Option<StreamListing>,
    k: int,
    nameb: Seq<u8>,
) -> bool {
    exists|el: DirectoryElement|
        #![trigger direlem_matches_bytes(el, spec_element_bytes(spec_listing_content(disk, dstream), k))]
        direlem_matches_bytes(el, spec_element_bytes(spec_listing_content(disk, dstream), k))
            && spec_element_name_matches(disk, strings, el, nameb) == Some(false)
}

impl<S: Backing + Read + Seek> FilesystemAccess<S> {
    /// Scans the stream entries of `obj` in index order and returns the
    /// first whose name matches the candidate bytes, with its index.
    /// `NotFound` means every entry was examined and none matched.
    #[verifier::loop_isolation(false)]
    pub fn scan_streams(&mut self, obj: &Object, strings: &Option<StreamListing>, name: &[u8]) -> (r:
        Result<(StreamId, StreamListing), Error>)
        ensures
            final(self).disk() == old(self).disk(),
            final(self).cached() == old(self).cached(),
            match r {
                Ok((sid, l)) => {
                    &&& spec_stream_entry_ok(old(self).disk(), *obj, sid.0, l)
                    &&& spec_listing_name_matches(old(self).disk(), *strings, l, name@) == Some(
                        true,
                    )
                    &&& forall|k: int|
                        0 <= k < sid.0 ==> spec_entry_no_match(
                            old(self).disk(),
                            *obj,
                            *strings,
                            k,
                            name@,
                        )
                },
                Err(e) => e == Error::NotFound ==> forall|k: int|
                    0 <= k && k * LISTING_SIZE < obj.streams_size ==> spec_entry_no_match(
                        old(self).disk(),
                        *obj,
                        *strings,
                        k,
                        name@,
                    ),
            },
    {
        let ghost d = old(self).disk();
        let mut idx: u64 = 0;
        while (idx as u128) * (LISTING_SIZE as u128) < obj.streams_size as u128
            invariant
                self.disk() == d,
                self.cached() == old(self).cached(),
                forall|k: int|
                    0 <= k < idx ==> spec_entry_no_match(d, *obj, *strings, k, name@),
            decreases obj.streams_size as int - idx * LISTING_SIZE,
        {
            let pos: u64 = idx * (LISTING_SIZE as u64);
            let mut buf: Vec<u8> = vec![0u8; LISTING_SIZE];
            self.read_fully_by_indirection(
                pos,
                &mut buf,
                obj.streams_ref,
                obj.streams_indirection,
                obj.streams_size,
            )?;
            let l = decode_listing(buf.as_slice());
            proof {
                assert(buf@ =~= spec_entry_bytes(spec_obj_streams_content(d, *obj), idx as int));
                assert(listing_matches_bytes(
                    l,
                    spec_entry_bytes(spec_obj_streams_content(d, *obj), idx as int),
                ));
            }
            let matched: bool;
            if l.name_ref != 0 {
                match strings {
                    Some(sl) => {
                        let o = self.cmp_from_stream_bytes(name, l.name_ref, sl)?;
                        matched = match o {
                            Ordering::Equal => true,
                            _ => false,
                        };
                    },
                    None => {
                        matched = false;
                    },
                }
            } else {
                let inline_name = crate::helpers::before_nul(
                    vstd::array::array_as_slice(&l.name),
                );
                matched = bytes_eq(name, inline_name.as_slice());
            }
            if matched {
                proof {
                    assert(spec_listing_name_matches(d, *strings, l, name@) == Some(true));
                }
                return Ok((StreamId(idx), l));
            }
            proof {
                assert(spec_listing_name_matches(d, *strings, l, name@) == Some(false));
                assert(spec_entry_no_match(d, *obj, *strings, idx as int, name@));
            }
            idx = idx + 1;
        }
        proof {
            assert forall|k: int| 0 <= k && k * LISTING_SIZE < obj.streams_size implies
                spec_entry_no_match(d, *obj, *strings, k, name@) by {
                if k >= idx {
                    assert(k * LISTING_SIZE >= idx * LISTING_SIZE);
                }
            }
        }
        Err(Error::NotFound)
    }

    /// Finds a stream of object `objid` by candidate name bytes.
    fn find_stream_bytes(&mut self, objid: ObjectId, name: &[u8]) -> (r: Result<
        (StreamId, StreamListing),
        Error,
    >)
        requires
            objid.0 != 0,
        ensures
            final(self).disk() == old(self).disk(),
            match r {
                Ok((sid, l)) => final(self).cached() matches Some(de) && desc_obtained(
                    old(self).cached(),
                    old(self).disk(),
                    de,
                ) && (exists|ob: Object, strings: Option<StreamListing>|
                    #![trigger spec_strings_of_obj(old(self).disk(), de, objid.0, ob, strings)]
                    {
                        &&& spec_strings_of_obj(old(self).disk(), de, objid.0, ob, strings)
                        &&& spec_stream_entry_ok(old(self).disk(), ob, sid.0, l)
                        &&& spec_listing_name_matches(old(self).disk(), strings, l, name@)
                            == Some(true)
                        &&& forall|k: int|
                            0 <= k < sid.0 ==> spec_entry_no_match(
                                old(self).disk(),
                                ob,
                                strings,
                                k,
                                name@,
                            )
                    }),
                Err(e) => e == Error::NotFound ==> (final(self).cached() matches Some(de)
                    && desc_obtained(old(self).cached(), old(self).disk(), de) && (objid.0
                    * OBJECT_SIZE > de.objtab_size || slot_weak_ref(
                    old(self).disk(),
                    de,
                    objid.0,
                ) == 0 || (exists|ob: Object|
                    #![trigger object_matches_bytes(ob, disk_obj_bytes(old(self).disk(), de, objid.0))]
                    {
                        &&& object_matches_bytes(
                            ob,
                            disk_obj_bytes(old(self).disk(), de, objid.0),
                        )
                        &&& ob.weak_ref != 0
                        &&& ob.strings_stream != 0
                        &&& (ob.strong_ref == 0 || ob.strings_stream * LISTING_SIZE
                            >= ob.streams_size)
                    }) || (exists|ob: Object, strings: Option<StreamListing>|
                    #![trigger spec_strings_of_obj(old(self).disk(), de, objid.0, ob, strings)]
                    {
                        &&& spec_strings_of_obj(old(self).disk(), de, objid.0, ob, strings)
                        &&& forall|k: int|
                            0 <= k && k * LISTING_SIZE < ob.streams_size ==> spec_entry_no_match(
                                old(self).disk(),
                                ob,
                                strings,
                                k,
                                name@,
                            )
                    }))),
            },
    {
        let obj = self.get_obj_by_id(objid)?;
        let ghost de = self.cached()->Some_0;
        let strings: Option<StreamListing> = if obj.strings_stream != 0 {
            match self.get_stream_by_id(objid, StreamId(obj.strings_stream)) {
                Ok(sl) => {
                    proof {
                        let ob2 = choose|ob2: Object|
                            #![trigger object_matches_bytes(ob2, disk_obj_bytes(old(self).disk(), de, objid.0))]
                            {
                                &&& object_matches_bytes(
                                    ob2,
                                    disk_obj_bytes(old(self).disk(), de, objid.0),
                                )
                                &&& ob2.weak_ref != 0
                                &&& ob2.strong_ref != 0
                                &&& spec_stream_entry_ok(
                                    old(self).disk(),
                                    ob2,
                                    obj.strings_stream,
                                    sl,
                                )
                            };
                        crate::object::lemma_object_matches_unique(
                            obj,
                            ob2,
                            disk_obj_bytes(old(self).disk(), de, objid.0),
                        );
                        assert(spec_stream_entry_ok(
                            old(self).disk(),
                            obj,
                            obj.strings_stream,
                            sl,
                        ));
                    }
                    Some(sl)
                },
                Err(e) => {
                    proof {
                        if e == Error::NotFound && !(objid.0 * OBJECT_SIZE > de.objtab_size
                            || slot_weak_ref(old(self).disk(), de, objid.0) == 0) {
                            let ob2 = choose|ob2: Object|
                                #![trigger object_matches_bytes(ob2, disk_obj_bytes(old(self).disk(), de, objid.0))]
                                {
                                    &&& object_matches_bytes(
                                        ob2,
                                        disk_obj_bytes(old(self).disk(), de, objid.0),
                                    )
                                    &&& ob2.weak_ref != 0
                                    &&& (ob2.strong_ref == 0 || obj.strings_stream
                                        * LISTING_SIZE >= ob2.streams_size)
                                };
                            crate::object::lemma_object_matches_unique(
                                obj,
                                ob2,
                                disk_obj_bytes(old(self).disk(), de, objid.0),
                            );
                            assert(obj.strings_stream != 0 && (obj.strong_ref == 0
                                || obj.strings_stream * LISTING_SIZE >= obj.streams_size));
                        }
                    }
                    return Err(e);
                },
            }
        } else {
            None
        };
        proof {
            assert(spec_strings_of_obj(old(self).disk(), de, objid.0, obj, strings));
        }
        match self.scan_streams(&obj, &strings, name) {
            Ok(got) => Ok(got),
            Err(e) => Err(e),
        }
    }

    /// Finds a stream of object `objid` whose stored name (inline or via
    /// the object's Strings stream) equals the candidate name, returning
    /// the first match in index order.
    pub fn find_stream_by_id(&mut self, objid: ObjectId, stream: &str) -> (r: Result<
        (StreamId, StreamListing),
        Error,
    >)
        requires
            objid.0 != 0,
        ensures
            final(self).disk() == old(self).disk(),
            match r {
                Ok((sid, l)) => final(self).cached() matches Some(de) && desc_obtained(
                    old(self).cached(),
                    old(self).disk(),
                    de,
                ) && (exists|ob: Object, strings: Option<StreamListing>|
                    #![trigger spec_strings_of_obj(old(self).disk(), de, objid.0, ob, strings)]
                    {
                        &&& spec_strings_of_obj(old(self).disk(), de, objid.0, ob, strings)
                        &&& spec_stream_entry_ok(old(self).disk(), ob, sid.0, l)
                        &&& spec_listing_name_matches(
                            old(self).disk(),
                            strings,
                            l,
                            stream.spec_bytes(),
                        ) == Some(true)
                        &&& forall|k: int|
                            0 <= k < sid.0 ==> spec_entry_no_match(
                                old(self).disk(),
                                ob,
                                strings,
                                k,
                                stream.spec_bytes(),
                            )
                    }),
                Err(e) => e == Error::NotFound ==> (final(self).cached() matches Some(de)
                    && desc_obtained(old(self).cached(), old(self).disk(), de) && (objid.0
                    * OBJECT_SIZE > de.objtab_size || slot_weak_ref(
                    old(self).disk(),
                    de,
                    objid.0,
                ) == 0 || (exists|ob: Object|
                    #![trigger object_matches_bytes(ob, disk_obj_bytes(old(self).disk(), de, objid.0))]
                    {
                        &&& object_matches_bytes(
                            ob,
                            disk_obj_bytes(old(self).disk(), de, objid.0),
                        )
                        &&& ob.weak_ref != 0
                        &&& ob.strings_stream != 0
                        &&& (ob.strong_ref == 0 || ob.strings_stream * LISTING_SIZE
                            >= ob.streams_size)
                    }) || (exists|ob: Object, strings: Option<StreamListing>|
                    #![trigger spec_strings_of_obj(old(self).disk(), de, objid.0, ob, strings)]
                    {
                        &&& spec_strings_of_obj(old(self).disk(), de, objid.0, ob, strings)
                        &&& forall|k: int|
                            0 <= k && k * LISTING_SIZE < ob.streams_size ==> spec_entry_no_match(
                                old(self).disk(),
                                ob,
                                strings,
                                k,
                                stream.spec_bytes(),
                            )
                    }))),
            },
    {
        self.find_stream_bytes(objid, stream.as_bytes())
    }

    /// Scans the directory elements held in `dstream`'s content and
    /// resolves the first whose name matches; a matching element with an
    /// absent object reference is reported as `NotFound`.
    #[verifier::loop_isolation(false)]
    pub fn scan_directory(
        &mut self,
        dstream: &StreamListing,
        strings: &Option<StreamListing>,
        name: &[u8],
    ) -> (r: Result<u64, Error>)
        ensures
            final(self).disk() == old(self).disk(),
            final(self).cached() == old(self).cached(),
            match r {
                Ok(ox) => ox != 0 && (exists|k: int, el: DirectoryElement|
                    #![trigger direlem_matches_bytes(el, spec_element_bytes(spec_listing_content(old(self).disk(), *dstream), k))]
                    {
                        &&& 0 <= k
                        &&& k * DIRELEM_SIZE + DIRELEM_SIZE <= spec_listing_content(
                            old(self).disk(),
                            *dstream,
                        ).len()
                        &&& direlem_matches_bytes(
                            el,
                            spec_element_bytes(
                                spec_listing_content(old(self).disk(), *dstream),
                                k,
                            ),
                        )
                        &&& spec_element_name_matches(old(self).disk(), *strings, el, name@)
                            == Some(true)
                        &&& el.objidx == ox
                        &&& forall|j: int|
                            0 <= j < k ==> spec_element_no_match(
                                old(self).disk(),
                                *dstream,
                                *strings,
                                j,
                                name@,
                            )
                    }),
                Err(e) => e == Error::NotFound ==> (forall|j: int|
                    0 <= j < dstream.size as int / (DIRELEM_SIZE as int)
                        ==> spec_element_no_match(
                        old(self).disk(),
                        *dstream,
                        *strings,
                        j,
                        name@,
                    )) || (exists|k: int, el: DirectoryElement|
                    #![trigger direlem_matches_bytes(el, spec_element_bytes(spec_listing_content(old(self).disk(), *dstream), k))]
                    {
                        &&& 0 <= k
                        &&& k * DIRELEM_SIZE + DIRELEM_SIZE <= spec_listing_content(
                            old(self).disk(),
                            *dstream,
                        ).len()
                        &&& direlem_matches_bytes(
                            el,
                            spec_element_bytes(
                                spec_listing_content(old(self).disk(), *dstream),
                                k,
                            ),
                        )
                        &&& spec_element_name_matches(old(self).disk(), *strings, el, name@)
                            == Some(true)
                        &&& el.objidx == 0
                        &&& forall|j: int|
                            0 <= j < k ==> spec_element_no_match(
                                old(self).disk(),
                                *dstream,
                                *strings,
                                j,
                                name@,
                            )
                    }),
            },
    {
        let ghost d = old(self).disk();
        let count: u64 = dstream.size / (DIRELEM_SIZE as u64);
        let mut i: u64 = 0;
        while i < count
            invariant
                self.disk() == d,
                self.cached() == old(self).cached(),
                count == dstream.size / (DIRELEM_SIZE as u64),
                i <= count,
                forall|j: int|
                    0 <= j < i ==> spec_element_no_match(d, *dstream, *strings, j, name@),
            decreases count - i,
        {
            proof {
                assert(count * (DIRELEM_SIZE as u64) <= dstream.size) by (nonlinear_arith)
                    requires count == dstream.size / (DIRELEM_SIZE as u64);
                assert(i * (DIRELEM_SIZE as u64) < count * (DIRELEM_SIZE as u64));
            }
            let pos: u64 = i * (DIRELEM_SIZE as u64);
            let mut buf: Vec<u8> = vec![0u8; DIRELEM_SIZE];
            self.read_fully_from_stream(&mut buf, pos, dstream)?;
            let el = decode_direlem(buf.as_slice());
            proof {
                assert(buf@ =~= spec_element_bytes(spec_listing_content(d, *dstream), i as int));
                assert(direlem_matches_bytes(
                    el,
                    spec_element_bytes(spec_listing_content(d, *dstream), i as int),
                ));
            }
            let matched: bool;
            if el.name_index != 0 {
                match strings {
                    Some(sl) => {
                        let o = self.cmp_from_stream_bytes(name, el.name_index, sl)?;
                        matched = match o {
                            Ordering::Equal => true,
                            _ => false,
                        };
                    },
                    None => {
                        matched = false;
                    },
                }
            } else {
                let inline_name = crate::helpers::before_nul(
                    vstd::array::array_as_slice(&el.name),
                );
                matched = bytes_eq(name, inline_name.as_slice());
            }
            if matched {
                proof {
                    assert(spec_element_name_matches(d, *strings, el, name@) == Some(true));
                }
                if el.objidx != 0 {
                    return Ok(el.objidx);
                }
                return Err(Error::NotFound);
            }
            proof {
                assert(spec_element_name_matches(d, *strings, el, name@) == Some(false));
                assert(spec_element_no_match(d, *dstream, *strings, i as int, name@));
            }
            i = i + 1;
        }
        Err(Error::NotFound)
    }

    /// Searches the `DirectoryContent` stream of object `objid` for the
    /// first child of the given name and returns the child's object id.
    /// `NotFound` reports exactly: a missing or unused object, a dangling
    /// Strings reference, no stream named `DirectoryContent`, no element
    /// whose name matches, or a first matching element whose object
    /// reference is absent (a soft-absent child).
    #[verifier::rlimit(60)]
    #[verifier::spinoff_prover]
    pub fn search_directory(&mut self, objid: ObjectId, subfilename: &str) -> (r: Result<
        ObjectId,
        Error,
    >)
        requires
            objid.0 != 0,
        ensures
            final(self).disk() == old(self).disk(),
            match r {
                Ok(oid) => oid.0 != 0 && spec_search_ok(
                    old(self).cached(),
                    old(self).disk(),
                    final(self).cached(),
                    objid.0,
                    subfilename.spec_bytes(),
                    oid.0,
                ),
                Err(e) => e == Error::NotFound ==> spec_search_not_found(
                    old(self).cached(),
                    old(self).disk(),
                    final(self).cached(),
                    objid.0,
                    subfilename.spec_bytes(),
                ),
            },
    {
        let obj = match self.get_obj_by_id(objid) {
            Ok(o) => o,
            Err(e) => {
                proof {
                    if e == Error::NotFound {
                        assert(spec_search_not_found(
                            old(self).cached(),
                            old(self).disk(),
                            self.cached(),
                            objid.0,
                            subfilename.spec_bytes(),
                        ));
                    }
                }
                return Err(e);
            },
        };
        let ghost de = self.cached()->Some_0;
        let dirname = name_directory_content();
        let found = match self.find_stream_bytes(objid, dirname.as_slice()) {
            Ok(f) => f,
            Err(e) => {
                proof {
                    if e == Error::NotFound {
                        assert(dirname@ == spec_name_directory_content());
                        assert(spec_search_not_found(
                            old(self).cached(),
                            old(self).disk(),
                            self.cached(),
                            objid.0,
                            subfilename.spec_bytes(),
                        ));
                    }
                }
                return Err(e);
            },
        };
        let dstream = found.1;
        let strings: Option<StreamListing> = if obj.strings_stream != 0 {
            let sl = match self.get_stream_by_id(objid, StreamId(obj.strings_stream)) {
                Ok(sl) => sl,
                Err(e) => {
                    proof {
                        if e == Error::NotFound && !(objid.0 * OBJECT_SIZE > de.objtab_size
                            || slot_weak_ref(old(self).disk(), de, objid.0) == 0) {
                            let ob2 = choose|ob2: Object|
                                #![trigger object_matches_bytes(ob2, disk_obj_bytes(old(self).disk(), de, objid.0))]
                                {
                                    &&& object_matches_bytes(
                                        ob2,
                                        disk_obj_bytes(old(self).disk(), de, objid.0),
                                    )
                                    &&& ob2.weak_ref != 0
                                    &&& (ob2.strong_ref == 0 || obj.strings_stream
                                        * LISTING_SIZE >= ob2.streams_size)
                                };
                            crate::object::lemma_object_matches_unique(
                                obj,
                                ob2,
                                disk_obj_bytes(old(self).disk(), de, objid.0),
                            );
                            assert(obj.strings_stream != 0 && (obj.strong_ref == 0
                                || obj.strings_stream * LISTING_SIZE >= obj.streams_size));
                        }
                        if e == Error::NotFound {
                            assert(spec_search_not_found(
                                old(self).cached(),
                                old(self).disk(),
                                self.cached(),
                                objid.0,
                                subfilename.spec_bytes(),
                            ));
                        }
                    }
                    return Err(e);
                },
            };
            proof {
                let ob2 = choose|ob2: Object|
                    #![trigger object_matches_bytes(ob2, disk_obj_bytes(old(self).disk(), de, objid.0))]
                    {
                        &&& object_matches_bytes(
                            ob2,
                            disk_obj_bytes(old(self).disk(), de, objid.0),
                        )
                        &&& ob2.weak_ref != 0
                        &&& ob2.strong_ref != 0
                        &&& spec_stream_entry_ok(
                            old(self).disk(),
                            ob2,
                            obj.strings_stream,
                            sl,
                        )
                    };
                crate::object::lemma_object_matches_unique(
                    obj,
                    ob2,
                    disk_obj_bytes(old(self).disk(), de, objid.0),
                );
                assert(spec_stream_entry_ok(old(self).disk(), obj, obj.strings_stream, sl));
            }
            Some(sl)
        } else {
            None
        };
        proof {
            assert(spec_strings_of_obj(old(self).disk(), de, objid.0, obj, strings));
            let (ob0, strings0) = choose|ob0: Object, strings0: Option<StreamListing>|
                #![trigger spec_strings_of_obj(old(self).disk(), de, objid.0, ob0, strings0)]
                {
                    &&& spec_strings_of_obj(old(self).disk(), de, objid.0, ob0, strings0)
                    &&& spec_stream_entry_ok(old(self).disk(), ob0, found.0.0, dstream)
                    &&& spec_listing_name_matches(old(self).disk(), strings0, dstream, dirname@)
                        == Some(true)
                    &&& forall|k: int|
                        0 <= k < found.0.0 ==> spec_entry_no_match(
                            old(self).disk(),
                            ob0,
                            strings0,
                            k,
                            dirname@,
                        )
                };
            crate::object::lemma_object_matches_unique(
                obj,
                ob0,
                disk_obj_bytes(old(self).disk(), de, objid.0),
            );
            if strings is Some && strings0 is Some {
                crate::object::lemma_listing_matches_unique(
                    strings->Some_0,
                    strings0->Some_0,
                    spec_entry_bytes(
                        spec_obj_streams_content(old(self).disk(), obj),
                        obj.strings_stream as int,
                    ),
                );
            }
            assert(strings0 == strings);
            assert(spec_listing_name_matches(
                old(self).disk(),
                strings,
                dstream,
                spec_name_directory_content(),
            ) == Some(true));
        }
        let sname = subfilename.as_bytes();
        let ox = match self.scan_directory(&dstream, &strings, sname) {
            Ok(ox) => ox,
            Err(e) => {
                proof {
                    if e == Error::NotFound {
                        assert(spec_strings_of_obj(
                            old(self).disk(),
                            de,
                            objid.0,
                            obj,
                            strings,
                        ));
                        assert(spec_search_not_found(
                            old(self).cached(),
                            old(self).disk(),
                            self.cached(),
                            objid.0,
                            subfilename.spec_bytes(),
                        ));
                    }
                }
                return Err(e);
            },
        };
        proof {
            assert(spec_dir_stream_hit(
                old(self).disk(),
                strings,
                dstream,
                subfilename.spec_bytes(),
                ox,
            ));
            assert(spec_search_ok(
                old(self).cached(),
                old(self).disk(),
                self.cached(),
                objid.0,
                subfilename.spec_bytes(),
                ox,
            ));
        }
        Ok(ObjectId(ox))
    }
}


/// The span recorded in allocation-table slot `i` (the table begins at
/// byte `begin`).
pub open spec fn spec_alloc_span(disk: Seq<u8>, begin: u64, i: int) -> VolumeSpan {
    spec_span_abs(disk, begin + i * SPAN_SIZE)
}

/// One past the highest sector covered by the first `n` allocation-table
/// entries (entries of zero extent are empty slots and do not count).
pub open spec fn spec_alloc_max_end(disk: Seq<u8>, begin: u64, n: int) -> int
    decreases n,
{
    if n <= 0 {
        0
    } else {
        let s = spec_alloc_span(disk, begin, n - 1);
        let prev = spec_alloc_max_end(disk, begin, n - 1);
        let e = if s.extent > 0 {
            s.base_sector + s.extent
        } else {
            0
        };
        if e > prev {
            e
        } else {
            prev
        }
    }
}

impl<S: Backing + Read + Write + Seek> FilesystemAccess<S> {
    /// Allocates `size` contiguous sectors: scans the allocation table,
    /// places the region after the highest sector any recorded span
    /// covers, records it in the first empty table slot, and returns its
    /// base sector. A full table, or a region that would run into the
    /// object table, is `Unsupported`.
    #[verifier::loop_isolation(false)]
    pub fn allocate_contiguous_space(&mut self, size: u64) -> (r: Result<SectorPos, Error>)
        ensures
            final(self).disk().len() == old(self).disk().len(),
            old(self).cached() is Some ==> final(self).cached() == old(self).cached(),
            old(self).cached() is None ==> final(self).cached() is None || (final(self).cached()
                matches Some(d) && desc_obtained(None, old(self).disk(), d)),
            match r {
                Ok(p) => (final(self).cached() matches Some(de) && desc_obtained(
                    old(self).cached(),
                    old(self).disk(),
                    de,
                ) && {
                    let count = de.alloc_tab_size as int / SPAN_SIZE as int;
                    &&& p.0 == spec_alloc_max_end(old(self).disk(), de.alloc_tab_begin, count)
                    &&& (p.0 + size) * 1024 + de.objtab_size <= de.objtab_end * 1024
                    &&& exists|slot: int|
                        #![trigger spec_alloc_span(old(self).disk(), de.alloc_tab_begin, slot)]
                        {
                            &&& 0 <= slot < count
                            &&& spec_alloc_span(old(self).disk(), de.alloc_tab_begin, slot).extent
                                == 0
                            &&& forall|j: int|
                                0 <= j < slot ==> spec_alloc_span(
                                    old(self).disk(),
                                    de.alloc_tab_begin,
                                    j,
                                ).extent != 0
                            &&& forall|t: int|
                                0 <= t < SPAN_SIZE ==> #[trigger] final(self).disk()[de.alloc_tab_begin
                                    + slot * SPAN_SIZE + t] == spec_encode_span(
                                    VolumeSpan { base_sector: p.0, extent: size, reserved: 0 },
                                )[t]
                            &&& forall|i: int|
                                0 <= i < old(self).disk().len() && !(de.alloc_tab_begin + slot
                                    * SPAN_SIZE <= i < de.alloc_tab_begin + slot * SPAN_SIZE
                                    + SPAN_SIZE) ==> final(self).disk()[i] == old(self).disk()[i]
                        }
                }),
                Err(e) => e != Error::NotFound,
            },
    {
        let desc = self.get_or_read_descriptor()?;
        let ghost d = self.disk();
        let ghost de = self.cached()->Some_0;
        let count: u64 = desc.alloc_tab_size / (SPAN_SIZE as u64);
        let mut i: u64 = 0;
        let mut max_end: u128 = 0;
        let mut free_slot: Option<u64> = None;
        while i < count
            invariant
                self.disk() == d,
                self.cached() == Some(de),
                count == de.alloc_tab_size / (SPAN_SIZE as u64),
                i <= count,
                max_end == spec_alloc_max_end(d, de.alloc_tab_begin, i as int),
                match free_slot {
                    Some(fsl) => 0 <= fsl < i && spec_alloc_span(
                        d,
                        de.alloc_tab_begin,
                        fsl as int,
                    ).extent == 0 && (forall|j: int|
                        0 <= j < fsl ==> spec_alloc_span(d, de.alloc_tab_begin, j).extent != 0),
                    None => forall|j: int|
                        0 <= j < i ==> spec_alloc_span(d, de.alloc_tab_begin, j).extent != 0,
                },
            decreases count - i,
        {
            proof {
                assert(count * (SPAN_SIZE as u64) <= de.alloc_tab_size) by (nonlinear_arith)
                    requires count == de.alloc_tab_size / (SPAN_SIZE as u64);
                assert(i * (SPAN_SIZE as u64) < count * (SPAN_SIZE as u64));
            }
            let pos: u64 = match desc.alloc_tab_begin.checked_add(i * (SPAN_SIZE as u64)) {
                Some(p) => p,
                None => {
                    return Err(Error::Unsupported);
                },
            };
            self.seek_to_byte(pos as u128)?;
            let mut buf: Vec<u8> = vec![0u8; SPAN_SIZE];
            self.stream.read_fully(&mut buf)?;
            let sp = decode_span(buf.as_slice());
            proof {
                assert(buf@ =~= bytes_at(d, pos as int, SPAN_SIZE as nat));
                lemma_span_abs_bytes(d, pos as int, sp);
                assert(sp == spec_alloc_span(d, de.alloc_tab_begin, i as int));
            }
            if sp.extent > 0 {
                let e = match sp.base_sector.checked_add(sp.extent as u128) {
                    Some(e) => e,
                    None => {
                        return Err(Error::Unsupported);
                    },
                };
                if e > max_end {
                    max_end = e;
                }
            } else {
                if free_slot.is_none() {
                    free_slot = Some(i);
                }
            }
            i = i + 1;
        }
        let slot = match free_slot {
            Some(sl) => sl,
            None => {
                return Err(Error::Unsupported);
            },
        };
        let new_end = match max_end.checked_add(size as u128) {
            Some(e) => e,
            None => {
                return Err(Error::Unsupported);
            },
        };
        let end_bytes = match new_end.checked_mul(1024) {
            Some(b) => b,
            None => {
                return Err(Error::Unsupported);
            },
        };
        let objtab_bytes = match desc.objtab_end.checked_mul(1024) {
            Some(b) => b,
            None => {
                return Err(Error::Unsupported);
            },
        };
        if objtab_bytes < desc.objtab_size as u128 || end_bytes > objtab_bytes
            - desc.objtab_size as u128 {
            return Err(Error::Unsupported);
        }
        let span = VolumeSpan { base_sector: max_end, extent: size, reserved: 0 };
        let bytes = encode_span(&span);
        proof {
            assert(count * (SPAN_SIZE as u64) <= de.alloc_tab_size) by (nonlinear_arith)
                requires count == de.alloc_tab_size / (SPAN_SIZE as u64);
            assert(slot * (SPAN_SIZE as u64) < count * (SPAN_SIZE as u64));
        }
        let wpos: u64 = match desc.alloc_tab_begin.checked_add(slot * (SPAN_SIZE as u64)) {
            Some(p) => p,
            None => {
                return Err(Error::Unsupported);
            },
        };
        self.seek_to_byte(wpos as u128)?;
        self.stream.write_all(bytes.as_slice())?;
        proof {
            assert forall|t: int| 0 <= t < SPAN_SIZE implies #[trigger] self.disk()[de.alloc_tab_begin
                + slot * SPAN_SIZE + t] == spec_encode_span(span)[t] by {
                assert(self.stream.data()[wpos + t] == bytes@[t]);
            }
        }
        Ok(SectorPos(max_end))
    }
}


/// A freshly initialized named stream entry: inline zero-padded name, the
/// required flag, no reference and no content.
pub open spec fn spec_fresh_named_listing(l: StreamListing, nameb: Seq<u8>) -> bool {
    &&& l.name@ == crate::helpers::spec_extend_bytes(nameb, 32)
    &&& l.name_ref == 0
    &&& l.flags.0 == STREAM_REQUIRED
    &&& l.content_ref == 0
    &&& l.size == 0
    &&& l.reserved@ == Seq::new(24, |i: int| 0u8)
    &&& l.inline_data@ == Seq::new(32, |i: int| 0u8)
}

/// The freshly initialized `Streams` entry: like a fresh named entry but
/// carrying the streams block itself at indirection 1.
pub open spec fn spec_fresh_streams_listing(l: StreamListing, base: u128) -> bool {
    &&& l.name@ == crate::helpers::spec_extend_bytes(spec_name_streams(), 32)
    &&& l.name_ref == 0
    &&& l.flags.0 == STREAM_REQUIRED | 0x10
    &&& l.content_ref == base
    &&& l.size == 2048
    &&& l.reserved@ == Seq::new(24, |i: int| 0u8)
    &&& l.inline_data@ == Seq::new(32, |i: int| 0u8)
}

/// A freshly initialized 2048-byte streams block at sector `base`: the
/// `Streams`, `Strings` and `SecurityDescriptor` entries followed by
/// thirteen zeroed entries.
pub open spec fn spec_fresh_block(disk: Seq<u8>, base: u128) -> bool {
    &&& exists|l0: StreamListing, l1: StreamListing, l2: StreamListing|
        #![trigger listing_matches_bytes(l0, bytes_at(disk, base * 1024, LISTING_SIZE as nat)), listing_matches_bytes(l1, bytes_at(disk, base * 1024 + LISTING_SIZE, LISTING_SIZE as nat)), listing_matches_bytes(l2, bytes_at(disk, base * 1024 + 2 * LISTING_SIZE, LISTING_SIZE as nat))]
        {
            &&& listing_matches_bytes(l0, bytes_at(disk, base * 1024, LISTING_SIZE as nat))
            &&& spec_fresh_streams_listing(l0, base)
            &&& listing_matches_bytes(
                l1,
                bytes_at(disk, base * 1024 + LISTING_SIZE, LISTING_SIZE as nat),
            )
            &&& spec_fresh_named_listing(l1, spec_name_strings())
            &&& listing_matches_bytes(
                l2,
                bytes_at(disk, base * 1024 + 2 * LISTING_SIZE, LISTING_SIZE as nat),
            )
            &&& spec_fresh_named_listing(l2, spec_name_security_descriptor())
        }
    &&& forall|i: int|
        3 * LISTING_SIZE <= i < 2048 ==> #[trigger] byte_at(disk, base * 1024 + i) == 0
}

/// Pads name bytes with NULs into a 32-byte array.
fn name32(v: &Vec<u8>) -> (r: [u8; 32])
    requires
        v@.len() <= 32,
    ensures
        r@ == crate::helpers::spec_extend_bytes(v@, 32),
{
    let mut w = v.clone();
    while w.len() < 32
        invariant
            v@.len() <= w@.len() <= 32,
            w@ == crate::helpers::spec_extend_bytes(v@, w@.len() as nat),
        decreases 32 - w@.len(),
    {
        w.push(0u8);
        proof {
            assert(w@ =~= crate::helpers::spec_extend_bytes(v@, w@.len() as nat));
        }
    }
    bytes_from_slice::<32>(w.as_slice(), 0)
}

impl<S: Backing + Read + Write + Seek> FilesystemAccess<S> {
    /// Creates a new object: claims the first unused object-table slot
    /// (scanning from the table's end backward in slot order), allocates a
    /// two-sector streams block, writes the block's `Streams`, `Strings`
    /// and `SecurityDescriptor` entries, writes the object with one strong
    /// and one weak reference, and returns the slot index as the new
    /// object id. The size, type and ownership arguments are accepted but
    /// not yet recorded: the object is created with a zeroed type tag, and
    /// the presence of well-known streams disambiguates object kinds. With
    /// no free slot the table would have to grow, which is not
    /// implemented: `Unsupported`.
    #[allow(unused_variables)]
    #[verifier::loop_isolation(false)]
    #[verifier::rlimit(80)]
    #[verifier::spinoff_prover]
    pub fn create_object(
        &mut self,
        init_size: u64,
        ty: ObjectType,
        init_string_tab: &str,
        owner_uuid: Uuid,
    ) -> (r: Result<ObjectId, Error>)
        ensures
            final(self).disk().len() == old(self).disk().len(),
            match r {
                Ok(oid) => 1 <= oid.0 && (final(self).cached() matches Some(de) && desc_obtained(
                    old(self).cached(),
                    old(self).disk(),
                    de,
                ) && oid.0 * OBJECT_SIZE <= de.objtab_size && (forall|k: u64|
                    1 <= k < oid.0 ==> slot_weak_ref(old(self).disk(), de, k) != 0) && (exists|
                    ob: Object,
                    aslot: int,
                |
                    #![trigger object_matches_bytes(ob, disk_obj_bytes(final(self).disk(), de, oid.0)), spec_alloc_span(old(self).disk(), de.alloc_tab_begin, aslot)]
                    {
                        &&& object_matches_bytes(
                            ob,
                            disk_obj_bytes(final(self).disk(), de, oid.0),
                        )
                        &&& ob.strong_ref == 1
                        &&& ob.weak_ref == 1
                        &&& ob.streams_indirection == 1
                        &&& ob.streams_size == 2048
                        &&& ob.strings_stream == 0
                        &&& ob.ty.0 == 0
                        &&& ob.flags.0 == 0
                        &&& spec_fresh_block(final(self).disk(), ob.streams_ref)
                        &&& 0 <= aslot < de.alloc_tab_size as int / SPAN_SIZE as int
                        &&& forall|i: int|
                            0 <= i < old(self).disk().len() && !(spec_obj_slot_pos(de, oid.0)
                                <= i < spec_obj_slot_pos(de, oid.0) + OBJECT_SIZE) && !(
                            ob.streams_ref * 1024 <= i < ob.streams_ref * 1024 + 2048) && !(
                            de.alloc_tab_begin + aslot * SPAN_SIZE <= i < de.alloc_tab_begin
                                + aslot * SPAN_SIZE + SPAN_SIZE)
                                ==> #[trigger] final(self).disk()[i] == old(self).disk()[i]
                    })),
                Err(e) => e != Error::NotFound,
            },
    {
        let desc = self.get_or_read_descriptor()?;
        let ghost d0 = self.disk();
        let ghost de = self.cached()->Some_0;
        let nslots: u64 = desc.objtab_size / (OBJECT_SIZE as u64);
        let mut i: u64 = 1;
        while i <= nslots
            invariant
                self.disk() == d0,
                self.cached() == Some(de),
                nslots == de.objtab_size / (OBJECT_SIZE as u64),
                1 <= i <= nslots + 1,
                forall|k: u64| 1 <= k < i ==> slot_weak_ref(d0, de, k) != 0,
            decreases nslots + 1 - i,
        {
            proof {
                assert(nslots * (OBJECT_SIZE as u64) <= de.objtab_size) by (nonlinear_arith)
                    requires nslots == de.objtab_size / (OBJECT_SIZE as u64);
                assert(i * (OBJECT_SIZE as u64) <= nslots * (OBJECT_SIZE as u64));
            }
            let pos: u64 = i * (OBJECT_SIZE as u64);
            if pos > i64::MAX as u64 {
                return Err(Error::Unsupported);
            }
            self.stream.seek(SeekPos::StartSector(desc.objtab_end))?;
            self.stream.seek(SeekPos::Curr(-(pos as i64)))?;
            let mut buf: Vec<u8> = vec![0u8; OBJECT_SIZE];
            self.stream.read_fully(&mut buf)?;
            proof {
                assert(buf@ =~= disk_obj_bytes(d0, de, i));
            }
            let probe = decode_object(buf.as_slice());
            if probe.weak_ref == 0 {
                let streams_base = self.allocate_contiguous_space(2)?;
                let base = streams_base.0;
                let ghost d1 = self.disk();
                let ghost aslot = choose|slot: int|
                    #![trigger spec_alloc_span(d0, de.alloc_tab_begin, slot)]
                    {
                        &&& 0 <= slot < de.alloc_tab_size as int / SPAN_SIZE as int
                        &&& forall|t: int|
                            0 <= t < d0.len() && !(de.alloc_tab_begin + slot * SPAN_SIZE <= t
                                < de.alloc_tab_begin + slot * SPAN_SIZE + SPAN_SIZE)
                                ==> #[trigger] d1[t] == d0[t]
                    };
                let l0 = StreamListing {
                    name: name32(&name_streams()),
                    name_ref: 0,
                    flags: StreamFlags(STREAM_REQUIRED | 0x10),
                    content_ref: base,
                    size: 2048,
                    reserved: [0u8; 24],
                    inline_data: [0u8; 32],
                };
                let l1 = StreamListing {
                    name: name32(&name_strings()),
                    name_ref: 0,
                    flags: StreamFlags(STREAM_REQUIRED),
                    content_ref: 0,
                    size: 0,
                    reserved: [0u8; 24],
                    inline_data: [0u8; 32],
                };
                let l2 = StreamListing {
                    name: name32(&name_security_descriptor()),
                    name_ref: 0,
                    flags: StreamFlags(STREAM_REQUIRED),
                    content_ref: 0,
                    size: 0,
                    reserved: [0u8; 24],
                    inline_data: [0u8; 32],
                };
                proof {
                    assert(l0.reserved@ =~= Seq::new(24, |t: int| 0u8));
                    assert(l0.inline_data@ =~= Seq::new(32, |t: int| 0u8));
                    assert(spec_fresh_streams_listing(l0, base));
                    assert(spec_fresh_named_listing(l1, spec_name_strings()));
                    assert(spec_fresh_named_listing(l2, spec_name_security_descriptor()));
                }
                let mut block = encode_listing(&l0);
                let mut p1 = encode_listing(&l1);
                block.append(&mut p1);
                let mut p2 = encode_listing(&l2);
                block.append(&mut p2);
                let mut zt = vec![0u8; 2048 - 3 * LISTING_SIZE];
                block.append(&mut zt);
                self.stream.seek(SeekPos::StartSector(base))?;
                let ghost bpos = self.cursor();
                self.stream.write_all(block.as_slice())?;
                let ghost d2 = self.disk();
                proof {
                    assert(bpos == base * 1024);
                    assert forall|t: int| 0 <= t < 2048 implies #[trigger] d2[base * 1024 + t]
                        == block@[t] by {
                        assert(self.stream.data()[bpos + t] == block@[t]);
                    }
                }
                let obj = Object {
                    strong_ref: 1,
                    weak_ref: 1,
                    streams_size: 2048,
                    streams_ref: base,
                    streams_indirection: 1,
                    reserved33: [0u8; 5],
                    ty: ObjectType(0),
                    flags: crate::object::ObjectFlags(0),
                    strings_stream: 0,
                    reserved52: [0u8; 12],
                };
                let obytes = encode_object(&obj);
                self.stream.seek(SeekPos::StartSector(desc.objtab_end))?;
                self.stream.seek(SeekPos::Curr(-(pos as i64)))?;
                let ghost spos = self.cursor();
                self.stream.write_all(obytes.as_slice())?;
                let ghost d3 = self.disk();
                proof {
                    assert(spos == de.objtab_end * 1024 - i * OBJECT_SIZE);
                    assert forall|t: int| 0 <= t < OBJECT_SIZE implies #[trigger] d3[spos + t]
                        == obytes@[t] by {
                        assert(self.stream.data()[spos + t] == obytes@[t]);
                    }
                    lemma_encode_object_matches(obj);
                    assert(disk_obj_bytes(d3, de, i) =~= spec_encode_object(obj));
                    assert(object_matches_bytes(obj, disk_obj_bytes(d3, de, i)));
                    // the streams block lies strictly below the object table,
                    // so the slot write left it unchanged
                    assert((base + 2) * 1024 + de.objtab_size <= de.objtab_end * 1024);
                    assert forall|t: int| 0 <= t < 2048 implies #[trigger] d3[base * 1024 + t]
                        == block@[t] by {
                        assert(base * 1024 + t < spos);
                        assert(d3[base * 1024 + t] == d2[base * 1024 + t]);
                    }
                    crate::object::lemma_encode_listing_matches(l0);
                    crate::object::lemma_encode_listing_matches(l1);
                    crate::object::lemma_encode_listing_matches(l2);
                    assert(bytes_at(d3, base * 1024, LISTING_SIZE as nat) =~= spec_encode_listing(
                        l0,
                    ));
                    assert forall|t: int| 0 <= t < LISTING_SIZE implies #[trigger] bytes_at(
                        d3,
                        base * 1024 + LISTING_SIZE,
                        LISTING_SIZE as nat,
                    )[t] == spec_encode_listing(l1)[t] by {
                        assert(d3[base * 1024 + (LISTING_SIZE + t)] == block@[LISTING_SIZE + t]);
                    }
                    assert(bytes_at(d3, base * 1024 + LISTING_SIZE, LISTING_SIZE as nat)
                        =~= spec_encode_listing(l1));
                    assert forall|t: int| 0 <= t < LISTING_SIZE implies #[trigger] bytes_at(
                        d3,
                        base * 1024 + 2 * LISTING_SIZE,
                        LISTING_SIZE as nat,
                    )[t] == spec_encode_listing(l2)[t] by {
                        assert(d3[base * 1024 + (2 * LISTING_SIZE + t)] == block@[2 * LISTING_SIZE
                            + t]);
                    }
                    assert(bytes_at(d3, base * 1024 + 2 * LISTING_SIZE, LISTING_SIZE as nat)
                        =~= spec_encode_listing(l2));
                    assert(spec_fresh_block(d3, base));
                    assert forall|t: int|
                        0 <= t < d0.len() && !(spec_obj_slot_pos(de, i) <= t < spec_obj_slot_pos(
                            de,
                            i,
                        ) + OBJECT_SIZE) && !(base * 1024 <= t < base * 1024 + 2048) && !(
                        de.alloc_tab_begin + aslot * SPAN_SIZE <= t < de.alloc_tab_begin + aslot
                            * SPAN_SIZE + SPAN_SIZE) implies #[trigger] d3[t] == d0[t] by {
                        assert(d1[t] == d0[t]);
                        assert(d2[t] == d1[t]);
                        assert(d3[t] == d2[t]);
                    }
                    assert(exists|ob2: Object, aslot2: int|
                        #![trigger object_matches_bytes(ob2, disk_obj_bytes(d3, de, i)), spec_alloc_span(d0, de.alloc_tab_begin, aslot2)]
                        {
                            &&& object_matches_bytes(ob2, disk_obj_bytes(d3, de, i))
                            &&& ob2.strong_ref == 1
                            &&& ob2.weak_ref == 1
                            &&& ob2.streams_indirection == 1
                            &&& ob2.streams_size == 2048
                            &&& ob2.strings_stream == 0
                            &&& ob2.ty.0 == 0
                            &&& ob2.flags.0 == 0
                            &&& spec_fresh_block(d3, ob2.streams_ref)
                            &&& 0 <= aslot2 < de.alloc_tab_size as int / SPAN_SIZE as int
                            &&& forall|t: int|
                                0 <= t < d0.len() && !(spec_obj_slot_pos(de, i) <= t
                                    < spec_obj_slot_pos(de, i) + OBJECT_SIZE) && !(
                                ob2.streams_ref * 1024 <= t < ob2.streams_ref * 1024 + 2048)
                                    && !(de.alloc_tab_begin + aslot2 * SPAN_SIZE <= t
                                    < de.alloc_tab_begin + aslot2 * SPAN_SIZE + SPAN_SIZE)
                                    ==> #[trigger] d3[t] == d0[t]
                        });
                }
                return Ok(ObjectId(i));
            }
            proof {
                assert(buf@.subrange(4, 8) =~= disk_obj_bytes(d0, de, i).subrange(4, 8));
            }
            i = i + 1;
        }
        Err(Error::Unsupported)
    }
}


/// Descriptor round-trip: after a staged descriptor is written by `sync`
/// (stamped with its checksum) at sector 1, a fresh open finds a valid
/// descriptor, and it decodes to exactly the staged descriptor with its
/// CRC stamped.
pub proof fn lemma_descriptor_round_trip(d: RootDescriptor, id: Uuid, volsize: u128, disk: Seq<u8>)
    requires
        initial_desc(d, id, volsize),
        1024 + DESC_SIZE <= disk.len(),
        forall|i: int|
            0 <= i < DESC_SIZE ==> #[trigger] disk[1024 + i] == spec_encode_desc(
                spec_synced_desc(d),
            )[i],
    ensures
        desc_valid_bytes(disk_desc_bytes(disk)),
        desc_matches_bytes(spec_synced_desc(d), disk_desc_bytes(disk)),
{
    let sd = spec_synced_desc(d);
    lemma_auto_spec_u16_to_from_le_bytes();
    lemma_auto_spec_u32_to_from_le_bytes();
    lemma_auto_spec_u64_to_from_le_bytes();
    lemma_auto_spec_u128_to_from_le_bytes();
    crate::object::lemma_encode_desc_matches(sd);
    crate::object::lemma_encode_desc_matches(d);
    assert(disk_desc_bytes(disk) =~= spec_encode_desc(sd));
    let b = spec_encode_desc(sd);
    assert(b.subrange(0, 4) =~= sd.magic.0@);
    assert(spec_encode_desc(d).len() == DESC_SIZE);
    assert(spec_zero_crc(b) =~= spec_zero_crc(spec_encode_desc(d)));
}

/// The sum of the first `k` read counts: the logical offset the `k`-th
/// call starts at.
pub open spec fn spec_prefix_sum(counts: Seq<int>, k: int) -> int
    decreases k,
{
    if k <= 0 {
        0
    } else {
        spec_prefix_sum(counts, k - 1) + counts[k - 1]
    }
}

/// Prefix sums of positive counts grow monotonically.
pub proof fn lemma_prefix_sum_monotone(counts: Seq<int>, k1: int, k2: int)
    requires
        0 <= k1 <= k2,
        forall|k: int| 0 <= k < k2 ==> counts[k] >= 1,
    ensures
        spec_prefix_sum(counts, k1) <= spec_prefix_sum(counts, k2),
        k1 < k2 ==> spec_prefix_sum(counts, k1) < spec_prefix_sum(counts, k2),
    decreases k2 - k1,
{
    if k1 < k2 {
        lemma_prefix_sum_monotone(counts, k1, k2 - 1);
    }
}

/// Partial-read monotonicity: when repeated reads each return a positive
/// count and every call starts where the previous one stopped, every byte
/// position below the total lies in exactly one call's range. Together
/// with the walker's guarantee that a call returning `n` delivers exactly
/// the content bytes `[offset, offset + n)`, repeated
/// `read_by_indirection` calls reach every byte exactly once.
pub proof fn lemma_partial_reads_tile(counts: Seq<int>, n: int, j: int)
    requires
        0 <= n <= counts.len(),
        forall|k: int| 0 <= k < n ==> counts[k] >= 1,
        0 <= j < spec_prefix_sum(counts, n),
    ensures
        exists|k: int|
            #![trigger spec_prefix_sum(counts, k)]
            {
                &&& 0 <= k < n
                &&& spec_prefix_sum(counts, k) <= j < spec_prefix_sum(counts, k + 1)
            },
        forall|k1: int, k2: int|
            0 <= k1 < k2 < n ==> #[trigger] spec_prefix_sum(counts, k1 + 1)
                <= #[trigger] spec_prefix_sum(counts, k2),
    decreases n,
{
    assert forall|k1: int, k2: int| 0 <= k1 < k2 < n implies #[trigger] spec_prefix_sum(
        counts,
        k1 + 1,
    ) <= #[trigger] spec_prefix_sum(counts, k2) by {
        lemma_prefix_sum_monotone(counts, k1 + 1, k2);
    }
    if n > 0 {
        if j >= spec_prefix_sum(counts, n - 1) {
            assert(spec_prefix_sum(counts, n - 1) <= j < spec_prefix_sum(counts, n));
        } else {
            lemma_partial_reads_tile(counts, n - 1, j);
        }
    }
}

/// Two byte strings compare equal under the lexicographic order exactly
/// when they are the same string.
pub proof fn lemma_lex_cmp_equal_iff(a: Seq<u8>, b: Seq<u8>)
    ensures
        (spec_lex_cmp(a, b) == Ordering::Equal) <==> a == b,
    decreases a.len(),
{
    if a.len() == 0 && b.len() == 0 {
        assert(a =~= b);
    } else if a.len() == 0 || b.len() == 0 {
    } else {
        lemma_lex_cmp_equal_iff(a.drop_first(), b.drop_first());
        if spec_lex_cmp(a, b) == Ordering::Equal {
            assert(a.drop_first() == b.drop_first());
            assert forall|i: int| 0 <= i < a.len() implies a[i] == b[i] by {
                if i > 0 {
                    assert(a[i] == a.drop_first()[i - 1]);
                    assert(b[i] == b.drop_first()[i - 1]);
                }
            }
            assert(a =~= b);
        }
        if a == b {
            assert(a.drop_first() =~= b.drop_first());
        }
    }
}

/// Name lookup dual-mode equivalence: a stream entry whose name is stored
/// inline and one whose name is referenced into the Strings stream give
/// the same match result for every candidate, whenever the referenced
/// position holds the same NUL-terminated name as the inline field.
pub proof fn lemma_name_dual_mode(
    disk: Seq<u8>,
    strings: StreamListing,
    l_inline: StreamListing,
    l_ref: StreamListing,
    nameb: Seq<u8>,
)
    requires
        l_inline.name_ref == 0,
        l_ref.name_ref != 0,
        l_ref.name_ref <= strings.size,
        spec_nullterm_at(spec_listing_content(disk, strings), l_ref.name_ref as int) == Some(
            crate::helpers::spec_before_nul(l_inline.name@),
        ),
    ensures
        spec_listing_name_matches(disk, Some(strings), l_ref, nameb) == spec_listing_name_matches(
            disk,
            Some(strings),
            l_inline,
            nameb,
        ),
{
    let stored = crate::helpers::spec_before_nul(l_inline.name@);
    lemma_nullstr_cmp_is_lex(
        nameb,
        spec_listing_content(disk, strings),
        l_ref.name_ref as int,
        stored,
    );
    lemma_lex_cmp_equal_iff(nameb, stored);
}

} // verus!
