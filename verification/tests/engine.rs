use core::cmp::Ordering;
use phantomfs::fs::FilesystemAccess;
use phantomfs::io::{Error, MemVolume};
use phantomfs::object::{
    encode_direlem, encode_listing, encode_span, DirectoryElement, DirectoryElementFlags, Object, ObjectFlags, ObjectId, ObjectType, StreamFlags, StreamId,
    StreamListing, VolumeSpan, STREAM_REQUIRED,
};
use phantomfs::uuid::Uuid;

const VOL_SECTORS: u128 = 4096;

fn formatted_volume() -> MemVolume {
    let vol = MemVolume::new(4096 * 1024);
    let mut fs = FilesystemAccess::new(vol);
    let id = Uuid { lo: 0x0102030405060708, hi: 0x1112131415161718 };
    fs.create_filesystem("hello", id, VOL_SECTORS).unwrap();
    fs.sync().unwrap();
    fs.into_stream()
}

#[test]
fn s1_format_then_open() {
    let vol = formatted_volume();
    let mut fs = FilesystemAccess::new(vol);
    let d = fs.get_or_read_descriptor().unwrap();
    assert_eq!(d.magic.0, [0xF3, 0x50, 0x48, 0x53]);
    assert_eq!(d.version_major, 1);
    assert_eq!(d.root_object_id, 1);
    assert_eq!(d.objtab_end, 4096);
    assert_eq!(d.objtab_size, 1024);
    assert_eq!(d.alloc_tab_begin, 2048);
}

#[test]
fn s2_allocate_first_object() {
    let vol = formatted_volume();
    let mut fs = FilesystemAccess::new(vol);
    let oid = fs
        .create_object(0, ObjectType(0), "", Uuid { lo: 0, hi: 0 })
        .unwrap();
    assert_eq!(oid, ObjectId(1));
    let obj = fs.get_obj_by_id(ObjectId(1)).unwrap();
    assert_eq!(obj.strong_ref, 1);
    assert_eq!(obj.weak_ref, 1);
    assert_eq!(obj.streams_indirection, 1);
    assert_eq!(obj.streams_size, 2048);
}

#[test]
fn s3_stream_lookup_by_inline_name() {
    let vol = formatted_volume();
    let mut fs = FilesystemAccess::new(vol);
    fs.create_object(0, ObjectType(0), "", Uuid { lo: 0, hi: 0 }).unwrap();
    let (sid, listing) = fs.find_stream_by_id(ObjectId(1), "Streams").unwrap();
    assert_eq!(sid, StreamId(0));
    assert!(listing.flags.0 & STREAM_REQUIRED != 0);
    assert_eq!(listing.size, 2048);
    let (sid2, _) = fs.find_stream_by_id(ObjectId(1), "Strings").unwrap();
    assert_eq!(sid2, StreamId(1));
}

#[test]
fn s4_absent_object_is_not_found() {
    let vol = formatted_volume();
    let mut fs = FilesystemAccess::new(vol);
    assert_eq!(fs.get_obj_by_id(ObjectId(5)), Err(Error::NotFound));
}

#[test]
fn s5_bad_magic_is_invalid_data() {
    let mut vol = formatted_volume();
    vol.bytes[1024] = 0x00;
    let mut fs = FilesystemAccess::new(vol);
    assert_eq!(fs.get_or_read_descriptor(), Err(Error::InvalidData));
}

#[test]
fn descriptor_crc_matches_crc_crate() {
    let vol = formatted_volume();
    let mut stored = [0u8; 128];
    stored.copy_from_slice(&vol.bytes[1024..1152]);
    let mut zeroed = stored;
    zeroed[124] = 0;
    zeroed[125] = 0;
    zeroed[126] = 0;
    zeroed[127] = 0;
    let expect = crc::Crc::<u32>::new(&crc::CRC_32_CKSUM).checksum(&zeroed);
    let got = u32::from_le_bytes([stored[124], stored[125], stored[126], stored[127]]);
    assert_eq!(got, expect);
}

#[test]
fn corrupt_crc_is_invalid_data() {
    let mut vol = formatted_volume();
    vol.bytes[1124] ^= 0xFF;
    let mut fs = FilesystemAccess::new(vol);
    assert_eq!(fs.get_or_read_descriptor(), Err(Error::InvalidData));
}

fn craft_two_span_stream(vol: &mut MemVolume) {
    // the span array lives at sector 50 and points at runs [100, 102) and
    // [200, 203)
    let spans = [
        VolumeSpan { base_sector: 100, extent: 2, reserved: 0 },
        VolumeSpan { base_sector: 200, extent: 3, reserved: 0 },
    ];
    for (i, s) in spans.iter().enumerate() {
        let b = encode_span(s);
        vol.bytes[50 * 1024 + i * 32..50 * 1024 + i * 32 + 32].copy_from_slice(&b);
    }
    for i in 0..2048usize {
        vol.bytes[100 * 1024 + i] = (i % 251) as u8;
    }
    for i in 0..3072usize {
        vol.bytes[200 * 1024 + i] = ((i * 7) % 253) as u8;
    }
}

#[test]
fn s6_indirection_two_read_stops_at_span_boundary() {
    let mut vol = MemVolume::new(4096 * 1024);
    craft_two_span_stream(&mut vol);
    let mut fs = FilesystemAccess::new(vol);
    let mut buf = vec![0u8; 20];
    let n = fs.read_by_indirection(2040, &mut buf, 50, 2, 4100).unwrap();
    assert_eq!(n, 8);
    for j in 0..8usize {
        assert_eq!(buf[j], ((2040 + j) % 251) as u8);
    }
    let mut rest = vec![0u8; 12];
    let n2 = fs.read_by_indirection(2048, &mut rest, 50, 2, 4100).unwrap();
    assert_eq!(n2, 12);
    for j in 0..12usize {
        assert_eq!(rest[j], ((j * 7) % 253) as u8);
    }
}

#[test]
fn indirection_read_fully_crosses_spans() {
    let mut vol = MemVolume::new(4096 * 1024);
    craft_two_span_stream(&mut vol);
    let mut fs = FilesystemAccess::new(vol);
    let mut buf = vec![0u8; 20];
    fs.read_fully_by_indirection(2040, &mut buf, 50, 2, 4100).unwrap();
    for j in 0..8usize {
        assert_eq!(buf[j], ((2040 + j) % 251) as u8);
    }
    for j in 8..20usize {
        assert_eq!(buf[j], (((j - 8) * 7) % 253) as u8);
    }
}

#[test]
fn indirection_whole_stream_matches_depth_first_walk() {
    // every byte of [0, L) is reached exactly once by repeated partial
    // reads that advance by the returned count
    let mut vol = MemVolume::new(4096 * 1024);
    craft_two_span_stream(&mut vol);
    let mut fs = FilesystemAccess::new(vol);
    let mut expect = Vec::new();
    for i in 0..2048usize {
        expect.push((i % 251) as u8);
    }
    for i in 0..4100 - 2048usize {
        expect.push(((i * 7) % 253) as u8);
    }
    let mut got = Vec::new();
    let mut offset = 0u64;
    loop {
        let mut buf = vec![0u8; 100];
        let n = fs.read_by_indirection(offset, &mut buf, 50, 2, 4100).unwrap();
        if n == 0 {
            break;
        }
        got.extend_from_slice(&buf[..n]);
        offset += n as u64;
    }
    assert_eq!(offset, 4100);
    assert_eq!(got, expect);
}

#[test]
fn indirection_level_zero_is_invalid_data() {
    let vol = MemVolume::new(4096);
    let mut fs = FilesystemAccess::new(vol);
    let mut buf = vec![0u8; 4];
    assert_eq!(fs.read_by_indirection(0, &mut buf, 1, 0, 16), Err(Error::InvalidData));
    assert_eq!(fs.read_by_indirection(0, &mut buf, 1, 16, 16), Err(Error::InvalidData));
}

#[test]
fn read_eof_returns_zero() {
    let mut vol = MemVolume::new(64 * 1024);
    for i in 0..64usize {
        vol.bytes[10 * 1024 + i] = i as u8;
    }
    let mut fs = FilesystemAccess::new(vol);
    let mut buf = vec![0u8; 8];
    assert_eq!(fs.read_by_indirection(64, &mut buf, 10, 1, 64).unwrap(), 0);
    let n = fs.read_by_indirection(60, &mut buf, 10, 1, 64).unwrap();
    assert_eq!(n, 4);
    assert_eq!(&buf[..4], &[60, 61, 62, 63]);
}

fn put_str(vol: &mut MemVolume, sector: usize, s: &[u8]) {
    vol.bytes[sector * 1024..sector * 1024 + s.len()].copy_from_slice(s);
}

#[test]
fn ordering_law_on_stored_names() {
    let mut vol = MemVolume::new(128 * 1024);
    put_str(&mut vol, 61, b"Streams\0");
    let mut fs = FilesystemAccess::new(vol);
    let cmp = |fs: &mut FilesystemAccess<MemVolume>, name: &str| {
        fs.cmp_nullstr_by_indirection(name, 0, 61, 1, 64).unwrap()
    };
    assert_eq!(cmp(&mut fs, "Streams"), Ordering::Equal);
    assert_eq!(cmp(&mut fs, "Strea"), Ordering::Less);
    assert_eq!(cmp(&mut fs, "StreamsX"), Ordering::Greater);
    assert_eq!(cmp(&mut fs, "Streamz"), Ordering::Greater);
    assert_eq!(cmp(&mut fs, "Stqeams"), Ordering::Less);
    assert_eq!(cmp(&mut fs, ""), Ordering::Less);
}

#[test]
fn cmp_eof_before_nul_is_unexpected_eof() {
    let mut vol = MemVolume::new(128 * 1024);
    put_str(&mut vol, 61, b"Str");
    let mut fs = FilesystemAccess::new(vol);
    let r = fs.cmp_nullstr_by_indirection("Streams", 0, 61, 1, 3);
    assert_eq!(r, Err(Error::UnexpectedEof));
}

#[test]
fn read_nullstr_decodes_utf8() {
    let mut vol = MemVolume::new(128 * 1024);
    put_str(&mut vol, 62, b"Hello\0rest");
    let mut fs = FilesystemAccess::new(vol);
    let s = fs.read_nullstr_by_indirection(0, 62, 1, 10).unwrap();
    assert_eq!(s, "Hello");
}

#[test]
fn read_nullstr_rejects_invalid_utf8() {
    let mut vol = MemVolume::new(128 * 1024);
    put_str(&mut vol, 62, &[0xFF, 0xFE, 0x00]);
    let mut fs = FilesystemAccess::new(vol);
    assert_eq!(fs.read_nullstr_by_indirection(0, 62, 1, 3), Err(Error::InvalidData));
}

fn fresh_listing() -> StreamListing {
    StreamListing {
        name: [0; 32],
        name_ref: 0,
        flags: StreamFlags(0),
        content_ref: 0,
        size: 0,
        reserved: [0; 24],
        inline_data: [0; 32],
    }
}

#[test]
fn name_lookup_dual_mode_equivalence() {
    // entry 0 stores its name via the Strings stream, entry 1 inline; both
    // carry the name "Streams" and both match the same candidate
    let mut vol = MemVolume::new(256 * 1024);
    put_str(&mut vol, 71, b"\0Streams\0");

    let mut by_ref = fresh_listing();
    by_ref.name_ref = 1;
    let mut inline = fresh_listing();
    inline.name[..7].copy_from_slice(b"Streams");

    let e0 = encode_listing(&by_ref);
    let e1 = encode_listing(&inline);
    vol.bytes[70 * 1024..70 * 1024 + 128].copy_from_slice(&e0);
    vol.bytes[70 * 1024 + 128..70 * 1024 + 256].copy_from_slice(&e1);

    let obj = Object {
        strong_ref: 1,
        weak_ref: 1,
        streams_size: 256,
        streams_ref: 70,
        streams_indirection: 1,
        reserved33: [0; 5],
        ty: ObjectType(0),
        flags: ObjectFlags(0),
        strings_stream: 0,
        reserved52: [0; 12],
    };
    let mut strings = fresh_listing();
    strings.flags = StreamFlags::indirection(1);
    strings.content_ref = 71;
    strings.size = 9;

    let mut fs = FilesystemAccess::new(vol);
    // with the Strings stream available the referenced entry matches first
    let (sid, _) = fs.scan_streams(&obj, &Some(strings), b"Streams").unwrap();
    assert_eq!(sid, StreamId(0));
    // without it the referenced entry is skipped and the inline one matches
    let (sid, _) = fs.scan_streams(&obj, &None, b"Streams").unwrap();
    assert_eq!(sid, StreamId(1));
    // a candidate that matches neither mode is not found
    assert_eq!(
        fs.scan_streams(&obj, &Some(strings), b"Other"),
        Err(Error::NotFound)
    );
}

#[test]
fn allocate_after_format_starts_past_reserved_sectors() {
    let vol = formatted_volume();
    let mut fs = FilesystemAccess::new(vol);
    let p = fs.allocate_contiguous_space(2).unwrap();
    assert_eq!(p.0, 8);
    let q = fs.allocate_contiguous_space(4).unwrap();
    assert_eq!(q.0, 10);
}

#[test]
fn second_object_gets_second_slot() {
    let vol = formatted_volume();
    let mut fs = FilesystemAccess::new(vol);
    let a = fs.create_object(0, ObjectType(0), "", Uuid { lo: 0, hi: 0 }).unwrap();
    let b = fs.create_object(0, ObjectType(0), "", Uuid { lo: 0, hi: 0 }).unwrap();
    assert_eq!(a, ObjectId(1));
    assert_eq!(b, ObjectId(2));
    let ob = fs.get_obj_by_id(ObjectId(2)).unwrap();
    assert_eq!(ob.streams_ref, 10);
}

#[test]
fn read_from_stream_serves_inline_content() {
    let vol = MemVolume::new(4096);
    let mut fs = FilesystemAccess::new(vol);
    let mut l = fresh_listing();
    l.size = 5;
    l.inline_data[..5].copy_from_slice(b"abcde");
    let mut buf = vec![0u8; 3];
    let n = fs.read_from_stream(&mut buf, 1, &l).unwrap();
    assert_eq!(n, 3);
    assert_eq!(&buf[..], b"bcd");
    assert_eq!(fs.read_from_stream(&mut buf, 5, &l).unwrap(), 0);
    let mut big = vec![0u8; 16];
    assert_eq!(fs.read_fully_from_stream(&mut big, 0, &l), Err(Error::UnexpectedEof));
}


#[test]
fn search_directory_resolves_children() {
    // give object 1 a DirectoryContent stream by hand: entry 3 of its
    // streams block points at two directory elements at sector 300
    let vol = formatted_volume();
    let mut fs = FilesystemAccess::new(vol);
    fs.create_object(0, ObjectType(0), "", Uuid { lo: 0, hi: 0 }).unwrap();
    let mut vol = fs.into_stream();

    let mut dirstream = fresh_listing();
    dirstream.name[..16].copy_from_slice(b"DirectoryContent");
    dirstream.flags = StreamFlags::indirection(1);
    dirstream.content_ref = 300;
    dirstream.size = 128;
    let lb = encode_listing(&dirstream);
    // the fresh streams block of object 1 lies at sector 8
    vol.bytes[8 * 1024 + 3 * 128..8 * 1024 + 4 * 128].copy_from_slice(&lb);

    let mut el0 = DirectoryElement {
        objidx: 2,
        name_index: 0,
        flags: DirectoryElementFlags(0),
        name: [0; 40],
    };
    el0.name[..3].copy_from_slice(b"foo");
    let mut el1 = DirectoryElement {
        objidx: 0,
        name_index: 0,
        flags: DirectoryElementFlags(0),
        name: [0; 40],
    };
    el1.name[..3].copy_from_slice(b"bar");
    let e0 = encode_direlem(&el0);
    let e1 = encode_direlem(&el1);
    vol.bytes[300 * 1024..300 * 1024 + 64].copy_from_slice(&e0);
    vol.bytes[300 * 1024 + 64..300 * 1024 + 128].copy_from_slice(&e1);

    let mut fs = FilesystemAccess::new(vol);
    assert_eq!(fs.search_directory(ObjectId(1), "foo"), Ok(ObjectId(2)));
    // a matching child with an absent object reference is soft-absent
    assert_eq!(fs.search_directory(ObjectId(1), "bar"), Err(Error::NotFound));
    assert_eq!(fs.search_directory(ObjectId(1), "baz"), Err(Error::NotFound));
}


#[test]
fn descriptor_round_trip_is_bit_exact() {
    // the reopened descriptor equals the staged one in every field, with
    // the CRC freshly stamped and validating
    let vol = formatted_volume();
    let mut fs = FilesystemAccess::new(vol);
    let d = fs.get_or_read_descriptor().unwrap();
    let expected = phantomfs::object::RootDescriptor {
        magic: phantomfs::object::PhantomFSMagic::magic(),
        version_major: 1,
        version_minor: 1,
        required_features: phantomfs::object::FSRequiredFeatures(0),
        optional_features: phantomfs::object::FSOptionalFeatures(0),
        volume_id_lo: 0x0102030405060708,
        volume_id_hi: 0x1112131415161718,
        root_object_id: 1,
        objtab_size: 1024,
        objtab_end: 4096,
        alloc_tab_size: 1024,
        alloc_tab_begin: 2048,
        label_ref: 0,
        label: [0; 32],
        header_size: 128,
        crc: d.crc,
    };
    assert_eq!(d, expected);
    assert_ne!(d.crc, 0);
}

#[test]
fn object_slot_is_bit_exact() {
    // the object returned for an allocated id re-encodes to exactly the
    // on-disk slot bytes at objtab_end - id * 64
    let vol = formatted_volume();
    let mut fs = FilesystemAccess::new(vol);
    fs.create_object(0, ObjectType(0), "", Uuid { lo: 0, hi: 0 }).unwrap();
    let obj = fs.get_obj_by_id(ObjectId(1)).unwrap();
    assert!(obj.weak_ref >= 1 && obj.strong_ref >= 1);
    let vol = fs.into_stream();
    let slot = 4096 * 1024 - 64;
    let enc = phantomfs::object::encode_object(&obj);
    assert_eq!(&vol.bytes[slot..slot + 64], enc.as_slice());
}


#[test]
fn sync_with_nothing_cached_is_a_no_op() {
    let vol = MemVolume::new(4096);
    let before = vol.bytes.clone();
    let mut fs = FilesystemAccess::new(vol);
    fs.sync().unwrap();
    let vol = fs.into_stream();
    assert_eq!(vol.bytes, before);
}

#[test]
fn search_directory_first_match_wins() {
    // a soft-absent "foo" stands before a present "foo": the first match
    // decides, so the lookup is NotFound
    let vol = formatted_volume();
    let mut fs = FilesystemAccess::new(vol);
    fs.create_object(0, ObjectType(0), "", Uuid { lo: 0, hi: 0 }).unwrap();
    let mut vol = fs.into_stream();

    let mut dirstream = fresh_listing();
    dirstream.name[..16].copy_from_slice(b"DirectoryContent");
    dirstream.flags = StreamFlags::indirection(1);
    dirstream.content_ref = 300;
    dirstream.size = 128;
    let lb = encode_listing(&dirstream);
    vol.bytes[8 * 1024 + 3 * 128..8 * 1024 + 4 * 128].copy_from_slice(&lb);

    let mut absent = DirectoryElement {
        objidx: 0,
        name_index: 0,
        flags: DirectoryElementFlags(0),
        name: [0; 40],
    };
    absent.name[..3].copy_from_slice(b"foo");
    let mut present = DirectoryElement {
        objidx: 7,
        name_index: 0,
        flags: DirectoryElementFlags(0),
        name: [0; 40],
    };
    present.name[..3].copy_from_slice(b"foo");
    let e0 = encode_direlem(&absent);
    let e1 = encode_direlem(&present);
    vol.bytes[300 * 1024..300 * 1024 + 64].copy_from_slice(&e0);
    vol.bytes[300 * 1024 + 64..300 * 1024 + 128].copy_from_slice(&e1);

    let mut fs = FilesystemAccess::new(vol);
    assert_eq!(fs.search_directory(ObjectId(1), "foo"), Err(Error::NotFound));
}
