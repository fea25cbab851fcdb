use phantomfs::helpers::{before_nul, extend_str};
use phantomfs::object::{
    DirectoryElementFlags,
    decode_desc, decode_direlem, decode_listing, decode_object, decode_span, encode_desc,
    encode_direlem, encode_listing, encode_object, encode_span, DirectoryElement, Object,
    ObjectFlags, ObjectType, PhantomFSMagic, RootDescriptor, SecurityDescRowFlags,
    SecurityDescRowMode, StreamFlags, StreamListing, VolumeSpan, FSOptionalFeatures,
    FSRequiredFeatures, SECURITY_MODE_DENY, STREAM_REQUIRED,
};

#[test]
fn span_codec_round_trip() {
    let s = VolumeSpan { base_sector: 0x0123456789ABCDEF0011223344556677, extent: 42, reserved: 7 };
    let bytes = encode_span(&s);
    assert_eq!(bytes.len(), 32);
    let s2 = decode_span(bytes.as_slice());
    assert_eq!(s, s2);
    assert_eq!(&bytes[0..2], &[0x77, 0x66]);
}

#[test]
fn object_codec_round_trip() {
    let o = Object {
        strong_ref: 3,
        weak_ref: 5,
        streams_size: 2048,
        streams_ref: 99,
        streams_indirection: 2,
        reserved33: [0; 5],
        ty: ObjectType(1),
        flags: ObjectFlags(0),
        strings_stream: 4,
        reserved52: [0; 12],
    };
    let bytes = encode_object(&o);
    assert_eq!(bytes.len(), 64);
    assert_eq!(decode_object(bytes.as_slice()), o);
}

#[test]
fn listing_codec_round_trip() {
    let mut name = [0u8; 32];
    name[0] = b'F';
    name[1] = b'D';
    let l = StreamListing {
        name,
        name_ref: 0,
        flags: StreamFlags(STREAM_REQUIRED | 0x20),
        content_ref: 1234,
        size: 4100,
        reserved: [0; 24],
        inline_data: [9; 32],
    };
    let bytes = encode_listing(&l);
    assert_eq!(bytes.len(), 128);
    assert_eq!(decode_listing(bytes.as_slice()), l);
}

#[test]
fn direlem_codec_round_trip() {
    let mut name = [0u8; 40];
    name[0] = b'x';
    let e = DirectoryElement { objidx: 17, name_index: 0, flags: DirectoryElementFlags(0), name };
    let bytes = encode_direlem(&e);
    assert_eq!(bytes.len(), 64);
    assert_eq!(decode_direlem(bytes.as_slice()), e);
}

#[test]
fn desc_codec_round_trip() {
    let d = RootDescriptor {
        magic: PhantomFSMagic::magic(),
        version_major: 1,
        version_minor: 1,
        required_features: FSRequiredFeatures(0),
        optional_features: FSOptionalFeatures(0),
        volume_id_lo: 0x0102030405060708,
        volume_id_hi: 0x1112131415161718,
        root_object_id: 1,
        objtab_size: 1024,
        objtab_end: 4096,
        alloc_tab_size: 1024,
        alloc_tab_begin: 2048,
        label_ref: 0,
        label: [0; 32],
        header_size: 128,
        crc: 0xDEADBEEF,
    };
    let bytes = encode_desc(&d);
    assert_eq!(bytes.len(), 128);
    assert_eq!(&bytes[0..4], &[0xF3, 0x50, 0x48, 0x53]);
    assert_eq!(decode_desc(bytes.as_slice()), d);
}

#[test]
fn stream_flags_indirection_bits() {
    assert_eq!(StreamFlags(0xF0).get_indirection(), 15);
    assert_eq!(StreamFlags(0x21).get_indirection(), 2);
    assert_eq!(StreamFlags::indirection(3).0, 0x30);
    assert_eq!(StreamFlags(STREAM_REQUIRED).get_indirection(), 0);
}

#[test]
fn security_row_mode_bits() {
    let f = SecurityDescRowFlags(0x101);
    assert_eq!(f.mode(), SecurityDescRowMode(1));
    let g: SecurityDescRowFlags = SecurityDescRowMode(SECURITY_MODE_DENY).into();
    assert_eq!(g.0, 1);
}

#[test]
fn extend_str_pads_with_nul() {
    let v = extend_str("Streams", 32);
    assert_eq!(v.len(), 32);
    assert_eq!(&v[0..7], b"Streams");
    assert!(v[7..].iter().all(|b| *b == 0));
}

#[test]
fn before_nul_cuts_at_first_zero() {
    assert_eq!(before_nul(&[b'a', b'b', 0, b'c']), vec![b'a', b'b']);
    assert_eq!(before_nul(&[1, 2, 3]), vec![1, 2, 3]);
    assert_eq!(before_nul(&[0, 1]), Vec::<u8>::new());
}
