use phantomfs::io::{Error, MemVolume, Read, Seek, SeekPos, VolLocation, Write};

#[test]
fn seek_start_sector_resolves_to_byte() {
    let mut v = MemVolume::new(8192);
    let loc = v.seek(SeekPos::StartSector(3)).unwrap();
    assert_eq!(loc.sector, 3);
    assert_eq!(loc.offset, 0);
    let loc = v.seek(SeekPos::Curr(10)).unwrap();
    assert_eq!(loc.sector, 3);
    assert_eq!(loc.offset, 10);
}

#[test]
fn seek_abs_pos_offset_past_sector_is_invalid_input() {
    let mut v = MemVolume::new(8192);
    let r = v.seek(SeekPos::AbsPos(VolLocation { sector: 1, offset: 1024 }));
    assert_eq!(r, Err(Error::InvalidInput));
}

#[test]
fn seek_before_start_is_invalid_input() {
    let mut v = MemVolume::new(8192);
    let r = v.seek(SeekPos::Curr(-1));
    assert_eq!(r, Err(Error::InvalidInput));
}

#[test]
fn seek_past_device_range_is_unsupported() {
    let mut v = MemVolume::new(8192);
    let r = v.seek(SeekPos::StartSector(1u128 << 100));
    assert_eq!(r, Err(Error::Unsupported));
}

#[test]
fn seek_end_reports_length() {
    let mut v = MemVolume::new(2048);
    let loc = v.seek(SeekPos::End(0)).unwrap();
    assert_eq!(loc.sector, 2);
    assert_eq!(loc.offset, 0);
    let loc = v.seek(SeekPos::EndSector(-1)).unwrap();
    assert_eq!(loc.sector, 1);
}

#[test]
fn stream_length_restores_position() {
    let mut v = MemVolume::new(4096);
    v.seek(SeekPos::Start(100)).unwrap();
    let len = v.stream_length().unwrap();
    assert_eq!(len.sector, 4);
    let pos = v.stream_position().unwrap();
    assert_eq!(pos.sector, 0);
    assert_eq!(pos.offset, 100);
}

#[test]
fn write_then_read_round_trips() {
    let mut v = MemVolume::new(4096);
    v.seek(SeekPos::Start(1000)).unwrap();
    v.write_all(&[1, 2, 3, 4, 5]).unwrap();
    v.seek(SeekPos::Start(1000)).unwrap();
    let mut buf = vec![0u8; 5];
    v.read_fully(&mut buf).unwrap();
    assert_eq!(buf, vec![1, 2, 3, 4, 5]);
}

#[test]
fn read_fully_past_end_is_unexpected_eof() {
    let mut v = MemVolume::new(100);
    v.seek(SeekPos::Start(90)).unwrap();
    let mut buf = vec![0u8; 20];
    assert_eq!(v.read_fully(&mut buf), Err(Error::UnexpectedEof));
}

#[test]
fn write_all_past_end_is_unexpected_eof() {
    let mut v = MemVolume::new(100);
    v.seek(SeekPos::Start(95)).unwrap();
    assert_eq!(v.write_all(&[0u8; 10]), Err(Error::UnexpectedEof));
}

#[test]
fn write_zeroes_clears_range() {
    let mut v = MemVolume::new(4096);
    for i in 0..4096 {
        v.bytes[i] = 0xAA;
    }
    v.seek(SeekPos::Start(10)).unwrap();
    v.write_zeroes(2000).unwrap();
    assert_eq!(v.bytes[9], 0xAA);
    for i in 10..2010 {
        assert_eq!(v.bytes[i], 0);
    }
    assert_eq!(v.bytes[2010], 0xAA);
}


struct FlakyVolume {
    inner: MemVolume,
    fail_next: u32,
    kind: Error,
}

impl phantomfs::io::Backing for FlakyVolume {}

impl Read for FlakyVolume {
    fn read(&mut self, out: &mut Vec<u8>) -> Result<usize, Error> {
        if self.fail_next > 0 {
            self.fail_next -= 1;
            return Err(self.kind);
        }
        self.inner.read(out)
    }
}

impl Seek for FlakyVolume {
    fn seek(&mut self, pos: SeekPos) -> Result<VolLocation, Error> {
        self.inner.seek(pos)
    }
}

#[test]
fn read_fully_retries_transient_interruptions() {
    let mut inner = MemVolume::new(256);
    for i in 0..256 {
        inner.bytes[i] = i as u8;
    }
    let mut v = FlakyVolume { inner, fail_next: 3, kind: Error::Interrupted };
    v.seek(SeekPos::Start(10)).unwrap();
    let mut buf = vec![0u8; 4];
    v.read_fully(&mut buf).unwrap();
    assert_eq!(buf, vec![10, 11, 12, 13]);
}

#[test]
fn read_fully_surfaces_persistent_interruption() {
    let inner = MemVolume::new(256);
    let mut v = FlakyVolume { inner, fail_next: 1000, kind: Error::Interrupted };
    let mut buf = vec![0u8; 4];
    assert_eq!(v.read_fully(&mut buf), Err(Error::Interrupted));
}

#[test]
fn read_fully_passes_terminal_errors_through() {
    let inner = MemVolume::new(256);
    let mut v = FlakyVolume { inner, fail_next: 1, kind: Error::Unknown };
    let mut buf = vec![0u8; 4];
    assert_eq!(v.read_fully(&mut buf), Err(Error::Unknown));
}
