use harness::atom::Atom;
use harness::mov::{handler, stsc, stts, MovError, MovWriter};
use std::time::Duration;

fn be32(b: &[u8], at: usize) -> u32 {
    u32::from_be_bytes(b[at..at + 4].try_into().unwrap())
}

fn be64(b: &[u8], at: usize) -> u64 {
    u64::from_be_bytes(b[at..at + 8].try_into().unwrap())
}

/// Media ticks, 90000 a second.
fn ticks(t: Duration) -> u64 {
    (t.as_secs_f64() * 90_000.0).round() as u64
}

/// The file of a movie with these frames, 33 ms apart.
fn movie(frames: &[&[u8]], unix_secs: u64) -> Vec<u8> {
    let (mut w, mut data) = MovWriter::create(64, 48);
    for (i, f) in frames.iter().enumerate() {
        w.write_frame(f, ticks(Duration::from_millis(33 * i as u64))).unwrap();
        data.extend_from_slice(f);
    }
    let t = w.finish(unix_secs).unwrap();
    data.extend_from_slice(&t.moov);
    let at = t.size_at as usize;
    data[at..at + 8].copy_from_slice(&t.size);
    data
}

fn find(data: &[u8], tag: &[u8]) -> usize {
    data.windows(4).position(|w| w == tag).unwrap()
}

#[test]
fn atoms_tile_the_file_and_index_addresses_every_frame() {
    let frames: [&[u8]; 3] = [b"first", b"second!", b"3"];
    let data = movie(&frames, 0);

    let mut at = 0;
    let mut kinds = Vec::new();
    while at < data.len() {
        let mut size = u64::from(be32(&data, at));
        if size == 1 {
            size = be64(&data, at + 8);
        }
        kinds.push(data[at + 4..at + 8].to_vec());
        at += size as usize;
    }
    assert_eq!(at, data.len());
    assert_eq!(kinds, [b"ftyp".to_vec(), b"mdat".to_vec(), b"moov".to_vec()]);

    let (stsz, co64) = (find(&data, b"stsz"), find(&data, b"co64"));
    assert_eq!(be32(&data, stsz + 12), 3);
    assert_eq!(be32(&data, co64 + 8), 3);
    for (i, f) in frames.iter().enumerate() {
        let size = be32(&data, stsz + 16 + 4 * i) as usize;
        let off = be64(&data, co64 + 12 + 8 * i) as usize;
        assert_eq!(&data[off..off + size], *f);
    }
}

#[test]
fn durations_are_in_runs() {
    let b = stts(&[2970, 2970, 3000]);
    assert_eq!(&b[4..8], b"stts");
    assert_eq!(be32(&b, 12), 2);
    assert_eq!((be32(&b, 16), be32(&b, 20)), (2, 2970));
    assert_eq!((be32(&b, 24), be32(&b, 28)), (1, 3000));
    assert_eq!(be32(&b, 0) as usize, b.len());
}

#[test]
fn the_last_frame_repeats_the_interval_before_it() {
    let data = movie(&[b"a", b"b", b"c"], 0);
    let at = find(&data, b"stts");
    assert_eq!(be32(&data, at + 8), 1);
    assert_eq!((be32(&data, at + 12), be32(&data, at + 16)), (3, 2970));
    // 3 * 33 ms, in the movie's milliseconds.
    let mvhd = find(&data, b"mvhd");
    assert_eq!(be32(&data, mvhd + 16), 1000);
    assert_eq!(be32(&data, mvhd + 20), 99);
}

#[test]
fn a_lone_frame_lasts_a_thirtieth_of_a_second() {
    let data = movie(&[b"only"], 0);
    let at = find(&data, b"stts");
    assert_eq!((be32(&data, at + 12), be32(&data, at + 16)), (1, 3000));
}

#[test]
fn the_headers_say_when_and_how_big() {
    let data = movie(&[b"x"], 1_700_000_000);
    let mvhd = find(&data, b"mvhd");
    assert_eq!(be32(&data, mvhd + 8), ((1_700_000_000u64 + 2_082_844_800) % (1 << 32)) as u32);
    let tkhd = find(&data, b"tkhd");
    assert_eq!(be32(&data, tkhd + 80), 64 << 16);
    assert_eq!(be32(&data, tkhd + 84), 48 << 16);
    assert_eq!(data[find(&data, b"Phot") - 1], 12);
}

#[test]
fn a_movie_without_frames_is_not_finished() {
    let (w, start) = MovWriter::create(64, 48);
    assert_eq!(start.len(), 36);
    assert!(matches!(w.finish(0), Err(MovError::NoFrames)));
    assert!(MovWriter::accepts(u32::MAX as usize));
    assert!(!MovWriter::accepts(u32::MAX as usize + 1));
}

#[test]
fn a_writer_has_room_until_its_size_cannot_be_counted() {
    let (w, _) = MovWriter::create(1, 1);
    assert!(w.has_room(1 << 40));
    assert!(w.has_room((u64::MAX - 36) as usize));
    assert!(!w.has_room((u64::MAX - 35) as usize));
}

#[test]
fn atoms_are_big_endian_and_sized() {
    let mut a = Atom::full(0x7465_7374, 1, 0x02_0304);
    a.u8(5);
    a.u16(0x0607);
    a.u64(0x0102_0304_0506_0708);
    a.bytes(b"xy");
    a.zeros(2);
    let b = a.finish();
    assert_eq!(
        b,
        [
            0, 0, 0, 27, b't', b'e', b's', b't', 1, 2, 3, 4, 5, 6, 7, 1, 2, 3, 4, 5, 6, 7, 8, b'x',
            b'y', 0, 0
        ]
    );
    let mut m = Atom::new(0x6d61_7472);
    m.matrix();
    assert_eq!(m.finish().len(), 8 + 36);
    let inner = Atom::new(0x6672_6565).finish();
    assert_eq!(Atom::with(0x6d6f_6f76, &[inner.clone(), inner]).len(), 24);
}

#[test]
fn handlers_and_chunk_maps_are_as_players_expect() {
    let h = handler(0x6d68_6c72, 0x7669_6465, "VideoHandler");
    assert_eq!(&h[4..8], b"hdlr");
    assert_eq!(&h[12..20], b"mhlrvide");
    assert_eq!(h[32], 12);
    assert_eq!(&h[33..], b"VideoHandler");
    let c = stsc();
    assert_eq!(&c[4..8], b"stsc");
    assert_eq!([be32(&c, 12), be32(&c, 16), be32(&c, 20), be32(&c, 24)], [1, 1, 1, 1]);
}
