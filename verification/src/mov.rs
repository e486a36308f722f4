//! Minimal QuickTime (.mov) writer for Motion-JPEG video.
//!
//! Every frame is a standalone JPEG, so QuickTime Player can step through a
//! recording frame by frame with no inter-frame smearing of tag edges.
//! Frames are appended to `mdat` as they arrive and the sample tables are
//! written into `moov` by [`MovWriter::finish`]; a file that is never
//! finished has no index and will not play.
//!
//! The writer keeps the index and hands out the bytes around the frames; the
//! caller owns the file and appends to it.

use crate::atom::{
    atom, be16, be32, be64, concat, full_atom, identity_matrix, lemma_be32_keeps_the_low_bits,
    push_be32, zeros, Atom,
};
use vstd::prelude::*;
use vstd::utf8::encode_utf8;

verus! {

// Four-character codes, as big-endian numbers.

pub const FTYP: u32 = 0x6674_7970;
pub const QT: u32 = 0x7174_2020;
pub const MDAT: u32 = 0x6d64_6174;
pub const MOOV: u32 = 0x6d6f_6f76;
pub const MVHD: u32 = 0x6d76_6864;
pub const TRAK: u32 = 0x7472_616b;
pub const TKHD: u32 = 0x746b_6864;
pub const MDIA: u32 = 0x6d64_6961;
pub const MDHD: u32 = 0x6d64_6864;
pub const HDLR: u32 = 0x6864_6c72;
pub const MHLR: u32 = 0x6d68_6c72;
pub const DHLR: u32 = 0x6468_6c72;
pub const VIDE: u32 = 0x7669_6465;
pub const ALIS: u32 = 0x616c_6973;
pub const MINF: u32 = 0x6d69_6e66;
pub const VMHD: u32 = 0x766d_6864;
pub const DINF: u32 = 0x6469_6e66;
pub const DREF: u32 = 0x6472_6566;
pub const STBL: u32 = 0x7374_626c;
pub const STSD: u32 = 0x7374_7364;
pub const JPEG: u32 = 0x6a70_6567;
pub const STTS: u32 = 0x7374_7473;
pub const STSC: u32 = 0x7374_7363;
pub const STSZ: u32 = 0x7374_737a;
pub const CO64: u32 = 0x636f_3634;

/// Units of the movie and track headers' overall duration.
pub const MOVIE_TIMESCALE: u32 = 1_000;

/// Units of per-frame durations; 90 kHz is the conventional video clock.
pub const MEDIA_TIMESCALE: u32 = 90_000;

/// Seconds from the QuickTime epoch (1904) to the Unix epoch (1970).
pub const QT_EPOCH_OFFSET: u64 = 2_082_844_800;

/// Bytes before `mdat`: the whole of `ftyp`.
pub const MDAT_START: u64 = 20;

/// Bytes before the first frame: `ftyp`, and the header of `mdat`.
pub const DATA_START: u64 = 36;

/// A recording: the frames' bytes, and when each is presented, in media ticks
/// since the recording started.
pub ghost struct Movie {
    pub width: u16,
    pub height: u16,
    pub frames: Seq<Seq<u8>>,
    pub ticks: Seq<u64>,
}

impl Movie {
    /// Where frame `i` begins in the file.
    pub open spec fn offset(self, i: int) -> int {
        DATA_START + concat(self.frames.take(i)).len()
    }

    /// The first byte after the last frame.
    pub open spec fn end(self) -> int {
        DATA_START + concat(self.frames).len()
    }

    /// Whether the index can address the frames: 32 bits for a size, 64 for
    /// an offset.
    pub open spec fn indexable(self) -> bool {
        &&& self.end() <= u64::MAX
        &&& self.ticks.len() == self.frames.len()
        &&& forall|i: int|
            0 <= i < self.frames.len() ==> (#[trigger] self.frames[i]).len() <= u32::MAX
    }
}

/// How long a frame presented at `t` stays up when the next one comes at
/// `next`, in media ticks: at least one, and its low 32 bits.
pub open spec fn frame_ticks(t: u64, next: u64) -> u32 {
    let apart = next - t;
    ((if apart < 1 {
        1
    } else {
        apart
    }) % 0x1_0000_0000) as u32
}

/// Per-frame durations from consecutive timestamps. The last frame repeats
/// the previous interval, or lasts 1/30 s if it is alone.
pub open spec fn frame_durations(ticks: Seq<u64>) -> Seq<u32> {
    if ticks.len() < 2 {
        seq![MEDIA_TIMESCALE / 30]
    } else {
        let apart = Seq::new(
            (ticks.len() - 1) as nat,
            |i: int| frame_ticks(ticks[i], ticks[i + 1]),
        );
        apart.push(apart.last())
    }
}

pub open spec fn total(durations: Seq<u32>) -> nat
    decreases durations.len(),
{
    if durations.len() == 0 {
        0
    } else {
        total(durations.drop_last()) + durations.last() as nat
    }
}

/// The run lengths of `durations`: how many in a row, and of which value.
pub open spec fn runs(durations: Seq<u32>) -> Seq<(nat, u32)>
    decreases durations.len(),
{
    if durations.len() == 0 {
        seq![]
    } else {
        let before = runs(durations.drop_last());
        let d = durations.last();
        if before.len() > 0 && before.last().1 == d {
            before.drop_last().push((before.last().0 + 1, d))
        } else {
            before.push((1, d))
        }
    }
}

/// Time-to-sample table, run-length encoded.
pub open spec fn stts_atom(durations: Seq<u32>) -> Seq<u8> {
    full_atom(
        STTS,
        0,
        0,
        be32(runs(durations).len() as int) + concat(
            runs(durations).map_values(|r: (nat, u32)| be32(r.0 as int) + be32(r.1 as int)),
        ),
    )
}

/// Sample-to-chunk table: every chunk holds exactly one frame.
pub open spec fn stsc_atom() -> Seq<u8> {
    full_atom(STSC, 0, 0, be32(1) + be32(1) + be32(1) + be32(1))
}

/// Sample sizes.
pub open spec fn stsz_atom(sizes: Seq<u32>) -> Seq<u8> {
    full_atom(
        STSZ,
        0,
        0,
        be32(0) + be32(sizes.len() as int) + concat(sizes.map_values(|s: u32| be32(s as int))),
    )
}

/// Chunk offsets.
pub open spec fn co64_atom(offsets: Seq<u64>) -> Seq<u8> {
    full_atom(
        CO64,
        0,
        0,
        be32(offsets.len() as int) + concat(offsets.map_values(|o: u64| be64(o as int))),
    )
}

/// A handler reference; the name is a Pascal string.
pub open spec fn handler_atom(kind: u32, subtype: u32, name: Seq<char>) -> Seq<u8> {
    full_atom(
        HDLR,
        0,
        0,
        be32(kind as int) + be32(subtype as int) + zeros(12) + seq![
            (encode_utf8(name).len() % 0x100) as u8,
        ] + encode_utf8(name),
    )
}

/// Sample description: one entry, JPEG at the movie's size. The compressor
/// name is a Pascal string in a 32-byte field.
pub open spec fn stsd_atom(width: u16, height: u16) -> Seq<u8> {
    let jpeg = atom(
        JPEG,
        zeros(6) + be16(1) + zeros(4) + zeros(4) + be32(0) + be32(0x200) + be16(width as int)
            + be16(height as int) + be32(0x0048_0000) + be32(0x0048_0000) + be32(0) + be16(1)
            + seq![12u8] + encode_utf8("Photo - JPEG"@) + zeros(19) + be16(24) + be16(0xffff),
    );
    full_atom(STSD, 0, 0, be32(1) + jpeg)
}

/// Appends the low 32 bits of `n`.
fn push_count(a: &mut Atom, n: u64)
    requires
        old(a).wf(),
    ensures
        final(a).wf(),
        final(a).kind() == old(a).kind(),
        final(a).body() == old(a).body() + be32(n as int),
{
    a.u32((n % 0x1_0000_0000) as u32);
    proof {
        lemma_be32_keeps_the_low_bits(n as int);
    }
}

/// Time-to-sample table, run-length encoded.
pub fn stts(durations: &[u32]) -> (b: Vec<u8>)
    ensures
        b@ == stts_atom(durations@),
{
    let mut found: Vec<(u64, u32)> = Vec::new();
    let ghost nat_runs = |r: (u64, u32)| (r.0 as nat, r.1);
    let mut i: usize = 0;
    while i < durations.len()
        invariant
            i <= durations@.len(),
            found@.map_values(nat_runs) =~= runs(durations@.take(i as int)),
            nat_runs == (|r: (u64, u32)| (r.0 as nat, r.1)),
            forall|j: int| 0 <= j < found@.len() ==> (#[trigger] found@[j]).0 <= i,
        decreases durations@.len() - i,
    {
        let d: u32 = durations[i];
        let ghost before = found@;
        assert(durations@.take(i + 1).drop_last() =~= durations@.take(i as int));
        let n: usize = found.len();
        if n > 0 && found[n - 1].1 == d {
            let count: u64 = found[n - 1].0;
            assert(before[n - 1].0 <= i);
            found[n - 1] = (count + 1, d);
            assert(found@.map_values(nat_runs) =~= before.map_values(nat_runs).drop_last().push(
                ((count + 1) as nat, d),
            ));
        } else {
            found.push((1, d));
            assert(found@.map_values(nat_runs) =~= before.map_values(nat_runs).push((1nat, d)));
        }
        i = i + 1;
    }
    assert(durations@.take(i as int) =~= durations@);

    let mut a = Atom::full(STTS, 0, 0);
    push_count(&mut a, found.len() as u64);
    let ghost head = a.body();
    let ghost pieces = runs(durations@).map_values(
        |r: (nat, u32)| be32(r.0 as int) + be32(r.1 as int),
    );
    let mut j: usize = 0;
    assert(a.body() =~= head + concat(pieces.take(0)));
    while j < found.len()
        invariant
            j <= found@.len(),
            found@.map_values(nat_runs) =~= runs(durations@),
            nat_runs == (|r: (u64, u32)| (r.0 as nat, r.1)),
            pieces == runs(durations@).map_values(
                |r: (nat, u32)| be32(r.0 as int) + be32(r.1 as int),
            ),
            a.wf(),
            a.kind() == be32(STTS as int),
            a.body() == head + concat(pieces.take(j as int)),
        decreases found@.len() - j,
    {
        let (n, d) = found[j];
        push_count(&mut a, n);
        a.u32(d);
        assert(runs(durations@)[j as int] == found@.map_values(nat_runs)[j as int]);
        assert(pieces[j as int] == be32(n as int) + be32(d as int));
        assert(pieces.take(j + 1).drop_last() =~= pieces.take(j as int));
        assert(a.body() =~= head + concat(pieces.take(j + 1)));
        j = j + 1;
    }
    assert(pieces.take(j as int) =~= pieces);
    let b = a.finish();
    assert(b@ =~= stts_atom(durations@));
    b
}

/// Sample-to-chunk table: every chunk holds exactly one frame.
pub fn stsc() -> (b: Vec<u8>)
    ensures
        b@ == stsc_atom(),
{
    let mut a = Atom::full(STSC, 0, 0);
    a.u32(1);
    a.u32(1);  // first chunk
    a.u32(1);  // samples per chunk
    a.u32(1);  // sample description id
    let b = a.finish();
    assert(b@ =~= stsc_atom());
    b
}

pub fn handler(kind: u32, subtype: u32, name: &str) -> (b: Vec<u8>)
    ensures
        b@ == handler_atom(kind, subtype, name@),
{
    let mut a = Atom::full(HDLR, 0, 0);
    a.u32(kind);
    a.u32(subtype);
    a.zeros(12);  // manufacturer, flags, flags mask
    let text = name.as_bytes();
    a.u8((text.len() % 0x100) as u8);  // Pascal string
    a.bytes(text);
    let b = a.finish();
    assert(b@ =~= handler_atom(kind, subtype, name@));
    b
}

fn stsz(sizes: &Vec<u32>) -> (b: Vec<u8>)
    ensures
        b@ == stsz_atom(sizes@),
{
    let mut a = Atom::full(STSZ, 0, 0);
    a.u32(0);  // sizes vary, listed below
    push_count(&mut a, sizes.len() as u64);
    let ghost head = a.body();
    let ghost pieces = sizes@.map_values(|s: u32| be32(s as int));
    let mut i: usize = 0;
    assert(a.body() =~= head + concat(pieces.take(0)));
    while i < sizes.len()
        invariant
            i <= sizes@.len(),
            pieces == sizes@.map_values(|s: u32| be32(s as int)),
            a.wf(),
            a.kind() == be32(STSZ as int),
            a.body() == head + concat(pieces.take(i as int)),
        decreases sizes@.len() - i,
    {
        a.u32(sizes[i]);
        assert(pieces.take(i + 1).drop_last() =~= pieces.take(i as int));
        assert(a.body() =~= head + concat(pieces.take(i + 1)));
        i = i + 1;
    }
    assert(pieces.take(i as int) =~= pieces);
    let b = a.finish();
    assert(b@ =~= stsz_atom(sizes@));
    b
}

fn co64(offsets: &Vec<u64>) -> (b: Vec<u8>)
    ensures
        b@ == co64_atom(offsets@),
{
    let mut a = Atom::full(CO64, 0, 0);
    push_count(&mut a, offsets.len() as u64);
    let ghost head = a.body();
    let ghost pieces = offsets@.map_values(|o: u64| be64(o as int));
    let mut i: usize = 0;
    assert(a.body() =~= head + concat(pieces.take(0)));
    while i < offsets.len()
        invariant
            i <= offsets@.len(),
            pieces == offsets@.map_values(|o: u64| be64(o as int)),
            a.wf(),
            a.kind() == be32(CO64 as int),
            a.body() == head + concat(pieces.take(i as int)),
        decreases offsets@.len() - i,
    {
        a.u64(offsets[i]);
        assert(pieces.take(i + 1).drop_last() =~= pieces.take(i as int));
        assert(a.body() =~= head + concat(pieces.take(i + 1)));
        i = i + 1;
    }
    assert(pieces.take(i as int) =~= pieces);
    let b = a.finish();
    assert(b@ =~= co64_atom(offsets@));
    b
}

pub(crate) proof fn lemma_photo_jpeg()
    ensures
        encode_utf8("Photo - JPEG"@).len() == 12,
{
    reveal_strlit("Photo - JPEG");
    vstd::utf8::is_ascii_chars_encode_utf8("Photo - JPEG"@);
}

fn stsd(width: u16, height: u16) -> (b: Vec<u8>)
    ensures
        b@ == stsd_atom(width, height),
{
    let mut jpeg = Atom::new(JPEG);
    jpeg.zeros(6);
    jpeg.u16(1);  // data reference index
    jpeg.zeros(4);  // version, revision
    jpeg.zeros(4);  // vendor
    jpeg.u32(0);  // temporal quality
    jpeg.u32(0x200);  // spatial quality: codecNormalQuality
    jpeg.u16(width);
    jpeg.u16(height);
    jpeg.u32(0x0048_0000);  // 72 dpi horizontal
    jpeg.u32(0x0048_0000);  // 72 dpi vertical
    jpeg.u32(0);  // data size
    jpeg.u16(1);  // frames per sample
    let name = "Photo - JPEG".as_bytes();  // Pascal string in a 32-byte field
    proof {
        lemma_photo_jpeg();
    }
    jpeg.u8(name.len() as u8);
    jpeg.bytes(name);
    jpeg.zeros(31 - name.len());
    jpeg.u16(24);  // depth
    jpeg.u16(0xffff);  // color table id: none
    assert(jpeg.body() =~= zeros(6) + be16(1) + zeros(4) + zeros(4) + be32(0) + be32(0x200) + be16(
        width as int,
    ) + be16(height as int) + be32(0x0048_0000) + be32(0x0048_0000) + be32(0) + be16(1) + seq![12u8]
        + encode_utf8("Photo - JPEG"@) + zeros(19) + be16(24) + be16(0xffff));

    let mut stsd = Atom::full(STSD, 0, 0);
    stsd.u32(1);
    let jpeg_bytes = jpeg.finish();
    stsd.bytes(jpeg_bytes.as_slice());
    let b = stsd.finish();
    assert(b@ =~= stsd_atom(width, height));
    b
}

/// Where each frame begins, as the index records it.
pub open spec fn offsets_of(m: Movie) -> Seq<u64> {
    Seq::new(m.frames.len(), |i: int| m.offset(i) as u64)
}

/// How long each frame is, as the index records it.
pub open spec fn sizes_of(m: Movie) -> Seq<u32> {
    Seq::new(m.frames.len(), |i: int| m.frames[i].len() as u32)
}

/// The sample tables.
pub open spec fn stbl_atom(m: Movie) -> Seq<u8> {
    atom(
        STBL,
        concat(
            seq![
                stsd_atom(m.width, m.height),
                stts_atom(frame_durations(m.ticks)),
                stsc_atom(),
                stsz_atom(sizes_of(m)),
                co64_atom(offsets_of(m)),
            ],
        ),
    )
}

/// Video media header.
pub open spec fn vmhd_atom() -> Seq<u8> {
    full_atom(VMHD, 0, 1, be16(0x40) + zeros(6))
}

/// Data reference: one entry, this file.
pub open spec fn dref_atom() -> Seq<u8> {
    full_atom(DREF, 0, 0, be32(1) + full_atom(ALIS, 0, 1, seq![]))
}

/// Media information: video, with the media in this file.
pub open spec fn minf_atom(m: Movie) -> Seq<u8> {
    atom(
        MINF,
        concat(
            seq![
                vmhd_atom(),
                handler_atom(DHLR, ALIS, "DataHandler"@),
                atom(DINF, concat(seq![dref_atom()])),
                stbl_atom(m),
            ],
        ),
    )
}

/// How long the whole movie plays, in media units.
pub open spec fn media_duration(m: Movie) -> int {
    total(frame_durations(m.ticks)) as int
}

/// How long the whole movie plays, in movie units.
pub open spec fn movie_duration(m: Movie) -> int {
    media_duration(m) * MOVIE_TIMESCALE / (MEDIA_TIMESCALE as int)
}

/// Movie header. `now` counts seconds from the QuickTime epoch.
pub open spec fn mvhd_atom(now: int, duration: int) -> Seq<u8> {
    full_atom(
        MVHD,
        0,
        0,
        be32(now) + be32(now) + be32(MOVIE_TIMESCALE as int) + be32(duration) + be32(0x0001_0000)
            + be16(0x0100) + zeros(10) + identity_matrix() + zeros(24) + be32(2),
    )
}

/// Track header, enabled and in the movie.
pub open spec fn tkhd_atom(now: int, duration: int, width: u16, height: u16) -> Seq<u8> {
    full_atom(
        TKHD,
        0,
        3,
        be32(now) + be32(now) + be32(1) + zeros(4) + be32(duration) + zeros(8) + zeros(6) + zeros(2)
            + identity_matrix() + be32(width * 0x1_0000) + be32(height * 0x1_0000),
    )
}

/// Media header.
pub open spec fn mdhd_atom(now: int, duration: int) -> Seq<u8> {
    full_atom(
        MDHD,
        0,
        0,
        be32(now) + be32(now) + be32(MEDIA_TIMESCALE as int) + be32(duration) + be16(0x55c4) + be16(
            0,
        ),
    )
}

/// The media: its header, its handler and its tables.
pub open spec fn mdia_atom(m: Movie, now: int) -> Seq<u8> {
    atom(
        MDIA,
        concat(
            seq![
                mdhd_atom(now, media_duration(m)),
                handler_atom(MHLR, VIDE, "VideoHandler"@),
                minf_atom(m),
            ],
        ),
    )
}

/// The one track.
pub open spec fn trak_atom(m: Movie, now: int) -> Seq<u8> {
    atom(
        TRAK,
        concat(
            seq![tkhd_atom(now, movie_duration(m), m.width, m.height), mdia_atom(m, now)],
        ),
    )
}

/// The movie's index.
pub open spec fn moov_atom(m: Movie, now: int) -> Seq<u8> {
    atom(MOOV, concat(seq![mvhd_atom(now, movie_duration(m)), trak_atom(m, now)]))
}

/// The file type: QuickTime.
pub open spec fn ftyp_atom() -> Seq<u8> {
    atom(FTYP, be32(QT as int) + be32(0x0000_0200) + be32(QT as int))
}

/// The header of `mdat`: a size field of 1 means that the 64-bit size
/// follows the kind.
pub open spec fn mdat_header(size: int) -> Seq<u8> {
    be32(1) + be32(MDAT as int) + be64(size)
}

/// What the file holds while frames are still arriving: the size of `mdat`
/// is not known yet.
pub open spec fn unfinished_file(m: Movie) -> Seq<u8> {
    ftyp_atom() + mdat_header(0) + concat(m.frames)
}

/// The finished file, made `unix_secs` after the Unix epoch.
pub open spec fn finished_file(m: Movie, unix_secs: u64) -> Seq<u8> {
    ftyp_atom() + mdat_header(m.end() - MDAT_START) + concat(m.frames) + moov_atom(
        m,
        unix_secs + QT_EPOCH_OFFSET,
    )
}

/// `file` with the bytes from `at` on overwritten by `patch`.
pub open spec fn overwrite(file: Seq<u8>, at: int, patch: Seq<u8>) -> Seq<u8> {
    file.take(at) + patch + file.skip(at + patch.len())
}

/// Appends the low 32 bits of `v`.
fn push_low(a: &mut Atom, v: u128)
    requires
        old(a).wf(),
    ensures
        final(a).wf(),
        final(a).kind() == old(a).kind(),
        final(a).body() == old(a).body() + be32(v as int),
{
    a.u32((v % 0x1_0000_0000) as u32);
    proof {
        lemma_be32_keeps_the_low_bits(v as int);
    }
}

fn sum_of(durations: &Vec<u32>) -> (n: u128)
    ensures
        n == total(durations@),
        n <= 0x1_0000_0000_0000_0000_0000_0000,
{
    let mut n: u128 = 0;
    let mut i: usize = 0;
    while i < durations.len()
        invariant
            i <= durations@.len(),
            n == total(durations@.take(i as int)),
            n <= i * u32::MAX,
        decreases durations@.len() - i,
    {
        assert(durations@.take(i + 1).drop_last() =~= durations@.take(i as int));
        n = n + durations[i] as u128;
        i = i + 1;
    }
    assert(durations@.take(i as int) =~= durations@);
    n
}

/// The index of a movie being recorded.
pub struct MovWriter {
    width: u16,
    height: u16,
    end: u64,
    offsets: Vec<u64>,
    sizes: Vec<u32>,
    ticks: Vec<u64>,
    frames: Ghost<Seq<Seq<u8>>>,
}

/// What [`MovWriter::finish`] asks of the file.
pub struct Trailer {
    /// To append: the index.
    pub moov: Vec<u8>,
    /// Where the size of `mdat` stands in the file.
    pub size_at: u64,
    /// What to write there.
    pub size: Vec<u8>,
}

/// Why a movie could not be extended or finished.
#[derive(Clone, Copy, Debug, PartialEq, Eq, Structural)]
pub enum MovError {
    /// The index counts a frame's size in 32 bits.
    FrameTooLarge,
    NoFrames,
}

impl View for MovWriter {
    type V = Movie;

    closed spec fn view(&self) -> Movie {
        Movie {
            width: self.width,
            height: self.height,
            frames: self.frames@,
            ticks: self.ticks@,
        }
    }
}

impl MovWriter {
    /// The index addresses the frames that were written.
    pub closed spec fn wf(&self) -> bool {
        &&& self.end == self@.end()
        &&& self.offsets@ == offsets_of(self@)
        &&& self.sizes@ == sizes_of(self@)
        &&& self@.indexable()
    }

    /// A movie without frames, and the bytes its file begins with. The 64-bit
    /// `mdat` header lets the recording pass 4 GB; the real size is patched
    /// in at the end.
    pub fn create(width: u16, height: u16) -> (r: (Self, Vec<u8>))
        ensures
            r.0.wf(),
            r.0@ == (Movie { width, height, frames: seq![], ticks: seq![] }),
            r.1@ == unfinished_file(r.0@),
    {
        let mut ftyp = Atom::new(FTYP);
        ftyp.u32(QT);
        ftyp.u32(0x0000_0200);
        ftyp.u32(QT);
        assert(ftyp.body() =~= be32(QT as int) + be32(0x0000_0200) + be32(QT as int));
        let mut start = ftyp.finish();
        push_be32(&mut start, 1);
        push_be32(&mut start, MDAT);
        push_be32(&mut start, 0);
        push_be32(&mut start, 0);
        let w = MovWriter {
            width,
            height,
            end: DATA_START,
            offsets: Vec::new(),
            sizes: Vec::new(),
            ticks: Vec::new(),
            frames: Ghost(Seq::empty()),
        };
        assert(w.offsets@ =~= offsets_of(w@));
        assert(w.sizes@ =~= sizes_of(w@));
        assert(start@ =~= unfinished_file(w@));
        (w, start)
    }

    /// Whether the index can take a frame of `len` bytes.
    pub fn accepts(len: usize) -> (b: bool)
        ensures
            b <==> len <= u32::MAX,
    {
        len as u64 <= u32::MAX as u64
    }

    /// Whether the file's size can still be counted with `len` bytes more.
    pub fn has_room(&self, len: usize) -> (b: bool)
        requires
            self.wf(),
        ensures
            b <==> self@.end() + len <= u64::MAX,
    {
        len as u64 <= u64::MAX - self.end
    }

    /// Records one JPEG frame appended to the file, presented at `ticks`
    /// media ticks since recording started. Real capture times give real-time
    /// playback even when frames were dropped. A frame that the index cannot
    /// take leaves it as it was.
    pub fn write_frame(&mut self, jpeg: &[u8], ticks: u64) -> (r: Result<(), MovError>)
        requires
            old(self).wf(),
            old(self)@.end() + jpeg@.len() <= u64::MAX,
        ensures
            final(self).wf(),
            jpeg@.len() <= u32::MAX ==> r is Ok && final(self)@ == (Movie {
                frames: old(self)@.frames.push(jpeg@),
                ticks: old(self)@.ticks.push(ticks),
                ..old(self)@
            }),
            jpeg@.len() > u32::MAX ==> r == Err::<(), MovError>(MovError::FrameTooLarge)
                && final(self)@ == old(self)@,
    {
        if !Self::accepts(jpeg.len()) {
            return Err(MovError::FrameTooLarge);
        }
        let ghost before = self@;
        self.offsets.push(self.end);
        self.sizes.push(jpeg.len() as u32);
        self.ticks.push(ticks);
        self.end = self.end + jpeg.len() as u64;
        self.frames = Ghost(self.frames@.push(jpeg@));
        proof {
            let n = before.frames.len() as int;
            assert(self@.frames.drop_last() =~= before.frames);
            assert(self@.frames.take(n) =~= before.frames);
            assert forall|i: int| 0 <= i < n implies self@.offset(i) == before.offset(i) by {
                assert(self@.frames.take(i) =~= before.frames.take(i));
            }
            assert(self.offsets@ =~= offsets_of(self@));
            assert(self.sizes@ =~= sizes_of(self@));
        }
        Ok(())
    }

    /// Makes the sample index and the size of `mdat`. `unix_secs` is the time
    /// of creation.
    pub fn finish(self, unix_secs: u64) -> (r: Result<Trailer, MovError>)
        requires
            self.wf(),
        ensures
            self@.frames.len() == 0 <==> r is Err,
            r matches Err(e) ==> e == MovError::NoFrames,
            r matches Ok(t) ==> {
                &&& t.moov@ == moov_atom(self@, unix_secs + QT_EPOCH_OFFSET)
                &&& t.size_at == MDAT_START + 8
                &&& t.size@ == be64(self@.end() - MDAT_START)
            },
    {
        if self.offsets.len() == 0 {
            return Err(MovError::NoFrames);
        }
        let moov = self.moov(unix_secs);
        let mdat_size: u64 = self.end - MDAT_START;
        let mut size: Vec<u8> = Vec::new();
        push_be32(&mut size, (mdat_size / 0x1_0000_0000) as u32);
        push_be32(&mut size, (mdat_size % 0x1_0000_0000) as u32);
        assert(size@ =~= be64(mdat_size as int));
        Ok(Trailer { moov, size_at: MDAT_START + 8, size })
    }

    /// Per-frame durations in media ticks, from consecutive timestamps. The
    /// last frame repeats the previous interval, or 1/30 s if it is alone.
    fn durations(&self) -> (out: Vec<u32>)
        ensures
            out@ == frame_durations(self@.ticks),
    {
        let mut out: Vec<u32> = Vec::new();
        let n: usize = self.ticks.len();
        if n < 2 {
            out.push(MEDIA_TIMESCALE / 30);
            assert(out@ =~= frame_durations(self@.ticks));
            return out;
        }
        let mut i: usize = 0;
        while i + 1 < n
            invariant
                n == self.ticks@.len(),
                n >= 2,
                i < n,
                out@ =~= Seq::new(
                    i as nat,
                    |j: int| frame_ticks(self.ticks@[j], self.ticks@[j + 1]),
                ),
            decreases n - i,
        {
            let t: u64 = self.ticks[i];
            let next: u64 = self.ticks[i + 1];
            let apart: u64 = if next > t {
                next - t
            } else {
                1
            };
            out.push((apart % 0x1_0000_0000) as u32);
            i = i + 1;
        }
        let last: u32 = out[n - 2];
        out.push(last);
        assert(out@ =~= frame_durations(self@.ticks));
        out
    }

    fn moov(&self, unix_secs: u64) -> (b: Vec<u8>)
        requires
            self.wf(),
        ensures
            b@ == moov_atom(self@, unix_secs + QT_EPOCH_OFFSET),
    {
        let durations = self.durations();
        let media_duration: u128 = sum_of(&durations);
        let movie_duration: u128 = to_movie_units(media_duration);
        let now: u128 = unix_secs as u128 + QT_EPOCH_OFFSET as u128;

        let mvhd = mvhd(now, movie_duration);
        let tkhd = tkhd(now, movie_duration, self.width, self.height);
        let mdhd = mdhd(now, media_duration);
        let video = handler(MHLR, VIDE, "VideoHandler");
        let minf = self.minf(&durations);
        let mdia = three_in(MDIA, mdhd, video, minf);
        let trak = two_in(TRAK, tkhd, mdia);
        two_in(MOOV, mvhd, trak)
    }

    fn minf(&self, durations: &Vec<u32>) -> (b: Vec<u8>)
        requires
            self.wf(),
            durations@ == frame_durations(self@.ticks),
        ensures
            b@ == minf_atom(self@),
    {
        let dinf = one_in(DINF, dref());
        let stbl = self.stbl(durations);
        let data = handler(DHLR, ALIS, "DataHandler");
        four_in(MINF, vmhd(), data, dinf, stbl)
    }

    fn stbl(&self, durations: &Vec<u32>) -> (b: Vec<u8>)
        requires
            self.wf(),
            durations@ == frame_durations(self@.ticks),
        ensures
            b@ == stbl_atom(self@),
    {
        let stsd = stsd(self.width, self.height);
        let stts = stts(durations.as_slice());
        let stsz = stsz(&self.sizes);
        let co64 = co64(&self.offsets);
        five_in(STBL, stsd, stts, stsc(), stsz, co64)
    }
}

/// A time in media units, in movie units.
fn to_movie_units(n: u128) -> (d: u128)
    requires
        n <= 0x1_0000_0000_0000_0000_0000_0000,
    ensures
        d == n * MOVIE_TIMESCALE / (MEDIA_TIMESCALE as int),
{
    let scale: u128 = MOVIE_TIMESCALE as u128;
    assert(n * scale <= 0x1_0000_0000_0000_0000_0000_0000 * 1_000) by (nonlinear_arith)
        requires
            n <= 0x1_0000_0000_0000_0000_0000_0000,
            scale == 1_000,
    ;
    n * scale / MEDIA_TIMESCALE as u128
}

/// An atom that holds one other.
fn one_in(kind: u32, only: Vec<u8>) -> (b: Vec<u8>)
    ensures
        b@ == atom(kind, concat(seq![only@])),
{
    let parts: [Vec<u8>; 1] = [only];
    assert(parts@.map_values(|c: Vec<u8>| c@) =~= seq![only@]);
    Atom::with(kind, &parts)
}

/// An atom that holds two others.
fn two_in(kind: u32, first: Vec<u8>, second: Vec<u8>) -> (b: Vec<u8>)
    ensures
        b@ == atom(kind, concat(seq![first@, second@])),
{
    let parts: [Vec<u8>; 2] = [first, second];
    assert(parts@.map_values(|c: Vec<u8>| c@) =~= seq![first@, second@]);
    Atom::with(kind, &parts)
}

/// An atom that holds three others.
fn three_in(kind: u32, first: Vec<u8>, second: Vec<u8>, third: Vec<u8>) -> (b: Vec<u8>)
    ensures
        b@ == atom(kind, concat(seq![first@, second@, third@])),
{
    let parts: [Vec<u8>; 3] = [first, second, third];
    assert(parts@.map_values(|c: Vec<u8>| c@) =~= seq![first@, second@, third@]);
    Atom::with(kind, &parts)
}

/// An atom that holds four others.
fn four_in(
    kind: u32,
    first: Vec<u8>,
    second: Vec<u8>,
    third: Vec<u8>,
    fourth: Vec<u8>,
) -> (b: Vec<u8>)
    ensures
        b@ == atom(kind, concat(seq![first@, second@, third@, fourth@])),
{
    let parts: [Vec<u8>; 4] = [first, second, third, fourth];
    assert(parts@.map_values(|c: Vec<u8>| c@) =~= seq![first@, second@, third@, fourth@]);
    Atom::with(kind, &parts)
}

/// An atom that holds five others.
fn five_in(
    kind: u32,
    first: Vec<u8>,
    second: Vec<u8>,
    third: Vec<u8>,
    fourth: Vec<u8>,
    fifth: Vec<u8>,
) -> (b: Vec<u8>)
    ensures
        b@ == atom(kind, concat(seq![first@, second@, third@, fourth@, fifth@])),
{
    let parts: [Vec<u8>; 5] = [first, second, third, fourth, fifth];
    assert(parts@.map_values(|c: Vec<u8>| c@) =~= seq![
        first@,
        second@,
        third@,
        fourth@,
        fifth@,
    ]);
    Atom::with(kind, &parts)
}

fn mvhd(now: u128, duration: u128) -> (b: Vec<u8>)
    ensures
        b@ == mvhd_atom(now as int, duration as int),
{
    let mut mvhd = Atom::full(MVHD, 0, 0);
    push_low(&mut mvhd, now);
    push_low(&mut mvhd, now);
    mvhd.u32(MOVIE_TIMESCALE);
    push_low(&mut mvhd, duration);
    mvhd.u32(0x0001_0000);  // rate 1.0
    mvhd.u16(0x0100);  // volume 1.0
    mvhd.zeros(10);
    mvhd.matrix();
    mvhd.zeros(24);  // preview, poster, selection and current times
    mvhd.u32(2);  // next track id
    let b = mvhd.finish();
    assert(b@ =~= mvhd_atom(now as int, duration as int));
    b
}

fn tkhd(now: u128, duration: u128, width: u16, height: u16) -> (b: Vec<u8>)
    ensures
        b@ == tkhd_atom(now as int, duration as int, width, height),
{
    let mut tkhd = Atom::full(TKHD, 0, 0x3);  // enabled, in movie
    push_low(&mut tkhd, now);
    push_low(&mut tkhd, now);
    tkhd.u32(1);  // track id
    tkhd.zeros(4);
    push_low(&mut tkhd, duration);
    tkhd.zeros(8);
    tkhd.zeros(6);  // layer, alternate group, volume (none for video)
    tkhd.zeros(2);
    tkhd.matrix();
    tkhd.u32(width as u32 * 0x1_0000);
    tkhd.u32(height as u32 * 0x1_0000);
    let b = tkhd.finish();
    assert(b@ =~= tkhd_atom(now as int, duration as int, width, height));
    b
}

fn mdhd(now: u128, duration: u128) -> (b: Vec<u8>)
    ensures
        b@ == mdhd_atom(now as int, duration as int),
{
    let mut mdhd = Atom::full(MDHD, 0, 0);
    push_low(&mut mdhd, now);
    push_low(&mut mdhd, now);
    mdhd.u32(MEDIA_TIMESCALE);
    push_low(&mut mdhd, duration);
    mdhd.u16(0x55c4);  // language "und"
    mdhd.u16(0);  // quality
    let b = mdhd.finish();
    assert(b@ =~= mdhd_atom(now as int, duration as int));
    b
}

fn vmhd() -> (b: Vec<u8>)
    ensures
        b@ == vmhd_atom(),
{
    let mut vmhd = Atom::full(VMHD, 0, 0x1);
    vmhd.u16(0x40);  // graphics mode: dither copy
    vmhd.zeros(6);  // opcolor
    let b = vmhd.finish();
    assert(b@ =~= vmhd_atom());
    b
}

fn dref() -> (b: Vec<u8>)
    ensures
        b@ == dref_atom(),
{
    let alis = Atom::full(ALIS, 0, 0x1).finish();  // media is in this file
    assert(alis@ =~= full_atom(ALIS, 0, 1, seq![]));
    let mut dref = Atom::full(DREF, 0, 0);
    dref.u32(1);
    dref.bytes(alis.as_slice());
    let b = dref.finish();
    assert(b@ =~= dref_atom());
    b
}

/// The big-endian number in the four bytes from `at` on.
pub open spec fn read32(b: Seq<u8>, at: int) -> int {
    b[at] * 0x100_0000 + b[at + 1] * 0x1_0000 + b[at + 2] * 0x100 + b[at + 3]
}

/// The big-endian number in the eight bytes from `at` on.
pub open spec fn read64(b: Seq<u8>, at: int) -> int {
    read32(b, at) * 0x1_0000_0000 + read32(b, at + 4)
}

/// Whether `inner` stands in `outer`, from `at` on.
pub open spec fn part_at(outer: Seq<u8>, at: int, inner: Seq<u8>) -> bool {
    &&& 0 <= at
    &&& at + inner.len() <= outer.len()
    &&& forall|j: int| #![trigger inner[j]] 0 <= j < inner.len() ==> outer[at + j] == inner[j]
}

/// The kinds of the atoms that follow each other from `at` to the end of
/// `file`, each as long as its size says; a size of 1 stands for the 64-bit
/// one behind the kind. None where they do not end with the file.
pub open spec fn atoms_from(file: Seq<u8>, at: int) -> Option<Seq<int>>
    decreases file.len() - at,
{
    if at == file.len() {
        Some(seq![])
    } else if at + 8 > file.len() {
        None
    } else {
        let size = if read32(file, at) == 1 {
            read64(file, at + 8)
        } else {
            read32(file, at)
        };
        if size < 8 || at + size > file.len() {
            None
        } else {
            match atoms_from(file, at + size) {
                Some(rest) => Some(seq![read32(file, at + 4)] + rest),
                None => None,
            }
        }
    }
}

pub(crate) proof fn lemma_part_of_a_part(
    outer: Seq<u8>,
    at: int,
    middle: Seq<u8>,
    then: int,
    inner: Seq<u8>,
)
    requires
        part_at(outer, at, middle),
        part_at(middle, then, inner),
    ensures
        part_at(outer, at + then, inner),
{
    assert forall|j: int| #![trigger inner[j]] 0 <= j < inner.len() implies outer[at + then + j]
        == inner[j] by {
        assert(inner[j] == middle[then + j]);
        assert(outer[at + (then + j)] == middle[then + j]);
    }
}

pub(crate) proof fn lemma_part_of_a_sum(before: Seq<u8>, inner: Seq<u8>, after: Seq<u8>)
    ensures
        part_at(before + inner + after, before.len() as int, inner),
{
}

pub(crate) proof fn lemma_piece_of_a_concat(pieces: Seq<Seq<u8>>, i: int)
    requires
        0 <= i < pieces.len(),
    ensures
        part_at(concat(pieces), concat(pieces.take(i)).len() as int, pieces[i]),
    decreases pieces.len(),
{
    let front = pieces.drop_last();
    if i == pieces.len() - 1 {
        assert(pieces.take(i) =~= front);
        assert(concat(pieces) =~= concat(front) + pieces.last() + seq![]);
        lemma_part_of_a_sum(concat(front), pieces.last(), seq![]);
    } else {
        lemma_piece_of_a_concat(front, i);
        assert(front.take(i) =~= pieces.take(i));
        assert(part_at(concat(pieces), 0, concat(front)));
        lemma_part_of_a_part(
            concat(pieces),
            0,
            concat(front),
            concat(pieces.take(i)).len() as int,
            pieces[i],
        );
    }
}

pub(crate) proof fn lemma_concat_of_even_pieces(pieces: Seq<Seq<u8>>, n: int)
    requires
        forall|i: int| 0 <= i < pieces.len() ==> (#[trigger] pieces[i]).len() == n,
    ensures
        concat(pieces).len() == n * pieces.len(),
    decreases pieces.len(),
{
    if pieces.len() > 0 {
        lemma_concat_of_even_pieces(pieces.drop_last(), n);
        assert(n * pieces.len() == n * (pieces.len() - 1) + n) by (nonlinear_arith);
    } else {
        assert(n * 0 == 0) by (nonlinear_arith);
    }
}

pub(crate) proof fn lemma_body_of_an_atom(kind: u32, body: Seq<u8>)
    ensures
        part_at(atom(kind, body), 8, body),
{
}

pub(crate) proof fn lemma_body_of_a_full_atom(kind: u32, version: u8, flags: u32, body: Seq<u8>)
    ensures
        part_at(full_atom(kind, version, flags, body), 12, body),
{
    let word = be32((((version as u32) << 24u32) | flags) as int);
    lemma_body_of_an_atom(kind, word + body);
    lemma_part_of_a_part(
        full_atom(kind, version, flags, body),
        8,
        word + body,
        4,
        body,
    );
}

pub(crate) proof fn lemma_read32(b: Seq<u8>, at: int, v: int)
    requires
        0 <= v < 0x1_0000_0000,
        part_at(b, at, be32(v)),
    ensures
        read32(b, at) == v,
{
    let w = be32(v);
    assert(b[at + 0] == w[0]);
    assert(b[at + 1] == w[1]);
    assert(b[at + 2] == w[2]);
    assert(b[at + 3] == w[3]);
}

pub(crate) proof fn lemma_read64(b: Seq<u8>, at: int, v: int)
    requires
        0 <= v < 0x1_0000_0000_0000_0000,
        part_at(b, at, be64(v)),
    ensures
        read64(b, at) == v,
{
    let high = be32(v / 0x1_0000_0000);
    let low = be32(v % 0x1_0000_0000);
    assert(part_at(be64(v), 0, high));
    assert(part_at(be64(v), 4, low));
    lemma_part_of_a_part(b, at, be64(v), 0, high);
    lemma_part_of_a_part(b, at, be64(v), 4, low);
    lemma_read32(b, at, v / 0x1_0000_0000);
    lemma_read32(b, at + 4, v % 0x1_0000_0000);
}

/// What a writer holds can always be indexed.
pub proof fn law_a_writer_stays_indexable(w: MovWriter)
    requires
        w.wf(),
    ensures
        w@.indexable(),
{
}

/// Appending a recorded frame to its file keeps the file in step with the
/// index.
pub proof fn law_a_frame_extends_the_file(m: Movie, jpeg: Seq<u8>, ticks: u64)
    ensures
        unfinished_file(
            Movie { frames: m.frames.push(jpeg), ticks: m.ticks.push(ticks), ..m },
        ) == unfinished_file(m) + jpeg,
{
    assert(m.frames.push(jpeg).drop_last() =~= m.frames);
    assert(unfinished_file(m) + jpeg =~= ftyp_atom() + mdat_header(0) + (concat(m.frames) + jpeg));
}

/// Appending the index and patching in the size of `mdat` finishes the file.
#[verifier::spinoff_prover]
pub proof fn law_the_trailer_finishes_the_file(m: Movie, unix_secs: u64)
    ensures
        overwrite(
            unfinished_file(m) + moov_atom(m, unix_secs + QT_EPOCH_OFFSET),
            MDAT_START + 8,
            be64(m.end() - MDAT_START),
        ) == finished_file(m, unix_secs),
{
    let moov = moov_atom(m, unix_secs + QT_EPOCH_OFFSET);
    let size = be64(m.end() - MDAT_START);
    let ftyp = ftyp_atom();
    let kind = be32(1) + be32(MDAT as int);
    let frames = concat(m.frames);
    let whole = unfinished_file(m) + moov;
    assert(whole =~= ftyp + kind + be64(0) + frames + moov);
    assert(whole.take(28) =~= ftyp + kind);
    assert(whole.skip(36) =~= frames + moov);
    assert(finished_file(m, unix_secs) =~= ftyp + kind + size + (frames + moov));
}

pub(crate) proof fn lemma_head_of_a_file(ftyp: Seq<u8>, size: int, rest: Seq<u8>)
    requires
        ftyp == ftyp_atom(),
        0 <= size < 0x1_0000_0000_0000_0000,
    ensures
        ({
            let file = ftyp + (mdat_header(size) + rest);
            &&& read32(file, 0) == 20
            &&& read32(file, 4) == FTYP
            &&& read32(file, 20) == 1
            &&& read32(file, 24) == MDAT
            &&& read64(file, 28) == size
        }),
{
    let header = mdat_header(size);
    let file = ftyp + (header + rest);
    assert(part_at(file, 0, be32(20)));
    lemma_read32(file, 0, 20);
    assert(part_at(file, 4, be32(FTYP as int)));
    lemma_read32(file, 4, FTYP as int);
    lemma_part_of_a_sum(ftyp, header, rest);
    assert(file =~= ftyp + header + rest);
    assert(part_at(header, 0, be32(1)));
    assert(part_at(header, 4, be32(MDAT as int)));
    assert(part_at(header, 8, be64(size)));
    lemma_part_of_a_part(file, 20, header, 0, be32(1));
    lemma_part_of_a_part(file, 20, header, 4, be32(MDAT as int));
    lemma_part_of_a_part(file, 20, header, 8, be64(size));
    lemma_read32(file, 20, 1);
    lemma_read32(file, 24, MDAT as int);
    lemma_read64(file, 28, size);
}

proof fn lemma_tail_of_a_file(before: Seq<u8>, body: Seq<u8>)
    requires
        8 + body.len() < 0x1_0000_0000,
    ensures
        read32(before + atom(MOOV, body), before.len() as int) == 8 + body.len(),
        read32(before + atom(MOOV, body), before.len() as int + 4) == MOOV,
{
    let moov = atom(MOOV, body);
    let file = before + moov;
    let end = before.len() as int;
    assert(part_at(file, end, moov));
    assert(part_at(moov, 0, be32(moov.len() as int)));
    assert(part_at(moov, 4, be32(MOOV as int)));
    lemma_part_of_a_part(file, end, moov, 0, be32(moov.len() as int));
    lemma_part_of_a_part(file, end, moov, 4, be32(MOOV as int));
    lemma_read32(file, end, moov.len() as int);
    lemma_read32(file, end + 4, MOOV as int);
}

proof fn lemma_walk_of_three_atoms(file: Seq<u8>, mdat_len: int, moov_len: int)
    requires
        8 <= mdat_len,
        8 <= moov_len,
        file.len() == 20 + mdat_len + moov_len,
        read32(file, 0) == 20,
        read32(file, 4) == FTYP,
        read32(file, 20) == 1,
        read32(file, 24) == MDAT,
        read64(file, 28) == mdat_len,
        read32(file, 20 + mdat_len) == moov_len,
        read32(file, 24 + mdat_len) == MOOV,
    ensures
        atoms_from(file, 0) == Some(seq![FTYP as int, MDAT as int, MOOV as int]),
{
    let none: Seq<int> = seq![];
    assert(atoms_from(file, file.len() as int) == Some(none));
    assert(atoms_from(file, 20 + mdat_len) == Some(seq![MOOV as int] + none));
    assert(atoms_from(file, 20) == Some(seq![MDAT as int] + (seq![MOOV as int] + none)));
    assert(seq![FTYP as int] + (seq![MDAT as int] + (seq![MOOV as int] + none)) =~= seq![
        FTYP as int,
        MDAT as int,
        MOOV as int,
    ]);
}

proof fn lemma_three_atoms(frames: Seq<u8>, body: Seq<u8>)
    requires
        DATA_START + frames.len() <= u64::MAX,
        0 < body.len(),
        8 + body.len() < 0x1_0000_0000,
    ensures
        atoms_from(
            ftyp_atom() + mdat_header(16 + frames.len() as int) + frames + atom(MOOV, body),
            0,
        ) == Some(seq![FTYP as int, MDAT as int, MOOV as int]),
{
    let ftyp = ftyp_atom();
    let header = mdat_header(16 + frames.len() as int);
    let moov = atom(MOOV, body);
    assert(ftyp.len() == 20);
    assert(header.len() == 16);
    assert(moov.len() == 8 + body.len());
    lemma_head_of_a_file(ftyp, 16 + frames.len() as int, frames + moov);
    lemma_tail_of_a_file(ftyp + header + frames, body);
    lemma_regroup(ftyp, header, frames, moov);
    lemma_walk_of_three_atoms(
        ftyp + header + frames + moov,
        16 + frames.len() as int,
        moov.len() as int,
    );
}

proof fn lemma_regroup(a: Seq<u8>, b: Seq<u8>, c: Seq<u8>, d: Seq<u8>)
    ensures
        a + b + c + d == a + (b + (c + d)),
{
    assert(a + b + c + d =~= a + (b + (c + d)));
}

/// The same, of a movie that holds another atom last.
proof fn lemma_three_atoms_around(frames: Seq<u8>, first: Seq<u8>, kind: u32, body: Seq<u8>)
    requires
        DATA_START + frames.len() <= u64::MAX,
        atom(MOOV, concat(seq![first, atom(kind, body)])).len() < 0x1_0000_0000,
    ensures
        atoms_from(
            ftyp_atom() + mdat_header(16 + frames.len() as int) + frames + atom(
                MOOV,
                concat(seq![first, atom(kind, body)]),
            ),
            0,
        ) == Some(seq![FTYP as int, MDAT as int, MOOV as int]),
{
    let movie = seq![first, atom(kind, body)];
    lemma_piece_of_a_concat(movie, 1);
    assert(movie[1].len() == 8 + body.len());
    lemma_three_atoms(frames, concat(movie));
}

/// A finished file is `ftyp`, `mdat` and `moov`, and nothing else: each
/// atom's size leads to the next one, and the last to the end of the file.
pub proof fn law_atoms_tile_the_file(m: Movie, unix_secs: u64)
    requires
        m.indexable(),
        moov_atom(m, unix_secs + QT_EPOCH_OFFSET).len() < 0x1_0000_0000,
    ensures
        atoms_from(finished_file(m, unix_secs), 0) == Some(
            seq![FTYP as int, MDAT as int, MOOV as int],
        ),
{
    let now = unix_secs + QT_EPOCH_OFFSET;
    let track = seq![
        tkhd_atom(now, movie_duration(m), m.width, m.height),
        mdia_atom(m, now),
    ];
    lemma_three_atoms_around(
        concat(m.frames),
        mvhd_atom(now, movie_duration(m)),
        TRAK,
        concat(track),
    );
}

/// Whether the entries for frame `i` in the tables at `sizes_at` and
/// `offsets_at` lead to `frame`.
pub open spec fn entry_leads_to(
    file: Seq<u8>,
    sizes_at: int,
    offsets_at: int,
    i: int,
    frame: Seq<u8>,
) -> bool {
    let size = read32(file, sizes_at + 20 + 4 * i);
    let at = read64(file, offsets_at + 16 + 8 * i);
    0 <= at && at + size <= file.len() && file.subrange(at, at + size) == frame
}

/// Whether the tables at `sizes_at` and `offsets_at` in `file` are `m`'s, and
/// lead to each of its frames.
pub open spec fn index_at(file: Seq<u8>, m: Movie, sizes_at: int, offsets_at: int) -> bool {
    &&& part_at(file, sizes_at, stsz_atom(sizes_of(m)))
    &&& part_at(file, offsets_at, co64_atom(offsets_of(m)))
    &&& forall|i: int|
        0 <= i < m.frames.len() ==> entry_leads_to(
            file,
            sizes_at,
            offsets_at,
            i,
            #[trigger] m.frames[i],
        )
}

pub(crate) proof fn lemma_size_entry(sizes: Seq<u32>, i: int)
    requires
        0 <= i < sizes.len(),
    ensures
        part_at(stsz_atom(sizes), 20 + 4 * i, be32(sizes[i] as int)),
{
    let pieces = sizes.map_values(|s: u32| be32(s as int));
    let body = be32(0) + be32(sizes.len() as int) + concat(pieces);
    lemma_body_of_a_full_atom(STSZ, 0, 0, body);
    lemma_piece_of_a_concat(pieces, i);
    lemma_concat_of_even_pieces(pieces.take(i), 4);
    assert(part_at(body, 8, concat(pieces)));
    lemma_part_of_a_part(body, 8, concat(pieces), 4 * i, pieces[i]);
    lemma_part_of_a_part(stsz_atom(sizes), 12, body, 8 + 4 * i, pieces[i]);
}

pub(crate) proof fn lemma_offset_entry(offsets: Seq<u64>, i: int)
    requires
        0 <= i < offsets.len(),
    ensures
        part_at(co64_atom(offsets), 16 + 8 * i, be64(offsets[i] as int)),
{
    let pieces = offsets.map_values(|o: u64| be64(o as int));
    let body = be32(offsets.len() as int) + concat(pieces);
    lemma_body_of_a_full_atom(CO64, 0, 0, body);
    lemma_piece_of_a_concat(pieces, i);
    lemma_concat_of_even_pieces(pieces.take(i), 8);
    assert(part_at(body, 4, concat(pieces)));
    lemma_part_of_a_part(body, 4, concat(pieces), 8 * i, pieces[i]);
    lemma_part_of_a_part(co64_atom(offsets), 12, body, 4 + 8 * i, pieces[i]);
}

/// Where piece `i` of an atom of `pieces` stands in it.
proof fn lemma_child_of_an_atom(kind: u32, pieces: Seq<Seq<u8>>, i: int)
    requires
        0 <= i < pieces.len(),
    ensures
        part_at(atom(kind, concat(pieces)), 8 + concat(pieces.take(i)).len() as int, pieces[i]),
{
    lemma_body_of_an_atom(kind, concat(pieces));
    lemma_piece_of_a_concat(pieces, i);
    lemma_part_of_a_part(
        atom(kind, concat(pieces)),
        8,
        concat(pieces),
        concat(pieces.take(i)).len() as int,
        pieces[i],
    );
}

/// Where the sample tables stand in the index.
proof fn lemma_tables_of_the_index(m: Movie, now: int) -> (at: int)
    ensures
        part_at(moov_atom(m, now), at, stbl_atom(m)),
{
    let movie = seq![mvhd_atom(now, movie_duration(m)), trak_atom(m, now)];
    let track = seq![tkhd_atom(now, movie_duration(m), m.width, m.height), mdia_atom(m, now)];
    let media = seq![
        mdhd_atom(now, media_duration(m)),
        handler_atom(MHLR, VIDE, "VideoHandler"@),
        minf_atom(m),
    ];
    let info = seq![
        vmhd_atom(),
        handler_atom(DHLR, ALIS, "DataHandler"@),
        atom(DINF, concat(seq![dref_atom()])),
        stbl_atom(m),
    ];
    lemma_child_of_an_atom(MOOV, movie, 1);
    lemma_child_of_an_atom(TRAK, track, 1);
    lemma_child_of_an_atom(MDIA, media, 2);
    lemma_child_of_an_atom(MINF, info, 3);
    let a = 8 + concat(movie.take(1)).len() as int;
    let b = 8 + concat(track.take(1)).len() as int;
    let c = 8 + concat(media.take(2)).len() as int;
    let d = 8 + concat(info.take(3)).len() as int;
    lemma_part_of_a_part(moov_atom(m, now), a, trak_atom(m, now), b, mdia_atom(m, now));
    lemma_part_of_a_part(moov_atom(m, now), a + b, mdia_atom(m, now), c, minf_atom(m));
    lemma_part_of_a_part(moov_atom(m, now), a + b + c, minf_atom(m), d, stbl_atom(m));
    a + b + c + d
}

/// Where the sizes and the offsets stand among the sample tables.
proof fn lemma_sizes_and_offsets_of_the_tables(m: Movie) -> (at: (int, int))
    ensures
        part_at(stbl_atom(m), at.0, stsz_atom(sizes_of(m))),
        part_at(stbl_atom(m), at.1, co64_atom(offsets_of(m))),
{
    let tables = seq![
        stsd_atom(m.width, m.height),
        stts_atom(frame_durations(m.ticks)),
        stsc_atom(),
        stsz_atom(sizes_of(m)),
        co64_atom(offsets_of(m)),
    ];
    lemma_child_of_an_atom(STBL, tables, 3);
    lemma_child_of_an_atom(STBL, tables, 4);
    (8 + concat(tables.take(3)).len() as int, 8 + concat(tables.take(4)).len() as int)
}

pub(crate) proof fn lemma_frames_and_index_of_a_file(frames: Seq<u8>, size: int, moov: Seq<u8>)
    ensures
        part_at(
            ftyp_atom() + mdat_header(size) + frames + moov,
            DATA_START as int,
            frames,
        ),
        part_at(
            ftyp_atom() + mdat_header(size) + frames + moov,
            DATA_START + frames.len(),
            moov,
        ),
{
    let before = ftyp_atom() + mdat_header(size);
    assert(before.len() == DATA_START);
    lemma_part_of_a_sum(before, frames, moov);
    assert(before + frames + moov =~= (before + frames) + moov + seq![]);
    lemma_part_of_a_sum(before + frames, moov, seq![]);
}

pub(crate) proof fn lemma_tables_lead_to_the_frames(
    file: Seq<u8>,
    m: Movie,
    sizes_at: int,
    offsets_at: int,
)
    requires
        m.indexable(),
        part_at(file, DATA_START as int, concat(m.frames)),
        part_at(file, sizes_at, stsz_atom(sizes_of(m))),
        part_at(file, offsets_at, co64_atom(offsets_of(m))),
    ensures
        index_at(file, m, sizes_at, offsets_at),
{
    assert forall|i: int| 0 <= i < m.frames.len() implies entry_leads_to(
        file,
        sizes_at,
        offsets_at,
        i,
        #[trigger] m.frames[i],
    ) by {
        lemma_frame_is_addressed(file, m, sizes_at, offsets_at, i);
    }
}

/// The index addresses every frame: in a finished file, the sizes and the
/// offsets that the tables hold lead to exactly the bytes of each frame.
pub proof fn law_the_index_addresses_every_frame(m: Movie, unix_secs: u64)
    requires
        m.indexable(),
    ensures
        exists|sizes_at: int, offsets_at: int|
            index_at(finished_file(m, unix_secs), m, sizes_at, offsets_at),
{
    let file = finished_file(m, unix_secs);
    let moov = moov_atom(m, unix_secs + QT_EPOCH_OFFSET);
    let stbl = stbl_atom(m);
    lemma_frames_and_index_of_a_file(concat(m.frames), m.end() - MDAT_START, moov);
    let in_moov = lemma_tables_of_the_index(m, unix_secs + QT_EPOCH_OFFSET);
    let stbl_at = m.end() + in_moov;
    let in_stbl = lemma_sizes_and_offsets_of_the_tables(m);
    lemma_part_of_a_part(file, m.end(), moov, in_moov, stbl);
    lemma_part_of_a_part(file, stbl_at, stbl, in_stbl.0, stsz_atom(sizes_of(m)));
    lemma_part_of_a_part(file, stbl_at, stbl, in_stbl.1, co64_atom(offsets_of(m)));
    lemma_tables_lead_to_the_frames(file, m, stbl_at + in_stbl.0, stbl_at + in_stbl.1);
}

pub(crate) proof fn lemma_frame_is_addressed(
    file: Seq<u8>,
    m: Movie,
    sizes_at: int,
    offsets_at: int,
    i: int,
)
    requires
        m.indexable(),
        0 <= i < m.frames.len(),
        part_at(file, DATA_START as int, concat(m.frames)),
        part_at(file, sizes_at, stsz_atom(sizes_of(m))),
        part_at(file, offsets_at, co64_atom(offsets_of(m))),
    ensures
        entry_leads_to(file, sizes_at, offsets_at, i, m.frames[i]),
{
    lemma_piece_of_a_concat(m.frames, i);
    lemma_part_of_a_part(
        file,
        DATA_START as int,
        concat(m.frames),
        concat(m.frames.take(i)).len() as int,
        m.frames[i],
    );
    let at = m.offset(i);
    let size = m.frames[i].len() as int;
    lemma_size_entry(sizes_of(m), i);
    lemma_part_of_a_part(
        file,
        sizes_at,
        stsz_atom(sizes_of(m)),
        20 + 4 * i,
        be32(size),
    );
    lemma_read32(file, sizes_at + 20 + 4 * i, size);
    lemma_offset_entry(offsets_of(m), i);
    lemma_part_of_a_part(
        file,
        offsets_at,
        co64_atom(offsets_of(m)),
        16 + 8 * i,
        be64(at),
    );
    lemma_read64(file, offsets_at + 16 + 8 * i, at);
    assert forall|j: int| 0 <= j < size implies file.subrange(at, at + size)[j]
        == m.frames[i][j] by {
        assert(file[at + j] == m.frames[i][j]);
    }
    assert(file.subrange(at, at + size) =~= m.frames[i]);
}

/// What the time-to-sample table stands for: each run's value, as often as
/// the run is long.
pub open spec fn expand(table: Seq<(nat, u32)>) -> Seq<u32>
    decreases table.len(),
{
    if table.len() == 0 {
        seq![]
    } else {
        expand(table.drop_last()) + Seq::new(table.last().0, |i: int| table.last().1)
    }
}

/// The time-to-sample table gives every frame back its duration.
pub proof fn law_runs_expand_to_the_durations(durations: Seq<u32>)
    ensures
        expand(runs(durations)) == durations,
    decreases durations.len(),
{
    if durations.len() > 0 {
        let before = runs(durations.drop_last());
        let d = durations.last();
        law_runs_expand_to_the_durations(durations.drop_last());
        let table = runs(durations);
        assert(durations =~= durations.drop_last().push(d));
        if before.len() > 0 && before.last().1 == d {
            assert(table.drop_last() =~= before.drop_last());
            assert(expand(table) =~= expand(before).push(d));
        } else {
            assert(table.drop_last() =~= before);
            assert(expand(table) =~= expand(before).push(d));
        }
    } else {
        assert(runs(durations) =~= seq![]);
        assert(durations =~= seq![]);
    }
}

/// No two neighbouring runs have the same value: the table is as short as it
/// can be.
pub proof fn law_neighbouring_runs_differ(durations: Seq<u32>, i: int)
    requires
        0 <= i < runs(durations).len() - 1,
    ensures
        runs(durations)[i].1 != runs(durations)[i + 1].1,
    decreases durations.len(),
{
    let before = runs(durations.drop_last());
    if i < before.len() - 1 {
        law_neighbouring_runs_differ(durations.drop_last(), i);
    }
}

/// Frames play back when they were captured: with ticks that increase, by
/// less than 2^32 at a time, the durations before frame `i` add up to its
/// time since the first frame, however many were dropped in between.
pub proof fn law_playback_runs_in_real_time(ticks: Seq<u64>, i: int)
    requires
        0 <= i < ticks.len(),
        forall|j: int|
            #![trigger ticks[j]]
            0 <= j < ticks.len() - 1 ==> 1 <= ticks[j + 1] - ticks[j] < 0x1_0000_0000,
    ensures
        total(frame_durations(ticks).take(i)) == ticks[i] - ticks[0],
    decreases i,
{
    let durations = frame_durations(ticks);
    if i > 0 {
        law_playback_runs_in_real_time(ticks, i - 1);
        assert(durations.take(i).drop_last() =~= durations.take(i - 1));
        assert(durations[i - 1] == frame_ticks(ticks[i - 1], ticks[i]));
        assert(1 <= ticks[(i - 1) + 1] - ticks[i - 1] < 0x1_0000_0000);
    }
}

/// Each frame lasts until the next one: as many ticks as they are apart, and at
/// least one. The last lasts as long as the one before it, and one that is
/// alone for a thirtieth of a second.
pub proof fn law_a_frame_lasts_until_the_next(ticks: Seq<u64>, i: int)
    requires
        0 <= i < ticks.len(),
    ensures
        frame_durations(ticks).len() == ticks.len(),
        ticks.len() == 1 ==> frame_durations(ticks)[0] == 3_000,
        i + 1 < ticks.len() && ticks[i + 1] <= ticks[i] ==> frame_durations(ticks)[i] == 1,
        i + 1 < ticks.len() && 1 <= ticks[i + 1] - ticks[i] < 0x1_0000_0000
            ==> ticks[i] + frame_durations(ticks)[i] == ticks[i + 1],
        ticks.len() > 1 ==> frame_durations(ticks).last() == frame_durations(ticks)[ticks.len()
            - 2],
{
}

} // verus!
