//! A finished movie as a player reads it: it walks the file from atom to atom
//! by their sizes, and takes what it needs from where the format says it is.
//!
//! Nothing here is run. It states what a finished file says to a reader that
//! knows the format and nothing of how the file was made.

use crate::atom::{
    atom, be16, be32, be64, concat, full_atom, identity_matrix, lemma_be32_keeps_the_low_bits,
    zeros,
};
use crate::mov::{
    co64_atom, dref_atom, entry_leads_to, expand, finished_file, frame_durations, ftyp_atom,
    handler_atom, law_playback_runs_in_real_time, law_runs_expand_to_the_durations,
    lemma_body_of_a_full_atom, lemma_body_of_an_atom, lemma_concat_of_even_pieces,
    lemma_frame_is_addressed, lemma_frames_and_index_of_a_file, lemma_head_of_a_file,
    lemma_part_of_a_part, lemma_part_of_a_sum, lemma_photo_jpeg, lemma_piece_of_a_concat,
    lemma_read32, mdat_header, mdhd_atom, mdia_atom, media_duration, minf_atom, moov_atom,
    movie_duration, mvhd_atom, offsets_of, part_at, read32, read64, runs, sizes_of, stbl_atom,
    stsc_atom, stsd_atom, stsz_atom, stts_atom, tkhd_atom, total, trak_atom, vmhd_atom, Movie,
    ALIS, CO64, DHLR, DINF, HDLR, JPEG, MDAT_START, MDHD, MDIA, MHLR, MINF, MOOV, MVHD,
    QT_EPOCH_OFFSET, STBL, STSC, STSD, STSZ, STTS, TKHD, TRAK, VIDE, VMHD,
};
use vstd::prelude::*;
use vstd::utf8::encode_utf8;

verus! {

/// Four characters as the number they make, most significant first.
pub open spec fn fourcc(a: char, b: char, c: char, d: char) -> int {
    a as int * 0x100_0000 + b as int * 0x1_0000 + c as int * 0x100 + d as int
}

/// The big-endian number in the two bytes from `at` on.
pub open spec fn read16(b: Seq<u8>, at: int) -> int {
    b[at] * 0x100 + b[at + 1]
}

/// Where the first atom of this kind begins, of those that follow each other
/// from `from` to `to`, each as long as its size says.
#[verifier::opaque]
pub open spec fn atom_in(b: Seq<u8>, from: int, to: int, kind: int) -> Option<int>
    decreases to - from,
{
    if from + 8 > to {
        None
    } else {
        let size = if read32(b, from) == 1 {
            read64(b, from + 8)
        } else {
            read32(b, from)
        };
        if size < 8 || from + size > to {
            None
        } else if read32(b, from + 4) == kind {
            Some(from)
        } else {
            atom_in(b, from + size, to, kind)
        }
    }
}

/// The first atom of this kind in a file.
pub open spec fn top(file: Seq<u8>, kind: int) -> Option<int> {
    atom_in(file, 0, file.len() as int, kind)
}

/// The first atom of this kind inside another one.
pub open spec fn inside(file: Seq<u8>, outer: Option<int>, kind: int) -> Option<int> {
    match outer {
        Some(at) => atom_in(file, at + 8, at + read32(file, at), kind),
        None => None,
    }
}

/// The movie's index.
pub open spec fn moov_in(file: Seq<u8>) -> Option<int> {
    top(file, fourcc('m', 'o', 'o', 'v'))
}

/// The header of the movie.
pub open spec fn mvhd_in(file: Seq<u8>) -> Option<int> {
    inside(file, moov_in(file), fourcc('m', 'v', 'h', 'd'))
}

/// The track.
pub open spec fn trak_in(file: Seq<u8>) -> Option<int> {
    inside(file, moov_in(file), fourcc('t', 'r', 'a', 'k'))
}

/// The header of the track.
pub open spec fn tkhd_in(file: Seq<u8>) -> Option<int> {
    inside(file, trak_in(file), fourcc('t', 'k', 'h', 'd'))
}

/// The track's media.
pub open spec fn mdia_in(file: Seq<u8>) -> Option<int> {
    inside(file, trak_in(file), fourcc('m', 'd', 'i', 'a'))
}

/// The header of the media.
pub open spec fn mdhd_in(file: Seq<u8>) -> Option<int> {
    inside(file, mdia_in(file), fourcc('m', 'd', 'h', 'd'))
}

/// What the media is of.
pub open spec fn hdlr_in(file: Seq<u8>) -> Option<int> {
    inside(file, mdia_in(file), fourcc('h', 'd', 'l', 'r'))
}

/// What a player needs to know of the media.
pub open spec fn minf_in(file: Seq<u8>) -> Option<int> {
    inside(file, mdia_in(file), fourcc('m', 'i', 'n', 'f'))
}

/// One of the sample tables.
pub open spec fn table_in(file: Seq<u8>, kind: int) -> Option<int> {
    inside(file, inside(file, minf_in(file), fourcc('s', 't', 'b', 'l')), kind)
}

/// The time-to-sample table: how many frames in a row last how many ticks.
pub open spec fn stts_in(file: Seq<u8>) -> Option<int> {
    table_in(file, fourcc('s', 't', 't', 's'))
}

/// The entries of a time-to-sample table.
#[verifier::opaque]
pub open spec fn runs_at(file: Seq<u8>, at: int) -> Seq<(nat, u32)> {
    Seq::new(
        read32(file, at + 12) as nat,
        |j: int| (read32(file, at + 16 + 8 * j) as nat, read32(file, at + 20 + 8 * j) as u32),
    )
}

/// Whether bytes are an atom of this kind, as long as its size says.
#[verifier::opaque]
spec fn atom_of(p: Seq<u8>, kind: int) -> bool {
    &&& 8 <= p.len() < 0x1_0000_0000
    &&& part_at(p, 0, be32(p.len() as int))
    &&& part_at(p, 4, be32(kind))
    &&& 0 <= kind < 0x1_0000_0000
}

spec fn is_atom(p: Seq<u8>, kind: u32) -> bool {
    exists|body: Seq<u8>| p == #[trigger] atom(kind, body)
}

#[verifier::spinoff_prover]
proof fn lemma_atom_of(p: Seq<u8>, kind: u32)
    requires
        is_atom(p, kind),
        p.len() < 0x1_0000_0000,
    ensures
        atom_of(p, kind as int),
{
    reveal(atom_of);
}

/// One step of the walk from atom to atom.
#[verifier::spinoff_prover]
proof fn lemma_step(b: Seq<u8>, from: int, to: int, kind: int, size: int)
    requires
        8 <= size <= to - from,
        read32(b, from) == size || read32(b, from) == 1 && read64(b, from + 8) == size,
        read32(b, from) != 1 ==> read32(b, from) == size,
    ensures
        read32(b, from + 4) == kind ==> atom_in(b, from, to, kind) == Some(from),
        read32(b, from + 4) != kind ==> atom_in(b, from, to, kind) == atom_in(
            b,
            from + size,
            to,
            kind,
        ),
{
    reveal(atom_in);
}

/// The size and the kind of an atom read as they are wherever it stands.
#[verifier::spinoff_prover]
proof fn lemma_read_atom(b: Seq<u8>, at: int, p: Seq<u8>, kind: int)
    requires
        part_at(b, at, p),
        atom_of(p, kind),
    ensures
        8 <= p.len(),
        read32(b, at) == p.len(),
        read32(b, at + 4) == kind,
{
    reveal(atom_of);
    lemma_part_of_a_part(b, at, p, 0, be32(p.len() as int));
    lemma_part_of_a_part(b, at, p, 4, be32(kind));
    lemma_read32(b, at, p.len() as int);
    lemma_read32(b, at + 4, kind);
}

/// Walking atoms that follow each other leads to the first of a kind.
#[verifier::spinoff_prover]
proof fn lemma_walk(b: Seq<u8>, at: int, pieces: Seq<Seq<u8>>, kinds: Seq<int>, k: int, i: int)
    requires
        part_at(b, at, concat(pieces)),
        pieces.len() == kinds.len(),
        0 <= k <= i < pieces.len(),
        forall|j: int| 0 <= j < pieces.len() ==> atom_of(#[trigger] pieces[j], kinds[j]),
        forall|j: int| 0 <= j < i ==> #[trigger] kinds[j] != kinds[i],
    ensures
        atom_in(
            b,
            at + concat(pieces.take(k)).len(),
            at + concat(pieces).len(),
            kinds[i],
        ) == Some(at + concat(pieces.take(i)).len()),
    decreases i - k,
{
    let from = at + concat(pieces.take(k)).len() as int;
    lemma_piece_of_a_concat(pieces, k);
    lemma_part_of_a_part(
        b,
        at,
        concat(pieces),
        concat(pieces.take(k)).len() as int,
        pieces[k],
    );
    lemma_read_atom(b, from, pieces[k], kinds[k]);
    lemma_step(b, from, at + concat(pieces).len(), kinds[i], pieces[k].len() as int);
    if k < i {
        lemma_walk(b, at, pieces, kinds, k + 1, i);
        assert(pieces.take(k + 1).drop_last() =~= pieces.take(k));
    }
}

/// Where a player finds an atom inside another one.
#[verifier::spinoff_prover]
proof fn lemma_child(
    b: Seq<u8>,
    at: int,
    kind: u32,
    pieces: Seq<Seq<u8>>,
    kinds: Seq<u32>,
    i: int,
) -> (child: int)
    requires
        part_at(b, at, atom(kind, concat(pieces))),
        atom(kind, concat(pieces)).len() < 0x1_0000_0000,
        pieces.len() == kinds.len(),
        0 <= i < pieces.len(),
        forall|j: int| 0 <= j < pieces.len() ==> is_atom(#[trigger] pieces[j], kinds[j]),
        forall|j: int| 0 <= j < i ==> #[trigger] kinds[j] != kinds[i],
    ensures
        inside(b, Some(at), kinds[i] as int) == Some(child),
        part_at(b, child, pieces[i]),
        pieces[i].len() < 0x1_0000_0000,
{
    let whole = atom(kind, concat(pieces));
    let codes = kinds.map_values(|k: u32| k as int);
    lemma_atom_of(whole, kind);
    lemma_read_atom(b, at, whole, kind as int);
    lemma_body_of_an_atom(kind, concat(pieces));
    lemma_part_of_a_part(b, at, whole, 8, concat(pieces));
    assert forall|j: int| 0 <= j < pieces.len() implies atom_of(#[trigger] pieces[j], codes[j]) by {
        lemma_piece_of_a_concat(pieces, j);
        lemma_atom_of(pieces[j], kinds[j]);
    }
    lemma_walk(b, at + 8, pieces, codes, 0, i);
    assert(pieces.take(0) =~= seq![]);
    lemma_piece_of_a_concat(pieces, i);
    let before = concat(pieces.take(i)).len() as int;
    lemma_part_of_a_part(b, at + 8, concat(pieces), before, pieces[i]);
    at + 8 + before
}

/// Where a player finds two atoms inside another one.
#[verifier::spinoff_prover]
proof fn lemma_two(
    b: Seq<u8>,
    at: int,
    kind: u32,
    first: Seq<u8>,
    second: Seq<u8>,
    kinds: (u32, u32),
) -> (found: (int, int))
    requires
        part_at(b, at, atom(kind, concat(seq![first, second]))),
        atom(kind, concat(seq![first, second])).len() < 0x1_0000_0000,
        is_atom(first, kinds.0),
        is_atom(second, kinds.1),
        kinds.0 != kinds.1,
    ensures
        inside(b, Some(at), kinds.0 as int) == Some(found.0),
        inside(b, Some(at), kinds.1 as int) == Some(found.1),
        part_at(b, found.0, first),
        part_at(b, found.1, second),
        second.len() < 0x1_0000_0000,
{
    let pieces = seq![first, second];
    let codes = seq![kinds.0, kinds.1];
    (lemma_child(b, at, kind, pieces, codes, 0), lemma_child(b, at, kind, pieces, codes, 1))
}

/// Where a player finds three atoms inside another one.
#[verifier::spinoff_prover]
proof fn lemma_three(
    b: Seq<u8>,
    at: int,
    kind: u32,
    first: Seq<u8>,
    second: Seq<u8>,
    third: Seq<u8>,
    kinds: (u32, u32, u32),
) -> (found: (int, int, int))
    requires
        part_at(b, at, atom(kind, concat(seq![first, second, third]))),
        atom(kind, concat(seq![first, second, third])).len() < 0x1_0000_0000,
        is_atom(first, kinds.0),
        is_atom(second, kinds.1),
        is_atom(third, kinds.2),
        kinds.0 != kinds.1,
        kinds.0 != kinds.2,
        kinds.1 != kinds.2,
    ensures
        inside(b, Some(at), kinds.0 as int) == Some(found.0),
        inside(b, Some(at), kinds.1 as int) == Some(found.1),
        inside(b, Some(at), kinds.2 as int) == Some(found.2),
        part_at(b, found.0, first),
        part_at(b, found.1, second),
        part_at(b, found.2, third),
        third.len() < 0x1_0000_0000,
{
    let pieces = seq![first, second, third];
    let codes = seq![kinds.0, kinds.1, kinds.2];
    (
        lemma_child(b, at, kind, pieces, codes, 0),
        lemma_child(b, at, kind, pieces, codes, 1),
        lemma_child(b, at, kind, pieces, codes, 2),
    )
}

/// Where a player finds the last of four atoms inside another one.
#[verifier::spinoff_prover]
proof fn lemma_last_of_four(
    b: Seq<u8>,
    at: int,
    kind: u32,
    first: Seq<u8>,
    second: Seq<u8>,
    third: Seq<u8>,
    last: Seq<u8>,
    kinds: (u32, u32, u32, u32),
) -> (found: int)
    requires
        part_at(b, at, atom(kind, concat(seq![first, second, third, last]))),
        atom(kind, concat(seq![first, second, third, last])).len() < 0x1_0000_0000,
        is_atom(first, kinds.0),
        is_atom(second, kinds.1),
        is_atom(third, kinds.2),
        is_atom(last, kinds.3),
        kinds.0 != kinds.3,
        kinds.1 != kinds.3,
        kinds.2 != kinds.3,
    ensures
        inside(b, Some(at), kinds.3 as int) == Some(found),
        part_at(b, found, last),
        last.len() < 0x1_0000_0000,
{
    let pieces = seq![first, second, third, last];
    let codes = seq![kinds.0, kinds.1, kinds.2, kinds.3];
    lemma_child(b, at, kind, pieces, codes, 3)
}

/// Where a player finds one of five atoms inside another one.
#[verifier::spinoff_prover]
proof fn lemma_one_of_five(
    b: Seq<u8>,
    at: int,
    kind: u32,
    pieces: Seq<Seq<u8>>,
    kinds: (u32, u32, u32, u32, u32),
    i: int,
) -> (found: int)
    requires
        pieces.len() == 5,
        part_at(b, at, atom(kind, concat(pieces))),
        atom(kind, concat(pieces)).len() < 0x1_0000_0000,
        is_atom(pieces[0], kinds.0),
        is_atom(pieces[1], kinds.1),
        is_atom(pieces[2], kinds.2),
        is_atom(pieces[3], kinds.3),
        is_atom(pieces[4], kinds.4),
        kinds.0 != kinds.1,
        kinds.0 != kinds.2,
        kinds.0 != kinds.3,
        kinds.0 != kinds.4,
        kinds.1 != kinds.2,
        kinds.1 != kinds.3,
        kinds.1 != kinds.4,
        kinds.2 != kinds.3,
        kinds.2 != kinds.4,
        kinds.3 != kinds.4,
        0 <= i < 5,
    ensures
        inside(
            b,
            Some(at),
            seq![kinds.0, kinds.1, kinds.2, kinds.3, kinds.4][i] as int,
        ) == Some(found),
        part_at(b, found, pieces[i]),
        pieces[i].len() < 0x1_0000_0000,
{
    lemma_child(b, at, kind, pieces, seq![kinds.0, kinds.1, kinds.2, kinds.3, kinds.4], i)
}

/// A number in the body of an atom with a version and flags.
#[verifier::spinoff_prover]
proof fn lemma_field(
    b: Seq<u8>,
    at: int,
    kind: u32,
    flags: u32,
    body: Seq<u8>,
    before: int,
    v: int,
)
    requires
        part_at(b, at, full_atom(kind, 0, flags, body)),
        part_at(body, before, be32(v)),
        0 <= v,
    ensures
        read32(b, at + 12 + before) == v % 0x1_0000_0000,
{
    lemma_body_of_a_full_atom(kind, 0, flags, body);
    lemma_part_of_a_part(b, at, full_atom(kind, 0, flags, body), 12, body);
    lemma_part_of_a_part(b, at + 12, body, before, be32(v));
    lemma_be32_keeps_the_low_bits(v);
    lemma_read32(b, at + 12 + before, v % 0x1_0000_0000);
}

/// The numbers that the movie's and the media's header begin with.
#[verifier::spinoff_prover]
proof fn lemma_header(
    b: Seq<u8>,
    at: int,
    kind: u32,
    now: int,
    scale: int,
    duration: int,
    rest: Seq<u8>,
)
    requires
        part_at(
            b,
            at,
            full_atom(
                kind,
                0,
                0,
                be32(now) + be32(now) + be32(scale) + be32(duration) + rest,
            ),
        ),
        0 <= now,
        0 <= scale,
        0 <= duration,
    ensures
        read32(b, at + 12) == now % 0x1_0000_0000,
        read32(b, at + 16) == now % 0x1_0000_0000,
        read32(b, at + 20) == scale % 0x1_0000_0000,
        read32(b, at + 24) == duration % 0x1_0000_0000,
{
    let body = be32(now) + be32(now) + be32(scale) + be32(duration) + rest;
    assert(part_at(body, 0, be32(now)));
    assert(part_at(body, 4, be32(now)));
    assert(part_at(body, 8, be32(scale)));
    assert(part_at(body, 12, be32(duration)));
    lemma_field(b, at, kind, 0, body, 0, now);
    lemma_field(b, at, kind, 0, body, 4, now);
    lemma_field(b, at, kind, 0, body, 8, scale);
    lemma_field(b, at, kind, 0, body, 12, duration);
}

/// Where a player finds the index.
#[verifier::spinoff_prover]
proof fn lemma_index_in(frames: Seq<u8>, moov: Seq<u8>, file: Seq<u8>)
    requires
        file == ftyp_atom() + mdat_header(16 + frames.len() as int) + frames + moov,
        36 + frames.len() <= u64::MAX,
        is_atom(moov, MOOV),
        moov.len() < 0x1_0000_0000,
    ensures
        moov_in(file) == Some(36 + frames.len() as int),
        part_at(file, 36 + frames.len() as int, moov),
{
    let size = 16 + frames.len() as int;
    let end = 20 + size;
    lemma_frames_and_index_of_a_file(frames, size, moov);
    lemma_head_of_a_file(ftyp_atom(), size, frames + moov);
    assert(file =~= ftyp_atom() + (mdat_header(size) + (frames + moov)));
    lemma_atom_of(moov, MOOV);
    lemma_read_atom(file, end, moov, MOOV as int);
    let kind = fourcc('m', 'o', 'o', 'v');
    let to = file.len() as int;
    lemma_step(file, end, to, kind, moov.len() as int);
    lemma_step(file, 20, to, kind, size);
    lemma_step(file, 0, to, kind, 20);
}

#[verifier::spinoff_prover]
proof fn lemma_moov_in(m: Movie, unix_secs: u64)
    requires
        m.indexable(),
        moov_atom(m, unix_secs + QT_EPOCH_OFFSET).len() < 0x1_0000_0000,
    ensures
        moov_in(finished_file(m, unix_secs)) == Some(m.end()),
        part_at(
            finished_file(m, unix_secs),
            m.end(),
            moov_atom(m, unix_secs + QT_EPOCH_OFFSET),
        ),
{
    lemma_index_in(
        concat(m.frames),
        moov_atom(m, unix_secs + QT_EPOCH_OFFSET),
        finished_file(m, unix_secs),
    );
}

#[verifier::spinoff_prover]
proof fn lemma_in_moov(b: Seq<u8>, at: int, m: Movie, now: int) -> (found: (int, int))
    requires
        part_at(b, at, moov_atom(m, now)),
        moov_atom(m, now).len() < 0x1_0000_0000,
    ensures
        inside(b, Some(at), fourcc('m', 'v', 'h', 'd')) == Some(found.0),
        inside(b, Some(at), fourcc('t', 'r', 'a', 'k')) == Some(found.1),
        part_at(b, found.0, mvhd_atom(now, movie_duration(m))),
        part_at(b, found.1, trak_atom(m, now)),
        trak_atom(m, now).len() < 0x1_0000_0000,
{
    lemma_two(
        b,
        at,
        MOOV,
        mvhd_atom(now, movie_duration(m)),
        trak_atom(m, now),
        (MVHD, TRAK),
    )
}

#[verifier::spinoff_prover]
proof fn lemma_in_trak(b: Seq<u8>, at: int, m: Movie, now: int) -> (found: (int, int))
    requires
        part_at(b, at, trak_atom(m, now)),
        trak_atom(m, now).len() < 0x1_0000_0000,
    ensures
        inside(b, Some(at), fourcc('t', 'k', 'h', 'd')) == Some(found.0),
        inside(b, Some(at), fourcc('m', 'd', 'i', 'a')) == Some(found.1),
        part_at(b, found.0, tkhd_atom(now, movie_duration(m), m.width, m.height)),
        part_at(b, found.1, mdia_atom(m, now)),
        mdia_atom(m, now).len() < 0x1_0000_0000,
{
    lemma_two(
        b,
        at,
        TRAK,
        tkhd_atom(now, movie_duration(m), m.width, m.height),
        mdia_atom(m, now),
        (TKHD, MDIA),
    )
}

#[verifier::spinoff_prover]
proof fn lemma_in_mdia(b: Seq<u8>, at: int, m: Movie, now: int) -> (found: (int, int, int))
    requires
        part_at(b, at, mdia_atom(m, now)),
        mdia_atom(m, now).len() < 0x1_0000_0000,
    ensures
        inside(b, Some(at), fourcc('m', 'd', 'h', 'd')) == Some(found.0),
        inside(b, Some(at), fourcc('h', 'd', 'l', 'r')) == Some(found.1),
        inside(b, Some(at), fourcc('m', 'i', 'n', 'f')) == Some(found.2),
        part_at(b, found.0, mdhd_atom(now, media_duration(m))),
        part_at(b, found.1, handler_atom(MHLR, VIDE, "VideoHandler"@)),
        part_at(b, found.2, minf_atom(m)),
        minf_atom(m).len() < 0x1_0000_0000,
{
    lemma_three(
        b,
        at,
        MDIA,
        mdhd_atom(now, media_duration(m)),
        handler_atom(MHLR, VIDE, "VideoHandler"@),
        minf_atom(m),
        (MDHD, HDLR, MINF),
    )
}

#[verifier::spinoff_prover]
proof fn lemma_in_minf(b: Seq<u8>, at: int, m: Movie) -> (found: int)
    requires
        part_at(b, at, minf_atom(m)),
        minf_atom(m).len() < 0x1_0000_0000,
    ensures
        inside(b, Some(at), fourcc('s', 't', 'b', 'l')) == Some(found),
        part_at(b, found, stbl_atom(m)),
        stbl_atom(m).len() < 0x1_0000_0000,
{
    lemma_last_of_four(
        b,
        at,
        MINF,
        vmhd_atom(),
        handler_atom(DHLR, ALIS, "DataHandler"@),
        atom(DINF, concat(seq![dref_atom()])),
        stbl_atom(m),
        (VMHD, HDLR, DINF, STBL),
    )
}

#[verifier::spinoff_prover]
proof fn lemma_in_stbl(b: Seq<u8>, at: int, m: Movie, i: int) -> (found: int)
    requires
        part_at(b, at, stbl_atom(m)),
        stbl_atom(m).len() < 0x1_0000_0000,
        0 <= i < 5,
    ensures
        inside(b, Some(at), seq![STSD, STTS, STSC, STSZ, CO64][i] as int) == Some(found),
        part_at(b, found, tables(m)[i]),
        tables(m)[i].len() < 0x1_0000_0000,
{
    lemma_one_of_five(b, at, STBL, tables(m), (STSD, STTS, STSC, STSZ, CO64), i)
}

/// The sample tables.
spec fn tables(m: Movie) -> Seq<Seq<u8>> {
    seq![
        stsd_atom(m.width, m.height),
        stts_atom(frame_durations(m.ticks)),
        stsc_atom(),
        stsz_atom(sizes_of(m)),
        co64_atom(offsets_of(m)),
    ]
}

/// Whether a finished file's index is short enough for its size to be read.
pub open spec fn short_index(m: Movie, unix_secs: u64) -> bool {
    moov_atom(m, unix_secs + QT_EPOCH_OFFSET).len() < 0x1_0000_0000
}

#[verifier::spinoff_prover]
proof fn lemma_headers_in(m: Movie, unix_secs: u64) -> (found: (int, int, int, int, int))
    requires
        m.indexable(),
        short_index(m, unix_secs),
    ensures
        ({
            let file = finished_file(m, unix_secs);
            let now = unix_secs + QT_EPOCH_OFFSET;
            &&& mvhd_in(file) == Some(found.0)
            &&& tkhd_in(file) == Some(found.1)
            &&& mdhd_in(file) == Some(found.2)
            &&& hdlr_in(file) == Some(found.3)
            &&& mvhd_at(file, found.0, now, movie_duration(m))
            &&& tkhd_at(file, found.1, now, movie_duration(m), m.width, m.height)
            &&& mdhd_at(file, found.2, now, media_duration(m))
            &&& part_at(file, found.3, handler_atom(MHLR, VIDE, "VideoHandler"@))
            &&& tables_in(file, found.4, m)
        }),
{
    reveal(mvhd_at);
    reveal(tkhd_at);
    reveal(mdhd_at);
    reveal(stbl_at);
    let file = finished_file(m, unix_secs);
    let now = unix_secs + QT_EPOCH_OFFSET;
    lemma_moov_in(m, unix_secs);
    let in_moov = lemma_in_moov(file, m.end(), m, now);
    let in_trak = lemma_in_trak(file, in_moov.1, m, now);
    let in_mdia = lemma_in_mdia(file, in_trak.1, m, now);
    let stbl = lemma_in_minf(file, in_mdia.2, m);
    (in_moov.0, in_trak.0, in_mdia.0, in_mdia.1, stbl)
}

/// Whether the header of the movie stands at `at`.
#[verifier::opaque]
spec fn mvhd_at(b: Seq<u8>, at: int, now: int, duration: int) -> bool {
    part_at(b, at, mvhd_atom(now, duration))
}

/// Whether the header of the track stands at `at`.
#[verifier::opaque]
spec fn tkhd_at(b: Seq<u8>, at: int, now: int, duration: int, width: u16, height: u16) -> bool {
    part_at(b, at, tkhd_atom(now, duration, width, height))
}

/// Whether the header of the media stands at `at`.
#[verifier::opaque]
spec fn mdhd_at(b: Seq<u8>, at: int, now: int, duration: int) -> bool {
    part_at(b, at, mdhd_atom(now, duration))
}

/// Whether the sample tables stand at `at`.
#[verifier::opaque]
spec fn stbl_at(b: Seq<u8>, at: int, m: Movie) -> bool {
    part_at(b, at, stbl_atom(m)) && stbl_atom(m).len() < 0x1_0000_0000
}

/// What the header of the movie says.
#[verifier::spinoff_prover]
proof fn lemma_mvhd_fields(b: Seq<u8>, at: int, now: int, made: int, duration: int)
    requires
        mvhd_at(b, at, now, duration),
        0 <= now,
        made == now % 0x1_0000_0000,
        0 <= duration < 0x1_0000_0000,
    ensures
        read32(b, at + 12) == made,
        read32(b, at + 16) == made,
        read32(b, at + 20) == 1_000,
        read32(b, at + 24) == duration,
        read32(b, at + 28) == 0x1_0000,
{
    reveal(mvhd_at);
    let front = be32(now) + be32(now) + be32(1_000) + be32(duration);
    let back = be16(0x0100) + zeros(10) + identity_matrix() + zeros(24) + be32(2);
    let body = front + (be32(0x1_0000) + back);
    assert(mvhd_atom(now, duration) =~= full_atom(MVHD, 0, 0, body)) by {
        assert(be32(now) + be32(now) + be32(1_000) + be32(duration) + be32(0x0001_0000) + be16(
            0x0100,
        ) + zeros(10) + identity_matrix() + zeros(24) + be32(2) =~= body);
    }
    lemma_header(b, at, MVHD, now, 1_000, duration, be32(0x1_0000) + back);
    assert(part_at(body, 16, be32(0x1_0000)));
    lemma_field(b, at, MVHD, 0, body, 16, 0x1_0000);
}

/// The numbers in the media's header.
#[verifier::spinoff_prover]
proof fn lemma_media_header(b: Seq<u8>, at: int, now: int, duration: int)
    requires
        mdhd_at(b, at, now, duration),
        0 <= now,
        0 <= duration,
    ensures
        read32(b, at + 12) == now % 0x1_0000_0000,
        read32(b, at + 16) == now % 0x1_0000_0000,
        read32(b, at + 20) == 90_000,
        read32(b, at + 24) == duration % 0x1_0000_0000,
{
    reveal(mdhd_at);
    let front = be32(now) + be32(now) + be32(90_000) + be32(duration);
    let back = be16(0x55c4) + be16(0);
    assert(mdhd_atom(now, duration) =~= full_atom(MDHD, 0, 0, front + back)) by {
        assert(be32(now) + be32(now) + be32(90_000) + be32(duration) + be16(0x55c4) + be16(0)
            =~= front + back);
    }
    lemma_header(b, at, MDHD, now, 90_000, duration, back);
}

/// What the header of the media says.
#[verifier::spinoff_prover]
proof fn lemma_mdhd_fields(b: Seq<u8>, at: int, now: int, made: int, duration: int)
    requires
        mdhd_at(b, at, now, duration),
        0 <= now,
        made == now % 0x1_0000_0000,
        0 <= duration < 0x1_0000_0000,
    ensures
        read32(b, at + 12) == made,
        read32(b, at + 16) == made,
        read32(b, at + 20) == 90_000,
        read32(b, at + 24) == duration,
{
    lemma_media_header(b, at, now, duration);
}

/// The numbers in the track's header.
#[verifier::rlimit(60)]
#[verifier::spinoff_prover]
proof fn lemma_track_header(
    b: Seq<u8>,
    at: int,
    now: int,
    made: int,
    duration: int,
    middle: Seq<u8>,
    wide: int,
    high: int,
)
    requires
        part_at(
            b,
            at,
            full_atom(
                TKHD,
                0,
                3,
                be32(now) + be32(now) + be32(1) + zeros(4) + be32(duration) + middle + be32(wide)
                    + be32(high),
            ),
        ),
        middle.len() == 52,
        0 <= now,
        made == now % 0x1_0000_0000,
        0 <= duration < 0x1_0000_0000,
        0 <= wide < 0x1_0000_0000,
        0 <= high < 0x1_0000_0000,
    ensures
        read32(b, at + 12) == made,
        read32(b, at + 16) == made,
        read32(b, at + 20) == 1,
        read32(b, at + 28) == duration,
        read32(b, at + 84) == wide,
        read32(b, at + 88) == high,
{
    let body = be32(now) + be32(now) + be32(1) + zeros(4) + be32(duration) + middle + be32(wide)
        + be32(high);
    assert(read32(b, at + 12) == made) by {
        assert(part_at(body, 0, be32(now)));
        lemma_field(b, at, TKHD, 3, body, 0, now);
    }
    assert(read32(b, at + 16) == made) by {
        assert(part_at(body, 4, be32(now)));
        lemma_field(b, at, TKHD, 3, body, 4, now);
    }
    assert(read32(b, at + 20) == 1) by {
        assert(part_at(body, 8, be32(1)));
        lemma_field(b, at, TKHD, 3, body, 8, 1);
    }
    assert(read32(b, at + 28) == duration) by {
        assert(part_at(body, 16, be32(duration)));
        lemma_field(b, at, TKHD, 3, body, 16, duration);
    }
    assert(read32(b, at + 84) == wide) by {
        assert(part_at(body, 72, be32(wide)));
        lemma_field(b, at, TKHD, 3, body, 72, wide);
    }
    assert(read32(b, at + 88) == high) by {
        assert(part_at(body, 76, be32(high)));
        lemma_field(b, at, TKHD, 3, body, 76, high);
    }
}

#[verifier::spinoff_prover]
proof fn lemma_regroup(a: Seq<u8>, b: Seq<u8>, c: Seq<u8>, d: Seq<u8>, e: Seq<u8>)
    ensures
        a + b + c + d + e == a + (b + c + d + e),
{
    assert(a + b + c + d + e =~= a + (b + c + d + e));
}

/// The size in the track's header, whatever else it says.
#[verifier::spinoff_prover]
proof fn lemma_track_size(
    b: Seq<u8>,
    at: int,
    now: int,
    duration: int,
    width: u16,
    height: u16,
)
    requires
        tkhd_at(b, at, now, duration, width, height),
        0 <= now,
        0 <= duration,
    ensures
        read32(b, at + 84) == width * 0x1_0000,
        read32(b, at + 88) == height * 0x1_0000,
{
    lemma_be32_keeps_the_low_bits(duration);
    assert(tkhd_at(b, at, now, duration % 0x1_0000_0000, width, height)) by {
        reveal(tkhd_at);
    }
    lemma_tkhd_fields(
        b,
        at,
        now,
        now % 0x1_0000_0000,
        duration % 0x1_0000_0000,
        width,
        height,
    );
}

/// What the header of the track says.
#[verifier::spinoff_prover]
proof fn lemma_tkhd_fields(
    b: Seq<u8>,
    at: int,
    now: int,
    made: int,
    duration: int,
    width: u16,
    height: u16,
)
    requires
        tkhd_at(b, at, now, duration, width, height),
        0 <= now,
        made == now % 0x1_0000_0000,
        0 <= duration < 0x1_0000_0000,
    ensures
        read32(b, at + 12) == made,
        read32(b, at + 16) == made,
        read32(b, at + 20) == 1,
        read32(b, at + 28) == duration,
        read32(b, at + 84) == width * 0x1_0000,
        read32(b, at + 88) == height * 0x1_0000,
{
    reveal(tkhd_at);
    let front = be32(now) + be32(now) + be32(1) + zeros(4) + be32(duration);
    let middle = zeros(8) + zeros(6) + zeros(2) + identity_matrix();
    lemma_regroup(front, zeros(8), zeros(6), zeros(2), identity_matrix());
    lemma_track_header(b, at, now, made, duration, middle, width * 0x1_0000, height * 0x1_0000);
}

/// What a player reads of a file's times: the movie's header counts in
/// milliseconds and the media's on the 90 kHz clock; the media lasts for
/// `lasts`; the movie's duration over its time scale is the media's over its
/// own, rounded down; the track lasts as long as the movie; and all three were
/// made `unix_secs` after 1970, in seconds since 1904.
#[verifier::opaque]
pub open spec fn times_read(file: Seq<u8>, unix_secs: int, lasts: int) -> bool {
    &&& mvhd_in(file) is Some
    &&& tkhd_in(file) is Some
    &&& mdhd_in(file) is Some
    &&& ({
        let movie_at = mvhd_in(file)->0;
        let track_at = tkhd_in(file)->0;
        let media_at = mdhd_in(file)->0;
        let movie_scale = read32(file, movie_at + 20);
        let media_scale = read32(file, media_at + 20);
        let movie_lasts = read32(file, movie_at + 24);
        let media_lasts = read32(file, media_at + 24);
        let made = (unix_secs + 2_082_844_800) % 0x1_0000_0000;
        &&& movie_scale == 1_000
        &&& media_scale == 90_000
        &&& media_lasts == lasts
        &&& movie_lasts * media_scale <= media_lasts * movie_scale
        &&& media_lasts * movie_scale < (movie_lasts + 1) * media_scale
        &&& read32(file, track_at + 28) == movie_lasts
        &&& read32(file, movie_at + 12) == made
        &&& read32(file, movie_at + 16) == made
        &&& read32(file, track_at + 12) == made
        &&& read32(file, track_at + 16) == made
        &&& read32(file, media_at + 12) == made
        &&& read32(file, media_at + 16) == made
    })
}

#[verifier::spinoff_prover]
proof fn lemma_times_read(
    file: Seq<u8>,
    at: (int, int, int),
    unix_secs: int,
    made: int,
    movie_lasts: int,
    lasts: int,
)
    requires
        mvhd_in(file) == Some(at.0),
        tkhd_in(file) == Some(at.1),
        mdhd_in(file) == Some(at.2),
        read32(file, at.0 + 12) == made,
        read32(file, at.0 + 16) == made,
        read32(file, at.0 + 20) == 1_000,
        read32(file, at.0 + 24) == movie_lasts,
        read32(file, at.1 + 12) == made,
        read32(file, at.1 + 16) == made,
        read32(file, at.1 + 28) == movie_lasts,
        read32(file, at.2 + 12) == made,
        read32(file, at.2 + 16) == made,
        read32(file, at.2 + 20) == 90_000,
        read32(file, at.2 + 24) == lasts,
        movie_lasts == lasts / 90,
        made == (unix_secs + 2_082_844_800) % 0x1_0000_0000,
    ensures
        times_read(file, unix_secs, lasts),
{
    reveal(times_read);
    assert(movie_lasts * 90_000 <= lasts * 1_000 < (movie_lasts + 1) * 90_000);
}

#[verifier::spinoff_prover]
proof fn lemma_headers_read(
    file: Seq<u8>,
    at: (int, int, int),
    unix_secs: int,
    made: int,
    movie_lasts: int,
    lasts: int,
    width: u16,
    height: u16,
)
    requires
        mvhd_in(file) == Some(at.0),
        tkhd_in(file) == Some(at.1),
        mdhd_in(file) == Some(at.2),
        mvhd_at(file, at.0, unix_secs + 2_082_844_800, movie_lasts),
        tkhd_at(file, at.1, unix_secs + 2_082_844_800, movie_lasts, width, height),
        mdhd_at(file, at.2, unix_secs + 2_082_844_800, lasts),
        0 <= unix_secs,
        0 <= lasts < 0x1_0000_0000,
        movie_lasts == lasts / 90,
        made == (unix_secs + 2_082_844_800) % 0x1_0000_0000,
    ensures
        times_read(file, unix_secs, lasts),
{
    let now = unix_secs + 2_082_844_800;
    lemma_mvhd_fields(file, at.0, now, made, movie_lasts);
    lemma_tkhd_fields(file, at.1, now, made, movie_lasts, width, height);
    lemma_mdhd_fields(file, at.2, now, made, lasts);
    lemma_times_read(file, at, unix_secs, made, movie_lasts, lasts);
}

/// A finished file's headers agree: a player reads the same length from each,
/// in its own time scale, and the time the file was made.
#[verifier::spinoff_prover]
pub proof fn law_the_headers_agree_on_the_times(m: Movie, unix_secs: u64)
    requires
        m.indexable(),
        short_index(m, unix_secs),
        total(frame_durations(m.ticks)) < 0x1_0000_0000,
    ensures
        times_read(
            finished_file(m, unix_secs),
            unix_secs as int,
            total(frame_durations(m.ticks)) as int,
        ),
{
    let found = lemma_headers_in(m, unix_secs);
    lemma_movie_lasts(m);
    lemma_headers_read(
        finished_file(m, unix_secs),
        (found.0, found.1, found.2),
        unix_secs as int,
        (unix_secs + 2_082_844_800) % 0x1_0000_0000,
        movie_duration(m),
        media_duration(m),
        m.width,
        m.height,
    );
}

#[verifier::spinoff_prover]
proof fn lemma_movie_lasts(m: Movie)
    ensures
        movie_duration(m) == media_duration(m) / 90,
        media_duration(m) == total(frame_durations(m.ticks)),
        0 <= media_duration(m),
{
    assert(movie_duration(m) == media_duration(m) * 1_000 / 90_000);
}

#[verifier::spinoff_prover]
proof fn lemma_runs_are_counted(durations: Seq<u32>)
    ensures
        runs(durations).len() <= durations.len(),
        forall|j: int|
            0 <= j < runs(durations).len() ==> (#[trigger] runs(durations)[j]).0 <= durations.len(),
    decreases durations.len(),
{
    if durations.len() > 0 {
        lemma_runs_are_counted(durations.drop_last());
    }
}

/// Where an entry of the time-to-sample table stands.
#[verifier::spinoff_prover]
proof fn lemma_run_entry(durations: Seq<u32>, j: int)
    requires
        0 <= j < runs(durations).len(),
    ensures
        part_at(
            stts_atom(durations),
            16 + 8 * j,
            be32(runs(durations)[j].0 as int) + be32(runs(durations)[j].1 as int),
        ),
{
    let table = runs(durations);
    let pieces = table.map_values(|r: (nat, u32)| be32(r.0 as int) + be32(r.1 as int));
    let head = be32(table.len() as int);
    lemma_piece_of_a_concat(pieces, j);
    lemma_concat_of_even_pieces(pieces.take(j), 8);
    lemma_body_of_a_full_atom(STTS, 0, 0, head + concat(pieces));
    assert(part_at(head + concat(pieces), 4, concat(pieces)));
    lemma_part_of_a_part(head + concat(pieces), 4, concat(pieces), 8 * j, pieces[j]);
    lemma_part_of_a_part(
        stts_atom(durations),
        12,
        head + concat(pieces),
        4 + 8 * j,
        pieces[j],
    );
}

/// How many entries the time-to-sample table has.
#[verifier::spinoff_prover]
proof fn lemma_stts_count(b: Seq<u8>, at: int, durations: Seq<u32>)
    requires
        part_at(b, at, stts_atom(durations)),
        runs(durations).len() < 0x1_0000_0000,
    ensures
        read32(b, at + 12) == runs(durations).len(),
{
    let table = runs(durations);
    let entries = concat(table.map_values(|r: (nat, u32)| be32(r.0 as int) + be32(r.1 as int)));
    lemma_one_count(b, at, STTS, table.len() as int, entries);
}

/// One entry of the time-to-sample table.
#[verifier::spinoff_prover]
proof fn lemma_stts_entry(b: Seq<u8>, at: int, durations: Seq<u32>, j: int)
    requires
        part_at(b, at, stts_atom(durations)),
        0 <= j < runs(durations).len(),
        runs(durations)[j].0 < 0x1_0000_0000,
    ensures
        read32(b, at + 16 + 8 * j) == runs(durations)[j].0,
        read32(b, at + 20 + 8 * j) == runs(durations)[j].1,
{
    lemma_run_entry(durations, j);
    lemma_run_read(b, at, stts_atom(durations), j, runs(durations)[j]);
}

/// The time-to-sample table reads as the runs that it was made of.
#[verifier::spinoff_prover]
proof fn lemma_stts_read(b: Seq<u8>, at: int, durations: Seq<u32>)
    requires
        part_at(b, at, stts_atom(durations)),
        durations.len() < 0x1_0000_0000,
    ensures
        runs_at(b, at) == runs(durations),
{
    lemma_runs_are_counted(durations);
    lemma_stts_count(b, at, durations);
    assert forall|j: int| 0 <= j < runs(durations).len() implies {
        &&& read32(b, at + 16 + 8 * j) == (#[trigger] runs(durations)[j]).0
        &&& read32(b, at + 20 + 8 * j) == runs(durations)[j].1
    } by {
        lemma_stts_entry(b, at, durations, j);
    }
    lemma_runs_at(b, at, runs(durations));
}

#[verifier::spinoff_prover]
proof fn lemma_runs_at(b: Seq<u8>, at: int, table: Seq<(nat, u32)>)
    requires
        read32(b, at + 12) == table.len(),
        forall|j: int|
            0 <= j < table.len() ==> {
                &&& read32(b, at + 16 + 8 * j) == (#[trigger] table[j]).0
                &&& read32(b, at + 20 + 8 * j) == table[j].1
            },
    ensures
        runs_at(b, at) == table,
{
    reveal(runs_at);
    assert(runs_at(b, at) =~= table);
}

#[verifier::spinoff_prover]
proof fn lemma_run_read(b: Seq<u8>, at: int, p: Seq<u8>, j: int, r: (nat, u32))
    requires
        part_at(b, at, p),
        part_at(p, 16 + 8 * j, be32(r.0 as int) + be32(r.1 as int)),
        r.0 < 0x1_0000_0000,
    ensures
        read32(b, at + 16 + 8 * j) == r.0,
        read32(b, at + 20 + 8 * j) == r.1,
{
    let count = be32(r.0 as int);
    let value = be32(r.1 as int);
    assert(part_at(count + value, 0, count));
    assert(part_at(count + value, 4, value));
    lemma_part_of_a_part(b, at, p, 16 + 8 * j, count + value);
    lemma_part_of_a_part(b, at + (16 + 8 * j), count + value, 0, count);
    lemma_part_of_a_part(b, at + (16 + 8 * j), count + value, 4, value);
    lemma_read32(b, at + 16 + 8 * j, r.0 as int);
    lemma_read32(b, at + 20 + 8 * j, r.1 as int);
}

/// Whether a player shows frame `i` of a file `since` ticks of 1/90000 s after
/// the first: the durations that it reads before the frame, over the time
/// scale that it reads, are that many seconds.
#[verifier::opaque]
pub open spec fn shown_at(file: Seq<u8>, i: int, since: int) -> bool {
    &&& stts_in(file) is Some
    &&& mdhd_in(file) is Some
    &&& ({
        let lasting = expand(runs_at(file, stts_in(file)->0));
        let scale = read32(file, mdhd_in(file)->0 + 20);
        &&& i < lasting.len()
        &&& 0 < scale
        &&& total(lasting.take(i)) * 90_000 == since * scale
    })
}

#[verifier::spinoff_prover]
proof fn lemma_shown_at(
    file: Seq<u8>,
    at: (int, int),
    now: int,
    lasts: int,
    durations: Seq<u32>,
    i: int,
    since: int,
)
    requires
        stts_in(file) == Some(at.0),
        mdhd_in(file) == Some(at.1),
        runs_at(file, at.0) == runs(durations),
        mdhd_at(file, at.1, now, lasts),
        0 <= now,
        0 <= lasts,
        0 <= i < durations.len(),
        total(durations.take(i)) == since,
    ensures
        shown_at(file, i, since),
{
    reveal(shown_at);
    lemma_media_header(file, at.1, now, lasts);
    law_runs_expand_to_the_durations(durations);
}

/// Whether sample table `i` stands at `at`.
#[verifier::opaque]
spec fn table_at(b: Seq<u8>, at: int, m: Movie, i: int) -> bool {
    part_at(b, at, tables(m)[i]) && tables(m)[i].len() < 0x1_0000_0000
}

#[verifier::spinoff_prover]
proof fn lemma_table_at(b: Seq<u8>, stbl: int, m: Movie, i: int) -> (found: int)
    requires
        stbl_at(b, stbl, m),
        0 <= i < 5,
    ensures
        inside(b, Some(stbl), seq![STSD, STTS, STSC, STSZ, CO64][i] as int) == Some(found),
        table_at(b, found, m, i),
{
    reveal(stbl_at);
    reveal(table_at);
    lemma_in_stbl(b, stbl, m, i)
}

/// An index that is short has few frames.
#[verifier::spinoff_prover]
proof fn lemma_few_frames(b: Seq<u8>, at: int, m: Movie)
    requires
        table_at(b, at, m, 3),
    ensures
        m.frames.len() < 0x4000_0000,
{
    reveal(table_at);
    lemma_few_sizes(sizes_of(m));
}

#[verifier::spinoff_prover]
proof fn lemma_few_sizes(sizes: Seq<u32>)
    requires
        stsz_atom(sizes).len() < 0x1_0000_0000,
    ensures
        sizes.len() < 0x4000_0000,
{
    let pieces = sizes.map_values(|s: u32| be32(s as int));
    lemma_concat_of_even_pieces(pieces, 4);
    lemma_long(STSZ, be32(0), be32(sizes.len() as int), concat(pieces));
}

#[verifier::spinoff_prover]
proof fn lemma_long(kind: u32, first: Seq<u8>, second: Seq<u8>, rest: Seq<u8>)
    ensures
        full_atom(kind, 0, 0, first + second + rest).len() >= rest.len(),
{
}

#[verifier::spinoff_prover]
proof fn lemma_stts_at(b: Seq<u8>, at: int, m: Movie)
    requires
        table_at(b, at, m, 1),
        m.ticks.len() < 0x4000_0000,
    ensures
        runs_at(b, at) == runs(frame_durations(m.ticks)),
{
    reveal(table_at);
    lemma_stts_read(b, at, frame_durations(m.ticks));
}

/// Whether the sample tables are found at `stbl`.
spec fn tables_in(b: Seq<u8>, stbl: int, m: Movie) -> bool {
    &&& inside(b, minf_in(b), fourcc('s', 't', 'b', 'l')) == Some(stbl)
    &&& stbl_at(b, stbl, m)
}

/// Where a player finds the time-to-sample table, and what it reads there.
#[verifier::spinoff_prover]
proof fn lemma_stts_in(b: Seq<u8>, stbl: int, m: Movie) -> (found: int)
    requires
        tables_in(b, stbl, m),
        m.ticks.len() == m.frames.len(),
    ensures
        stts_in(b) == Some(found),
        runs_at(b, found) == runs(frame_durations(m.ticks)),
{
    let sizes = lemma_table_at(b, stbl, m, 3);
    lemma_few_frames(b, sizes, m);
    let found = lemma_table_at(b, stbl, m, 1);
    lemma_stts_at(b, found, m);
    found
}

/// A finished file plays in real time. With ticks that increase, by less than
/// 2^32 at a time, a player that reads the durations and the time scale from
/// the file shows each frame as many 90000ths of a second after the first as
/// its ticks are after the first's, however many were dropped in between.
#[verifier::spinoff_prover]
pub proof fn law_a_player_shows_each_frame_in_real_time(m: Movie, unix_secs: u64, i: int)
    requires
        m.indexable(),
        short_index(m, unix_secs),
        0 <= i < m.ticks.len(),
        forall|j: int|
            #![trigger m.ticks[j]]
            0 <= j < m.ticks.len() - 1 ==> 1 <= m.ticks[j + 1] - m.ticks[j] < 0x1_0000_0000,
    ensures
        shown_at(finished_file(m, unix_secs), i, m.ticks[i] - m.ticks[0]),
{
    let found = lemma_headers_in(m, unix_secs);
    let at = lemma_stts_in(finished_file(m, unix_secs), found.4, m);
    law_playback_runs_in_real_time(m.ticks, i);
    lemma_shown_at(
        finished_file(m, unix_secs),
        (at, found.2),
        unix_secs + QT_EPOCH_OFFSET,
        media_duration(m),
        frame_durations(m.ticks),
        i,
        m.ticks[i] - m.ticks[0],
    );
}

/// Whether a player that follows the index of a file gets these frames, in
/// this order: there are as many sizes and offsets as frames, each leads to
/// its frame, and every chunk holds one sample.
#[verifier::opaque]
pub open spec fn frames_read(file: Seq<u8>, frames: Seq<Seq<u8>>) -> bool {
    let sizes = table_in(file, fourcc('s', 't', 's', 'z'));
    let offsets = table_in(file, fourcc('c', 'o', '6', '4'));
    let chunks = table_in(file, fourcc('s', 't', 's', 'c'));
    &&& sizes is Some
    &&& offsets is Some
    &&& chunks is Some
    &&& read32(file, sizes->0 + 12) == 0
    &&& read32(file, sizes->0 + 16) == frames.len()
    &&& read32(file, offsets->0 + 12) == frames.len()
    &&& read32(file, chunks->0 + 12) == 1
    &&& read32(file, chunks->0 + 16) == 1
    &&& read32(file, chunks->0 + 20) == 1
    &&& forall|i: int|
        0 <= i < frames.len() ==> entry_leads_to(
            file,
            sizes->0,
            offsets->0,
            i,
            #[trigger] frames[i],
        )
}

#[verifier::spinoff_prover]
proof fn lemma_sizes_read(b: Seq<u8>, at: int, m: Movie)
    requires
        table_at(b, at, m, 3),
        m.frames.len() < 0x1_0000_0000,
    ensures
        read32(b, at + 12) == 0,
        read32(b, at + 16) == m.frames.len(),
        part_at(b, at, stsz_atom(sizes_of(m))),
{
    reveal(table_at);
    let entries = concat(sizes_of(m).map_values(|s: u32| be32(s as int)));
    lemma_two_counts(b, at, STSZ, 0, m.frames.len() as int, entries);
}

#[verifier::spinoff_prover]
proof fn lemma_offsets_read(b: Seq<u8>, at: int, m: Movie)
    requires
        table_at(b, at, m, 4),
        m.frames.len() < 0x1_0000_0000,
    ensures
        read32(b, at + 12) == m.frames.len(),
        part_at(b, at, co64_atom(offsets_of(m))),
{
    reveal(table_at);
    let entries = concat(offsets_of(m).map_values(|o: u64| be64(o as int)));
    lemma_one_count(b, at, CO64, m.frames.len() as int, entries);
}

#[verifier::spinoff_prover]
proof fn lemma_chunks_read(b: Seq<u8>, at: int, m: Movie)
    requires
        table_at(b, at, m, 2),
    ensures
        read32(b, at + 12) == 1,
        read32(b, at + 16) == 1,
        read32(b, at + 20) == 1,
{
    reveal(table_at);
    lemma_chunks(b, at);
}

#[verifier::spinoff_prover]
proof fn lemma_one_count(b: Seq<u8>, at: int, kind: u32, n: int, rest: Seq<u8>)
    requires
        part_at(b, at, full_atom(kind, 0, 0, be32(n) + rest)),
        0 <= n < 0x1_0000_0000,
    ensures
        read32(b, at + 12) == n,
{
    assert(part_at(be32(n) + rest, 0, be32(n)));
    lemma_field(b, at, kind, 0, be32(n) + rest, 0, n);
}

#[verifier::spinoff_prover]
proof fn lemma_two_counts(b: Seq<u8>, at: int, kind: u32, k: int, n: int, rest: Seq<u8>)
    requires
        part_at(b, at, full_atom(kind, 0, 0, be32(k) + be32(n) + rest)),
        0 <= k < 0x1_0000_0000,
        0 <= n < 0x1_0000_0000,
    ensures
        read32(b, at + 12) == k,
        read32(b, at + 16) == n,
{
    let body = be32(k) + be32(n) + rest;
    assert(read32(b, at + 12) == k) by {
        lemma_first_two(be32(k), be32(n), rest);
        lemma_field(b, at, kind, 0, body, 0, k);
    }
    assert(read32(b, at + 16) == n) by {
        lemma_first_two(be32(k), be32(n), rest);
        lemma_field(b, at, kind, 0, body, 4, n);
    }
}

#[verifier::spinoff_prover]
proof fn lemma_first_two(first: Seq<u8>, second: Seq<u8>, rest: Seq<u8>)
    requires
        first.len() == 4,
    ensures
        part_at(first + second + rest, 0, first),
        part_at(first + second + rest, 4, second),
{
}

#[verifier::spinoff_prover]
proof fn lemma_chunks(b: Seq<u8>, at: int)
    requires
        part_at(b, at, stsc_atom()),
    ensures
        read32(b, at + 12) == 1,
        read32(b, at + 16) == 1,
        read32(b, at + 20) == 1,
{
    let body = be32(1) + be32(1) + be32(1) + be32(1);
    assert(part_at(body, 0, be32(1)));
    assert(part_at(body, 4, be32(1)));
    assert(part_at(body, 8, be32(1)));
    lemma_field(b, at, STSC, 0, body, 0, 1);
    lemma_field(b, at, STSC, 0, body, 4, 1);
    lemma_field(b, at, STSC, 0, body, 8, 1);
}

#[verifier::spinoff_prover]
proof fn lemma_frames_read(b: Seq<u8>, stbl: int, m: Movie)
    requires
        tables_in(b, stbl, m),
        m.indexable(),
        part_at(b, 36, concat(m.frames)),
    ensures
        frames_read(b, m.frames),
{
    let chunks = lemma_table_at(b, stbl, m, 2);
    let sizes = lemma_table_at(b, stbl, m, 3);
    let offsets = lemma_table_at(b, stbl, m, 4);
    lemma_few_frames(b, sizes, m);
    lemma_sizes_read(b, sizes, m);
    lemma_offsets_read(b, offsets, m);
    lemma_chunks_read(b, chunks, m);
    assert forall|i: int| 0 <= i < m.frames.len() implies entry_leads_to(
        b,
        sizes,
        offsets,
        i,
        #[trigger] m.frames[i],
    ) by {
        lemma_frame_is_addressed(b, m, sizes, offsets, i);
    }
    reveal(frames_read);
}

#[verifier::spinoff_prover]
proof fn lemma_frames_at(m: Movie, unix_secs: u64)
    ensures
        part_at(finished_file(m, unix_secs), 36, concat(m.frames)),
{
    lemma_frames_and_index_of_a_file(
        concat(m.frames),
        m.end() - MDAT_START,
        moov_atom(m, unix_secs + QT_EPOCH_OFFSET),
    );
}

/// A player that follows a finished file's index gets the frames that were
/// written, byte for byte and in order.
#[verifier::spinoff_prover]
pub proof fn law_a_player_reads_the_frames_back(m: Movie, unix_secs: u64)
    requires
        m.indexable(),
        short_index(m, unix_secs),
    ensures
        frames_read(finished_file(m, unix_secs), m.frames),
{
    let found = lemma_headers_in(m, unix_secs);
    lemma_frames_at(m, unix_secs);
    lemma_frames_read(finished_file(m, unix_secs), found.4, m);
}

/// Whether a player shows a file at this size, as JPEG video: the track's size
/// is in 16.16 fixed point, the one sample description says that the frames
/// are JPEG and how large they are, and the media is video.
#[verifier::opaque]
pub open spec fn picture_read(file: Seq<u8>, width: int, height: int) -> bool {
    let described = table_in(file, fourcc('s', 't', 's', 'd'));
    &&& tkhd_in(file) is Some
    &&& hdlr_in(file) is Some
    &&& described is Some
    &&& read32(file, tkhd_in(file)->0 + 84) == width * 0x1_0000
    &&& read32(file, tkhd_in(file)->0 + 88) == height * 0x1_0000
    &&& read32(file, described->0 + 12) == 1
    &&& read32(file, described->0 + 20) == fourcc('j', 'p', 'e', 'g')
    &&& read16(file, described->0 + 48) == width
    &&& read16(file, described->0 + 50) == height
    &&& read32(file, hdlr_in(file)->0 + 16) == fourcc('v', 'i', 'd', 'e')
}

#[verifier::spinoff_prover]
proof fn lemma_description(b: Seq<u8>, at: int, width: u16, height: u16)
    requires
        part_at(b, at, stsd_atom(width, height)),
    ensures
        read32(b, at + 12) == 1,
        read32(b, at + 20) == JPEG,
        read16(b, at + 48) == width,
        read16(b, at + 50) == height,
{
    let front = zeros(6) + be16(1) + zeros(4) + zeros(4) + be32(0) + be32(0x200);
    let back = be32(0x0048_0000) + be32(0x0048_0000) + be32(0) + be16(1) + seq![12u8]
        + encode_utf8("Photo - JPEG"@) + zeros(19) + be16(24) + be16(0xffff);
    let wide = be16(width as int);
    let high = be16(height as int);
    let inner = front + wide + high + be32(0x0048_0000) + be32(0x0048_0000) + be32(0) + be16(1)
        + seq![12u8] + encode_utf8("Photo - JPEG"@) + zeros(19) + be16(24) + be16(0xffff);
    assert(inner =~= front + (wide + high) + back);
    lemma_described(b, at, front, wide, high, back, inner, width as int, height as int);
}

#[verifier::spinoff_prover]
proof fn lemma_described(
    b: Seq<u8>,
    at: int,
    front: Seq<u8>,
    wide: Seq<u8>,
    high: Seq<u8>,
    back: Seq<u8>,
    inner: Seq<u8>,
    width: int,
    height: int,
)
    requires
        part_at(b, at, full_atom(STSD, 0, 0, be32(1) + atom(JPEG, inner))),
        inner == front + (wide + high) + back,
        front.len() == 24,
        wide == be16(width),
        high == be16(height),
        0 <= width < 0x1_0000,
        0 <= height < 0x1_0000,
    ensures
        read32(b, at + 12) == 1,
        read32(b, at + 20) == JPEG,
        read16(b, at + 48) == width,
        read16(b, at + 50) == height,
{
    let jpeg = atom(JPEG, inner);
    lemma_one_count(b, at, STSD, 1, jpeg);
    lemma_body_of_a_full_atom(STSD, 0, 0, be32(1) + jpeg);
    assert(part_at(b, at + 16, jpeg)) by {
        lemma_second(be32(1), jpeg);
        lemma_part_of_a_part(full_atom(STSD, 0, 0, be32(1) + jpeg), 12, be32(1) + jpeg, 4, jpeg);
        lemma_part_of_a_part(b, at, full_atom(STSD, 0, 0, be32(1) + jpeg), 16, jpeg);
    }
    lemma_kind_of(b, at + 16, JPEG, inner);
    assert(part_at(b, at + 48, wide + high)) by {
        lemma_body_of_an_atom(JPEG, inner);
        lemma_part_of_a_part(b, at + 16, jpeg, 8, inner);
        lemma_part_of_a_sum(front, wide + high, back);
        lemma_part_of_a_part(b, at + 24, inner, 24, wide + high);
    }
    lemma_read16s(b, at + 48, width, height);
}

#[verifier::spinoff_prover]
proof fn lemma_second(first: Seq<u8>, second: Seq<u8>)
    ensures
        part_at(first + second, first.len() as int, second),
{
}

#[verifier::spinoff_prover]
proof fn lemma_kind_of(b: Seq<u8>, at: int, kind: u32, body: Seq<u8>)
    requires
        part_at(b, at, atom(kind, body)),
    ensures
        read32(b, at + 4) == kind,
{
    let size = be32((8 + body.len()) as int);
    lemma_first_two(size, be32(kind as int), body);
    lemma_part_of_a_part(b, at, atom(kind, body), 4, be32(kind as int));
    lemma_read32(b, at + 4, kind as int);
}

#[verifier::spinoff_prover]
proof fn lemma_read16s(b: Seq<u8>, at: int, first: int, second: int)
    requires
        part_at(b, at, be16(first) + be16(second)),
        0 <= first < 0x1_0000,
        0 <= second < 0x1_0000,
    ensures
        read16(b, at) == first,
        read16(b, at + 2) == second,
{
    let w = be16(first) + be16(second);
    assert(b[at + 0] == w[0]);
    assert(b[at + 1] == w[1]);
    assert(b[at + 2] == w[2]);
    assert(b[at + 3] == w[3]);
}

#[verifier::spinoff_prover]
proof fn lemma_description_at(b: Seq<u8>, at: int, m: Movie)
    requires
        table_at(b, at, m, 0),
    ensures
        read32(b, at + 12) == 1,
        read32(b, at + 20) == JPEG,
        read16(b, at + 48) == m.width,
        read16(b, at + 50) == m.height,
{
    reveal(table_at);
    lemma_description(b, at, m.width, m.height);
}

#[verifier::spinoff_prover]
proof fn lemma_handler_kind(b: Seq<u8>, at: int, name: Seq<char>)
    requires
        part_at(b, at, handler_atom(MHLR, VIDE, name)),
    ensures
        read32(b, at + 12) == MHLR,
        read32(b, at + 16) == VIDE,
{
    let text = encode_utf8(name);
    let back = zeros(12) + seq![(text.len() % 0x100) as u8] + text;
    assert(be32(MHLR as int) + be32(VIDE as int) + zeros(12) + seq![(text.len() % 0x100) as u8]
        + text =~= be32(MHLR as int) + be32(VIDE as int) + back);
    lemma_two_counts(b, at, HDLR, MHLR as int, VIDE as int, back);
}

#[verifier::spinoff_prover]
proof fn lemma_picture_read(
    b: Seq<u8>,
    at: (int, int, int),
    now: int,
    lasts: int,
    m: Movie,
)
    requires
        tkhd_in(b) == Some(at.0),
        tkhd_at(b, at.0, now, lasts, m.width, m.height),
        hdlr_in(b) == Some(at.1),
        read32(b, at.1 + 16) == VIDE,
        tables_in(b, at.2, m),
        0 <= now,
        0 <= lasts,
    ensures
        picture_read(b, m.width as int, m.height as int),
{
    let described = lemma_table_at(b, at.2, m, 0);
    lemma_description_at(b, described, m);
    lemma_track_size(b, at.0, now, lasts, m.width, m.height);
    reveal(picture_read);
}

/// A player shows a finished file at the size it was recorded in.
#[verifier::spinoff_prover]
pub proof fn law_a_player_reads_the_size_back(m: Movie, unix_secs: u64)
    requires
        m.indexable(),
        short_index(m, unix_secs),
    ensures
        picture_read(finished_file(m, unix_secs), m.width as int, m.height as int),
{
    let file = finished_file(m, unix_secs);
    let found = lemma_headers_in(m, unix_secs);
    lemma_handler_kind(file, found.3, "VideoHandler"@);
    lemma_movie_lasts(m);
    lemma_picture_read(
        file,
        (found.1, found.3, found.4),
        unix_secs + QT_EPOCH_OFFSET,
        movie_duration(m),
        m,
    );
}

/// Whether the identity transform stands at `at`: ones on the diagonal, in
/// 16.16 and 2.30 fixed point.
pub open spec fn identity_read(file: Seq<u8>, at: int) -> bool {
    &&& read32(file, at) == 0x1_0000
    &&& read32(file, at + 4) == 0
    &&& read32(file, at + 8) == 0
    &&& read32(file, at + 12) == 0
    &&& read32(file, at + 16) == 0x1_0000
    &&& read32(file, at + 20) == 0
    &&& read32(file, at + 24) == 0
    &&& read32(file, at + 28) == 0
    &&& read32(file, at + 32) == 0x4000_0000
}

/// Whether a file says how it is to be played as every file does: at its own
/// speed and full volume, without any transform; with one track, which is
/// enabled and in the movie, and another number for the next.
#[verifier::opaque]
pub open spec fn playback_read(file: Seq<u8>) -> bool {
    &&& mvhd_in(file) is Some
    &&& tkhd_in(file) is Some
    &&& read32(file, mvhd_in(file)->0 + 28) == 0x1_0000
    &&& read16(file, mvhd_in(file)->0 + 32) == 0x100
    &&& identity_read(file, mvhd_in(file)->0 + 44)
    &&& read32(file, mvhd_in(file)->0 + 104) == 2
    &&& read32(file, tkhd_in(file)->0 + 8) == 3
    &&& read32(file, tkhd_in(file)->0 + 20) == 1
    &&& identity_read(file, tkhd_in(file)->0 + 48)
}

#[verifier::spinoff_prover]
proof fn lemma_matrix(b: Seq<u8>, at: int)
    requires
        part_at(b, at, identity_matrix()),
    ensures
        identity_read(b, at),
{
    let m = identity_matrix();
    assert(part_at(m, 0, be32(0x1_0000)));
    assert(part_at(m, 4, be32(0)));
    assert(part_at(m, 8, be32(0)));
    assert(part_at(m, 12, be32(0)));
    assert(part_at(m, 16, be32(0x1_0000)));
    assert(part_at(m, 20, be32(0)));
    assert(part_at(m, 24, be32(0)));
    assert(part_at(m, 28, be32(0)));
    assert(part_at(m, 32, be32(0x4000_0000)));
    lemma_word(b, at, m, 0, 0x1_0000);
    lemma_word(b, at, m, 4, 0);
    lemma_word(b, at, m, 8, 0);
    lemma_word(b, at, m, 12, 0);
    lemma_word(b, at, m, 16, 0x1_0000);
    lemma_word(b, at, m, 20, 0);
    lemma_word(b, at, m, 24, 0);
    lemma_word(b, at, m, 28, 0);
    lemma_word(b, at, m, 32, 0x4000_0000);
}

#[verifier::spinoff_prover]
proof fn lemma_word(b: Seq<u8>, at: int, p: Seq<u8>, k: int, v: int)
    requires
        part_at(b, at, p),
        part_at(p, k, be32(v)),
        0 <= v < 0x1_0000_0000,
    ensures
        read32(b, at + k) == v,
{
    lemma_part_of_a_part(b, at, p, k, be32(v));
    lemma_read32(b, at + k, v);
}

#[verifier::spinoff_prover]
proof fn lemma_six(
    first: Seq<u8>,
    second: Seq<u8>,
    third: Seq<u8>,
    fourth: Seq<u8>,
    fifth: Seq<u8>,
    sixth: Seq<u8>,
)
    ensures
        ({
            let whole = first + second + third + fourth + fifth + sixth;
            let at = first.len() as int;
            &&& part_at(whole, at, second)
            &&& part_at(whole, at + second.len() + third.len(), fourth)
            &&& part_at(whole, at + second.len() + third.len() + fourth.len() + fifth.len(), sixth)
        }),
{
}

#[verifier::spinoff_prover]
proof fn lemma_movie_playback(b: Seq<u8>, at: int, now: int, duration: int)
    requires
        mvhd_at(b, at, now, duration),
    ensures
        read16(b, at + 32) == 0x100,
        identity_read(b, at + 44),
        read32(b, at + 104) == 2,
{
    reveal(mvhd_at);
    let front = be32(now) + be32(now) + be32(1_000) + be32(duration) + be32(0x0001_0000);
    lemma_tail_of_the_movie_header(b, at, front);
}

/// Where the parts of the movie's header stand.
#[verifier::spinoff_prover]
proof fn lemma_parts_of_the_movie_header(
    b: Seq<u8>,
    at: int,
    front: Seq<u8>,
    volume: Seq<u8>,
    gap: Seq<u8>,
    matrix: Seq<u8>,
    unused: Seq<u8>,
    next: Seq<u8>,
)
    requires
        part_at(
            b,
            at,
            full_atom(MVHD, 0, 0, front + volume + gap + matrix + unused + next),
        ),
        front.len() == 20,
        volume.len() == 2,
        gap.len() == 10,
        matrix.len() == 36,
        unused.len() == 24,
    ensures
        part_at(b, at + 32, volume),
        part_at(b, at + 44, matrix),
        part_at(b, at + 104, next),
{
    let body = front + volume + gap + matrix + unused + next;
    lemma_six(front, volume, gap, matrix, unused, next);
    lemma_body_of_a_full_atom(MVHD, 0, 0, body);
    lemma_part_of_a_part(b, at, full_atom(MVHD, 0, 0, body), 12, body);
    lemma_part_of_a_part(b, at + 12, body, 20, volume);
    lemma_part_of_a_part(b, at + 12, body, 32, matrix);
    lemma_part_of_a_part(b, at + 12, body, 92, next);
}

#[verifier::spinoff_prover]
proof fn lemma_volume(b: Seq<u8>, at: int)
    requires
        part_at(b, at, be16(0x0100)),
    ensures
        read16(b, at) == 0x100,
{
    let w = be16(0x0100);
    assert(b[at + 0] == w[0]);
    assert(b[at + 1] == w[1]);
}

#[verifier::spinoff_prover]
proof fn lemma_tail_of_the_movie_header(b: Seq<u8>, at: int, front: Seq<u8>)
    requires
        part_at(
            b,
            at,
            full_atom(
                MVHD,
                0,
                0,
                front + be16(0x0100) + zeros(10) + identity_matrix() + zeros(24) + be32(2),
            ),
        ),
        front.len() == 20,
    ensures
        read16(b, at + 32) == 0x100,
        identity_read(b, at + 44),
        read32(b, at + 104) == 2,
{
    lemma_matrix_len();
    lemma_parts_of_the_movie_header(
        b,
        at,
        front,
        be16(0x0100),
        zeros(10),
        identity_matrix(),
        zeros(24),
        be32(2),
    );
    lemma_volume(b, at + 32);
    lemma_matrix(b, at + 44);
    lemma_read32(b, at + 104, 2);
}

#[verifier::spinoff_prover]
proof fn lemma_matrix_len()
    ensures
        identity_matrix().len() == 36,
        be16(0x0100).len() == 2,
        be32(2).len() == 4,
        zeros(10).len() == 10,
        zeros(24).len() == 24,
{
}

#[verifier::spinoff_prover]
proof fn lemma_track_playback(b: Seq<u8>, at: int, now: int, duration: int, width: u16, height: u16)
    requires
        tkhd_at(b, at, now, duration, width, height),
    ensures
        read32(b, at + 8) == 3,
        identity_read(b, at + 48),
{
    reveal(tkhd_at);
    let front = be32(now) + be32(now) + be32(1) + zeros(4) + be32(duration) + zeros(8) + zeros(6)
        + zeros(2);
    lemma_tail_of_the_track_header(
        b,
        at,
        front,
        be32(width * 0x1_0000),
        be32(height * 0x1_0000),
    );
}

#[verifier::spinoff_prover]
proof fn lemma_tail_of_the_track_header(
    b: Seq<u8>,
    at: int,
    front: Seq<u8>,
    wide: Seq<u8>,
    high: Seq<u8>,
)
    requires
        part_at(
            b,
            at,
            full_atom(TKHD, 0, 3, front + identity_matrix() + wide + high),
        ),
        front.len() == 36,
    ensures
        read32(b, at + 8) == 3,
        identity_read(b, at + 48),
{
    let body = front + identity_matrix() + wide + high;
    lemma_body_of_a_full_atom(TKHD, 0, 3, body);
    lemma_part_of_a_part(b, at, full_atom(TKHD, 0, 3, body), 12, body);
    assert(identity_read(b, at + 48)) by {
        lemma_part_of_a_sum(front, identity_matrix(), wide + high);
        assert(body =~= front + identity_matrix() + (wide + high));
        lemma_part_of_a_part(b, at + 12, body, 36, identity_matrix());
        lemma_matrix(b, at + 48);
    }
    assert(read32(b, at + 8) == 3) by {
        assert(((0u8 as u32) << 24u32) | 3u32 == 3u32) by (bit_vector);
        lemma_body_of_an_atom(TKHD, be32(3) + body);
        lemma_first_two(be32(3), body, Seq::empty());
        assert(be32(3) + body + Seq::<u8>::empty() =~= be32(3) + body);
        lemma_part_of_a_part(b, at, full_atom(TKHD, 0, 3, body), 8, be32(3) + body);
        lemma_word(b, at + 8, be32(3) + body, 0, 3);
    }
}

#[verifier::spinoff_prover]
proof fn lemma_playback_read(
    b: Seq<u8>,
    at: (int, int),
    now: int,
    duration: int,
    width: u16,
    height: u16,
)
    requires
        mvhd_in(b) == Some(at.0),
        mvhd_at(b, at.0, now, duration),
        tkhd_in(b) == Some(at.1),
        tkhd_at(b, at.1, now, duration, width, height),
        0 <= now,
        0 <= duration < 0x1_0000_0000,
    ensures
        playback_read(b),
{
    lemma_movie_playback(b, at.0, now, duration);
    lemma_track_playback(b, at.1, now, duration, width, height);
    lemma_mvhd_fields(b, at.0, now, now % 0x1_0000_0000, duration);
    lemma_tkhd_fields(b, at.1, now, now % 0x1_0000_0000, duration, width, height);
    reveal(playback_read);
}

/// A finished file is played as it was recorded: at its own speed, and as it
/// is.
#[verifier::spinoff_prover]
pub proof fn law_a_file_plays_as_it_was_recorded(m: Movie, unix_secs: u64)
    requires
        m.indexable(),
        short_index(m, unix_secs),
        total(frame_durations(m.ticks)) < 0x1_0000_0000,
    ensures
        playback_read(finished_file(m, unix_secs)),
{
    let found = lemma_headers_in(m, unix_secs);
    lemma_movie_lasts(m);
    lemma_playback_read(
        finished_file(m, unix_secs),
        (found.0, found.1),
        unix_secs + QT_EPOCH_OFFSET,
        movie_duration(m),
        m.width,
        m.height,
    );
}

/// Whether a file begins as a QuickTime file does, and its media data reaches
/// from behind that to its index.
#[verifier::opaque]
pub open spec fn front_read(file: Seq<u8>) -> bool {
    &&& read32(file, 0) == 20
    &&& read32(file, 4) == fourcc('f', 't', 'y', 'p')
    &&& read32(file, 8) == fourcc('q', 't', ' ', ' ')
    &&& read32(file, 16) == fourcc('q', 't', ' ', ' ')
    &&& read32(file, 20) == 1
    &&& read32(file, 24) == fourcc('m', 'd', 'a', 't')
    &&& moov_in(file) == Some(20 + read64(file, 28))
}

#[verifier::spinoff_prover]
proof fn lemma_front_read(frames: Seq<u8>, moov: Seq<u8>, file: Seq<u8>)
    requires
        file == ftyp_atom() + mdat_header(16 + frames.len() as int) + frames + moov,
        36 + frames.len() <= u64::MAX,
        is_atom(moov, MOOV),
        moov.len() < 0x1_0000_0000,
    ensures
        front_read(file),
{
    let rest = mdat_header(16 + frames.len() as int) + (frames + moov);
    lemma_index_in(frames, moov, file);
    lemma_head_of_a_file(ftyp_atom(), 16 + frames.len() as int, frames + moov);
    assert(file =~= ftyp_atom() + rest);
    assert(part_at(file, 0, ftyp_atom()));
    lemma_brands(file);
    reveal(front_read);
}

#[verifier::spinoff_prover]
proof fn lemma_brands(b: Seq<u8>)
    requires
        part_at(b, 0, ftyp_atom()),
    ensures
        read32(b, 8) == fourcc('q', 't', ' ', ' '),
        read32(b, 16) == fourcc('q', 't', ' ', ' '),
{
    let qt = fourcc('q', 't', ' ', ' ');
    let p = ftyp_atom();
    assert(part_at(p, 8, be32(qt)));
    assert(part_at(p, 16, be32(qt)));
    lemma_word(b, 0, p, 8, qt);
    lemma_word(b, 0, p, 16, qt);
}

/// A finished file begins as a QuickTime file does, and the size of its media
/// data leads to its index, however many frames there are.
#[verifier::spinoff_prover]
pub proof fn law_the_media_data_leads_to_the_index(m: Movie, unix_secs: u64)
    requires
        m.indexable(),
        short_index(m, unix_secs),
    ensures
        front_read(finished_file(m, unix_secs)),
{
    lemma_front_read(
        concat(m.frames),
        moov_atom(m, unix_secs + QT_EPOCH_OFFSET),
        finished_file(m, unix_secs),
    );
}

/// Whether a file describes its samples as every file does: JPEGs at 72 dots
/// per inch, one to a sample, of normal quality and 24 bits a pixel, with no
/// colour table, whose data is in the file; each chunk is described by that one
/// description; and the media has no language.
#[verifier::opaque]
pub open spec fn samples_read(file: Seq<u8>) -> bool {
    let described = table_in(file, fourcc('s', 't', 's', 'd'));
    let chunks = table_in(file, fourcc('s', 't', 's', 'c'));
    &&& described is Some
    &&& chunks is Some
    &&& mdhd_in(file) is Some
    &&& hdlr_in(file) is Some
    &&& read16(file, described->0 + 30) == 1
    &&& read32(file, described->0 + 44) == 0x200
    &&& read32(file, described->0 + 52) == 0x48_0000
    &&& read32(file, described->0 + 56) == 0x48_0000
    &&& read16(file, described->0 + 64) == 1
    &&& read16(file, described->0 + 98) == 24
    &&& read16(file, described->0 + 100) == 0xffff
    &&& read32(file, chunks->0 + 24) == 1
    &&& read16(file, mdhd_in(file)->0 + 28) == 0x55c4
    &&& read32(file, hdlr_in(file)->0 + 12) == fourcc('m', 'h', 'l', 'r')
}

#[verifier::spinoff_prover]
proof fn lemma_half(b: Seq<u8>, at: int, p: Seq<u8>, k: int, v: int)
    requires
        part_at(b, at, p),
        part_at(p, k, be16(v)),
        0 <= v < 0x1_0000,
    ensures
        read16(b, at + k) == v,
{
    lemma_part_of_a_part(b, at, p, k, be16(v));
    let w = be16(v);
    assert(b[at + k + 0] == w[0]);
    assert(b[at + k + 1] == w[1]);
}

/// Where the parts of a sample description stand.
#[verifier::spinoff_prover]
proof fn lemma_parts_of_a_description(
    b: Seq<u8>,
    at: int,
    front: Seq<u8>,
    size: Seq<u8>,
    middle: Seq<u8>,
    name: Seq<u8>,
    back: Seq<u8>,
)
    requires
        part_at(
            b,
            at,
            full_atom(STSD, 0, 0, be32(1) + atom(JPEG, front + size + middle + name + back)),
        ),
        front.len() == 24,
        size.len() == 4,
        middle.len() == 14,
        name.len() == 32,
    ensures
        part_at(b, at + 24, front),
        part_at(b, at + 52, middle),
        part_at(b, at + 98, back),
{
    let inner = front + size + middle + name + back;
    let jpeg = atom(JPEG, inner);
    lemma_second(be32(1), jpeg);
    lemma_body_of_a_full_atom(STSD, 0, 0, be32(1) + jpeg);
    lemma_part_of_a_part(full_atom(STSD, 0, 0, be32(1) + jpeg), 12, be32(1) + jpeg, 4, jpeg);
    lemma_part_of_a_part(b, at, full_atom(STSD, 0, 0, be32(1) + jpeg), 16, jpeg);
    lemma_body_of_an_atom(JPEG, inner);
    lemma_part_of_a_part(b, at + 16, jpeg, 8, inner);
    lemma_five_parts(front, size, middle, name, back);
    lemma_part_of_a_part(b, at + 24, inner, 0, front);
    lemma_part_of_a_part(b, at + 24, inner, 28, middle);
    lemma_part_of_a_part(b, at + 24, inner, 74, back);
}

#[verifier::spinoff_prover]
proof fn lemma_five_parts(
    first: Seq<u8>,
    second: Seq<u8>,
    third: Seq<u8>,
    fourth: Seq<u8>,
    fifth: Seq<u8>,
)
    ensures
        ({
            let whole = first + second + third + fourth + fifth;
            let at = first.len() + second.len() as int;
            &&& part_at(whole, 0, first)
            &&& part_at(whole, at, third)
            &&& part_at(whole, at + third.len() + fourth.len(), fifth)
        }),
{
}

#[verifier::spinoff_prover]
proof fn lemma_description_parts(b: Seq<u8>, at: int, width: u16, height: u16)
    requires
        part_at(b, at, stsd_atom(width, height)),
    ensures
        part_at(
            b,
            at + 24,
            zeros(6) + be16(1) + zeros(4) + zeros(4) + be32(0) + be32(0x200),
        ),
        part_at(b, at + 52, be32(0x48_0000) + be32(0x48_0000) + be32(0) + be16(1)),
        part_at(b, at + 98, be16(24) + be16(0xffff)),
{
    let front = zeros(6) + be16(1) + zeros(4) + zeros(4) + be32(0) + be32(0x200);
    let size = be16(width as int) + be16(height as int);
    let middle = be32(0x48_0000) + be32(0x48_0000) + be32(0) + be16(1);
    let name = seq![12u8] + encode_utf8("Photo - JPEG"@) + zeros(19);
    let back = be16(24) + be16(0xffff);
    lemma_photo_jpeg();
    let inner = front + be16(width as int) + be16(height as int) + be32(0x0048_0000) + be32(
        0x0048_0000,
    ) + be32(0) + be16(1) + seq![12u8] + encode_utf8("Photo - JPEG"@) + zeros(19) + be16(24)
        + be16(0xffff);
    assert(inner =~= front + size + middle + name + back);
    lemma_parts_of_a_description(b, at, front, size, middle, name, back);
}

#[verifier::spinoff_prover]
proof fn lemma_description_front(b: Seq<u8>, at: int)
    requires
        part_at(b, at, zeros(6) + be16(1) + zeros(4) + zeros(4) + be32(0) + be32(0x200)),
    ensures
        read16(b, at + 6) == 1,
        read32(b, at + 20) == 0x200,
{
    let p = zeros(6) + be16(1) + zeros(4) + zeros(4) + be32(0) + be32(0x200);
    assert(part_at(p, 6, be16(1)));
    assert(part_at(p, 20, be32(0x200)));
    lemma_half(b, at, p, 6, 1);
    lemma_word(b, at, p, 20, 0x200);
}

#[verifier::spinoff_prover]
proof fn lemma_description_middle(b: Seq<u8>, at: int)
    requires
        part_at(b, at, be32(0x48_0000) + be32(0x48_0000) + be32(0) + be16(1)),
    ensures
        read32(b, at) == 0x48_0000,
        read32(b, at + 4) == 0x48_0000,
        read16(b, at + 12) == 1,
{
    let p = be32(0x48_0000) + be32(0x48_0000) + be32(0) + be16(1);
    assert(part_at(p, 0, be32(0x48_0000)));
    assert(part_at(p, 4, be32(0x48_0000)));
    assert(part_at(p, 12, be16(1)));
    lemma_word(b, at, p, 0, 0x48_0000);
    lemma_word(b, at, p, 4, 0x48_0000);
    lemma_half(b, at, p, 12, 1);
}

#[verifier::spinoff_prover]
proof fn lemma_description_read(b: Seq<u8>, at: int, m: Movie)
    requires
        table_at(b, at, m, 0),
    ensures
        read16(b, at + 30) == 1,
        read32(b, at + 44) == 0x200,
        read32(b, at + 52) == 0x48_0000,
        read32(b, at + 56) == 0x48_0000,
        read16(b, at + 64) == 1,
        read16(b, at + 98) == 24,
        read16(b, at + 100) == 0xffff,
{
    assert(part_at(b, at, stsd_atom(m.width, m.height))) by {
        reveal(table_at);
    }
    lemma_description_parts(b, at, m.width, m.height);
    lemma_description_front(b, at + 24);
    lemma_description_middle(b, at + 52);
    lemma_read16s(b, at + 98, 24, 0xffff);
}

#[verifier::spinoff_prover]
proof fn lemma_chunk_description(b: Seq<u8>, at: int, m: Movie)
    requires
        table_at(b, at, m, 2),
    ensures
        read32(b, at + 24) == 1,
{
    reveal(table_at);
    let body = be32(1) + be32(1) + be32(1) + be32(1);
    assert(part_at(body, 12, be32(1)));
    lemma_field(b, at, STSC, 0, body, 12, 1);
}

#[verifier::spinoff_prover]
proof fn lemma_language(b: Seq<u8>, at: int, now: int, duration: int)
    requires
        mdhd_at(b, at, now, duration),
    ensures
        read16(b, at + 28) == 0x55c4,
{
    reveal(mdhd_at);
    let front = be32(now) + be32(now) + be32(90_000) + be32(duration);
    lemma_language_behind(b, at, front, be16(0x55c4), be16(0));
    lemma_half(b, at + 28, be16(0x55c4), 0, 0x55c4);
}

#[verifier::spinoff_prover]
proof fn lemma_language_behind(
    b: Seq<u8>,
    at: int,
    front: Seq<u8>,
    language: Seq<u8>,
    quality: Seq<u8>,
)
    requires
        part_at(b, at, full_atom(MDHD, 0, 0, front + language + quality)),
        front.len() == 16,
    ensures
        part_at(b, at + 28, language),
{
    let body = front + language + quality;
    lemma_part_of_a_sum(front, language, quality);
    lemma_body_of_a_full_atom(MDHD, 0, 0, body);
    lemma_part_of_a_part(b, at, full_atom(MDHD, 0, 0, body), 12, body);
    lemma_part_of_a_part(b, at + 12, body, 16, language);
}

#[verifier::spinoff_prover]
proof fn lemma_samples_read(b: Seq<u8>, at: (int, int, int), now: int, duration: int, m: Movie)
    requires
        mdhd_in(b) == Some(at.0),
        mdhd_at(b, at.0, now, duration),
        hdlr_in(b) == Some(at.1),
        read32(b, at.1 + 12) == MHLR,
        tables_in(b, at.2, m),
    ensures
        samples_read(b),
{
    let described = lemma_table_at(b, at.2, m, 0);
    lemma_description_read(b, described, m);
    let chunks = lemma_table_at(b, at.2, m, 2);
    lemma_chunk_description(b, chunks, m);
    lemma_language(b, at.0, now, duration);
    reveal(samples_read);
}

/// A finished file describes its frames as what they are.
#[verifier::spinoff_prover]
pub proof fn law_a_file_describes_its_frames(m: Movie, unix_secs: u64)
    requires
        m.indexable(),
        short_index(m, unix_secs),
    ensures
        samples_read(finished_file(m, unix_secs)),
{
    let file = finished_file(m, unix_secs);
    let found = lemma_headers_in(m, unix_secs);
    lemma_handler_kind(file, found.3, "VideoHandler"@);
    lemma_samples_read(
        file,
        (found.2, found.3, found.4),
        unix_secs + QT_EPOCH_OFFSET,
        media_duration(m),
        m,
    );
}

} // verus!
