//! Annotated video: what is recorded of each frame, and an account of what
//! was seen in them.

use crate::atom::be64;
use crate::clock::{from_ns, nanos};
use crate::draw::{canvas_bytes, canvas_size, pixel_bytes, Canvas};
use crate::mov::{
    finished_file, law_a_frame_extends_the_file, law_a_writer_stays_indexable,
    law_the_trailer_finishes_the_file, moov_atom, overwrite, unfinished_file, MovError, MovWriter,
    Movie, Trailer, MDAT_START, QT_EPOCH_OFFSET,
};
use crate::stats::{ascending, counted, lemma_occurrences, occurrences, sort, tally};
use jpeg_encoder::{ColorType, Encoder, EncodingError};
use std::collections::BTreeMap;
use std::time::Duration;
use vstd::prelude::*;
use vstd::slice::slice_to_vec;

verus! {

#[verifier::external_type_specification]
#[verifier::external_body]
pub struct ExEncodingError(EncodingError);

/// The JPEG that [`Encoder::encode`] makes of an RGB image.
pub uninterp spec fn jpeg_of(rgb: Seq<u8>, width: u16, height: u16, quality: u8) -> Seq<u8>;

/// Whether there is an image of this size in `rgb`.
pub open spec fn encodable(rgb: Seq<u8>, width: u16, height: u16) -> bool {
    width > 0 && height > 0 && rgb.len() >= 3 * (width * height)
}

/// [`Encoder::encode`] makes a JPEG of an RGB image, the same for the same
/// image. It fails if the image is empty or bytes are missing, and otherwise
/// only if its writer does, which is memory. The quality is from 1 to 100.
#[verifier::external_body]
fn jpeg(rgb: &[u8], width: u16, height: u16, quality: u8) -> (r: Result<Vec<u8>, EncodingError>)
    requires
        1 <= quality <= 100,
        3 * (width * height) <= usize::MAX,
    ensures
        r is Ok <==> encodable(rgb@, width, height),
        r matches Ok(bytes) ==> bytes@ == jpeg_of(rgb@, width, height, quality),
{
    let mut bytes = Vec::new();
    Encoder::new(&mut bytes, quality).encode(rgb, width, height, ColorType::Rgb)?;
    Ok(bytes)
}

/// Why a frame was not recorded.
#[derive(Debug)]
pub enum VideoError {
    /// A movie's frames are at most 65535 pixels wide and high.
    TooBig { width: u32, height: u32 },
    /// The frame could not be encoded.
    Encode(EncodingError),
    /// The movie cannot take the frame, or was never started.
    Movie(MovError),
    /// The file has grown past what can be counted.
    Full,
}

/// Whether a movie can have frames of this size.
pub open spec fn fits_movie(size: (u32, u32)) -> bool {
    size.0 <= u16::MAX && size.1 <= u16::MAX
}

/// Encodes frames into a movie.
pub struct Recorder {
    quality: u8,
    writer: Option<MovWriter>,
    frames: u64,
}

impl Recorder {
    pub closed spec fn quality(&self) -> u8 {
        self.quality
    }

    /// The movie, once its size is known.
    pub closed spec fn movie(&self) -> Option<Movie> {
        match self.writer {
            Some(w) => Some(w@),
            None => None,
        }
    }

    /// How many frames have been recorded.
    pub closed spec fn frames(&self) -> u64 {
        self.frames
    }

    pub closed spec fn wf(&self) -> bool {
        &&& 1 <= self.quality <= 100
        &&& match self.writer {
            Some(w) => w.wf() && self.frames == w@.frames.len(),
            None => self.frames == 0,
        }
    }

    /// Encodes JPEGs of this quality.
    pub fn new(quality: u8) -> (r: Self)
        requires
            1 <= quality <= 100,
        ensures
            r.wf(),
            r.quality() == quality,
            r.movie() is None,
            r.frames() == 0,
    {
        Recorder { quality, writer: None, frames: 0 }
    }

    /// A frame of this size is to come. The first one starts the movie:
    /// returns the bytes its file begins with.
    pub fn begin(&mut self, width: u32, height: u32) -> (r: Result<Option<Vec<u8>>, VideoError>)
        requires
            old(self).wf(),
        ensures
            final(self).wf(),
            final(self).quality() == old(self).quality(),
            final(self).frames() == old(self).frames(),
            match r {
                Ok(start) => {
                    &&& fits_movie((width, height))
                    &&& start is Some <==> old(self).movie() is None
                    &&& start is None ==> *final(self) == *old(self)
                    &&& start matches Some(bytes) ==> {
                        let m = Movie {
                            width: width as u16,
                            height: height as u16,
                            frames: Seq::empty(),
                            ticks: Seq::empty(),
                        };
                        final(self).movie() == Some(m) && bytes@ == unfinished_file(m)
                    }
                },
                Err(e) => {
                    &&& !fits_movie((width, height))
                    &&& e == (VideoError::TooBig { width, height })
                    &&& *final(self) == *old(self)
                },
            },
    {
        if width > u16::MAX as u32 || height > u16::MAX as u32 {
            return Err(VideoError::TooBig { width, height });
        }
        if self.writer.is_some() {
            return Ok(None);
        }
        let (writer, start) = MovWriter::create(width as u16, height as u16);
        self.writer = Some(writer);
        Ok(Some(start))
    }

    /// What a frame is encoded to.
    pub open spec fn encoded(&self, img: Canvas) -> Seq<u8> {
        let size = canvas_size(img);
        jpeg_of(canvas_bytes(img), size.0 as u16, size.1 as u16, self.quality())
    }

    /// Whether the movie can take a frame: it was started, and the frame is of
    /// some size, and its bytes can be counted and indexed.
    pub open spec fn takes(&self, img: Canvas) -> bool {
        let size = canvas_size(img);
        &&& fits_movie(size)
        &&& self.movie() is Some
        &&& size.0 > 0 && size.1 > 0
        &&& self.has_space(self.encoded(img).len())
    }

    /// Whether the movie, if it was started, has room for `len` bytes more.
    pub open spec fn has_space(&self, len: nat) -> bool {
        &&& self.frames() < u64::MAX
        &&& self.movie()->0.end() + len <= u64::MAX
        &&& len <= u32::MAX
    }

    /// Whether this is why a frame cannot be recorded.
    pub open spec fn refuses(&self, img: Canvas, e: VideoError) -> bool {
        let size = canvas_size(img);
        let m = self.movie();
        let len = self.encoded(img).len();
        match e {
            VideoError::TooBig { width, height } => {
                &&& !fits_movie(size)
                &&& size == (width, height)
            },
            VideoError::Movie(MovError::NoFrames) => {
                &&& fits_movie(size)
                &&& m is None
            },
            VideoError::Encode(_) => {
                &&& fits_movie(size)
                &&& m is Some
                &&& size.0 == 0 || size.1 == 0
            },
            VideoError::Full => {
                &&& fits_movie(size)
                &&& m is Some
                &&& size.0 > 0 && size.1 > 0
                &&& self.frames() == u64::MAX || m->0.end() + len > u64::MAX
            },
            VideoError::Movie(MovError::FrameTooLarge) => {
                &&& fits_movie(size)
                &&& m is Some
                &&& size.0 > 0 && size.1 > 0
                &&& self.frames() < u64::MAX && m->0.end() + len <= u64::MAX
                &&& len > u32::MAX
            },
        }
    }

    /// Encodes a frame: returns the bytes to append to the file.
    pub fn encode(&self, img: Canvas) -> (r: Result<Vec<u8>, VideoError>)
        requires
            self.wf(),
            img.wf(),
        ensures
            r is Ok <==> self.takes(img),
            match r {
                Ok(bytes) => bytes@ == self.encoded(img),
                Err(e) => self.refuses(img, e),
            },
    {
        let (width, height): (u32, u32) = (img.width(), img.height());
        if width > u16::MAX as u32 || height > u16::MAX as u32 {
            return Err(VideoError::TooBig { width, height });
        }
        let writer: &MovWriter = match self.writer.as_ref() {
            Some(writer) => writer,
            None => return Err(VideoError::Movie(MovError::NoFrames)),
        };
        let rgb: Vec<u8> = img.into_bytes();
        let room: usize = rgb.len();
        assert(pixel_bytes((width, height)) <= room);
        let bytes: Vec<u8> = match jpeg(
            rgb.as_slice(),
            width as u16,
            height as u16,
            self.quality,
        ) {
            Ok(bytes) => bytes,
            Err(e) => return Err(VideoError::Encode(e)),
        };
        if self.frames == u64::MAX || !writer.has_room(bytes.len()) {
            return Err(VideoError::Full);
        }
        if !MovWriter::accepts(bytes.len()) {
            return Err(VideoError::Movie(MovError::FrameTooLarge));
        }
        Ok(bytes)
    }

    /// Records a frame that was appended to the file, `ticks` media ticks after
    /// the first.
    pub fn record(&mut self, jpeg: &[u8], ticks: u64)
        requires
            old(self).wf(),
            old(self).movie() is Some,
            old(self).has_space(jpeg@.len()),
        ensures
            final(self).wf(),
            final(self).quality() == old(self).quality(),
            final(self).frames() == old(self).frames() + 1,
            final(self).movie() == Some(
                Movie {
                    frames: old(self).movie()->0.frames.push(jpeg@),
                    ticks: old(self).movie()->0.ticks.push(ticks),
                    ..old(self).movie()->0
                },
            ),
    {
        let _ = self.writer.as_mut().unwrap().write_frame(jpeg, ticks);
        self.frames = self.frames + 1;
    }

    /// Makes what finishes the file. `unix_secs` is the time of creation.
    /// Returns how many frames were recorded, too.
    pub fn finish(self, unix_secs: u64) -> (r: Result<(Trailer, u64), VideoError>)
        requires
            self.wf(),
        ensures
            r is Ok <==> self.movie() is Some && self.movie()->0.frames.len() > 0,
            match r {
                Ok((t, n)) => {
                    let m = self.movie()->0;
                    &&& n == m.frames.len()
                    &&& overwrite(
                        unfinished_file(m) + t.moov@,
                        t.size_at as int,
                        t.size@,
                    ) == finished_file(m, unix_secs)
                },
                Err(e) => e == VideoError::Movie(MovError::NoFrames),
            },
    {
        let n: u64 = self.frames;
        match self.writer {
            Some(writer) => {
                proof {
                    law_a_writer_stays_indexable(writer);
                    law_the_trailer_finishes_the_file(writer@, unix_secs);
                }
                match writer.finish(unix_secs) {
                    Ok(t) => Ok((t, n)),
                    Err(e) => Err(VideoError::Movie(e)),
                }
            },
            None => Err(VideoError::Movie(MovError::NoFrames)),
        }
    }
}

/// What has happened while a movie is rendered.
pub enum Happened {
    /// There is a frame, to be presented this many media ticks after the first.
    Frame(Canvas, u64),
    /// There are no more frames.
    Over,
    /// The bytes are in the file.
    Wrote,
    /// It is this long after the Unix epoch, in seconds.
    Date(u64),
    /// Something went wrong.
    Failed,
}

/// How rendering a movie ends.
#[derive(Debug)]
pub enum End {
    /// The movie has this many frames.
    Recorded(u64),
    /// No frames were recorded.
    Nothing,
    /// Something went wrong. Why, if a frame was refused.
    Failed(Option<VideoError>),
}

/// What to do next.
pub enum Do {
    /// Draw the next frame.
    Draw,
    /// Create the file, with these bytes.
    Create(Vec<u8>),
    /// Append these bytes to the file.
    Append(Vec<u8>),
    /// Look at the clock.
    Date,
    /// Finish the file.
    Finish(Trailer),
    /// Stop.
    Done(End),
}

/// How far a movie has come.
pub enum Scene {
    /// It waits for a frame.
    Waiting,
    /// Its file is being created, for this frame.
    Starting { img: Canvas, ticks: u64, start: Vec<u8> },
    /// A frame is being appended.
    Appending { jpeg: Vec<u8>, ticks: u64 },
    /// It is about to be finished. Whether and why it stopped early.
    Closing { failed: bool, why: Option<VideoError> },
    /// It is being finished, with this many frames.
    Finishing { frames: u64, failed: bool, why: Option<VideoError> },
    /// It is done, well or not.
    Ended { ok: bool },
}

/// A movie being rendered: frames are appended to its file one by one, and the
/// file is finished even if one of them fails, so whatever was recorded stays
/// playable.
pub struct RenderRun {
    recorder: Recorder,
    scene: Scene,
    /// What is in the file.
    file: Ghost<Seq<u8>>,
}

impl RenderRun {
    pub closed spec fn recorder(&self) -> Recorder {
        self.recorder
    }

    pub closed spec fn scene(&self) -> Scene {
        self.scene
    }

    /// What is known to be in the file.
    pub closed spec fn file(&self) -> Seq<u8> {
        self.file@
    }

    /// What is in the file is the movie so far: its index has the frames that
    /// were appended, and no other.
    pub open spec fn wf(&self) -> bool {
        let m = self.recorder().movie();
        &&& self.recorder().wf()
        &&& match self.scene() {
            Scene::Waiting => match m {
                Some(m) => self.file() == unfinished_file(m),
                None => self.file() == Seq::<u8>::empty(),
            },
            Scene::Starting { img, start, .. } => {
                &&& img.wf()
                &&& m is Some
                &&& m->0.frames.len() == 0
                &&& start@ == unfinished_file(m->0)
                &&& self.file() == Seq::<u8>::empty()
            },
            Scene::Appending { jpeg, .. } => {
                &&& m is Some
                &&& self.file() == unfinished_file(m->0)
                &&& self.recorder().has_space(jpeg@.len())
            },
            Scene::Closing { .. } => {
                &&& m is Some
                &&& m->0.frames.len() > 0
                &&& self.file() == unfinished_file(m->0)
            },
            _ => true,
        }
    }

    /// How a movie stops that has nothing more to come: it is finished if it
    /// has any frames.
    pub open spec fn closed(&self, was: Self, failed: bool, d: Do) -> bool {
        &&& self.recorder() == was.recorder()
        &&& self.file() == was.file()
        &&& if was.recorder().frames() > 0 {
            &&& self.scene() is Closing
            &&& self.scene()->Closing_failed == failed
            &&& d == Do::Date
        } else {
            &&& self.scene() == (Scene::Ended { ok: false })
            &&& d == Do::Done(End::Nothing)
        }
    }

    /// Whether the movie stopped because this frame was refused, for this
    /// reason.
    pub open spec fn refused(&self, was: Self, by: Recorder, img: Canvas, d: Do) -> bool {
        &&& self.closed(was, true, d)
        &&& self.scene() is Closing ==> match self.scene()->Closing_why {
            Some(e) => by.refuses(img, e),
            None => false,
        }
    }

    /// What becomes of a frame once the movie has been started: it is appended
    /// to the file, or it is the last one.
    pub open spec fn appended(&self, was: Self, img: Canvas, ticks: u64, d: Do) -> bool {
        if was.recorder().takes(img) {
            &&& self.recorder() == was.recorder()
            &&& self.file() == was.file()
            &&& d is Append
            &&& d->Append_0@ == was.recorder().encoded(img)
            &&& match self.scene() {
                Scene::Appending { jpeg, ticks: t } => jpeg@ == d->Append_0@ && t == ticks,
                _ => false,
            }
        } else {
            self.refused(was, was.recorder(), img, d)
        }
    }

    /// Encodes JPEGs of this quality.
    pub fn new(quality: u8) -> (r: Self)
        requires
            1 <= quality <= 100,
        ensures
            r.wf(),
            r.scene() == Scene::Waiting,
            r.recorder().quality() == quality,
            r.recorder().movie() is None,
            r.recorder().frames() == 0,
    {
        RenderRun {
            recorder: Recorder::new(quality),
            scene: Scene::Waiting,
            file: Ghost(Seq::empty()),
        }
    }

    /// Nothing more is to come.
    fn close(&mut self, failed: bool, why: Option<VideoError>) -> (d: Do)
        requires
            old(self).recorder().wf(),
            old(self).recorder().frames() > 0 ==> old(self).file() == unfinished_file(
                old(self).recorder().movie()->0,
            ),
        ensures
            final(self).wf(),
            final(self).closed(*old(self), failed, d),
            final(self).scene() is Closing ==> final(self).scene()->Closing_why == why,
    {
        if self.recorder.frames == 0 {
            self.scene = Scene::Ended { ok: false };
            return Do::Done(End::Nothing);
        }
        self.scene = Scene::Closing { failed, why };
        Do::Date
    }

    /// The movie was started, and this frame is to be appended.
    fn append(&mut self, img: Canvas, ticks: u64) -> (d: Do)
        requires
            old(self).recorder().wf(),
            img.wf(),
            old(self).recorder().movie() is Some,
            old(self).file() == unfinished_file(old(self).recorder().movie()->0),
        ensures
            final(self).wf(),
            final(self).appended(*old(self), img, ticks, d),
    {
        match self.recorder.encode(img) {
            Ok(bytes) => {
                let jpeg: Vec<u8> = slice_to_vec(bytes.as_slice());
                self.scene = Scene::Appending { jpeg, ticks };
                Do::Append(bytes)
            },
            Err(e) => self.close(true, Some(e)),
        }
    }

    /// What to do about what has happened. What does not belong where it
    /// happens counts as a failure.
    pub fn next(&mut self, e: Happened) -> (d: Do)
        requires
            old(self).wf(),
            match e {
                Happened::Frame(img, _) => img.wf(),
                _ => true,
            },
        ensures
            final(self).wf(),
            match (old(self).scene(), e) {
                (Scene::Waiting, Happened::Frame(img, ticks)) => {
                    let size = canvas_size(img);
                    if old(self).recorder().movie() is Some {
                        final(self).appended(*old(self), img, ticks, d)
                    } else if fits_movie(size) {
                        let m = Movie {
                            width: size.0 as u16,
                            height: size.1 as u16,
                            frames: Seq::empty(),
                            ticks: Seq::empty(),
                        };
                        &&& final(self).recorder().movie() == Some(m)
                        &&& final(self).recorder().quality() == old(self).recorder().quality()
                        &&& d is Create
                        &&& d->Create_0@ == unfinished_file(m)
                        &&& match final(self).scene() {
                            Scene::Starting { img: i, ticks: t, .. } => i == img && t == ticks,
                            _ => false,
                        }
                    } else {
                        &&& final(self).scene() == (Scene::Ended { ok: false })
                        &&& d == Do::Done(End::Nothing)
                    }
                },
                (Scene::Waiting, Happened::Over) => final(self).closed(*old(self), false, d),
                (Scene::Starting { img, ticks, start }, Happened::Wrote) => {
                    let r = old(self).recorder();
                    &&& final(self).recorder() == r
                    &&& final(self).file() == start@
                    &&& if r.takes(img) {
                        &&& d is Append
                        &&& d->Append_0@ == r.encoded(img)
                        &&& match final(self).scene() {
                            Scene::Appending { jpeg, ticks: t } => jpeg@ == d->Append_0@ && t
                                == ticks,
                            _ => false,
                        }
                    } else {
                        &&& final(self).scene() == (Scene::Ended { ok: false })
                        &&& d == Do::Done(End::Nothing)
                    }
                },
                (Scene::Appending { jpeg, ticks }, Happened::Wrote) => {
                    let m = old(self).recorder().movie()->0;
                    &&& final(self).scene() == Scene::Waiting
                    &&& d == Do::Draw
                    &&& final(self).file() == old(self).file() + jpeg@
                    &&& final(self).recorder().quality() == old(self).recorder().quality()
                    &&& final(self).recorder().frames() == old(self).recorder().frames() + 1
                    &&& final(self).recorder().movie() == Some(
                        Movie {
                            frames: m.frames.push(jpeg@),
                            ticks: m.ticks.push(ticks),
                            ..m
                        },
                    )
                },
                (Scene::Closing { failed, why }, Happened::Date(secs)) => {
                    let m = old(self).recorder().movie()->0;
                    &&& d is Finish
                    &&& overwrite(
                        old(self).file() + d->Finish_0.moov@,
                        d->Finish_0.size_at as int,
                        d->Finish_0.size@,
                    ) == finished_file(m, secs)
                    &&& final(self).scene() == (Scene::Finishing {
                        frames: m.frames.len() as u64,
                        failed,
                        why,
                    })
                },
                (Scene::Finishing { frames, failed, why }, Happened::Wrote) => {
                    &&& final(self).scene() == (Scene::Ended { ok: !failed })
                    &&& d == Do::Done(
                        if failed {
                            End::Failed(why)
                        } else {
                            End::Recorded(frames)
                        },
                    )
                },
                (Scene::Finishing { .. }, _) | (Scene::Closing { .. }, _) | (
                    Scene::Ended { .. },
                    _,
                ) => {
                    &&& final(self).scene() == (Scene::Ended { ok: false })
                    &&& d == Do::Done(End::Failed(None))
                },
                _ => {
                    &&& final(self).closed(*old(self), true, d)
                    &&& final(self).scene() is Closing ==> final(self).scene()->Closing_why is None
                },
            },
    {
        let mut scene: Scene = Scene::Ended { ok: false };
        std::mem::swap(&mut scene, &mut self.scene);
        match (scene, e) {
            (Scene::Waiting, Happened::Frame(img, ticks)) => {
                match self.recorder.begin(img.width(), img.height()) {
                    Ok(Some(bytes)) => {
                        let start: Vec<u8> = slice_to_vec(bytes.as_slice());
                        self.scene = Scene::Starting { img, ticks, start };
                        Do::Create(bytes)
                    },
                    Ok(None) => self.append(img, ticks),
                    Err(e) => self.close(true, Some(e)),
                }
            },
            (Scene::Waiting, Happened::Over) => self.close(false, None),
            (Scene::Starting { img, ticks, start }, Happened::Wrote) => {
                proof {
                    self.file@ = start@;
                }
                self.append(img, ticks)
            },
            (Scene::Appending { jpeg, ticks }, Happened::Wrote) => {
                proof {
                    law_a_frame_extends_the_file(self.recorder.movie()->0, jpeg@, ticks);
                    self.file@ = self.file@ + jpeg@;
                }
                self.recorder.record(jpeg.as_slice(), ticks);
                self.scene = Scene::Waiting;
                Do::Draw
            },
            (Scene::Closing { failed, why }, Happened::Date(secs)) => {
                let mut recorder: Recorder = Recorder::new(1);
                std::mem::swap(&mut recorder, &mut self.recorder);
                match recorder.finish(secs) {
                    Ok((trailer, frames)) => {
                        self.scene = Scene::Finishing { frames, failed, why };
                        Do::Finish(trailer)
                    },
                    Err(_) => Do::Done(End::Nothing),
                }
            },
            (Scene::Finishing { frames, failed, why }, Happened::Wrote) => {
                self.scene = Scene::Ended { ok: !failed };
                if failed {
                    Do::Done(End::Failed(why))
                } else {
                    Do::Done(End::Recorded(frames))
                }
            },
            (Scene::Waiting, _) | (Scene::Starting { .. }, _) | (Scene::Appending { .. }, _) => {
                self.close(true, None)
            },
            _ => Do::Done(End::Failed(None)),
        }
    }
}

/// However rendering stops, what was appended stays playable: a movie that is
/// to be finished has the frames whose bytes are in its file and no other, and
/// finishing it makes the file of that movie. Of a write that failed, nothing
/// is taken to be in the file.
pub proof fn law_what_was_appended_stays_playable(r: RenderRun, unix_secs: u64)
    requires
        r.wf(),
        r.scene() is Closing,
    ensures
        r.recorder().movie()->0.frames.len() > 0,
        overwrite(
            r.file() + moov_atom(r.recorder().movie()->0, unix_secs + QT_EPOCH_OFFSET),
            MDAT_START + 8,
            be64(r.recorder().movie()->0.end() - MDAT_START),
        ) == finished_file(r.recorder().movie()->0, unix_secs),
{
    law_the_trailer_finishes_the_file(r.recorder().movie()->0, unix_secs);
}

/// Presentation times: since the first frame's timestamp.
pub struct Presenter {
    t0: Option<Duration>,
}

/// When to present a frame captured at `ts`, in nanoseconds, if the first was
/// captured at `first`.
pub open spec fn presented(first: nat, ts: nat) -> nat {
    if ts > first {
        (ts - first) as nat
    } else {
        0
    }
}

/// Frames are presented as long after the first as they were captured after it,
/// and none before it.
pub proof fn law_frames_are_presented_as_they_were_captured(first: nat, ts: nat)
    ensures
        ts >= first ==> first + presented(first, ts) == ts,
        ts <= first ==> presented(first, ts) == 0,
{
}

impl Presenter {
    /// The first frame's timestamp.
    pub closed spec fn t0(&self) -> Option<Duration> {
        self.t0
    }

    pub fn new() -> (p: Self)
        ensures
            p.t0() is None,
    {
        Presenter { t0: None }
    }

    /// When to present a frame with this timestamp. One from before the first
    /// frame is presented with it.
    pub fn present(&mut self, ts: Duration) -> (pts: Duration)
        ensures
            match old(self).t0() {
                Some(t0) => {
                    &&& final(self).t0() == Some(t0)
                    &&& nanos(pts) == (if nanos(ts) > nanos(t0) {
                        nanos(ts) - nanos(t0)
                    } else {
                        0
                    })
                },
                None => final(self).t0() == Some(ts) && nanos(pts) == 0,
            },
            nanos(pts) == presented(nanos(final(self).t0()->0), nanos(ts)),
    {
        match self.t0 {
            Some(t0) => {
                let (t, zero): (u128, u128) = (ts.as_nanos(), t0.as_nanos());
                from_ns(
                    if t > zero {
                        t - zero
                    } else {
                        0
                    },
                )
            },
            None => {
                self.t0 = Some(ts);
                from_ns(0)
            },
        }
    }
}

/// An account of what was seen.
pub struct Sightings {
    pub frames: u64,
    pub frames_with_tags: u64,
    /// How often any tag was seen.
    pub sightings: u64,
    /// How often each tag was seen, by its id.
    pub per_id: BTreeMap<u64, u64>,
}

impl Sightings {
    pub open spec fn wf(&self) -> bool {
        &&& self.frames_with_tags <= self.frames
        &&& forall|id: u64| #[trigger] counted(self.per_id@, id) <= self.sightings
    }

    pub fn new() -> (s: Self)
        ensures
            s.wf(),
            s.frames == 0,
            s.frames_with_tags == 0,
            s.sightings == 0,
            s.per_id@ == Map::<u64, u64>::empty(),
    {
        Sightings { frames: 0, frames_with_tags: 0, sightings: 0, per_id: BTreeMap::new() }
    }

    /// Counts a frame with these tags in it.
    pub fn add(&mut self, ids: &[u64])
        requires
            old(self).wf(),
            old(self).frames < u64::MAX,
            old(self).sightings + ids@.len() <= u64::MAX,
        ensures
            final(self).wf(),
            final(self).frames == old(self).frames + 1,
            final(self).sightings == old(self).sightings + ids@.len(),
            final(self).frames_with_tags == old(self).frames_with_tags + (if ids@.len() > 0 {
                1int
            } else {
                0
            }),
            forall|id: u64| #[trigger]
                counted(final(self).per_id@, id) == counted(old(self).per_id@, id) + occurrences(
                    ids@,
                    id,
                ),
            final(self).per_id@.dom() == old(self).per_id@.dom().union(ids@.to_set()),
    {
        self.frames = self.frames + 1;
        if ids.len() > 0 {
            self.frames_with_tags = self.frames_with_tags + 1;
        }
        self.sightings = self.sightings + ids.len() as u64;
        assert forall|id: u64| #[trigger] counted(self.per_id@, id) + ids@.len() <= u64::MAX by {
            assert(counted(old(self).per_id@, id) <= old(self).sightings);
        }
        tally(&mut self.per_id, ids);
        assert forall|id: u64| #[trigger] counted(self.per_id@, id) <= self.sightings by {
            lemma_occurrences(ids@, id);
            assert(counted(old(self).per_id@, id) <= old(self).sightings);
        }
    }
}

/// The median and the 95th percentile of these times once they are in order.
pub open spec fn typical_of(ordered: Seq<i128>) -> (i128, i128) {
    let n = ordered.len() as int;
    (ordered[n / 2], ordered[n * 95 / 100])
}

/// The median and the 95th percentile of some times, if there are any.
pub fn typical(times: Vec<i128>) -> (r: Option<(i128, i128)>)
    ensures
        r is Some <==> times@.len() > 0,
        r is Some ==> exists|ordered: Seq<i128>| #[trigger]
            ascending(ordered) && ordered.to_multiset() == times@.to_multiset() && r->0
                == typical_of(ordered),
{
    let mut v = times;
    if v.len() == 0 {
        return None;
    }
    let ghost given = v@;
    sort(&mut v);
    proof {
        given.to_multiset_ensures();
        v@.to_multiset_ensures();
    }
    let n: usize = v.len();
    let p95: usize = (n as u128 * 95 / 100) as usize;
    Some((v[n / 2], v[p95]))
}

/// The median of some times in order is the one with half of them before it,
/// and the 95th percentile the one with 95 in a hundred before it, both rounded
/// down.
pub proof fn law_the_typical_times_stand_where_they_should(
    ordered: Seq<i128>,
    middle: int,
    high: int,
)
    requires
        ordered.len() > 0,
        2 * middle <= ordered.len() < 2 * middle + 2,
        100 * high <= 95 * ordered.len() < 100 * high + 100,
    ensures
        typical_of(ordered) == (ordered[middle], ordered[high]),
{
}

/// A frame that is taken is not refused, for any reason, and one is refused for
/// one reason alone.
pub proof fn law_a_frame_is_taken_or_refused_for_one_reason(
    r: Recorder,
    img: Canvas,
    e: VideoError,
    f: VideoError,
)
    ensures
        r.takes(img) ==> !r.refuses(img, e),
        r.refuses(img, e) && r.refuses(img, f) ==> {
            &&& e is TooBig <==> f is TooBig
            &&& e is Encode <==> f is Encode
            &&& e is Full <==> f is Full
            &&& e is Movie <==> f is Movie
        },
        canvas_size(img).0 > 65_535 || canvas_size(img).1 > 65_535 ==> !r.takes(img),
        r.takes(img) ==> canvas_size(img).0 > 0 && canvas_size(img).1 > 0,
        r.takes(img) ==> r.encoded(img).len() <= 0xffff_ffff,
{
}

} // verus!
