use harness::draw::{fill_rect, Canvas, RED};
use harness::mov::MovError;
use harness::video::{
    typical, Do, End, Happened, Presenter, Recorder, RenderRun, Sightings, VideoError,
};
use std::time::Duration;

fn grey(w: u32, h: u32) -> Canvas {
    Canvas::new(w, h, vec![128; (3 * w * h) as usize]).unwrap()
}

#[test]
fn a_recorded_frame_is_the_encoders_jpeg() {
    let mut r = Recorder::new(85);
    let start = r.begin(16, 8).unwrap().unwrap();
    assert_eq!(start.len(), 36);
    assert!(r.begin(16, 8).unwrap().is_none());
    let mut img = grey(16, 8);
    fill_rect(&mut img, 2, 2, 4, 4, RED);
    let mut rgb = vec![128; 16 * 8 * 3];
    for y in 2..6 {
        for x in 2..6 {
            rgb[3 * (16 * y + x)..][..3].copy_from_slice(&RED);
        }
    }
    let mut want = Vec::new();
    jpeg_encoder::Encoder::new(&mut want, 85)
        .encode(&rgb, 16, 8, jpeg_encoder::ColorType::Rgb)
        .unwrap();
    let got = r.encode(img).unwrap();
    assert_eq!(got, want);
    r.record(&got, 0);
    let (trailer, frames) = r.finish(0).unwrap();
    assert_eq!(frames, 1);
    assert_eq!(trailer.size, (16 + got.len() as u64).to_be_bytes());
}

#[test]
fn a_frame_that_fails_leaves_the_movie_playable() {
    let mut r = Recorder::new(50);
    assert!(matches!(
        r.begin(70_000, 2),
        Err(VideoError::TooBig { width: 70_000, height: 2 })
    ));
    assert!(matches!(
        r.encode(grey(2, 2)),
        Err(VideoError::Movie(MovError::NoFrames))
    ));
    r.begin(2, 2).unwrap();
    let jpeg = r.encode(grey(2, 2)).unwrap();
    r.record(&jpeg, 0);
    assert!(matches!(
        r.encode(Canvas::new(0, 0, vec![]).unwrap()),
        Err(VideoError::Encode(_))
    ));
    assert!(matches!(
        r.encode(grey(70_000, 1)),
        Err(VideoError::TooBig { width: 70_000, height: 1 })
    ));
    assert_eq!(r.finish(0).unwrap().1, 1);
}

#[test]
fn nothing_recorded_is_nothing_to_finish() {
    assert!(matches!(
        Recorder::new(1).finish(0),
        Err(VideoError::Movie(MovError::NoFrames))
    ));
    let mut r = Recorder::new(1);
    r.begin(4, 4).unwrap();
    assert!(r.finish(0).is_err());
}

#[test]
fn frames_are_presented_from_the_first_on() {
    let mut p = Presenter::new();
    let ms = Duration::from_millis;
    assert_eq!(p.present(ms(500)), ms(0));
    assert_eq!(p.present(ms(533)), ms(33));
    assert_eq!(p.present(ms(400)), ms(0));
}

#[test]
fn sightings_are_counted_by_id() {
    let mut s = Sightings::new();
    s.add(&[3, 0]);
    s.add(&[]);
    s.add(&[3, 3]);
    assert_eq!((s.frames, s.frames_with_tags, s.sightings), (3, 2, 4));
    let counts: Vec<(u64, u64)> = s.per_id.iter().map(|(k, v)| (*k, *v)).collect();
    assert_eq!(counts, [(0, 1), (3, 3)]);
}

#[test]
fn typical_times_are_the_median_and_the_95th_percentile() {
    assert_eq!(typical(vec![]), None);
    assert_eq!(typical(vec![9]), Some((9, 9)));
    assert_eq!(typical((0..100).rev().collect()), Some((50, 95)));
    assert_eq!(typical(vec![4, 2]), Some((4, 4)));
}

/// The file that comes of the frames and of what happens to them.
fn rendered(events: Vec<Happened>) -> (Vec<u8>, Do) {
    let mut run = RenderRun::new(80);
    let mut file = Vec::new();
    let mut events = events.into_iter();
    let mut happened = events.next().unwrap();
    loop {
        happened = match run.next(happened) {
            Do::Draw => events.next().unwrap(),
            Do::Create(bytes) | Do::Append(bytes) => {
                file.extend(bytes);
                Happened::Wrote
            }
            Do::Date => Happened::Date(1000),
            Do::Finish(t) => {
                file.extend(&t.moov);
                file[t.size_at as usize..][..t.size.len()].copy_from_slice(&t.size);
                Happened::Wrote
            }
            done => return (file, done),
        };
    }
}

#[test]
fn a_movie_is_finished_even_if_a_frame_fails() {
    let frames = || vec![Happened::Frame(grey(4, 2), 0), Happened::Frame(grey(4, 2), 100)];
    let mut whole = frames();
    whole.push(Happened::Over);
    let (file, done) = rendered(whole);
    assert!(matches!(done, Do::Done(End::Recorded(2))));
    // The same frames, and then one that is refused: the file is the same.
    let mut refused = frames();
    refused.push(Happened::Frame(grey(70_000, 1), 200));
    let (same, done) = rendered(refused);
    assert!(matches!(
        done,
        Do::Done(End::Failed(Some(VideoError::TooBig { width: 70_000, height: 1 })))
    ));
    assert_eq!(file, same);
    // Or something else goes wrong.
    let mut failed = frames();
    failed.push(Happened::Failed);
    let (same, done) = rendered(failed);
    assert!(matches!(done, Do::Done(End::Failed(None))));
    assert_eq!(file, same);
}

#[test]
fn a_frame_that_is_not_appended_is_not_recorded() {
    let mut run = RenderRun::new(80);
    assert!(matches!(run.next(Happened::Frame(grey(4, 2), 0)), Do::Create(b) if b.len() == 36));
    assert!(matches!(run.next(Happened::Wrote), Do::Append(_)));
    assert!(matches!(run.next(Happened::Wrote), Do::Draw));
    assert!(matches!(run.next(Happened::Frame(grey(4, 2), 100)), Do::Append(_)));
    assert!(matches!(run.next(Happened::Failed), Do::Date));
    let finished = match run.next(Happened::Date(1000)) {
        Do::Finish(t) => t.moov,
        _ => panic!("the file is finished"),
    };
    assert!(matches!(run.next(Happened::Wrote), Do::Done(End::Failed(None))));
    // The index is that of a movie with the first frame alone.
    let (file, _) = rendered(vec![Happened::Frame(grey(4, 2), 0), Happened::Over]);
    assert_eq!(finished, file[file.len() - finished.len()..]);
}

#[test]
fn a_movie_without_frames_is_nothing() {
    let (file, done) = rendered(vec![Happened::Over]);
    assert!(matches!(done, Do::Done(End::Nothing)));
    assert!(file.is_empty());
    let (_, done) = rendered(vec![Happened::Frame(grey(70_000, 1), 0)]);
    assert!(matches!(done, Do::Done(End::Nothing)));
    // A file that could not be created.
    let mut run = RenderRun::new(80);
    run.next(Happened::Frame(grey(4, 2), 0));
    assert!(matches!(run.next(Happened::Failed), Do::Done(End::Nothing)));
}
