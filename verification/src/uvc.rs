//! A camera's exposure, set through UVC by driving `uvc-util`: what to tell
//! the tool, and what to make of its answers.
//!
//! Two properties of these controls drive the design here:
//!
//!   * **A rejected write looks exactly like a successful one.** While the
//!     camera is in auto mode it ignores writes to the exposure time,
//!     reports success, and will even read back the value it was given while
//!     continuing to meter automatically. So every write is verified.
//!   * **The settings are volatile.** They live in the camera, not the host,
//!     and a USB re-enumeration silently restores the defaults. So the values
//!     are checked again after recording and a change is reported rather than
//!     passed over.

use crate::text::{
    after_prefix, blank, chars_of, decimal, decimal_digits, is_space, join, joined,
    law_a_decimal_reads_back, law_trimming_gives_back_what_white_space_surrounds,
    law_white_space_separates_words, lemma_len_before, len_before, lines, number, parse, part,
    solid, split_lines, split_words, starts_with, string_of, texts, trim, trimmed, words,
};
use vstd::prelude::*;

verus! {

/// The number that a text of `0x` and hexadecimal digits stands for.
pub open spec fn hex(s: Seq<char>) -> Option<nat> {
    match after_prefix(s, "0x"@) {
        Some(digits) => number(digits, 16, u64::MAX as nat),
        None => None,
    }
}

/// The number that a text of `0x` and hexadecimal digits stands for.
pub fn parse_hex(s: &[char]) -> (v: Option<u64>)
    ensures
        match v {
            Some(v) => hex(s@) == Some(v as nat),
            None => hex(s@) is None,
        },
{
    if !starts_with(s, "0x") {
        return None;
    }
    proof {
        reveal_strlit("0x");
        assert("0x"@.len() == 2);
    }
    let digits: Vec<char> = part(s, 2, s.len());
    assert(digits@ =~= s@.skip(2));
    parse(digits.as_slice(), 16, u64::MAX)
}

/// A camera as `uvc-util` lists it.
pub ghost struct Listed {
    pub index: Seq<char>,
    pub location: Seq<char>,
    pub name: Seq<char>,
    /// One number packing the USB location, vendor and product.
    pub unique_id: Option<u64>,
}

/// Location, vendor and product packed into one number.
pub open spec fn packed(location: u64, vendor: u64, product: u64) -> u64 {
    (location << 32u64) | (vendor << 16u64) | product
}

/// The unique id of a camera at this location, of this `vendor:product`.
pub open spec fn unique_id(location: Seq<char>, vp: Seq<char>) -> Option<u64> {
    let n = len_before(vp, ':') as int;
    if n < vp.len() {
        match (hex(location), hex(vp.take(n)), hex(vp.skip(n + 1))) {
            (Some(l), Some(v), Some(p)) => Some(packed(l as u64, v as u64, p as u64)),
            _ => None,
        }
    } else {
        None
    }
}

/// The camera a line of the listing describes: its index, vendor and product,
/// location, UVC version, then its name. A header or a separator describes
/// none.
pub open spec fn listed(line: Seq<char>) -> Option<Listed> {
    let w = words(line);
    if w.len() >= 4 && number(w[0], 10, u32::MAX as nat) is Some && "0x"@.is_prefix_of(w[2]) {
        Some(
            Listed {
                index: w[0],
                location: w[2],
                name: joined(w.skip(4), " "@),
                unique_id: unique_id(w[2], w[1]),
            },
        )
    } else {
        None
    }
}

/// The cameras that lines of the listing describe, in order.
pub open spec fn all_listed(lines: Seq<Seq<char>>) -> Seq<Listed>
    decreases lines.len(),
{
    if lines.len() == 0 {
        Seq::empty()
    } else {
        let before = all_listed(lines.drop_last());
        match listed(lines.last()) {
            Some(l) => before.push(l),
            None => before,
        }
    }
}

/// The camera as `uvc-util` sees it: its own index, which is unrelated to
/// both the camera library's index and the order cameras are listed in.
#[derive(Debug)]
pub struct Device {
    pub index: String,
    pub name: String,
}

/// A camera that was listed.
#[derive(Debug)]
pub struct Candidate {
    pub location: String,
    pub name: String,
}

/// Whether a listed camera is the one with this id.
pub open spec fn is_camera(l: Listed, camera: Option<nat>) -> bool {
    camera is Some && l.unique_id is Some && l.unique_id->0 == camera->0
}

/// One listed camera.
struct Entry {
    device: Device,
    location: String,
    unique_id: Option<u64>,
}

impl Entry {
    spec fn listed(&self) -> Listed {
        Listed {
            index: self.device.index@,
            location: self.location@,
            name: self.device.name@,
            unique_id: self.unique_id,
        }
    }
}

/// The unique id of a camera at this location, of this `vendor:product`.
fn unique_id_of(location: &Vec<char>, vp: &Vec<char>) -> (id: Option<u64>)
    ensures
        id == unique_id(location@, vp@),
{
    let n: usize = crate::text::find_char(vp.as_slice(), 0, ':');
    assert(vp@.skip(0) =~= vp@);
    if n == vp.len() {
        return None;
    }
    let vendor: Vec<char> = part(vp.as_slice(), 0, n);
    let product: Vec<char> = part(vp.as_slice(), n + 1, vp.len());
    assert(vendor@ =~= vp@.take(n as int));
    assert(product@ =~= vp@.skip(n + 1));
    match (
        parse_hex(location.as_slice()),
        parse_hex(vendor.as_slice()),
        parse_hex(product.as_slice()),
    ) {
        (Some(l), Some(v), Some(p)) => Some((l << 32u64) | (v << 16u64) | p),
        _ => None,
    }
}

/// The camera a line of the listing describes.
fn entry(line: &[char]) -> (e: Option<Entry>)
    ensures
        match e {
            Some(e) => listed(line@) == Some(e.listed()),
            None => listed(line@) is None,
        },
{
    let w: Vec<Vec<char>> = split_words(line);
    if w.len() < 4 {
        return None;
    }
    assert(texts(w@)[0] == w@[0]@ && texts(w@)[1] == w@[1]@ && texts(w@)[2] == w@[2]@);
    if parse(w[0].as_slice(), 10, u32::MAX as u64).is_none() || !starts_with(
        w[2].as_slice(),
        "0x",
    ) {
        return None;
    }
    Some(
        Entry {
            device: Device { index: string_of(w[0].as_slice()), name: join(&w, 4, " ") },
            location: string_of(w[2].as_slice()),
            unique_id: unique_id_of(&w[2], &w[1]),
        },
    )
}

/// Whether these are the locations and names of listed cameras.
pub open spec fn candidates_are(candidates: Seq<Candidate>, all: Seq<Listed>) -> bool {
    &&& candidates.len() == all.len()
    &&& forall|i: int|
        0 <= i < all.len() ==> (#[trigger] candidates[i]).location@ == all[i].location
            && candidates[i].name@ == all[i].name
}

impl Device {
    /// Finds the UVC device behind a camera's unique id in what `uvc-util`
    /// lists. Where there is none, says which cameras were listed.
    ///
    /// The unique id is one hex number packing the USB location id, vendor and
    /// product, all of which the tool prints, so the two can be matched
    /// without relying on device names that may repeat. They are compared as
    /// numbers: the unique id drops the location's leading zeros.
    pub fn find(camera_id: &str, listing: &str) -> (r: Result<Device, Vec<Candidate>>)
        ensures
            ({
                let all = all_listed(lines(listing@));
                let camera = hex(camera_id@);
                match r {
                    Ok(d) => exists|i: int|
                        0 <= i < all.len() && is_camera(#[trigger] all[i], camera) && d.index@
                            == all[i].index && d.name@ == all[i].name && (forall|j: int|
                            0 <= j < i ==> !is_camera(#[trigger] all[j], camera)),
                    Err(candidates) => {
                        &&& candidates_are(candidates@, all)
                        &&& forall|i: int|
                            0 <= i < all.len() ==> !is_camera(#[trigger] all[i], camera)
                    },
                }
            }),
    {
        let text: Vec<char> = chars_of(listing);
        let id: Vec<char> = chars_of(camera_id);
        let camera: Option<u64> = parse_hex(id.as_slice());
        let rows: Vec<Vec<char>> = split_lines(text.as_slice());
        let mut candidates: Vec<Candidate> = Vec::new();
        let ghost all_lines = lines(listing@);
        let ghost all = all_listed(all_lines);
        let mut i: usize = 0;
        assert(all_lines.take(0) =~= Seq::<Seq<char>>::empty());
        while i < rows.len()
            invariant
                i <= rows@.len(),
                all_lines == texts(rows@),
                all == all_listed(all_lines),
                all_lines == lines(listing@),
                match camera {
                    Some(c) => hex(camera_id@) == Some(c as nat),
                    None => hex(camera_id@) is None,
                },
                candidates_are(candidates@, all_listed(all_lines.take(i as int))),
                forall|j: int|
                    0 <= j < all_listed(all_lines.take(i as int)).len() ==> !is_camera(
                        #[trigger] all_listed(all_lines.take(i as int))[j],
                        hex(camera_id@),
                    ),
            decreases rows@.len() - i,
        {
            let ghost before = all_listed(all_lines.take(i as int));
            let ghost now = all_listed(all_lines.take(i + 1));
            proof {
                assert(all_lines.take(i + 1).drop_last() =~= all_lines.take(i as int));
                assert(all_lines.take(i + 1).last() == rows@[i as int]@);
                lemma_listed_grow(all_lines, i + 1);
            }
            match entry(rows[i].as_slice()) {
                Some(e) => {
                    let found: bool = match (camera, e.unique_id) {
                        (Some(c), Some(u)) => c == u,
                        _ => false,
                    };
                    assert(now == before.push(e.listed()));
                    assert(now[before.len() as int] == e.listed());
                    if found {
                        proof {
                            let k = before.len() as int;
                            assert(all[k] == now[k]);
                            assert forall|j: int| 0 <= j < k implies !is_camera(
                                #[trigger] all[j],
                                hex(camera_id@),
                            ) by {
                                assert(all[j] == now[j]);
                                assert(now[j] == before[j]);
                            }
                            assert(is_camera(all[k], hex(camera_id@)));
                        }
                        return Ok(e.device);
                    }
                    candidates.push(Candidate { location: e.location, name: e.device.name });
                },
                None => {},
            }
            i = i + 1;
        }
        assert(all_lines.take(i as int) =~= all_lines);
        Err(candidates)
    }
}

/// Further lines leave the cameras listed before where they are.
proof fn lemma_listed_grow(all: Seq<Seq<char>>, n: int)
    requires
        0 <= n <= all.len(),
    ensures
        all_listed(all.take(n)).is_prefix_of(all_listed(all)),
        all_listed(all.take(n)).len() <= all_listed(all).len(),
        forall|j: int|
            0 <= j < all_listed(all.take(n)).len() ==> #[trigger] all_listed(all.take(n))[j]
                == all_listed(all)[j],
    decreases all.len(),
{
    if n == all.len() {
        assert(all.take(n) =~= all);
    } else {
        lemma_listed_grow(all.drop_last(), n);
        assert(all.drop_last().take(n) =~= all.take(n));
    }
    assert(all_listed(all.take(n)) =~= all_listed(all).take(
        all_listed(all.take(n)).len() as int,
    ));
}

/// What a line says a control's value is.
pub open spec fn value_in(line: Seq<char>) -> Option<Seq<char>> {
    match after_prefix(trimmed(line), "current-value:"@) {
        Some(v) => Some(trimmed(v)),
        None => None,
    }
}

/// What the first line to say so says a control's value is.
pub open spec fn current_value(lines: Seq<Seq<char>>) -> Option<Seq<char>>
    decreases lines.len(),
{
    if lines.len() == 0 {
        None
    } else if value_in(lines[0]) is Some {
        value_in(lines[0])
    } else {
        current_value(lines.skip(1))
    }
}

/// Reads a control's value out of what `uvc-util -S` printed.
pub fn get(out: &str) -> (v: Option<String>)
    ensures
        match v {
            Some(v) => current_value(lines(out@)) == Some(v@),
            None => current_value(lines(out@)) is None,
        },
{
    let text: Vec<char> = chars_of(out);
    let rows: Vec<Vec<char>> = split_lines(text.as_slice());
    let ghost all = lines(out@);
    let mut i: usize = 0;
    assert(all.skip(0) =~= all);
    while i < rows.len()
        invariant
            i <= rows@.len(),
            all == texts(rows@),
            all == lines(out@),
            current_value(all) == current_value(all.skip(i as int)),
        decreases rows@.len() - i,
    {
        assert(all.skip(i as int)[0] == rows@[i as int]@);
        assert(all.skip(i as int).skip(1) =~= all.skip(i + 1));
        let line: Vec<char> = trim(rows[i].as_slice());
        if starts_with(line.as_slice(), "current-value:") {
            proof {
                reveal_strlit("current-value:");
                assert("current-value:"@.len() == 14);
            }
            let rest: Vec<char> = part(line.as_slice(), 14, line.len());
            assert(rest@ =~= line@.skip(14));
            let value: Vec<char> = trim(rest.as_slice());
            return Some(string_of(value.as_slice()));
        }
        i = i + 1;
    }
    None
}

/// One control to be written.
#[derive(Debug)]
pub struct Write {
    pub control: String,
    pub value: String,
}

/// Why a write did not hold.
#[derive(Debug)]
pub enum WriteError {
    /// The tool reported no value for the control.
    NoValue,
    /// The control would not take the value: it reads another.
    Reads(String),
}

impl Write {
    /// The control, and the value it is to have.
    pub open spec fn setting(&self) -> Setting {
        (self.control@, self.value@)
    }

    /// The control and its value, as the tool takes them.
    pub fn argument(&self) -> (s: String)
        ensures
            s@ == self.control@ + "="@ + self.value@,
    {
        let mut s: String = self.control.clone();
        s.append("=");
        s.append(self.value.as_str());
        s
    }

    /// Checks a write against what the tool reads back.
    pub fn verify(&self, out: &str) -> (r: Result<(), WriteError>)
        ensures
            match r {
                Ok(()) => current_value(lines(out@)) == Some(self.value@),
                Err(WriteError::NoValue) => current_value(lines(out@)) is None,
                Err(WriteError::Reads(v)) => current_value(lines(out@)) == Some(v@) && v@
                    != self.value@,
            },
    {
        match get(out) {
            Some(v) => {
                if v == self.value {
                    Ok(())
                } else {
                    Err(WriteError::Reads(v))
                }
            },
            None => Err(WriteError::NoValue),
        }
    }
}

/// The exposure, in units of 100 us, nearest to this many microseconds; at
/// least one.
pub open spec fn exposure_units(us: int) -> int {
    if (us + 50) / 100 > 1 {
        (us + 50) / 100
    } else {
        1
    }
}

/// What was asked for, and what the camera actually accepted.
#[derive(Clone, Copy, Debug)]
pub struct Applied {
    pub exposure_us: u32,
    pub gain: Option<u16>,
}

/// A control, and the value it is to have.
pub type Setting = (Seq<char>, Seq<char>);

/// What is written for this exposure and gain: the mode, then the exposure,
/// then the gain, if there is one.
pub open spec fn exposure_writes(us: int, gain: Option<u16>) -> Seq<Setting> {
    let exposed = seq![
        ("auto-exposure-mode"@, "1"@),
        ("exposure-time-abs"@, decimal_digits(exposure_units(us) as nat)),
    ];
    match gain {
        Some(g) => exposed.push(("gain"@, decimal_digits(g as nat))),
        None => exposed,
    }
}

/// How far the writes have come.
#[derive(Clone, Copy, Debug, PartialEq, Eq, Structural)]
pub enum Stage {
    /// Nothing has been written.
    Start,
    /// This one is being written and read back.
    Writing(usize),
    /// Every one of them holds.
    Applied,
    /// One of them did not hold, or could not be made.
    Failed,
}

/// What has come of the last step.
pub enum Told {
    /// There was none yet.
    Begin,
    /// The control was written, and the tool prints this of it.
    Reads(String),
    /// The tool failed.
    Failed,
}

/// What to do next.
#[derive(Debug)]
pub enum Expose {
    /// Write this control, and have it read.
    Write(Write),
    /// All is done: this is applied.
    Applied(Applied),
    /// Give up: nothing more is written. Why, if a value was read back.
    Failed(Option<WriteError>),
}

/// A camera being put in manual exposure, one verified write after the other.
pub struct Exposing {
    writes: Vec<Write>,
    applied: Applied,
    stage: Stage,
    /// The writes handed out.
    asked: Ghost<Seq<Setting>>,
    /// The writes that were read back as written.
    held: Ghost<Seq<Setting>>,
}

impl Exposing {
    /// The writes to make, in order.
    pub closed spec fn wanted(&self) -> Seq<Setting> {
        self.writes@.map_values(|w: Write| w.setting())
    }

    /// What is applied once they all hold.
    pub closed spec fn applied(&self) -> Applied {
        self.applied
    }

    pub closed spec fn stage(&self) -> Stage {
        self.stage
    }

    /// The writes handed out so far.
    pub closed spec fn asked(&self) -> Seq<Setting> {
        self.asked@
    }

    /// The writes that were read back as written.
    pub closed spec fn held(&self) -> Seq<Setting> {
        self.held@
    }

    /// The writes are handed out in order, each once the one before it holds.
    pub open spec fn wf(&self) -> bool {
        &&& self.wanted().len() > 0
        &&& self.held() == self.wanted().take(self.held().len() as int)
        &&& self.held().len() <= self.asked().len() <= self.wanted().len()
        &&& self.asked() == self.wanted().take(self.asked().len() as int)
        &&& match self.stage() {
            Stage::Start => self.asked().len() == 0,
            Stage::Writing(i) => self.held().len() == i && self.asked().len() == i + 1,
            Stage::Applied => self.held() == self.wanted(),
            Stage::Failed => self.asked().len() <= self.held().len() + 1,
        }
    }

    /// Hands out a write.
    fn ask(&mut self, i: usize) -> (d: Expose)
        requires
            i < old(self).wanted().len(),
            old(self).asked() == old(self).wanted().take(i as int),
        ensures
            final(self).wanted() == old(self).wanted(),
            final(self).applied() == old(self).applied(),
            final(self).stage() == Stage::Writing(i),
            final(self).held() == old(self).held(),
            final(self).asked() == old(self).wanted().take(i + 1),
            d is Write,
            d->Write_0.setting() == old(self).wanted()[i as int],
    {
        let w = Write {
            control: self.writes[i].control.clone(),
            value: self.writes[i].value.clone(),
        };
        self.stage = Stage::Writing(i);
        proof {
            self.asked@ = self.asked@.push(w.setting());
            assert(self.asked@ =~= self.wanted().take(i + 1));
        }
        Expose::Write(w)
    }

    /// What to do about what the tool said. The first write that does not hold
    /// is the last one made.
    pub fn next(&mut self, told: Told) -> (d: Expose)
        requires
            old(self).wf(),
        ensures
            final(self).wf(),
            final(self).wanted() == old(self).wanted(),
            final(self).applied() == old(self).applied(),
            final(self).asked() == (match d {
                Expose::Write(w) => old(self).asked().push(w.setting()),
                _ => old(self).asked(),
            }),
            match (old(self).stage(), told) {
                (Stage::Start, Told::Begin) => {
                    &&& final(self).stage() == Stage::Writing(0)
                    &&& final(self).held() == old(self).held()
                    &&& d is Write
                    &&& d->Write_0.setting() == old(self).wanted()[0]
                },
                (Stage::Writing(i), Told::Reads(out)) => {
                    let wanted = old(self).wanted();
                    if current_value(lines(out@)) == Some(wanted[i as int].1) {
                        &&& final(self).held() == old(self).held().push(wanted[i as int])
                        &&& if i + 1 < wanted.len() {
                            &&& final(self).stage() == Stage::Writing((i + 1) as usize)
                            &&& d is Write
                            &&& d->Write_0.setting() == wanted[i + 1]
                        } else {
                            &&& final(self).stage() == Stage::Applied
                            &&& d == Expose::Applied(old(self).applied())
                        }
                    } else {
                        &&& final(self).stage() == Stage::Failed
                        &&& final(self).held() == old(self).held()
                        &&& d is Failed
                        &&& match d->Failed_0 {
                            Some(WriteError::Reads(v)) => current_value(lines(out@)) == Some(v@),
                            Some(WriteError::NoValue) => current_value(lines(out@)) is None,
                            None => false,
                        }
                    }
                },
                _ => {
                    &&& final(self).stage() == (if old(self).stage() == Stage::Applied {
                        Stage::Applied
                    } else {
                        Stage::Failed
                    })
                    &&& final(self).held() == old(self).held()
                    &&& d == Expose::Failed(None)
                },
            },
    {
        match (self.stage, told) {
            (Stage::Start, Told::Begin) => {
                assert(self.asked@ =~= self.wanted().take(0));
                let d = self.ask(0);
                assert(self.asked() =~= old(self).asked().push(self.wanted()[0]));
                d
            },
            (Stage::Writing(i), Told::Reads(out)) => {
                let ghost wanted = self.wanted();
                assert(self.writes@[i as int].setting() == wanted[i as int]);
                match self.writes[i].verify(out.as_str()) {
                    Ok(()) => {
                        proof {
                            self.held@ = self.held@.push(wanted[i as int]);
                            assert(self.held@ =~= wanted.take(i + 1));
                        }
                        if i < self.writes.len() - 1 {
                            let d = self.ask(i + 1);
                            assert(self.asked() =~= old(self).asked().push(wanted[i + 1]));
                            d
                        } else {
                            assert(wanted.take(i + 1) =~= wanted);
                            self.stage = Stage::Applied;
                            Expose::Applied(self.applied)
                        }
                    },
                    Err(e) => {
                        self.stage = Stage::Failed;
                        Expose::Failed(Some(e))
                    },
                }
            },
            (Stage::Applied, _) => Expose::Failed(None),
            _ => {
                self.stage = Stage::Failed;
                Expose::Failed(None)
            },
        }
    }
}

/// The mode is written and verified before the exposure, and the exposure
/// before the gain: what has been handed out is what holds, in order, and at
/// most one write more.
pub proof fn law_a_write_waits_for_the_one_before(e: Exposing)
    requires
        e.wf(),
    ensures
        e.held().is_prefix_of(e.asked()),
        e.asked().is_prefix_of(e.wanted()),
        e.asked().len() <= e.held().len() + 1,
        e.stage() == Stage::Applied ==> e.asked() == e.wanted() && e.held() == e.wanted(),
{
    let n = e.held().len() as int;
    assert(e.held() =~= e.asked().take(n));
    if e.stage() == Stage::Applied {
        assert(e.asked() =~= e.wanted());
    }
}

/// How the controls have changed since they were applied.
#[derive(Debug)]
pub enum Drift {
    /// The camera returned to automatic exposure, in this mode; it most likely
    /// dropped off the USB bus and re-enumerated.
    Automatic(String),
    /// The exposure changed, in units of 100 us.
    Exposure { was: String, reads: String },
    /// The gain changed.
    Gain { was: String, reads: String },
}

/// Whether a control reads something else than it was set to. One that cannot
/// be read says nothing.
pub open spec fn changed(was: Seq<char>, reads: Option<String>) -> bool {
    reads is Some && reads->0@ != was
}

/// Whether the controls read as they were applied, as far as they can be read.
pub open spec fn as_applied(
    applied: Applied,
    mode: String,
    exposure: Option<String>,
    gain: Option<String>,
) -> bool {
    &&& mode@ == "1"@
    &&& !changed(decimal_digits((applied.exposure_us / 100) as nat), exposure)
    &&& applied.gain is Some ==> !changed(decimal_digits(applied.gain->0 as nat), gain)
}

impl Device {
    /// What to tell the tool to have a control read.
    pub fn get_args(&self, control: &str) -> (args: Vec<String>)
        ensures
            args@.map_values(|a: String| a@) == seq!["-I"@, self.index@, "-S"@, control@],
    {
        let mut args: Vec<String> = Vec::new();
        args.push("-I".to_owned());
        args.push(self.index.clone());
        args.push("-S".to_owned());
        args.push(control.to_owned());
        assert(args@.map_values(|a: String| a@) =~= seq![
            "-I"@,
            self.index@,
            "-S"@,
            control@,
        ]);
        args
    }

    /// What to tell the tool to have a control written. Each control goes in
    /// its own invocation: batching several into one call proved unreliable,
    /// with later writes silently dropped.
    pub fn set_args(&self, w: &Write) -> (args: Vec<String>)
        ensures
            args@.map_values(|a: String| a@) == seq![
                "-I"@,
                self.index@,
                "-s"@,
                w.control@ + "="@ + w.value@,
            ],
    {
        let mut args: Vec<String> = Vec::new();
        args.push("-I".to_owned());
        args.push(self.index.clone());
        args.push("-s".to_owned());
        args.push(w.argument());
        assert(args@.map_values(|a: String| a@) =~= seq![
            "-I"@,
            self.index@,
            "-s"@,
            w.control@ + "="@ + w.value@,
        ]);
        args
    }

    /// How to put the camera in manual exposure and apply these values: the
    /// writes, in order, and what is applied once they all hold.
    ///
    /// The mode goes first, because in auto mode the writes that follow would be
    /// accepted and ignored. Mode 1 is manual exposure.
    pub fn set_exposure(&self, exposure_us: u32, gain: Option<u16>) -> (e: Exposing)
        requires
            exposure_us <= u32::MAX - 50,
        ensures
            e.wf(),
            e.stage() == Stage::Start,
            e.wanted() == exposure_writes(exposure_us as int, gain),
            e.applied() == (Applied {
                exposure_us: (exposure_units(exposure_us as int) * 100) as u32,
                gain,
            }),
    {
        let rounded: u32 = (exposure_us + 50) / 100;
        let units: u32 = if rounded > 1 {
            rounded
        } else {
            1
        };
        let mut writes: Vec<Write> = Vec::new();
        writes.push(
            Write { control: "auto-exposure-mode".to_owned(), value: "1".to_owned() },
        );
        writes.push(
            Write { control: "exposure-time-abs".to_owned(), value: decimal(units as u64) },
        );
        match gain {
            Some(g) => {
                writes.push(Write { control: "gain".to_owned(), value: decimal(g as u64) });
            },
            None => {},
        }
        let e = Exposing {
            writes,
            applied: Applied { exposure_us: units * 100, gain },
            stage: Stage::Start,
            asked: Ghost(Seq::empty()),
            held: Ghost(Seq::empty()),
        };
        assert(e.wanted() =~= exposure_writes(exposure_us as int, gain));
        assert(e.wanted().take(0) =~= e.held());
        e
    }

    /// Describes any drift from what was applied, given what the controls read
    /// now, as far as they can be read. None while everything still matches, or if
    /// the mode cannot be read.
    pub fn drift(
        &self,
        applied: &Applied,
        mode: Option<String>,
        exposure: Option<String>,
        gain: Option<String>,
    ) -> (d: Option<Drift>)
        ensures
            ({
                let units = decimal_digits((applied.exposure_us / 100) as nat);
                let set_gain = decimal_digits(applied.gain->0 as nat);
                match d {
                    Some(Drift::Automatic(m)) => {
                        &&& mode is Some
                        &&& m@ == mode->0@
                        &&& m@ != "1"@
                    },
                    Some(Drift::Exposure { was, reads }) => {
                        &&& mode is Some
                        &&& mode->0@ == "1"@
                        &&& was@ == units
                        &&& changed(units, exposure)
                        &&& reads@ == exposure->0@
                    },
                    Some(Drift::Gain { was, reads }) => {
                        &&& mode is Some
                        &&& mode->0@ == "1"@
                        &&& !changed(units, exposure)
                        &&& applied.gain is Some
                        &&& was@ == set_gain
                        &&& changed(set_gain, gain)
                        &&& reads@ == gain->0@
                    },
                    None => mode is None || as_applied(*applied, mode->0, exposure, gain),
                }
            }),
    {
        let mode: String = match mode {
            Some(mode) => mode,
            None => return None,
        };
        if mode != "1".to_owned() {
            return Some(Drift::Automatic(mode));
        }
        let units: String = decimal((applied.exposure_us / 100) as u64);
        match exposure {
            Some(v) => {
                if v != units {
                    return Some(Drift::Exposure { was: units, reads: v });
                }
            },
            None => {},
        }
        match (applied.gain, gain) {
            (Some(g), Some(v)) => {
                let was: String = decimal(g as u64);
                if v != was {
                    return Some(Drift::Gain { was, reads: v });
                }
            },
            _ => {},
        }
        None
    }
}

/// Controls that read what [`Device::set_exposure`] wrote have not drifted.
pub proof fn law_what_was_written_has_not_drifted(
    us: u32,
    applied: Applied,
    mode: String,
    exposure: Option<String>,
    gain: Option<String>,
)
    requires
        us <= u32::MAX - 50,
        applied.exposure_us == exposure_units(us as int) * 100,
        mode@ == "1"@,
        exposure is Some ==> exposure->0@ == decimal_digits(exposure_units(us as int) as nat),
        applied.gain is Some && gain is Some ==> gain->0@ == decimal_digits(applied.gain->0 as nat),
    ensures
        as_applied(applied, mode, exposure, gain),
{
}

/// A camera's unique id is its location, its vendor and its product, one behind
/// the other, in 32, 16 and 16 bits.
pub proof fn law_an_id_is_location_vendor_product(location: u64, vendor: u64, product: u64)
    requires
        location < 0x1_0000_0000,
        vendor < 0x1_0000,
        product < 0x1_0000,
    ensures
        packed(location, vendor, product) == location * 0x1_0000_0000 + vendor * 0x1_0000
            + product,
{
    assert((location << 32u64) | (vendor << 16u64) | product == location * 0x1_0000_0000 + vendor
        * 0x1_0000 + product) by (bit_vector)
        requires
            location < 0x1_0000_0000,
            vendor < 0x1_0000,
            product < 0x1_0000,
    ;
}

/// An exposure is set in the unit of 100 us that is nearest to it, and in one
/// at least.
pub proof fn law_an_exposure_is_set_to_the_nearest_unit(us: int, gain: Option<u16>)
    requires
        0 <= us <= u32::MAX,
    ensures
        exposure_units(us) >= 1,
        us >= 50 ==> -50 < 100 * exposure_units(us) - us <= 50,
        us < 50 ==> exposure_units(us) == 1,
        exposure_writes(us, gain).len() == (if gain is Some { 3int } else { 2 }),
        exposure_writes(us, gain)[0] == ("auto-exposure-mode"@, "1"@),
        exposure_writes(us, gain)[1].0 == "exposure-time-abs"@,
        number(exposure_writes(us, gain)[1].1, 10, u32::MAX as nat) == Some(
            exposure_units(us) as nat,
        ),
        gain is Some ==> exposure_writes(us, gain)[2].0 == "gain"@,
        gain is Some ==> number(exposure_writes(us, gain)[2].1, 10, u16::MAX as nat) == Some(
            gain->0 as nat,
        ),
{
    law_a_decimal_reads_back(exposure_units(us) as nat, u32::MAX as nat);
    if gain is Some {
        law_a_decimal_reads_back(gain->0 as nat, u16::MAX as nat);
    }
}

/// A line that says a value gives that value, whatever white space is around
/// it.
pub proof fn law_a_value_is_read_out_of_its_line(
    before: Seq<char>,
    space: Seq<char>,
    value: Seq<char>,
    after: Seq<char>,
)
    requires
        blank(before),
        blank(space),
        blank(after),
        value.len() > 0,
        !is_space(value[0]),
        !is_space(value.last()),
    ensures
        value_in(before + ("current-value:"@ + space + value) + after) == Some(value),
{
    reveal_strlit("current-value:");
    let label = "current-value:"@;
    let said = label + space + value;
    assert(label.len() == 14);
    assert(said[0] == 'c');
    assert(said.last() == value.last());
    law_trimming_gives_back_what_white_space_surrounds(before, said, after);
    assert(label.is_prefix_of(said)) by {
        assert(said.subrange(0, 14) =~= label);
    }
    assert(said.skip(14) =~= space + value + Seq::<char>::empty());
    law_trimming_gives_back_what_white_space_surrounds(space, value, Seq::empty());
}

/// The first line that says a value counts.
pub proof fn law_the_first_value_counts(
    before: Seq<Seq<char>>,
    line: Seq<char>,
    after: Seq<Seq<char>>,
)
    requires
        forall|i: int| 0 <= i < before.len() ==> value_in(#[trigger] before[i]) is None,
    ensures
        value_in(line) is Some ==> current_value(before + seq![line] + after) == value_in(line),
        current_value(before) is None,
    decreases before.len(),
{
    let all = before + seq![line] + after;
    if before.len() > 0 {
        assert(all[0] == before[0]);
        assert(all.skip(1) =~= before.skip(1) + seq![line] + after);
        assert forall|i: int| 0 <= i < before.skip(1).len() implies value_in(
            #[trigger] before.skip(1)[i],
        ) is None by {
            assert(before.skip(1)[i] == before[i + 1]);
        }
        law_the_first_value_counts(before.skip(1), line, after);
    } else {
        assert(all[0] == line);
    }
}

/// A camera's unique id comes from its location and from its vendor and
/// product, each in hexadecimal, with a colon between the last two.
pub proof fn law_an_id_is_read_from_its_three_numbers(
    location: Seq<char>,
    vendor: Seq<char>,
    product: Seq<char>,
)
    requires
        !vendor.contains(':'),
    ensures
        hex(location) is Some && hex(vendor) is Some && hex(product) is Some ==> unique_id(
            location,
            vendor + seq![':'] + product,
        ) == Some(
            packed(hex(location)->0 as u64, hex(vendor)->0 as u64, hex(product)->0 as u64),
        ),
        hex(location) is None || hex(vendor) is None || hex(product) is None ==> unique_id(
            location,
            vendor + seq![':'] + product,
        ) is None,
        unique_id(location, vendor) is None,
{
    let both = vendor + seq![':'] + product;
    let tail = seq![':'] + product;
    assert(both =~= vendor + tail);
    lemma_len_before(vendor, ':', tail);
    assert(both.take(vendor.len() as int) =~= vendor);
    assert(both.skip(vendor.len() as int + 1) =~= product);
    lemma_len_before(vendor, ':', Seq::empty());
    assert(vendor + Seq::<char>::empty() =~= vendor);
}

/// A hexadecimal number is its digits behind `0x`.
pub proof fn law_a_hexadecimal_number_follows_its_prefix(digits: Seq<char>)
    ensures
        hex(seq!['0', 'x'] + digits) == number(digits, 16, u64::MAX as nat),
{
    reveal_strlit("0x");
    let whole = seq!['0', 'x'] + digits;
    assert("0x"@ =~= seq!['0', 'x']);
    assert(whole.subrange(0, 2) =~= "0x"@);
    assert(whole.skip(2) =~= digits);
}

/// A line that lists a camera gives its index, its vendor and product, its
/// location and its version, in this order, and then its name.
#[verifier::spinoff_prover]
pub proof fn law_a_line_lists_a_camera(
    index: Seq<char>,
    vp: Seq<char>,
    location: Seq<char>,
    version: Seq<char>,
    name: Seq<char>,
)
    requires
        solid(index) && index.len() > 0,
        solid(vp) && vp.len() > 0,
        solid(location) && location.len() > 0,
        solid(version) && version.len() > 0,
        number(index, 10, u32::MAX as nat) is Some,
        "0x"@.is_prefix_of(location),
    ensures
        listed(
            index + seq![' '] + (vp + seq![' '] + (location + seq![' '] + (version + seq![' ']
                + name))),
        ) == Some(
            Listed {
                index,
                location,
                name: joined(words(name), " "@),
                unique_id: unique_id(location, vp),
            },
        ),
{
    let d = version + seq![' '] + name;
    let c = location + seq![' '] + d;
    let b = vp + seq![' '] + c;
    let a = index + seq![' '] + b;
    law_white_space_separates_words(version, ' ', name);
    law_white_space_separates_words(location, ' ', d);
    law_white_space_separates_words(vp, ' ', c);
    law_white_space_separates_words(index, ' ', b);
    let w = words(a);
    assert(w =~= seq![index, vp, location, version] + words(name)) by {
        assert(words(d) == seq![version] + words(name));
        assert(words(c) == seq![location] + words(d));
        assert(words(b) == seq![vp] + words(c));
    }
    assert(w.skip(4) =~= words(name));
}

/// Controls that read otherwise than they were applied have drifted; one that
/// cannot be read has not.
pub proof fn law_a_control_that_reads_otherwise_has_drifted(
    applied: Applied,
    mode: String,
    exposure: Option<String>,
    gain: Option<String>,
    units: nat,
)
    requires
        100 * units <= applied.exposure_us < 100 * units + 100,
    ensures
        as_applied(applied, mode, exposure, gain) <==> {
            &&& mode@ == "1"@
            &&& exposure is None || exposure->0@ == decimal_digits(units)
            &&& applied.gain is None || gain is None || gain->0@ == decimal_digits(
                applied.gain->0 as nat,
            )
        },
{
}

/// A line of the listing that describes a camera adds it, and another adds
/// nothing.
pub proof fn law_each_line_adds_its_camera(lines: Seq<Seq<char>>, line: Seq<char>)
    ensures
        listed(line) is Some ==> all_listed(lines.push(line)) == all_listed(lines).push(
            listed(line)->0,
        ),
        listed(line) is None ==> all_listed(lines.push(line)) == all_listed(lines),
        all_listed(Seq::empty()) == Seq::<Listed>::empty(),
{
    assert(lines.push(line).drop_last() =~= lines);
}

} // verus!
