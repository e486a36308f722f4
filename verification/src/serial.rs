//! The link to the Arduino: which port it is on, when it is ready, and when it
//! has reset.
//!
//! The protocol is one signed byte per command, and the board says nothing
//! but "ready mdd10" at startup. So anything it sends later means it has
//! reset, and the actions around that moment never happened.

use crate::clock::nanos;
use crate::drive::byte;
use crate::text::{
    chars_of, contains_bytes, law_what_is_surrounded_occurs, occurs, occurs_at, starts_with,
};
use std::time::Duration;
use vstd::prelude::*;

verus! {

/// Arduino's USB vendor id.
pub const ARDUINO_VID: u16 = 0x2341;

/// How fast the board talks.
pub const BAUD: u32 = 115_200;

/// What the board says at startup.
pub const READY: &'static str = "ready mdd10";

/// The bytes of [`READY`].
pub open spec fn ready_bytes() -> Seq<u8> {
    READY@.map_values(|c: char| c as u8)
}

/// A serial port.
pub struct PortInfo {
    pub name: String,
    /// Its USB vendor id, if it is a USB port.
    pub vid: Option<u16>,
}

/// Whether a port is one to open for an Arduino. macOS lists each device
/// twice; `/dev/cu.*` is the one to open.
pub open spec fn is_arduino(p: PortInfo) -> bool {
    p.vid == Some(ARDUINO_VID) && !"/dev/tty."@.is_prefix_of(p.name@)
}

/// Which ports are ones to open for an Arduino, in order.
pub open spec fn arduinos(ports: Seq<PortInfo>) -> Seq<int>
    decreases ports.len(),
{
    if ports.len() == 0 {
        Seq::empty()
    } else {
        let before = arduinos(ports.drop_last());
        if is_arduino(ports.last()) {
            before.push(ports.len() - 1)
        } else {
            before
        }
    }
}

/// Why no port was found.
#[derive(Debug)]
pub enum PortError {
    /// There is no Arduino.
    NoArduino,
    /// There are several, on these ports.
    Several(Vec<usize>),
}

/// Whether a port is one to open for an Arduino.
fn arduino(p: &PortInfo) -> (b: bool)
    ensures
        b == is_arduino(*p),
{
    let vid: bool = match p.vid {
        Some(vid) => vid == ARDUINO_VID,
        None => false,
    };
    let name: Vec<char> = chars_of(p.name.as_str());
    vid && !starts_with(name.as_slice(), "/dev/tty.")
}

/// Which of these ports the Uno is on. Its name changes with the USB socket,
/// so it is found by Arduino's vendor id.
pub fn find_port(ports: &[PortInfo]) -> (r: Result<usize, PortError>)
    ensures
        ({
            let found = arduinos(ports@);
            match r {
                Ok(i) => found == seq![i as int],
                Err(PortError::NoArduino) => found.len() == 0,
                Err(PortError::Several(v)) => found.len() > 1 && v@.map_values(
                    |i: usize| i as int,
                ) == found,
            }
        }),
{
    let mut found: Vec<usize> = Vec::new();
    let mut i: usize = 0;
    assert(ports@.take(0) =~= Seq::<PortInfo>::empty());
    assert(found@.map_values(|i: usize| i as int) =~= arduinos(ports@.take(0)));
    while i < ports.len()
        invariant
            i <= ports@.len(),
            found@.map_values(|i: usize| i as int) == arduinos(ports@.take(i as int)),
        decreases ports@.len() - i,
    {
        let ghost now = ports@.take(i + 1);
        assert(now.drop_last() =~= ports@.take(i as int));
        if arduino(&ports[i]) {
            let ghost before = found@;
            found.push(i);
            assert(found@.map_values(|i: usize| i as int) =~= before.map_values(
                |i: usize| i as int,
            ).push(i as int));
        }
        i = i + 1;
    }
    assert(ports@.take(i as int) =~= ports@);
    let ghost all = found@.map_values(|i: usize| i as int);
    if found.len() == 1 {
        assert(all =~= seq![found@[0] as int]);
        Ok(found[0])
    } else if found.len() == 0 {
        Err(PortError::NoArduino)
    } else {
        Err(PortError::Several(found))
    }
}

/// What is found on a port can be opened: the port is one of those given, and
/// the only Arduino among them.
pub proof fn law_the_port_found_is_the_only_arduino(ports: Seq<PortInfo>, i: int)
    requires
        arduinos(ports) == seq![i],
    ensures
        0 <= i < ports.len(),
        is_arduino(ports[i]),
        forall|j: int| 0 <= j < ports.len() && j != i ==> !is_arduino(#[trigger] ports[j]),
{
    lemma_arduinos(ports);
    assert(arduinos(ports).contains(i)) by {
        assert(arduinos(ports)[0] == i);
    }
    assert forall|j: int| 0 <= j < ports.len() && j != i implies !is_arduino(
        #[trigger] ports[j],
    ) by {
        if is_arduino(ports[j]) {
            assert(arduinos(ports).contains(j));
            let k = choose|k: int| 0 <= k < arduinos(ports).len() && arduinos(ports)[k] == j;
            assert(arduinos(ports)[k] == i);
        }
    }
}

proof fn lemma_arduinos(ports: Seq<PortInfo>)
    ensures
        forall|j: int| #[trigger]
            arduinos(ports).contains(j) <==> 0 <= j < ports.len() && is_arduino(ports[j]),
    decreases ports.len(),
{
    if ports.len() > 0 {
        lemma_arduinos(ports.drop_last());
        let before = arduinos(ports.drop_last());
        let last = ports.len() - 1;
        assert forall|j: int| #[trigger] arduinos(ports).contains(j) <==> 0 <= j < ports.len()
            && is_arduino(ports[j]) by {
            assert(before.contains(j) <==> 0 <= j < last && is_arduino(ports.drop_last()[j]));
            if is_arduino(ports.last()) {
                let all = before.push(last);
                if before.contains(j) {
                    let k = choose|k: int| 0 <= k < before.len() && before[k] == j;
                    assert(all[k] == j);
                }
                assert(all[before.len() as int] == last);
                if all.contains(j) && j != last {
                    let k = choose|k: int| 0 <= k < all.len() && all[k] == j;
                    assert(before[k] == j);
                }
            }
        }
    }
}

/// What to do while waiting for the board.
#[derive(Clone, Copy, Debug, PartialEq, Eq, Structural)]
pub enum Wait {
    /// Read on.
    Read,
    /// The board is ready.
    Ready,
    /// The board has said nothing for too long.
    GiveUp,
}

/// What the board has said since its port was opened, which resets it.
/// Bytes sent before its ready line would go to the bootloader.
pub struct Handshake {
    seen: Vec<u8>,
}

/// What to do this many nanoseconds after the port was opened, if the board has
/// said this.
pub open spec fn waits(said: Seq<u8>, elapsed: nat) -> Wait {
    if occurs(said, ready_bytes()) {
        Wait::Ready
    } else if elapsed > 5_000_000_000 {
        Wait::GiveUp
    } else {
        Wait::Read
    }
}

impl View for Handshake {
    type V = Seq<u8>;

    closed spec fn view(&self) -> Seq<u8> {
        self.seen@
    }
}

impl Handshake {
    pub fn new() -> (h: Self)
        ensures
            h@ == Seq::<u8>::empty(),
    {
        Handshake { seen: Vec::new() }
    }

    /// The board has said more.
    pub fn hear(&mut self, bytes: &[u8])
        ensures
            final(self)@ == old(self)@ + bytes@,
    {
        append(&mut self.seen, bytes);
    }

    /// What to do, this long after the port was opened.
    pub fn next(&self, elapsed: Duration) -> (w: Wait)
        ensures
            w == (if occurs(self@, ready_bytes()) {
                Wait::Ready
            } else if nanos(elapsed) > 5_000_000_000 {
                Wait::GiveUp
            } else {
                Wait::Read
            }),
            w == waits(self@, nanos(elapsed)),
    {
        let ready: [u8; 11] = [114, 101, 97, 100, 121, 32, 109, 100, 100, 49, 48];
        proof {
            reveal_strlit("ready mdd10");
            assert(ready@ =~= ready_bytes());
        }
        if contains_bytes(self.seen.as_slice(), ready.as_slice()) {
            Wait::Ready
        } else if elapsed.as_nanos() > 5_000_000_000 {
            Wait::GiveUp
        } else {
            Wait::Read
        }
    }

    /// What the board has said.
    pub fn said(self) -> (bytes: Vec<u8>)
        ensures
            bytes@ == self@,
    {
        self.seen
    }
}

/// Appends some bytes.
fn append(to: &mut Vec<u8>, bytes: &[u8])
    ensures
        final(to)@ == old(to)@ + bytes@,
{
    let mut i: usize = 0;
    assert(bytes@.take(0) =~= Seq::<u8>::empty());
    assert(to@ =~= to@ + bytes@.take(0));
    while i < bytes.len()
        invariant
            i <= bytes@.len(),
            to@ == old(to)@ + bytes@.take(i as int),
        decreases bytes@.len() - i,
    {
        to.push(bytes[i]);
        i = i + 1;
        assert(to@ =~= old(to)@ + bytes@.take(i as int));
    }
    assert(bytes@.take(i as int) =~= bytes@);
}

/// A board that has said it is ready stays ready, whatever it says next.
pub proof fn law_a_ready_board_stays_ready(said: Seq<u8>, more: Seq<u8>)
    requires
        occurs(said, ready_bytes()),
    ensures
        occurs(said + more, ready_bytes()),
{
    let i = choose|i: int| occurs_at(said, ready_bytes(), i);
    let n = ready_bytes().len();
    assert((said + more).subrange(i, i + n) =~= said.subrange(i, i + n));
    assert(occurs_at(said + more, ready_bytes(), i));
}

/// The byte that sets this duty.
pub fn command(duty: i8) -> (b: u8)
    ensures
        b == duty as int % 256,
        b == byte(duty),
{
    if duty >= 0 {
        duty as u8
    } else {
        (duty as i16 + 256) as u8
    }
}

/// Different duties are different bytes.
pub proof fn law_every_duty_has_its_own_byte(a: i8, b: i8)
    requires
        a as int % 256 == b as int % 256,
    ensures
        a == b,
{
}

/// Listens for the board speaking after its ready line, which only happens
/// when it resets.
pub struct Watcher {
    heard: Vec<u8>,
    reset: bool,
}

impl Watcher {
    /// What the board has said.
    pub closed spec fn heard(&self) -> Seq<u8> {
        self.heard@
    }

    /// Whether it has reset.
    pub closed spec fn reset(&self) -> bool {
        self.reset
    }

    /// The board has reset exactly if it has said anything.
    pub open spec fn wf(&self) -> bool {
        self.reset() <==> self.heard().len() > 0
    }

    pub fn new() -> (w: Self)
        ensures
            w.wf(),
            w.heard() == Seq::<u8>::empty(),
    {
        Watcher { heard: Vec::new(), reset: false }
    }

    /// These bytes have come, if any.
    pub fn hear(&mut self, bytes: &[u8])
        requires
            old(self).wf(),
        ensures
            final(self).wf(),
            final(self).heard() == old(self).heard() + bytes@,
    {
        append(&mut self.heard, bytes);
        if bytes.len() > 0 {
            self.reset = true;
        }
    }

    pub fn has_reset(&self) -> (b: bool)
        requires
            self.wf(),
        ensures
            b <==> self.heard().len() > 0,
    {
        self.reset
    }

    /// What the board has said.
    pub fn said(&self) -> (bytes: &Vec<u8>)
        ensures
            bytes@ == self.heard(),
    {
        &self.heard
    }
}

/// Which ports are chosen: exactly those of Arduino's vendor id that are not
/// the `/dev/tty.` half of a pair, in order.
pub proof fn law_the_arduinos_are_all_listed(ports: Seq<PortInfo>, i: int)
    requires
        0 <= i < ports.len(),
    ensures
        arduinos(ports).contains(i) <==> ports[i].vid == Some(0x2341u16) && !(ports[i].name@.len()
            >= 9 && ports[i].name@.take(9) == seq!['/', 'd', 'e', 'v', '/', 't', 't', 'y', '.']),
        forall|a: int, b: int|
            0 <= a < b < arduinos(ports).len() ==> arduinos(ports)[a] < arduinos(ports)[b],
        forall|a: int| 0 <= a < arduinos(ports).len() ==> 0 <= #[trigger] arduinos(ports)[a]
            < ports.len(),
    decreases ports.len(),
{
    reveal_strlit("/dev/tty.");
    let tty = "/dev/tty."@;
    let name = ports[i].name@;
    assert(tty =~= seq!['/', 'd', 'e', 'v', '/', 't', 't', 'y', '.']);
    assert(tty.is_prefix_of(name) <==> name.len() >= 9 && name.take(9) == tty) by {
        if name.len() >= 9 {
            assert(name.take(9) =~= name.subrange(0, 9));
        }
    }
    let front = ports.drop_last();
    let before = arduinos(front);
    if front.len() > 0 {
        law_the_arduinos_are_all_listed(front, if i < front.len() { i } else { 0 });
    }
    if is_arduino(ports.last()) {
        assert(arduinos(ports)[before.len() as int] == ports.len() - 1);
        assert forall|a: int| 0 <= a < before.len() implies arduinos(ports)[a] == before[a] by {}
        if before.contains(i) {
            let a = choose|a: int| 0 <= a < before.len() && before[a] == i;
            assert(arduinos(ports)[a] == i);
        }
    }
}

/// The board says that it is ready in these bytes.
pub proof fn law_the_ready_bytes()
    ensures
        ready_bytes() == seq![
            0x72u8,
            0x65,
            0x61,
            0x64,
            0x79,
            0x20,
            0x6d,
            0x64,
            0x64,
            0x31,
            0x30,
        ],
{
    reveal_strlit("ready mdd10");
    assert(ready_bytes() =~= seq![
        0x72u8,
        0x65,
        0x61,
        0x64,
        0x79,
        0x20,
        0x6d,
        0x64,
        0x64,
        0x31,
        0x30,
    ]);
}

/// The board is ready once it has said so, however late and whatever it said
/// before and after; otherwise it is given five seconds.
pub proof fn law_the_board_has_five_seconds(
    before: Seq<u8>,
    after: Seq<u8>,
    said: Seq<u8>,
    elapsed: nat,
)
    requires
        !occurs(said, ready_bytes()),
    ensures
        waits(before + ready_bytes() + after, elapsed) == Wait::Ready,
        elapsed <= 5_000_000_000 ==> waits(said, elapsed) == Wait::Read,
        elapsed > 5_000_000_000 ==> waits(said, elapsed) == Wait::GiveUp,
{
    law_what_is_surrounded_occurs(Seq::empty(), before, ready_bytes(), after);
}

/// The board is spoken to at 115200 baud.
pub proof fn law_the_speed_of_the_port()
    ensures
        BAUD == 115_200,
        ARDUINO_VID == 0x2341,
{
}

} // verus!
