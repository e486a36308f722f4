//! Choosing a camera, and counting the frames it delivers.

use crate::text::{
    chars_of, contains, decimal, decimal_digits, number, numbered, occurs, parse,
};
use vstd::prelude::*;

verus! {

/// A camera chosen with --camera.
#[derive(Debug)]
pub struct Picked {
    pub index: u32,
    pub name: String,
    /// The camera's unique id. Cameras can be listed in a different order from
    /// one query to the next, so the camera is opened by id, not index.
    pub id: String,
}

/// What [`str::to_lowercase`] makes of a text.
pub uninterp spec fn lowercase(s: Seq<char>) -> Seq<char>;

/// [`str::to_lowercase`] maps a text to lower case, the same everywhere.
pub assume_specification[ str::to_lowercase ](s: &str) -> (r: String)
    ensures
        r@ == lowercase(s@),
;

/// Whether `i` is the first camera with this index.
pub open spec fn is_indexed(cameras: Seq<Picked>, index: nat, i: int) -> bool {
    &&& 0 <= i < cameras.len()
    &&& cameras[i].index == index
    &&& forall|j: int| 0 <= j < i ==> (#[trigger] cameras[j]).index != index
}

/// Whether `i` is the first of these names that `wanted` is part of.
pub open spec fn is_named(names: Seq<Seq<char>>, wanted: Seq<char>, i: int) -> bool {
    &&& 0 <= i < names.len()
    &&& occurs(names[i], wanted)
    &&& forall|j: int| 0 <= j < i ==> !occurs(#[trigger] names[j], wanted)
}

/// The first camera with this index.
pub fn first_indexed(cameras: &[Picked], index: u32) -> (r: Option<usize>)
    ensures
        match r {
            Some(i) => is_indexed(cameras@, index as nat, i as int),
            None => forall|j: int|
                0 <= j < cameras@.len() ==> (#[trigger] cameras@[j]).index != index,
        },
{
    let mut i: usize = 0;
    while i < cameras.len()
        invariant
            i <= cameras@.len(),
            forall|j: int| 0 <= j < i ==> (#[trigger] cameras@[j]).index != index,
        decreases cameras@.len() - i,
    {
        if cameras[i].index == index {
            return Some(i);
        }
        i = i + 1;
    }
    None
}

/// The first of these names that `wanted` is part of.
pub fn first_named(names: &[String], wanted: &str) -> (r: Option<usize>)
    ensures
        match r {
            Some(i) => is_named(names@.map_values(|n: String| n@), wanted@, i as int),
            None => forall|j: int|
                0 <= j < names@.len() ==> !occurs((#[trigger] names@[j])@, wanted@),
        },
{
    let part: Vec<char> = chars_of(wanted);
    let mut i: usize = 0;
    while i < names.len()
        invariant
            i <= names@.len(),
            part@ == wanted@,
            forall|j: int| 0 <= j < i ==> !occurs((#[trigger] names@[j])@, wanted@),
        decreases names@.len() - i,
    {
        let name: Vec<char> = chars_of(names[i].as_str());
        if contains(name.as_slice(), part.as_slice()) {
            proof {
                let all = names@.map_values(|n: String| n@);
                assert forall|j: int| 0 <= j < i implies !occurs(#[trigger] all[j], wanted@) by {
                    assert(all[j] == names@[j]@);
                }
            }
            return Some(i);
        }
        i = i + 1;
    }
    None
}

/// The names of some cameras, in lower case.
pub open spec fn lowered(cameras: Seq<Picked>) -> Seq<Seq<char>> {
    cameras.map_values(|c: Picked| lowercase(c.name@))
}

/// Resolves --camera, an index or a case-insensitive part of a camera's name:
/// the first camera it fits. Indices can change as cameras are plugged in, so
/// a name is the safer choice.
pub fn pick_camera(spec: &str, cameras: &[Picked]) -> (r: Option<usize>)
    ensures
        match number(spec@, 10, u32::MAX as nat) {
            Some(index) => match r {
                Some(i) => is_indexed(cameras@, index, i as int),
                None => forall|j: int|
                    0 <= j < cameras@.len() ==> (#[trigger] cameras@[j]).index != index,
            },
            None => match r {
                Some(i) => is_named(lowered(cameras@), lowercase(spec@), i as int),
                None => forall|j: int|
                    0 <= j < cameras@.len() ==> !occurs(
                        #[trigger] lowered(cameras@)[j],
                        lowercase(spec@),
                    ),
            },
        },
{
    let text: Vec<char> = chars_of(spec);
    match parse(text.as_slice(), 10, u32::MAX as u64) {
        Some(index) => first_indexed(cameras, index as u32),
        None => {
            let mut names: Vec<String> = Vec::new();
            let mut i: usize = 0;
            while i < cameras.len()
                invariant
                    i <= cameras@.len(),
                    names@.len() == i,
                    forall|j: int|
                        0 <= j < i ==> (#[trigger] names@[j])@ == lowercase(cameras@[j].name@),
                decreases cameras@.len() - i,
            {
                names.push(cameras[i].name.as_str().to_lowercase());
                i = i + 1;
            }
            assert(names@.map_values(|n: String| n@) =~= lowered(cameras@));
            let wanted: String = spec.to_lowercase();
            let r: Option<usize> = first_named(names.as_slice(), wanted.as_str());
            assert forall|j: int| 0 <= j < cameras@.len() implies #[trigger] lowered(cameras@)[j]
                == names@[j]@ by {}
            r
        },
    }
}

/// The cameras on offer, as they are listed: each index in brackets, then the
/// name.
pub open spec fn listing(cameras: Seq<Picked>) -> Seq<char>
    decreases cameras.len(),
{
    if cameras.len() == 0 {
        Seq::empty()
    } else {
        let c = cameras.last();
        let one = "["@ + decimal_digits(c.index as nat) + "] "@ + c.name@;
        if cameras.len() == 1 {
            one
        } else {
            listing(cameras.drop_last()) + ", "@ + one
        }
    }
}

/// Lists the cameras on offer.
pub fn list(cameras: &[Picked]) -> (s: String)
    ensures
        s@ == listing(cameras@),
{
    let mut s: String = String::new();
    let mut i: usize = 0;
    assert(cameras@.take(0) =~= Seq::<Picked>::empty());
    while i < cameras.len()
        invariant
            i <= cameras@.len(),
            s@ == listing(cameras@.take(i as int)),
        decreases cameras@.len() - i,
    {
        let ghost now = cameras@.take(i + 1);
        assert(now.drop_last() =~= cameras@.take(i as int));
        if i > 0 {
            s.append(", ");
        }
        s.append(numbered("[", cameras[i].index as u64, "] ").as_str());
        s.append(cameras[i].name.as_str());
        assert(s@ =~= listing(now));
        i = i + 1;
    }
    assert(cameras@.take(i as int) =~= cameras@);
    s
}

/// Describes a camera's format: the size of its frames, the name of their
/// layout, and how many there are in a second.
pub fn describe(width: u32, height: u32, layout: &str, fps: u32) -> (s: String)
    ensures
        s@ == decimal_digits(width as nat) + "x"@ + decimal_digits(height as nat) + " "@ + layout@
            + " @ "@ + decimal_digits(fps as nat) + " fps"@,
{
    let mut s: String = decimal(width as u64);
    s.append(numbered("x", height as u64, " ").as_str());
    s.append(layout);
    s.append(numbered(" @ ", fps as u64, " fps").as_str());
    assert(s@ =~= decimal_digits(width as nat) + "x"@ + decimal_digits(height as nat) + " "@
        + layout@ + " @ "@ + decimal_digits(fps as nat) + " fps"@);
    s
}

/// Numbers the frames a camera delivers, and counts those that were replaced
/// before anyone took them.
pub struct Counter {
    next: u64,
    dropped: u64,
}

impl Counter {
    /// The number of the next frame: how many there have been.
    pub closed spec fn next(&self) -> nat {
        self.next as nat
    }

    pub closed spec fn dropped(&self) -> nat {
        self.dropped as nat
    }

    pub open spec fn wf(&self) -> bool {
        self.dropped() <= self.next()
    }

    pub fn new() -> (c: Self)
        ensures
            c.wf(),
            c.next() == 0,
            c.dropped() == 0,
    {
        Counter { next: 0, dropped: 0 }
    }

    /// The number of the next frame.
    pub fn seq(&self) -> (n: u64)
        ensures
            n == self.next(),
    {
        self.next
    }

    /// A frame was handed on; `dropped` says whether one was lost for it.
    pub fn delivered(&mut self, dropped: bool)
        requires
            old(self).wf(),
            old(self).next() < u64::MAX,
        ensures
            final(self).wf(),
            final(self).next() == old(self).next() + 1,
            final(self).dropped() == old(self).dropped() + (if dropped {
                1int
            } else {
                0
            }),
    {
        self.next = self.next + 1;
        if dropped {
            self.dropped = self.dropped + 1;
        }
    }

    /// How many frames were lost.
    pub fn lost(&self) -> (n: u64)
        ensures
            n == self.dropped(),
    {
        self.dropped
    }
}

/// The cameras are listed one after the other, each with its index in brackets
/// before its name, and commas between them.
pub proof fn law_each_camera_is_listed(first: Picked, rest: Seq<Picked>)
    ensures
        listing(seq![first]) == "["@ + decimal_digits(first.index as nat) + "] "@ + first.name@,
        rest.len() > 0 ==> listing(seq![first] + rest) == listing(seq![first]) + ", "@ + listing(
            rest,
        ),
    decreases rest.len(),
{
    let all = seq![first] + rest;
    if rest.len() == 1 {
        assert(all.drop_last() =~= seq![first]);
        assert(all.last() == rest[0]);
    } else if rest.len() > 1 {
        law_each_camera_is_listed(first, rest.drop_last());
        assert(all.drop_last() =~= seq![first] + rest.drop_last());
        assert(listing(all) =~= listing(seq![first]) + ", "@ + listing(rest));
    }
}

/// The camera with an index is the first that has it, and the camera of a name
/// the first whose name has it in it: no two can be.
pub proof fn law_the_first_camera_that_fits_is_picked(
    cameras: Seq<Picked>,
    names: Seq<Seq<char>>,
    index: nat,
    wanted: Seq<char>,
    i: int,
    j: int,
)
    ensures
        is_indexed(cameras, index, i) && is_indexed(cameras, index, j) ==> i == j,
        is_indexed(cameras, index, i) ==> cameras[i].index == index,
        is_indexed(cameras, index, i) && 0 <= j < cameras.len() && cameras[j].index == index
            ==> i <= j,
        is_named(names, wanted, i) && is_named(names, wanted, j) ==> i == j,
        is_named(names, wanted, i) ==> occurs(names[i], wanted),
        is_named(names, wanted, i) && 0 <= j < names.len() && occurs(names[j], wanted) ==> i <= j,
{
}

} // verus!
