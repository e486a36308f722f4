//! Atoms, the boxes QuickTime files are made of: a size, a four-character code
//! and a body, all big-endian.

use vstd::arithmetic::div_mod::{lemma_fundamental_div_mod, lemma_fundamental_div_mod_converse};
use vstd::prelude::*;

verus! {

/// `v` as two bytes, most significant first.
pub open spec fn be16(v: int) -> Seq<u8> {
    seq![(v / 0x100 % 0x100) as u8, (v % 0x100) as u8]
}

/// `v` as four bytes, most significant first.
pub open spec fn be32(v: int) -> Seq<u8> {
    seq![
        (v / 0x100_0000 % 0x100) as u8,
        (v / 0x1_0000 % 0x100) as u8,
        (v / 0x100 % 0x100) as u8,
        (v % 0x100) as u8,
    ]
}

/// `v` as eight bytes, most significant first.
pub open spec fn be64(v: int) -> Seq<u8> {
    be32(v / 0x1_0000_0000) + be32(v % 0x1_0000_0000)
}

/// `n` zero bytes.
pub open spec fn zeros(n: nat) -> Seq<u8> {
    Seq::new(n, |i: int| 0u8)
}

/// An atom: its size, its four-character kind and its contents. The size
/// field holds the low 32 bits of the size.
pub open spec fn atom(kind: u32, body: Seq<u8>) -> Seq<u8> {
    be32((8 + body.len()) as int) + be32(kind as int) + body
}

/// An atom that begins with a version and flags.
pub open spec fn full_atom(kind: u32, version: u8, flags: u32, body: Seq<u8>) -> Seq<u8> {
    atom(kind, be32((((version as u32) << 24u32) | flags) as int) + body)
}

/// The identity transform, in QuickTime's 16.16 / 2.30 fixed point.
pub open spec fn identity_matrix() -> Seq<u8> {
    be32(0x0001_0000) + be32(0) + be32(0) + be32(0) + be32(0x0001_0000) + be32(0) + be32(0) + be32(
        0,
    ) + be32(0x4000_0000)
}

/// The pieces one after the other.
pub open spec fn concat(pieces: Seq<Seq<u8>>) -> Seq<u8>
    decreases pieces.len(),
{
    if pieces.len() == 0 {
        seq![]
    } else {
        concat(pieces.drop_last()) + pieces.last()
    }
}

/// A big-endian atom under construction; its size is filled in by finish().
pub struct Atom {
    bytes: Vec<u8>,
}

impl Atom {
    pub closed spec fn wf(&self) -> bool {
        self.bytes@.len() >= 8
    }

    /// The four-character kind, as written.
    pub closed spec fn kind(&self) -> Seq<u8> {
        self.bytes@.subrange(4, 8)
    }

    /// What the atom holds so far.
    pub closed spec fn body(&self) -> Seq<u8> {
        self.bytes@.skip(8)
    }

    pub fn new(kind: u32) -> (a: Self)
        ensures
            a.wf(),
            a.kind() == be32(kind as int),
            a.body() == Seq::<u8>::empty(),
    {
        let mut bytes: Vec<u8> = Vec::new();
        push_be32(&mut bytes, 0);
        push_be32(&mut bytes, kind);
        let a = Atom { bytes };
        assert(a.kind() =~= be32(kind as int));
        assert(a.body() =~= Seq::<u8>::empty());
        a
    }

    pub fn full(kind: u32, version: u8, flags: u32) -> (a: Self)
        ensures
            a.wf(),
            a.kind() == be32(kind as int),
            a.body() == be32((((version as u32) << 24u32) | flags) as int),
    {
        let mut a = Self::new(kind);
        a.u32(((version as u32) << 24u32) | flags);
        assert(a.body() =~= be32((((version as u32) << 24u32) | flags) as int));
        a
    }

    pub fn with(kind: u32, children: &[Vec<u8>]) -> (b: Vec<u8>)
        ensures
            b@ == atom(kind, concat(children@.map_values(|c: Vec<u8>| c@))),
    {
        let mut a = Self::new(kind);
        let ghost all = children@.map_values(|c: Vec<u8>| c@);
        let mut i: usize = 0;
        while i < children.len()
            invariant
                i <= children@.len(),
                all == children@.map_values(|c: Vec<u8>| c@),
                a.wf(),
                a.kind() == be32(kind as int),
                a.body() == concat(all.take(i as int)),
            decreases children@.len() - i,
        {
            a.bytes(children[i].as_slice());
            assert(all.take(i + 1).drop_last() =~= all.take(i as int));
            i = i + 1;
        }
        assert(all.take(i as int) =~= all);
        a.finish()
    }

    pub fn u8(&mut self, v: u8)
        requires
            old(self).wf(),
        ensures
            final(self).wf(),
            final(self).kind() == old(self).kind(),
            final(self).body() == old(self).body() + seq![v],
    {
        self.bytes.push(v);
        assert(self.kind() =~= old(self).kind());
        assert(self.body() =~= old(self).body() + seq![v]);
    }

    pub fn u16(&mut self, v: u16)
        requires
            old(self).wf(),
        ensures
            final(self).wf(),
            final(self).kind() == old(self).kind(),
            final(self).body() == old(self).body() + be16(v as int),
    {
        self.bytes.push((v / 0x100) as u8);
        self.bytes.push((v % 0x100) as u8);
        assert(self.kind() =~= old(self).kind());
        assert(self.body() =~= old(self).body() + be16(v as int));
    }

    pub fn u32(&mut self, v: u32)
        requires
            old(self).wf(),
        ensures
            final(self).wf(),
            final(self).kind() == old(self).kind(),
            final(self).body() == old(self).body() + be32(v as int),
    {
        push_be32(&mut self.bytes, v);
        assert(self.kind() =~= old(self).kind());
        assert(self.body() =~= old(self).body() + be32(v as int));
    }

    pub fn u64(&mut self, v: u64)
        requires
            old(self).wf(),
        ensures
            final(self).wf(),
            final(self).kind() == old(self).kind(),
            final(self).body() == old(self).body() + be64(v as int),
    {
        self.u32((v / 0x1_0000_0000) as u32);
        self.u32((v % 0x1_0000_0000) as u32);
        assert(self.body() =~= old(self).body() + be64(v as int));
    }

    pub fn bytes(&mut self, b: &[u8])
        requires
            old(self).wf(),
        ensures
            final(self).wf(),
            final(self).kind() == old(self).kind(),
            final(self).body() == old(self).body() + b@,
    {
        self.bytes.extend_from_slice(b);
        assert(self.bytes@ =~= old(self).bytes@ + b@);
        assert(self.kind() =~= old(self).kind());
        assert(self.body() =~= old(self).body() + b@);
    }

    pub fn zeros(&mut self, n: usize)
        requires
            old(self).wf(),
        ensures
            final(self).wf(),
            final(self).kind() == old(self).kind(),
            final(self).body() == old(self).body() + zeros(n as nat),
    {
        let mut i: usize = 0;
        assert(self.body() =~= old(self).body() + zeros(0));
        while i < n
            invariant
                i <= n,
                self.wf(),
                self.kind() == old(self).kind(),
                self.body() == old(self).body() + zeros(i as nat),
            decreases n - i,
        {
            self.u8(0);
            assert(zeros(i as nat) + seq![0u8] =~= zeros((i + 1) as nat));
            assert(self.body() =~= old(self).body() + zeros((i + 1) as nat));
            i = i + 1;
        }
    }

    /// The identity transform, in QuickTime's 16.16 / 2.30 fixed point.
    pub fn matrix(&mut self)
        requires
            old(self).wf(),
        ensures
            final(self).wf(),
            final(self).kind() == old(self).kind(),
            final(self).body() == old(self).body() + identity_matrix(),
    {
        self.u32(0x0001_0000);
        self.u32(0);
        self.u32(0);
        self.u32(0);
        self.u32(0x0001_0000);
        self.u32(0);
        self.u32(0);
        self.u32(0);
        self.u32(0x4000_0000);
        assert(self.body() =~= old(self).body() + identity_matrix());
    }

    pub fn finish(self) -> (b: Vec<u8>)
        requires
            self.wf(),
        ensures
            b@ == be32((8 + self.body().len()) as int) + self.kind() + self.body(),
    {
        let mut bytes = self.bytes;
        let n: u32 = (bytes.len() as u64 % 0x1_0000_0000) as u32;
        bytes[0] = (n / 0x100_0000) as u8;
        bytes[1] = (n / 0x1_0000 % 0x100) as u8;
        bytes[2] = (n / 0x100 % 0x100) as u8;
        bytes[3] = (n % 0x100) as u8;
        proof {
            lemma_be32_keeps_the_low_bits(self.bytes@.len() as int);
        }
        assert(bytes@ =~= be32(n as int) + self.kind() + self.body());
        bytes
    }
}

/// What is a multiple of 256 times the unit counts for nothing in the byte
/// above the unit.
proof fn lemma_low_byte(high: int, low: int, unit: int)
    requires
        0 < unit,
    ensures
        (high * (0x100 * unit) + low) / unit % 0x100 == low / unit % 0x100,
{
    let v = high * (0x100 * unit) + low;
    let q = low / unit;
    let r = low % unit;
    lemma_fundamental_div_mod(low, unit);
    assert(v == (high * 0x100 + q) * unit + r) by (nonlinear_arith)
        requires
            v == high * (0x100 * unit) + low,
            low == unit * q + r,
    ;
    lemma_fundamental_div_mod_converse(v, unit, high * 0x100 + q, r);
}

/// Four bytes hold the low 32 bits.
pub(crate) proof fn lemma_be32_keeps_the_low_bits(v: int)
    requires
        0 <= v,
    ensures
        be32(v) == be32(v % 0x1_0000_0000),
{
    let high = v / 0x1_0000_0000;
    let low = v % 0x1_0000_0000;
    lemma_low_byte(high, low, 0x100_0000);
    lemma_low_byte(high * 0x100, low, 0x1_0000);
    lemma_low_byte(high * 0x1_0000, low, 0x100);
}

/// Appends `v`, most significant byte first.
pub(crate) fn push_be32(bytes: &mut Vec<u8>, v: u32)
    ensures
        final(bytes)@ == old(bytes)@ + be32(v as int),
{
    bytes.push((v / 0x100_0000) as u8);
    bytes.push((v / 0x1_0000 % 0x100) as u8);
    bytes.push((v / 0x100 % 0x100) as u8);
    bytes.push((v % 0x100) as u8);
    assert(bytes@ =~= old(bytes)@ + be32(v as int));
}

/// The bytes of a number, most significant first, add up to it.
pub proof fn law_the_bytes_add_up_to_the_number(v: int)
    ensures
        be16(v).len() == 2,
        be32(v).len() == 4,
        be64(v).len() == 8,
        0 <= v < 0x1_0000 ==> be16(v)[0] * 0x100 + be16(v)[1] == v,
        0 <= v < 0x1_0000_0000 ==> be32(v)[0] * 0x100_0000 + be32(v)[1] * 0x1_0000 + be32(v)[2]
            * 0x100 + be32(v)[3] == v,
        0 <= v < 0x1_0000_0000_0000_0000 ==> be64(v).take(4) == be32(v / 0x1_0000_0000)
            && be64(v).skip(4) == be32(v % 0x1_0000_0000),
{
    assert(be64(v).take(4) =~= be32(v / 0x1_0000_0000));
    assert(be64(v).skip(4) =~= be32(v % 0x1_0000_0000));
}

/// The pieces stand one after the other, in order.
pub proof fn law_pieces_stand_one_after_the_other(first: Seq<u8>, rest: Seq<Seq<u8>>)
    ensures
        concat(seq![first] + rest) == first + concat(rest),
        concat(seq![first]) == first,
    decreases rest.len(),
{
    reveal_with_fuel(concat, 2);
    let all = seq![first] + rest;
    assert(seq![first].drop_last() =~= Seq::empty());
    assert(concat(seq![first]) =~= first);
    if rest.len() == 0 {
        assert(all =~= seq![first]);
        assert(first + concat(rest) =~= first);
    } else {
        law_pieces_stand_one_after_the_other(first, rest.drop_last());
        assert(all.drop_last() =~= seq![first] + rest.drop_last());
        assert(concat(all) =~= first + concat(rest));
    }
}

} // verus!
