//! Domain separation used by the public transcript.
use crate::block128::Block128;
use vstd::prelude::*;

verus! {

/// An eight-byte ASCII label.
#[derive(Debug, Clone, Copy, PartialEq, Eq)]
pub struct DomainTag(pub [u8; 8]);

/// The number whose base-256 digits, highest first, are `digits`.
pub open spec fn be_value(digits: Seq<u8>) -> nat
    decreases digits.len(),
{
    if digits.len() == 0 {
        0
    } else {
        be_value(digits.drop_last()) * 256 + digits.last() as nat
    }
}

/// The number of eight digits.
pub proof fn lemma_be_value8(d: Seq<u8>)
    requires
        d.len() == 8,
    ensures
        be_value(d) == d[0] * 0x100_0000_0000_0000 + d[1] * 0x1_0000_0000_0000 + d[2]
            * 0x100_0000_0000 + d[3] * 0x1_0000_0000 + d[4] * 0x100_0000 + d[5] * 0x1_0000 + d[6]
            * 0x100 + d[7],
{
    reveal_with_fuel(be_value, 9);
}

impl DomainTag {
    /// The tag with the given label, which must be ASCII.
    pub fn new(label: &[u8; 8]) -> (r: Self)
        requires
            forall|i: int| 0 <= i < 8 ==> label@[i] < 128,
        ensures
            r.0@ == label@,
    {
        DomainTag(*label)
    }

    /// The label read as a big-endian number.
    pub fn as_u64(&self) -> (r: u64)
        ensures
            r == be_value(self.0@),
    {
        let mut value: u64 = 0;
        let mut bound: Ghost<int> = Ghost(1);
        let mut i: usize = 0;
        while i < 8
            invariant
                i <= 8,
                value == be_value(self.0@.take(i as int)),
                value < bound@,
                bound@ == (if i == 0 {
                    1
                } else if i == 1 {
                    0x100
                } else if i == 2 {
                    0x1_0000
                } else if i == 3 {
                    0x100_0000
                } else if i == 4 {
                    0x1_0000_0000
                } else if i == 5 {
                    0x100_0000_0000
                } else if i == 6 {
                    0x1_0000_0000_0000
                } else if i == 7 {
                    0x100_0000_0000_0000
                } else {
                    0x1_0000_0000_0000_0000int
                }),
            decreases 8 - i,
        {
            proof {
                assert(self.0@.take(i + 1).drop_last() =~= self.0@.take(i as int));
                bound@ = bound@ * 256;
            }
            value = value * 256 + self.0[i] as u64;
            i = i + 1;
        }
        proof {
            assert(self.0@.take(8) =~= self.0@);
        }
        value
    }
}

/// The two capacity lanes derived from a label: its number in the upper and in the lower half of a
/// word.
pub open spec fn iv_lanes(label: u64) -> Seq<Block128> {
    seq![Block128((label as u128) << 64u128), Block128(label as u128)]
}

/// The capacity initialisation of a sponge for the domain `tag`.
pub fn capacity_iv(tag: DomainTag) -> (iv: [Block128; 2])
    ensures
        iv@ == iv_lanes(be_value(tag.0@) as u64),
{
    let label: u128 = tag.as_u64() as u128;
    let iv = [Block128(label << 64u128), Block128(label)];
    proof {
        assert(iv@ =~= iv_lanes(be_value(tag.0@) as u64));
    }
    iv
}

/// The lanes derived from a non-zero label are non-zero and differ.
pub proof fn iv_lanes_are_split(label: u64)
    requires
        label != 0,
    ensures
        iv_lanes(label)[0] != Block128(0),
        iv_lanes(label)[1] != Block128(0),
        iv_lanes(label)[0] != iv_lanes(label)[1],
{
    let wide = label as u128;
    assert(wide << 64u128 != 0 && wide << 64u128 != wide) by (bit_vector)
        requires
            0 < wide <= 0xffff_ffff_ffff_ffff,
    ;
}

/// The bytes of the label `FROSTGKR`.
pub open spec fn frost_gkr_label() -> Seq<u8> {
    seq![0x46u8, 0x52, 0x4f, 0x53, 0x54, 0x47, 0x4b, 0x52]
}

/// The Fiat-Shamir domain of this library, labelled `FROSTGKR`.
pub fn tag_frost_gkr() -> (tag: DomainTag)
    ensures
        tag.0@ == frost_gkr_label(),
{
    let label = [0x46u8, 0x52, 0x4f, 0x53, 0x54, 0x47, 0x4b, 0x52];
    proof {
        assert(label@ =~= frost_gkr_label());
    }
    DomainTag::new(&label)
}

/// The lanes derived from a label are its number times `2^64` and its number.
pub proof fn iv_lanes_hold_the_label(label: u64)
    ensures
        iv_lanes(label).len() == 2,
        iv_lanes(label)[0].0 == label * 0x1_0000_0000_0000_0000,
        iv_lanes(label)[1].0 == label,
{
    let wide = label as u128;
    assert(wide << 64u128 == wide * 0x1_0000_0000_0000_0000u128) by (bit_vector)
        requires
            wide <= 0xffff_ffff_ffff_ffff,
    ;
}

} // verus!
