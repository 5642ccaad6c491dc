//! Slot records: where on an object things and people can be put.

use crate::bytes::{le_i16, le_i32, le_u32, push_all, push_i16_le, push_i32_le, push_u32_le};
use crate::error::Error;
use crate::iff::{new_chunk, ChunkModel, IffChunk, IffChunkId, TAG_SLOT};
use vstd::prelude::*;
use vstd::utf8::encode_utf8;

verus! {

/// The version of the slot layout that is written.
pub const SLOT_HEADER_VERSION: u32 = 10;

/// Bytes of a slot payload before its first descriptor.
pub const SLOT_HEADER_SIZE: usize = 16;

/// Bytes of one slot descriptor.
pub const SLOT_DESCRIPTOR_SIZE: usize = 70;

/// The marker of a slot payload.
pub const SLOT_MAGIC: [u8; 4] = [84, 79, 76, 83];

/// The bit pattern of the gradient that a descriptor has where none is
/// given: 0.1875 in single precision.
pub const SLOT_DEFAULT_GRADIENT: u32 = 0x3e40_0000;

/// The kind of a slot.
#[derive(Copy, Clone, Debug, PartialEq, Eq, Structural)]
pub enum SlotType {
    Zero,
    One,
    Three,
}

impl SlotType {
    /// The number that the record holds for the kind.
    pub open spec fn spec_code(self) -> i16 {
        match self {
            SlotType::Zero => 0,
            SlotType::One => 1,
            SlotType::Three => 3,
        }
    }

    /// The number that the record holds for the kind.
    pub fn code(self) -> (c: i16)
        ensures
            c == self.spec_code(),
    {
        match self {
            SlotType::Zero => 0,
            SlotType::One => 1,
            SlotType::Three => 3,
        }
    }
}

/// One slot. The three offsets and the gradient are single-precision
/// numbers, held as their bit patterns; a field that is `None` is written
/// with its default.
#[derive(Copy, Clone, Debug)]
pub struct SlotDescriptor {
    pub slot_type: SlotType,
    pub xoffset: u32,
    pub yoffset: u32,
    pub altoffset: u32,
    pub standing: Option<i32>,
    pub sitting: Option<i32>,
    pub ground: Option<i32>,
    pub rsflags: Option<i32>,
    pub snaptargetslot: Option<i32>,
    pub minproximity: Option<i32>,
    pub maxproximity: Option<i32>,
    pub optimalproximity: Option<i32>,
    pub maxsize: Option<i32>,
    pub flags: Option<i32>,
    pub gradient: Option<u32>,
    pub height: Option<i32>,
    pub facing: Option<i32>,
    pub resolution: Option<i32>,
}

impl Default for SlotDescriptor {
    /// The descriptor of kind zero with offsets of zero and every other
    /// field absent.
    fn default() -> (descriptor: SlotDescriptor)
        ensures
            descriptor.slot_type == SlotType::Zero,
            descriptor.xoffset == 0,
            descriptor.yoffset == 0,
            descriptor.altoffset == 0,
            descriptor.standing is None,
            descriptor.sitting is None,
            descriptor.ground is None,
            descriptor.rsflags is None,
            descriptor.snaptargetslot is None,
            descriptor.minproximity is None,
            descriptor.maxproximity is None,
            descriptor.optimalproximity is None,
            descriptor.maxsize is None,
            descriptor.flags is None,
            descriptor.gradient is None,
            descriptor.height is None,
            descriptor.facing is None,
            descriptor.resolution is None,
    {
        SlotDescriptor {
            slot_type: SlotType::Zero,
            xoffset: 0,
            yoffset: 0,
            altoffset: 0,
            standing: None,
            sitting: None,
            ground: None,
            rsflags: None,
            snaptargetslot: None,
            minproximity: None,
            maxproximity: None,
            optimalproximity: None,
            maxsize: None,
            flags: None,
            gradient: None,
            height: None,
            facing: None,
            resolution: None,
        }
    }
}

/// The slots of one object.
#[derive(Debug)]
pub struct Slot {
    pub chunk_label: String,
    pub chunk_id: IffChunkId,
    pub slot_descriptors: Vec<SlotDescriptor>,
}

/// The value of a field, or its default where the field is absent.
pub open spec fn or_default(field: Option<i32>, default: i32) -> i32 {
    match field {
        Some(value) => value,
        None => default,
    }
}

/// The value of a field, or its default where the field is absent.
pub fn value_or(field: Option<i32>, default: i32) -> (value: i32)
    ensures
        value == or_default(field, default),
{
    match field {
        Some(value) => value,
        None => default,
    }
}

impl SlotDescriptor {
    /// The gradient that is written.
    pub open spec fn written_gradient(self) -> u32 {
        match self.gradient {
            Some(bits) => bits,
            None => SLOT_DEFAULT_GRADIENT,
        }
    }

    /// The 70 bytes of the descriptor: every field in its place, an absent
    /// one with its own default.
    #[verifier::opaque]
    pub open spec fn bytes(self) -> Seq<u8> {
        Seq::<u8>::empty() + le_i16(self.slot_type.spec_code()) + le_u32(self.xoffset) + le_u32(self.yoffset) + le_u32(self.altoffset) + le_i32(or_default(self.standing, 0)) + le_i32(or_default(self.sitting, 0)) + le_i32(or_default(self.ground, 0)) + le_i32(or_default(self.rsflags, 0)) + le_i32(or_default(self.snaptargetslot, -1i32)) + le_i32(or_default(self.minproximity, 16)) + le_i32(or_default(self.maxproximity, 16)) + le_i32(or_default(self.optimalproximity, 16)) + le_i32(or_default(self.maxsize, 0)) + le_i32(or_default(self.flags, 0)) + le_u32(self.written_gradient()) + le_i32(or_default(self.height, 0)) + le_i32(or_default(self.facing, -2i32)) + le_i32(or_default(self.resolution, 16))
    }

    /// Appends the 70 bytes of the descriptor.
    pub fn write(&self, out: &mut Vec<u8>)
        ensures
            final(out)@ == old(out)@ + self.bytes(),
    {
        let gradient = match self.gradient {
            Some(bits) => bits,
            None => SLOT_DEFAULT_GRADIENT,
        };
        let ghost start = out@;
        let ghost s0 = Seq::<u8>::empty();
        assert(out@ =~= start + s0);
        push_i16_le(out, self.slot_type.code());
        let ghost s1 = s0 + le_i16(self.slot_type.spec_code());
        assert(out@ =~= start + s1);
        push_u32_le(out, self.xoffset);
        let ghost s2 = s1 + le_u32(self.xoffset);
        assert(out@ =~= start + s2);
        push_u32_le(out, self.yoffset);
        let ghost s3 = s2 + le_u32(self.yoffset);
        assert(out@ =~= start + s3);
        push_u32_le(out, self.altoffset);
        let ghost s4 = s3 + le_u32(self.altoffset);
        assert(out@ =~= start + s4);
        push_i32_le(out, value_or(self.standing, 0));
        let ghost s5 = s4 + le_i32(or_default(self.standing, 0));
        assert(out@ =~= start + s5);
        push_i32_le(out, value_or(self.sitting, 0));
        let ghost s6 = s5 + le_i32(or_default(self.sitting, 0));
        assert(out@ =~= start + s6);
        push_i32_le(out, value_or(self.ground, 0));
        let ghost s7 = s6 + le_i32(or_default(self.ground, 0));
        assert(out@ =~= start + s7);
        push_i32_le(out, value_or(self.rsflags, 0));
        let ghost s8 = s7 + le_i32(or_default(self.rsflags, 0));
        assert(out@ =~= start + s8);
        push_i32_le(out, value_or(self.snaptargetslot, -1));
        let ghost s9 = s8 + le_i32(or_default(self.snaptargetslot, -1i32));
        assert(out@ =~= start + s9);
        push_i32_le(out, value_or(self.minproximity, 16));
        let ghost s10 = s9 + le_i32(or_default(self.minproximity, 16));
        assert(out@ =~= start + s10);
        push_i32_le(out, value_or(self.maxproximity, 16));
        let ghost s11 = s10 + le_i32(or_default(self.maxproximity, 16));
        assert(out@ =~= start + s11);
        push_i32_le(out, value_or(self.optimalproximity, 16));
        let ghost s12 = s11 + le_i32(or_default(self.optimalproximity, 16));
        assert(out@ =~= start + s12);
        push_i32_le(out, value_or(self.maxsize, 0));
        let ghost s13 = s12 + le_i32(or_default(self.maxsize, 0));
        assert(out@ =~= start + s13);
        push_i32_le(out, value_or(self.flags, 0));
        let ghost s14 = s13 + le_i32(or_default(self.flags, 0));
        assert(out@ =~= start + s14);
        push_u32_le(out, gradient);
        let ghost s15 = s14 + le_u32(self.written_gradient());
        assert(out@ =~= start + s15);
        push_i32_le(out, value_or(self.height, 0));
        let ghost s16 = s15 + le_i32(or_default(self.height, 0));
        assert(out@ =~= start + s16);
        push_i32_le(out, value_or(self.facing, -2));
        let ghost s17 = s16 + le_i32(or_default(self.facing, -2i32));
        assert(out@ =~= start + s17);
        push_i32_le(out, value_or(self.resolution, 16));
        let ghost s18 = s17 + le_i32(or_default(self.resolution, 16));
        assert(out@ =~= start + s18);
        assert(self.bytes() == s18) by {
            reveal(SlotDescriptor::bytes);
        }
    }
}

/// A descriptor takes 70 bytes.
pub proof fn lemma_descriptor_len(descriptor: SlotDescriptor)
    ensures
        descriptor.bytes().len() == 70,
{
    let s0 = Seq::<u8>::empty();
    let s1 = s0 + le_i16(descriptor.slot_type.spec_code());
    assert(s1.len() == 2);
    let s2 = s1 + le_u32(descriptor.xoffset);
    assert(s2.len() == 6);
    let s3 = s2 + le_u32(descriptor.yoffset);
    assert(s3.len() == 10);
    let s4 = s3 + le_u32(descriptor.altoffset);
    assert(s4.len() == 14);
    let s5 = s4 + le_i32(or_default(descriptor.standing, 0));
    assert(s5.len() == 18);
    let s6 = s5 + le_i32(or_default(descriptor.sitting, 0));
    assert(s6.len() == 22);
    let s7 = s6 + le_i32(or_default(descriptor.ground, 0));
    assert(s7.len() == 26);
    let s8 = s7 + le_i32(or_default(descriptor.rsflags, 0));
    assert(s8.len() == 30);
    let s9 = s8 + le_i32(or_default(descriptor.snaptargetslot, -1i32));
    assert(s9.len() == 34);
    let s10 = s9 + le_i32(or_default(descriptor.minproximity, 16));
    assert(s10.len() == 38);
    let s11 = s10 + le_i32(or_default(descriptor.maxproximity, 16));
    assert(s11.len() == 42);
    let s12 = s11 + le_i32(or_default(descriptor.optimalproximity, 16));
    assert(s12.len() == 46);
    let s13 = s12 + le_i32(or_default(descriptor.maxsize, 0));
    assert(s13.len() == 50);
    let s14 = s13 + le_i32(or_default(descriptor.flags, 0));
    assert(s14.len() == 54);
    let s15 = s14 + le_u32(descriptor.written_gradient());
    assert(s15.len() == 58);
    let s16 = s15 + le_i32(or_default(descriptor.height, 0));
    assert(s16.len() == 62);
    let s17 = s16 + le_i32(or_default(descriptor.facing, -2i32));
    assert(s17.len() == 66);
    let s18 = s17 + le_i32(or_default(descriptor.resolution, 16));
    assert(s18.len() == 70);
    assert(descriptor.bytes() == s18) by {
        reveal(SlotDescriptor::bytes);
    }
}

/// The descriptors one after the other.
pub open spec fn descriptors_bytes(descriptors: Seq<SlotDescriptor>) -> Seq<u8>
    decreases descriptors.len(),
{
    if descriptors.len() == 0 {
        Seq::empty()
    } else {
        descriptors_bytes(descriptors.drop_last()) + descriptors.last().bytes()
    }
}

/// The payload of a slot record: four reserved bytes, the version, the
/// marker, the number of descriptors, and the descriptors.
pub open spec fn slot_payload(descriptors: Seq<SlotDescriptor>) -> Seq<u8> {
    le_u32(0) + le_u32(SLOT_HEADER_VERSION) + SLOT_MAGIC@ + le_u32(descriptors.len() as u32)
        + descriptors_bytes(descriptors)
}

/// The slot chunk of `slot`, or why there is none.
pub open spec fn slot_chunk(slot: Slot) -> Result<ChunkModel, Error> {
    if slot.slot_descriptors@.len() > u32::MAX {
        Err(Error::TooLarge { chunk_id: slot.chunk_id.0 })
    } else {
        new_chunk(
            TAG_SLOT@,
            slot.chunk_id.0,
            encode_utf8(slot.chunk_label@),
            slot_payload(slot.slot_descriptors@),
        )
    }
}

/// The descriptors take 70 bytes each.
pub proof fn lemma_descriptors_len(descriptors: Seq<SlotDescriptor>)
    ensures
        descriptors_bytes(descriptors).len() == 70 * descriptors.len(),
        slot_payload(descriptors).len() == 16 + 70 * descriptors.len(),
    decreases descriptors.len(),
{
    if descriptors.len() > 0 {
        lemma_descriptors_len(descriptors.drop_last());
        lemma_descriptor_len(descriptors.last());
    }
}

impl Slot {
    /// Builds the slot chunk: a header of 16 bytes and one record of 70
    /// bytes for each descriptor.
    pub fn to_chunk(&self) -> (r: Result<IffChunk, Error>)
        ensures
            match r {
                Ok(chunk) => slot_chunk(*self) == Ok::<ChunkModel, Error>(chunk@),
                Err(e) => slot_chunk(*self) == Err::<ChunkModel, Error>(e),
            },
    {
        if self.slot_descriptors.len() > 0xffff_ffff {
            return Err(Error::TooLarge { chunk_id: self.chunk_id.as_i16() });
        }
        let mut data: Vec<u8> = Vec::new();
        push_u32_le(&mut data, 0);
        push_u32_le(&mut data, SLOT_HEADER_VERSION);
        push_all(&mut data, SLOT_MAGIC.as_slice());
        push_u32_le(&mut data, self.slot_descriptors.len() as u32);
        let ghost head = data@;
        let ghost all = self.slot_descriptors@;
        let mut i: usize = 0;
        assert(all.take(0) =~= Seq::<SlotDescriptor>::empty());
        assert(data@ =~= head + descriptors_bytes(all.take(0)));
        while i < self.slot_descriptors.len()
            invariant
                i <= self.slot_descriptors.len(),
                all == self.slot_descriptors@,
                data@ == head + descriptors_bytes(all.take(i as int)),
            decreases self.slot_descriptors.len() - i,
        {
            self.slot_descriptors[i].write(&mut data);
            proof {
                assert(all.take(i + 1).drop_last() =~= all.take(i as int));
                assert(all.take(i + 1).last() == all[i as int]);
                assert(data@ =~= head + descriptors_bytes(all.take(i + 1)));
            }
            i += 1;
        }
        assert(all.take(i as int) =~= all);
        assert(data@ =~= slot_payload(all));
        IffChunk::new(&TAG_SLOT, self.chunk_id, self.chunk_label.as_str(), data)
    }

    /// Appends the slot chunk, header and payload, to `writer`.
    pub fn write(&self, writer: &mut Vec<u8>) -> (r: Result<(), Error>)
        ensures
            match r {
                Ok(_) => slot_chunk(*self) matches Ok(chunk) && final(writer)@ == old(writer)@
                    + chunk.bytes(),
                Err(e) => slot_chunk(*self) == Err::<ChunkModel, Error>(e) && final(writer)@
                    == old(writer)@,
            },
    {
        match self.to_chunk() {
            Ok(chunk) => {
                chunk.write(writer);
                Ok(())
            },
            Err(e) => Err(e),
        }
    }
}

} // verus!
