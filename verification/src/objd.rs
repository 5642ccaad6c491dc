//! Object definitions: the record that describes one object of an archive
//! as a fixed sequence of little-endian integers.

use crate::bytes::{
    i32_bits, i32_le_at, le_i16, le_i32, le_u32, lemma_bits_roundtrip, lemma_u32_roundtrip,
    push_i16_le, push_i32_le,
};
use crate::error::Error;
use crate::iff::{new_chunk, ChunkModel, IffChunk, IffChunkId, TAG_OBJD};
use vstd::prelude::*;
use vstd::utf8::encode_utf8;

verus! {

/// Bytes of the payload of an object definition.
pub const OBJD_CHUNK_DATA_SIZE: usize = 216;

/// The version of the layout that is written.
pub const OBJD_VERSION: i32 = 138;

/// The description of one object: its name and id, and the fields of its
/// definition record in the order of the record.
#[derive(Debug)]
pub struct ObjectDefinition {
    pub chunk_label: String,
    pub chunk_id: IffChunkId,
    pub initialstacksize: i16,
    pub basegraphic: i16,
    pub numgraphics: i16,
    pub maintreeid: i16,
    pub gardeningtreeid: i16,
    pub treetableid: i16,
    pub interactiongroup: i16,
    pub object_type: i16,
    pub masterid: i16,
    pub subindex: i16,
    pub washhandstreeid: i16,
    pub animtableid: i16,
    pub guid: i32,
    pub disabled: i16,
    pub portaltreeid: i16,
    pub price: i16,
    pub bodystringsid: i16,
    pub slot_chunk_id: IffChunkId,
    pub allowintersectiontreeid: i16,
    pub usesfntable: i16,
    pub unused4: i16,
    pub preptreeid: i16,
    pub cooktreeid: i16,
    pub surfacetreeid: i16,
    pub disposetreeid: i16,
    pub foodtreeid: i16,
    pub pickupfromslottreeid: i16,
    pub washdishtreeid: i16,
    pub eatingsurfacetreeid: i16,
    pub sittreeid: i16,
    pub standtreeid: i16,
    pub saleprice: i16,
    pub initialdepreciation: i16,
    pub dailydepreciation: i16,
    pub selfdepreciating: i16,
    pub depreciationlimit: i16,
    pub roomflags: i16,
    pub functionflags: i16,
    pub catalogid: i16,
    pub globalsimulationobject: i16,
    pub inittreeid: i16,
    pub placementtreeid: i16,
    pub userpickuptreeid: i16,
    pub wallstyle: i16,
    pub loadtreeid: i16,
    pub userplacementtreeid: i16,
    pub objectversion: i16,
    pub roomchangedtreeid: i16,
    pub motiveeffectsid: i16,
    pub cleanuptreeid: i16,
    pub levelinforequesttreeid: i16,
    pub catalogpopupid: i16,
    pub servingsurfacetreeid: i16,
    pub leveloffset: i16,
    pub shadow: i16,
    pub numattributes: i16,
    pub cleantreeid: i16,
    pub queueskippedtreeid: i16,
    pub frontfacedirection: i16,
    pub walladjacencychangedtreeid: i16,
    pub leadobject: i16,
    pub dynspritebaseid: i16,
    pub numdynsprites: i16,
    pub chairentryflags: i16,
    pub tilewidth: i16,
    pub suitnotcopyable: i16,
    pub buildmodetype: i16,
    pub originalguid: i32,
    pub originalsuitguid: i32,
    pub pickuptreeid: i16,
    pub thumbnailgraphicindex: i16,
    pub shadowflags: i16,
    pub footprintinsetmask: i16,
    pub mtadjupdatetreeid: i16,
    pub shadowbrightness: i16,
    pub repairtreeid: i16,
    pub customwallstyleid: i16,
    pub ratinghunger: i16,
    pub ratingcomfort: i16,
    pub ratinghygiene: i16,
    pub ratingbladder: i16,
    pub ratingenergy: i16,
    pub ratingfun: i16,
    pub ratingroom: i16,
    pub ratingskillflags: i16,
    pub numtypeattributes: i16,
    pub miscflags: i16,
    pub typeattrguid: i32,
    pub functionsubsort: i16,
    pub downtownsort: i16,
    pub keepbuying: i16,
    pub vacationsort: i16,
    pub resetlotaction: i16,
    pub communitysort: i16,
    pub dreamflags: i16,
    pub renderflags: i16,
    pub unused8: i16,
    pub unused9: i16,
    pub unused10: i16,
    pub unused11: i16,
    pub unused12: i16,
    pub unused13: i16,
}

/// The fields of the record from `version` to `animtableid`.
#[verifier::opaque]
pub open spec fn objd_part0(o: ObjectDefinition, guid: i32) -> Seq<u8> {
    Seq::<u8>::empty() + le_i32(OBJD_VERSION) + le_i16(o.initialstacksize) + le_i16(o.basegraphic) + le_i16(o.numgraphics) + le_i16(o.maintreeid) + le_i16(o.gardeningtreeid) + le_i16(o.treetableid) + le_i16(o.interactiongroup) + le_i16(o.object_type) + le_i16(o.masterid) + le_i16(o.subindex) + le_i16(o.washhandstreeid) + le_i16(o.animtableid)
}

/// The fields of the record from `guid` to `disposetreeid`.
#[verifier::opaque]
pub open spec fn objd_part1(o: ObjectDefinition, guid: i32) -> Seq<u8> {
    Seq::<u8>::empty() + le_i32(guid) + le_i16(o.disabled) + le_i16(o.portaltreeid) + le_i16(o.price) + le_i16(o.bodystringsid) + le_i16(o.slot_chunk_id.0) + le_i16(o.allowintersectiontreeid) + le_i16(o.usesfntable) + le_i16(o.unused4) + le_i16(o.preptreeid) + le_i16(o.cooktreeid) + le_i16(o.surfacetreeid) + le_i16(o.disposetreeid)
}

/// The fields of the record from `foodtreeid` to `functionflags`.
#[verifier::opaque]
pub open spec fn objd_part2(o: ObjectDefinition, guid: i32) -> Seq<u8> {
    Seq::<u8>::empty() + le_i16(o.foodtreeid) + le_i16(o.pickupfromslottreeid) + le_i16(o.washdishtreeid) + le_i16(o.eatingsurfacetreeid) + le_i16(o.sittreeid) + le_i16(o.standtreeid) + le_i16(o.saleprice) + le_i16(o.initialdepreciation) + le_i16(o.dailydepreciation) + le_i16(o.selfdepreciating) + le_i16(o.depreciationlimit) + le_i16(o.roomflags) + le_i16(o.functionflags)
}

/// The fields of the record from `catalogid` to `levelinforequesttreeid`.
#[verifier::opaque]
pub open spec fn objd_part3(o: ObjectDefinition, guid: i32) -> Seq<u8> {
    Seq::<u8>::empty() + le_i16(o.catalogid) + le_i16(o.globalsimulationobject) + le_i16(o.inittreeid) + le_i16(o.placementtreeid) + le_i16(o.userpickuptreeid) + le_i16(o.wallstyle) + le_i16(o.loadtreeid) + le_i16(o.userplacementtreeid) + le_i16(o.objectversion) + le_i16(o.roomchangedtreeid) + le_i16(o.motiveeffectsid) + le_i16(o.cleanuptreeid) + le_i16(o.levelinforequesttreeid)
}

/// The fields of the record from `catalogpopupid` to `chairentryflags`.
#[verifier::opaque]
pub open spec fn objd_part4(o: ObjectDefinition, guid: i32) -> Seq<u8> {
    Seq::<u8>::empty() + le_i16(o.catalogpopupid) + le_i16(o.servingsurfacetreeid) + le_i16(o.leveloffset) + le_i16(o.shadow) + le_i16(o.numattributes) + le_i16(o.cleantreeid) + le_i16(o.queueskippedtreeid) + le_i16(o.frontfacedirection) + le_i16(o.walladjacencychangedtreeid) + le_i16(o.leadobject) + le_i16(o.dynspritebaseid) + le_i16(o.numdynsprites) + le_i16(o.chairentryflags)
}

/// The fields of the record from `tilewidth` to `customwallstyleid`.
#[verifier::opaque]
pub open spec fn objd_part5(o: ObjectDefinition, guid: i32) -> Seq<u8> {
    Seq::<u8>::empty() + le_i16(o.tilewidth) + le_i16(o.suitnotcopyable) + le_i16(o.buildmodetype) + le_i32(o.originalguid) + le_i32(o.originalsuitguid) + le_i16(o.pickuptreeid) + le_i16(o.thumbnailgraphicindex) + le_i16(o.shadowflags) + le_i16(o.footprintinsetmask) + le_i16(o.mtadjupdatetreeid) + le_i16(o.shadowbrightness) + le_i16(o.repairtreeid) + le_i16(o.customwallstyleid)
}

/// The fields of the record from `ratinghunger` to `downtownsort`.
#[verifier::opaque]
pub open spec fn objd_part6(o: ObjectDefinition, guid: i32) -> Seq<u8> {
    Seq::<u8>::empty() + le_i16(o.ratinghunger) + le_i16(o.ratingcomfort) + le_i16(o.ratinghygiene) + le_i16(o.ratingbladder) + le_i16(o.ratingenergy) + le_i16(o.ratingfun) + le_i16(o.ratingroom) + le_i16(o.ratingskillflags) + le_i16(o.numtypeattributes) + le_i16(o.miscflags) + le_i32(o.typeattrguid) + le_i16(o.functionsubsort) + le_i16(o.downtownsort)
}

/// The fields of the record from `keepbuying` to `unused13`.
#[verifier::opaque]
pub open spec fn objd_part7(o: ObjectDefinition, guid: i32) -> Seq<u8> {
    Seq::<u8>::empty() + le_i16(o.keepbuying) + le_i16(o.vacationsort) + le_i16(o.resetlotaction) + le_i16(o.communitysort) + le_i16(o.dreamflags) + le_i16(o.renderflags) + le_i16(o.unused8) + le_i16(o.unused9) + le_i16(o.unused10) + le_i16(o.unused11) + le_i16(o.unused12) + le_i16(o.unused13)
}

/// The payload of the definition of `o` with `guid` in the place of the
/// GUID: the fields of the record in their fixed order, each as
/// little-endian two's complement.
pub open spec fn objd_payload(o: ObjectDefinition, guid: i32) -> Seq<u8> {
    objd_part0(o, guid) + objd_part1(o, guid) + objd_part2(o, guid) + objd_part3(o, guid) + objd_part4(o, guid) + objd_part5(o, guid) + objd_part6(o, guid) + objd_part7(o, guid)
}

/// The GUID that the definition of `o` is written with: the replacement
/// where there is one, else the one that the description holds.
pub open spec fn written_guid(o: ObjectDefinition, replacement_guid: Option<i32>) -> i32 {
    match replacement_guid {
        Some(guid) => guid,
        None => o.guid,
    }
}

/// The definition chunk of `o`, or why there is none.
pub open spec fn objd_chunk(o: ObjectDefinition, replacement_guid: Option<i32>) -> Result<
    ChunkModel,
    Error,
> {
    new_chunk(
        TAG_OBJD@,
        o.chunk_id.0,
        encode_utf8(o.chunk_label@),
        objd_payload(o, written_guid(o, replacement_guid)),
    )
}

fn push_part0(out: &mut Vec<u8>, o: &ObjectDefinition, guid: i32)
    ensures
        final(out)@ == old(out)@ + objd_part0(*o, guid),
{
    let ghost start = out@;
    let ghost s0 = Seq::<u8>::empty();
    assert(out@ =~= start + s0);
    push_i32_le(out, OBJD_VERSION);
    let ghost s1 = s0 + le_i32(OBJD_VERSION);
    assert(out@ =~= start + s1);
    push_i16_le(out, o.initialstacksize);
    let ghost s2 = s1 + le_i16(o.initialstacksize);
    assert(out@ =~= start + s2);
    push_i16_le(out, o.basegraphic);
    let ghost s3 = s2 + le_i16(o.basegraphic);
    assert(out@ =~= start + s3);
    push_i16_le(out, o.numgraphics);
    let ghost s4 = s3 + le_i16(o.numgraphics);
    assert(out@ =~= start + s4);
    push_i16_le(out, o.maintreeid);
    let ghost s5 = s4 + le_i16(o.maintreeid);
    assert(out@ =~= start + s5);
    push_i16_le(out, o.gardeningtreeid);
    let ghost s6 = s5 + le_i16(o.gardeningtreeid);
    assert(out@ =~= start + s6);
    push_i16_le(out, o.treetableid);
    let ghost s7 = s6 + le_i16(o.treetableid);
    assert(out@ =~= start + s7);
    push_i16_le(out, o.interactiongroup);
    let ghost s8 = s7 + le_i16(o.interactiongroup);
    assert(out@ =~= start + s8);
    push_i16_le(out, o.object_type);
    let ghost s9 = s8 + le_i16(o.object_type);
    assert(out@ =~= start + s9);
    push_i16_le(out, o.masterid);
    let ghost s10 = s9 + le_i16(o.masterid);
    assert(out@ =~= start + s10);
    push_i16_le(out, o.subindex);
    let ghost s11 = s10 + le_i16(o.subindex);
    assert(out@ =~= start + s11);
    push_i16_le(out, o.washhandstreeid);
    let ghost s12 = s11 + le_i16(o.washhandstreeid);
    assert(out@ =~= start + s12);
    push_i16_le(out, o.animtableid);
    let ghost s13 = s12 + le_i16(o.animtableid);
    assert(out@ =~= start + s13);
    assert(objd_part0(*o, guid) == s13) by {
        reveal(objd_part0);
    }
}

fn push_part1(out: &mut Vec<u8>, o: &ObjectDefinition, guid: i32)
    ensures
        final(out)@ == old(out)@ + objd_part1(*o, guid),
{
    let ghost start = out@;
    let ghost s0 = Seq::<u8>::empty();
    assert(out@ =~= start + s0);
    push_i32_le(out, guid);
    let ghost s1 = s0 + le_i32(guid);
    assert(out@ =~= start + s1);
    push_i16_le(out, o.disabled);
    let ghost s2 = s1 + le_i16(o.disabled);
    assert(out@ =~= start + s2);
    push_i16_le(out, o.portaltreeid);
    let ghost s3 = s2 + le_i16(o.portaltreeid);
    assert(out@ =~= start + s3);
    push_i16_le(out, o.price);
    let ghost s4 = s3 + le_i16(o.price);
    assert(out@ =~= start + s4);
    push_i16_le(out, o.bodystringsid);
    let ghost s5 = s4 + le_i16(o.bodystringsid);
    assert(out@ =~= start + s5);
    push_i16_le(out, o.slot_chunk_id.as_i16());
    let ghost s6 = s5 + le_i16(o.slot_chunk_id.0);
    assert(out@ =~= start + s6);
    push_i16_le(out, o.allowintersectiontreeid);
    let ghost s7 = s6 + le_i16(o.allowintersectiontreeid);
    assert(out@ =~= start + s7);
    push_i16_le(out, o.usesfntable);
    let ghost s8 = s7 + le_i16(o.usesfntable);
    assert(out@ =~= start + s8);
    push_i16_le(out, o.unused4);
    let ghost s9 = s8 + le_i16(o.unused4);
    assert(out@ =~= start + s9);
    push_i16_le(out, o.preptreeid);
    let ghost s10 = s9 + le_i16(o.preptreeid);
    assert(out@ =~= start + s10);
    push_i16_le(out, o.cooktreeid);
    let ghost s11 = s10 + le_i16(o.cooktreeid);
    assert(out@ =~= start + s11);
    push_i16_le(out, o.surfacetreeid);
    let ghost s12 = s11 + le_i16(o.surfacetreeid);
    assert(out@ =~= start + s12);
    push_i16_le(out, o.disposetreeid);
    let ghost s13 = s12 + le_i16(o.disposetreeid);
    assert(out@ =~= start + s13);
    assert(objd_part1(*o, guid) == s13) by {
        reveal(objd_part1);
    }
}

fn push_part2(out: &mut Vec<u8>, o: &ObjectDefinition, guid: i32)
    ensures
        final(out)@ == old(out)@ + objd_part2(*o, guid),
{
    let ghost start = out@;
    let ghost s0 = Seq::<u8>::empty();
    assert(out@ =~= start + s0);
    push_i16_le(out, o.foodtreeid);
    let ghost s1 = s0 + le_i16(o.foodtreeid);
    assert(out@ =~= start + s1);
    push_i16_le(out, o.pickupfromslottreeid);
    let ghost s2 = s1 + le_i16(o.pickupfromslottreeid);
    assert(out@ =~= start + s2);
    push_i16_le(out, o.washdishtreeid);
    let ghost s3 = s2 + le_i16(o.washdishtreeid);
    assert(out@ =~= start + s3);
    push_i16_le(out, o.eatingsurfacetreeid);
    let ghost s4 = s3 + le_i16(o.eatingsurfacetreeid);
    assert(out@ =~= start + s4);
    push_i16_le(out, o.sittreeid);
    let ghost s5 = s4 + le_i16(o.sittreeid);
    assert(out@ =~= start + s5);
    push_i16_le(out, o.standtreeid);
    let ghost s6 = s5 + le_i16(o.standtreeid);
    assert(out@ =~= start + s6);
    push_i16_le(out, o.saleprice);
    let ghost s7 = s6 + le_i16(o.saleprice);
    assert(out@ =~= start + s7);
    push_i16_le(out, o.initialdepreciation);
    let ghost s8 = s7 + le_i16(o.initialdepreciation);
    assert(out@ =~= start + s8);
    push_i16_le(out, o.dailydepreciation);
    let ghost s9 = s8 + le_i16(o.dailydepreciation);
    assert(out@ =~= start + s9);
    push_i16_le(out, o.selfdepreciating);
    let ghost s10 = s9 + le_i16(o.selfdepreciating);
    assert(out@ =~= start + s10);
    push_i16_le(out, o.depreciationlimit);
    let ghost s11 = s10 + le_i16(o.depreciationlimit);
    assert(out@ =~= start + s11);
    push_i16_le(out, o.roomflags);
    let ghost s12 = s11 + le_i16(o.roomflags);
    assert(out@ =~= start + s12);
    push_i16_le(out, o.functionflags);
    let ghost s13 = s12 + le_i16(o.functionflags);
    assert(out@ =~= start + s13);
    assert(objd_part2(*o, guid) == s13) by {
        reveal(objd_part2);
    }
}

fn push_part3(out: &mut Vec<u8>, o: &ObjectDefinition, guid: i32)
    ensures
        final(out)@ == old(out)@ + objd_part3(*o, guid),
{
    let ghost start = out@;
    let ghost s0 = Seq::<u8>::empty();
    assert(out@ =~= start + s0);
    push_i16_le(out, o.catalogid);
    let ghost s1 = s0 + le_i16(o.catalogid);
    assert(out@ =~= start + s1);
    push_i16_le(out, o.globalsimulationobject);
    let ghost s2 = s1 + le_i16(o.globalsimulationobject);
    assert(out@ =~= start + s2);
    push_i16_le(out, o.inittreeid);
    let ghost s3 = s2 + le_i16(o.inittreeid);
    assert(out@ =~= start + s3);
    push_i16_le(out, o.placementtreeid);
    let ghost s4 = s3 + le_i16(o.placementtreeid);
    assert(out@ =~= start + s4);
    push_i16_le(out, o.userpickuptreeid);
    let ghost s5 = s4 + le_i16(o.userpickuptreeid);
    assert(out@ =~= start + s5);
    push_i16_le(out, o.wallstyle);
    let ghost s6 = s5 + le_i16(o.wallstyle);
    assert(out@ =~= start + s6);
    push_i16_le(out, o.loadtreeid);
    let ghost s7 = s6 + le_i16(o.loadtreeid);
    assert(out@ =~= start + s7);
    push_i16_le(out, o.userplacementtreeid);
    let ghost s8 = s7 + le_i16(o.userplacementtreeid);
    assert(out@ =~= start + s8);
    push_i16_le(out, o.objectversion);
    let ghost s9 = s8 + le_i16(o.objectversion);
    assert(out@ =~= start + s9);
    push_i16_le(out, o.roomchangedtreeid);
    let ghost s10 = s9 + le_i16(o.roomchangedtreeid);
    assert(out@ =~= start + s10);
    push_i16_le(out, o.motiveeffectsid);
    let ghost s11 = s10 + le_i16(o.motiveeffectsid);
    assert(out@ =~= start + s11);
    push_i16_le(out, o.cleanuptreeid);
    let ghost s12 = s11 + le_i16(o.cleanuptreeid);
    assert(out@ =~= start + s12);
    push_i16_le(out, o.levelinforequesttreeid);
    let ghost s13 = s12 + le_i16(o.levelinforequesttreeid);
    assert(out@ =~= start + s13);
    assert(objd_part3(*o, guid) == s13) by {
        reveal(objd_part3);
    }
}

fn push_part4(out: &mut Vec<u8>, o: &ObjectDefinition, guid: i32)
    ensures
        final(out)@ == old(out)@ + objd_part4(*o, guid),
{
    let ghost start = out@;
    let ghost s0 = Seq::<u8>::empty();
    assert(out@ =~= start + s0);
    push_i16_le(out, o.catalogpopupid);
    let ghost s1 = s0 + le_i16(o.catalogpopupid);
    assert(out@ =~= start + s1);
    push_i16_le(out, o.servingsurfacetreeid);
    let ghost s2 = s1 + le_i16(o.servingsurfacetreeid);
    assert(out@ =~= start + s2);
    push_i16_le(out, o.leveloffset);
    let ghost s3 = s2 + le_i16(o.leveloffset);
    assert(out@ =~= start + s3);
    push_i16_le(out, o.shadow);
    let ghost s4 = s3 + le_i16(o.shadow);
    assert(out@ =~= start + s4);
    push_i16_le(out, o.numattributes);
    let ghost s5 = s4 + le_i16(o.numattributes);
    assert(out@ =~= start + s5);
    push_i16_le(out, o.cleantreeid);
    let ghost s6 = s5 + le_i16(o.cleantreeid);
    assert(out@ =~= start + s6);
    push_i16_le(out, o.queueskippedtreeid);
    let ghost s7 = s6 + le_i16(o.queueskippedtreeid);
    assert(out@ =~= start + s7);
    push_i16_le(out, o.frontfacedirection);
    let ghost s8 = s7 + le_i16(o.frontfacedirection);
    assert(out@ =~= start + s8);
    push_i16_le(out, o.walladjacencychangedtreeid);
    let ghost s9 = s8 + le_i16(o.walladjacencychangedtreeid);
    assert(out@ =~= start + s9);
    push_i16_le(out, o.leadobject);
    let ghost s10 = s9 + le_i16(o.leadobject);
    assert(out@ =~= start + s10);
    push_i16_le(out, o.dynspritebaseid);
    let ghost s11 = s10 + le_i16(o.dynspritebaseid);
    assert(out@ =~= start + s11);
    push_i16_le(out, o.numdynsprites);
    let ghost s12 = s11 + le_i16(o.numdynsprites);
    assert(out@ =~= start + s12);
    push_i16_le(out, o.chairentryflags);
    let ghost s13 = s12 + le_i16(o.chairentryflags);
    assert(out@ =~= start + s13);
    assert(objd_part4(*o, guid) == s13) by {
        reveal(objd_part4);
    }
}

fn push_part5(out: &mut Vec<u8>, o: &ObjectDefinition, guid: i32)
    ensures
        final(out)@ == old(out)@ + objd_part5(*o, guid),
{
    let ghost start = out@;
    let ghost s0 = Seq::<u8>::empty();
    assert(out@ =~= start + s0);
    push_i16_le(out, o.tilewidth);
    let ghost s1 = s0 + le_i16(o.tilewidth);
    assert(out@ =~= start + s1);
    push_i16_le(out, o.suitnotcopyable);
    let ghost s2 = s1 + le_i16(o.suitnotcopyable);
    assert(out@ =~= start + s2);
    push_i16_le(out, o.buildmodetype);
    let ghost s3 = s2 + le_i16(o.buildmodetype);
    assert(out@ =~= start + s3);
    push_i32_le(out, o.originalguid);
    let ghost s4 = s3 + le_i32(o.originalguid);
    assert(out@ =~= start + s4);
    push_i32_le(out, o.originalsuitguid);
    let ghost s5 = s4 + le_i32(o.originalsuitguid);
    assert(out@ =~= start + s5);
    push_i16_le(out, o.pickuptreeid);
    let ghost s6 = s5 + le_i16(o.pickuptreeid);
    assert(out@ =~= start + s6);
    push_i16_le(out, o.thumbnailgraphicindex);
    let ghost s7 = s6 + le_i16(o.thumbnailgraphicindex);
    assert(out@ =~= start + s7);
    push_i16_le(out, o.shadowflags);
    let ghost s8 = s7 + le_i16(o.shadowflags);
    assert(out@ =~= start + s8);
    push_i16_le(out, o.footprintinsetmask);
    let ghost s9 = s8 + le_i16(o.footprintinsetmask);
    assert(out@ =~= start + s9);
    push_i16_le(out, o.mtadjupdatetreeid);
    let ghost s10 = s9 + le_i16(o.mtadjupdatetreeid);
    assert(out@ =~= start + s10);
    push_i16_le(out, o.shadowbrightness);
    let ghost s11 = s10 + le_i16(o.shadowbrightness);
    assert(out@ =~= start + s11);
    push_i16_le(out, o.repairtreeid);
    let ghost s12 = s11 + le_i16(o.repairtreeid);
    assert(out@ =~= start + s12);
    push_i16_le(out, o.customwallstyleid);
    let ghost s13 = s12 + le_i16(o.customwallstyleid);
    assert(out@ =~= start + s13);
    assert(objd_part5(*o, guid) == s13) by {
        reveal(objd_part5);
    }
}

fn push_part6(out: &mut Vec<u8>, o: &ObjectDefinition, guid: i32)
    ensures
        final(out)@ == old(out)@ + objd_part6(*o, guid),
{
    let ghost start = out@;
    let ghost s0 = Seq::<u8>::empty();
    assert(out@ =~= start + s0);
    push_i16_le(out, o.ratinghunger);
    let ghost s1 = s0 + le_i16(o.ratinghunger);
    assert(out@ =~= start + s1);
    push_i16_le(out, o.ratingcomfort);
    let ghost s2 = s1 + le_i16(o.ratingcomfort);
    assert(out@ =~= start + s2);
    push_i16_le(out, o.ratinghygiene);
    let ghost s3 = s2 + le_i16(o.ratinghygiene);
    assert(out@ =~= start + s3);
    push_i16_le(out, o.ratingbladder);
    let ghost s4 = s3 + le_i16(o.ratingbladder);
    assert(out@ =~= start + s4);
    push_i16_le(out, o.ratingenergy);
    let ghost s5 = s4 + le_i16(o.ratingenergy);
    assert(out@ =~= start + s5);
    push_i16_le(out, o.ratingfun);
    let ghost s6 = s5 + le_i16(o.ratingfun);
    assert(out@ =~= start + s6);
    push_i16_le(out, o.ratingroom);
    let ghost s7 = s6 + le_i16(o.ratingroom);
    assert(out@ =~= start + s7);
    push_i16_le(out, o.ratingskillflags);
    let ghost s8 = s7 + le_i16(o.ratingskillflags);
    assert(out@ =~= start + s8);
    push_i16_le(out, o.numtypeattributes);
    let ghost s9 = s8 + le_i16(o.numtypeattributes);
    assert(out@ =~= start + s9);
    push_i16_le(out, o.miscflags);
    let ghost s10 = s9 + le_i16(o.miscflags);
    assert(out@ =~= start + s10);
    push_i32_le(out, o.typeattrguid);
    let ghost s11 = s10 + le_i32(o.typeattrguid);
    assert(out@ =~= start + s11);
    push_i16_le(out, o.functionsubsort);
    let ghost s12 = s11 + le_i16(o.functionsubsort);
    assert(out@ =~= start + s12);
    push_i16_le(out, o.downtownsort);
    let ghost s13 = s12 + le_i16(o.downtownsort);
    assert(out@ =~= start + s13);
    assert(objd_part6(*o, guid) == s13) by {
        reveal(objd_part6);
    }
}

fn push_part7(out: &mut Vec<u8>, o: &ObjectDefinition, guid: i32)
    ensures
        final(out)@ == old(out)@ + objd_part7(*o, guid),
{
    let ghost start = out@;
    let ghost s0 = Seq::<u8>::empty();
    assert(out@ =~= start + s0);
    push_i16_le(out, o.keepbuying);
    let ghost s1 = s0 + le_i16(o.keepbuying);
    assert(out@ =~= start + s1);
    push_i16_le(out, o.vacationsort);
    let ghost s2 = s1 + le_i16(o.vacationsort);
    assert(out@ =~= start + s2);
    push_i16_le(out, o.resetlotaction);
    let ghost s3 = s2 + le_i16(o.resetlotaction);
    assert(out@ =~= start + s3);
    push_i16_le(out, o.communitysort);
    let ghost s4 = s3 + le_i16(o.communitysort);
    assert(out@ =~= start + s4);
    push_i16_le(out, o.dreamflags);
    let ghost s5 = s4 + le_i16(o.dreamflags);
    assert(out@ =~= start + s5);
    push_i16_le(out, o.renderflags);
    let ghost s6 = s5 + le_i16(o.renderflags);
    assert(out@ =~= start + s6);
    push_i16_le(out, o.unused8);
    let ghost s7 = s6 + le_i16(o.unused8);
    assert(out@ =~= start + s7);
    push_i16_le(out, o.unused9);
    let ghost s8 = s7 + le_i16(o.unused9);
    assert(out@ =~= start + s8);
    push_i16_le(out, o.unused10);
    let ghost s9 = s8 + le_i16(o.unused10);
    assert(out@ =~= start + s9);
    push_i16_le(out, o.unused11);
    let ghost s10 = s9 + le_i16(o.unused11);
    assert(out@ =~= start + s10);
    push_i16_le(out, o.unused12);
    let ghost s11 = s10 + le_i16(o.unused12);
    assert(out@ =~= start + s11);
    push_i16_le(out, o.unused13);
    let ghost s12 = s11 + le_i16(o.unused13);
    assert(out@ =~= start + s12);
    assert(objd_part7(*o, guid) == s12) by {
        reveal(objd_part7);
    }
}

/// The length of this part of the record.
pub proof fn lemma_objd_part0(o: ObjectDefinition, guid: i32)
    ensures
        objd_part0(o, guid).len() == 28,
{
    let s0 = Seq::<u8>::empty();
    let s1 = s0 + le_i32(OBJD_VERSION);
    assert(s1.len() == 4);
    let s2 = s1 + le_i16(o.initialstacksize);
    assert(s2.len() == 6);
    let s3 = s2 + le_i16(o.basegraphic);
    assert(s3.len() == 8);
    let s4 = s3 + le_i16(o.numgraphics);
    assert(s4.len() == 10);
    let s5 = s4 + le_i16(o.maintreeid);
    assert(s5.len() == 12);
    let s6 = s5 + le_i16(o.gardeningtreeid);
    assert(s6.len() == 14);
    let s7 = s6 + le_i16(o.treetableid);
    assert(s7.len() == 16);
    let s8 = s7 + le_i16(o.interactiongroup);
    assert(s8.len() == 18);
    let s9 = s8 + le_i16(o.object_type);
    assert(s9.len() == 20);
    let s10 = s9 + le_i16(o.masterid);
    assert(s10.len() == 22);
    let s11 = s10 + le_i16(o.subindex);
    assert(s11.len() == 24);
    let s12 = s11 + le_i16(o.washhandstreeid);
    assert(s12.len() == 26);
    let s13 = s12 + le_i16(o.animtableid);
    assert(s13.len() == 28);
    assert(objd_part0(o, guid) == s13) by {
        reveal(objd_part0);
    }
}

/// The length of this part of the record, which the GUID opens.
pub proof fn lemma_objd_part1(o: ObjectDefinition, guid: i32)
    ensures
        objd_part1(o, guid).len() == 28,
        objd_part1(o, guid).subrange(0, 4) == le_i32(guid),
{
    let s0 = Seq::<u8>::empty();
    let s1 = s0 + le_i32(guid);
    assert(s1.len() == 4);
    assert(s1.subrange(0, 4) =~= le_i32(guid));
    let s2 = s1 + le_i16(o.disabled);
    assert(s2.len() == 6);
    assert(s2.subrange(0, 4) =~= le_i32(guid));
    let s3 = s2 + le_i16(o.portaltreeid);
    assert(s3.len() == 8);
    assert(s3.subrange(0, 4) =~= le_i32(guid));
    let s4 = s3 + le_i16(o.price);
    assert(s4.len() == 10);
    assert(s4.subrange(0, 4) =~= le_i32(guid));
    let s5 = s4 + le_i16(o.bodystringsid);
    assert(s5.len() == 12);
    assert(s5.subrange(0, 4) =~= le_i32(guid));
    let s6 = s5 + le_i16(o.slot_chunk_id.0);
    assert(s6.len() == 14);
    assert(s6.subrange(0, 4) =~= le_i32(guid));
    let s7 = s6 + le_i16(o.allowintersectiontreeid);
    assert(s7.len() == 16);
    assert(s7.subrange(0, 4) =~= le_i32(guid));
    let s8 = s7 + le_i16(o.usesfntable);
    assert(s8.len() == 18);
    assert(s8.subrange(0, 4) =~= le_i32(guid));
    let s9 = s8 + le_i16(o.unused4);
    assert(s9.len() == 20);
    assert(s9.subrange(0, 4) =~= le_i32(guid));
    let s10 = s9 + le_i16(o.preptreeid);
    assert(s10.len() == 22);
    assert(s10.subrange(0, 4) =~= le_i32(guid));
    let s11 = s10 + le_i16(o.cooktreeid);
    assert(s11.len() == 24);
    assert(s11.subrange(0, 4) =~= le_i32(guid));
    let s12 = s11 + le_i16(o.surfacetreeid);
    assert(s12.len() == 26);
    assert(s12.subrange(0, 4) =~= le_i32(guid));
    let s13 = s12 + le_i16(o.disposetreeid);
    assert(s13.len() == 28);
    assert(s13.subrange(0, 4) =~= le_i32(guid));
    assert(objd_part1(o, guid) == s13) by {
        reveal(objd_part1);
    }
}

/// The length of this part of the record.
pub proof fn lemma_objd_part2(o: ObjectDefinition, guid: i32)
    ensures
        objd_part2(o, guid).len() == 26,
{
    let s0 = Seq::<u8>::empty();
    let s1 = s0 + le_i16(o.foodtreeid);
    assert(s1.len() == 2);
    let s2 = s1 + le_i16(o.pickupfromslottreeid);
    assert(s2.len() == 4);
    let s3 = s2 + le_i16(o.washdishtreeid);
    assert(s3.len() == 6);
    let s4 = s3 + le_i16(o.eatingsurfacetreeid);
    assert(s4.len() == 8);
    let s5 = s4 + le_i16(o.sittreeid);
    assert(s5.len() == 10);
    let s6 = s5 + le_i16(o.standtreeid);
    assert(s6.len() == 12);
    let s7 = s6 + le_i16(o.saleprice);
    assert(s7.len() == 14);
    let s8 = s7 + le_i16(o.initialdepreciation);
    assert(s8.len() == 16);
    let s9 = s8 + le_i16(o.dailydepreciation);
    assert(s9.len() == 18);
    let s10 = s9 + le_i16(o.selfdepreciating);
    assert(s10.len() == 20);
    let s11 = s10 + le_i16(o.depreciationlimit);
    assert(s11.len() == 22);
    let s12 = s11 + le_i16(o.roomflags);
    assert(s12.len() == 24);
    let s13 = s12 + le_i16(o.functionflags);
    assert(s13.len() == 26);
    assert(objd_part2(o, guid) == s13) by {
        reveal(objd_part2);
    }
}

/// The length of this part of the record.
pub proof fn lemma_objd_part3(o: ObjectDefinition, guid: i32)
    ensures
        objd_part3(o, guid).len() == 26,
{
    let s0 = Seq::<u8>::empty();
    let s1 = s0 + le_i16(o.catalogid);
    assert(s1.len() == 2);
    let s2 = s1 + le_i16(o.globalsimulationobject);
    assert(s2.len() == 4);
    let s3 = s2 + le_i16(o.inittreeid);
    assert(s3.len() == 6);
    let s4 = s3 + le_i16(o.placementtreeid);
    assert(s4.len() == 8);
    let s5 = s4 + le_i16(o.userpickuptreeid);
    assert(s5.len() == 10);
    let s6 = s5 + le_i16(o.wallstyle);
    assert(s6.len() == 12);
    let s7 = s6 + le_i16(o.loadtreeid);
    assert(s7.len() == 14);
    let s8 = s7 + le_i16(o.userplacementtreeid);
    assert(s8.len() == 16);
    let s9 = s8 + le_i16(o.objectversion);
    assert(s9.len() == 18);
    let s10 = s9 + le_i16(o.roomchangedtreeid);
    assert(s10.len() == 20);
    let s11 = s10 + le_i16(o.motiveeffectsid);
    assert(s11.len() == 22);
    let s12 = s11 + le_i16(o.cleanuptreeid);
    assert(s12.len() == 24);
    let s13 = s12 + le_i16(o.levelinforequesttreeid);
    assert(s13.len() == 26);
    assert(objd_part3(o, guid) == s13) by {
        reveal(objd_part3);
    }
}

/// The length of this part of the record.
pub proof fn lemma_objd_part4(o: ObjectDefinition, guid: i32)
    ensures
        objd_part4(o, guid).len() == 26,
{
    let s0 = Seq::<u8>::empty();
    let s1 = s0 + le_i16(o.catalogpopupid);
    assert(s1.len() == 2);
    let s2 = s1 + le_i16(o.servingsurfacetreeid);
    assert(s2.len() == 4);
    let s3 = s2 + le_i16(o.leveloffset);
    assert(s3.len() == 6);
    let s4 = s3 + le_i16(o.shadow);
    assert(s4.len() == 8);
    let s5 = s4 + le_i16(o.numattributes);
    assert(s5.len() == 10);
    let s6 = s5 + le_i16(o.cleantreeid);
    assert(s6.len() == 12);
    let s7 = s6 + le_i16(o.queueskippedtreeid);
    assert(s7.len() == 14);
    let s8 = s7 + le_i16(o.frontfacedirection);
    assert(s8.len() == 16);
    let s9 = s8 + le_i16(o.walladjacencychangedtreeid);
    assert(s9.len() == 18);
    let s10 = s9 + le_i16(o.leadobject);
    assert(s10.len() == 20);
    let s11 = s10 + le_i16(o.dynspritebaseid);
    assert(s11.len() == 22);
    let s12 = s11 + le_i16(o.numdynsprites);
    assert(s12.len() == 24);
    let s13 = s12 + le_i16(o.chairentryflags);
    assert(s13.len() == 26);
    assert(objd_part4(o, guid) == s13) by {
        reveal(objd_part4);
    }
}

/// The length of this part of the record.
pub proof fn lemma_objd_part5(o: ObjectDefinition, guid: i32)
    ensures
        objd_part5(o, guid).len() == 30,
{
    let s0 = Seq::<u8>::empty();
    let s1 = s0 + le_i16(o.tilewidth);
    assert(s1.len() == 2);
    let s2 = s1 + le_i16(o.suitnotcopyable);
    assert(s2.len() == 4);
    let s3 = s2 + le_i16(o.buildmodetype);
    assert(s3.len() == 6);
    let s4 = s3 + le_i32(o.originalguid);
    assert(s4.len() == 10);
    let s5 = s4 + le_i32(o.originalsuitguid);
    assert(s5.len() == 14);
    let s6 = s5 + le_i16(o.pickuptreeid);
    assert(s6.len() == 16);
    let s7 = s6 + le_i16(o.thumbnailgraphicindex);
    assert(s7.len() == 18);
    let s8 = s7 + le_i16(o.shadowflags);
    assert(s8.len() == 20);
    let s9 = s8 + le_i16(o.footprintinsetmask);
    assert(s9.len() == 22);
    let s10 = s9 + le_i16(o.mtadjupdatetreeid);
    assert(s10.len() == 24);
    let s11 = s10 + le_i16(o.shadowbrightness);
    assert(s11.len() == 26);
    let s12 = s11 + le_i16(o.repairtreeid);
    assert(s12.len() == 28);
    let s13 = s12 + le_i16(o.customwallstyleid);
    assert(s13.len() == 30);
    assert(objd_part5(o, guid) == s13) by {
        reveal(objd_part5);
    }
}

/// The length of this part of the record.
pub proof fn lemma_objd_part6(o: ObjectDefinition, guid: i32)
    ensures
        objd_part6(o, guid).len() == 28,
{
    let s0 = Seq::<u8>::empty();
    let s1 = s0 + le_i16(o.ratinghunger);
    assert(s1.len() == 2);
    let s2 = s1 + le_i16(o.ratingcomfort);
    assert(s2.len() == 4);
    let s3 = s2 + le_i16(o.ratinghygiene);
    assert(s3.len() == 6);
    let s4 = s3 + le_i16(o.ratingbladder);
    assert(s4.len() == 8);
    let s5 = s4 + le_i16(o.ratingenergy);
    assert(s5.len() == 10);
    let s6 = s5 + le_i16(o.ratingfun);
    assert(s6.len() == 12);
    let s7 = s6 + le_i16(o.ratingroom);
    assert(s7.len() == 14);
    let s8 = s7 + le_i16(o.ratingskillflags);
    assert(s8.len() == 16);
    let s9 = s8 + le_i16(o.numtypeattributes);
    assert(s9.len() == 18);
    let s10 = s9 + le_i16(o.miscflags);
    assert(s10.len() == 20);
    let s11 = s10 + le_i32(o.typeattrguid);
    assert(s11.len() == 24);
    let s12 = s11 + le_i16(o.functionsubsort);
    assert(s12.len() == 26);
    let s13 = s12 + le_i16(o.downtownsort);
    assert(s13.len() == 28);
    assert(objd_part6(o, guid) == s13) by {
        reveal(objd_part6);
    }
}

/// The length of this part of the record.
pub proof fn lemma_objd_part7(o: ObjectDefinition, guid: i32)
    ensures
        objd_part7(o, guid).len() == 24,
{
    let s0 = Seq::<u8>::empty();
    let s1 = s0 + le_i16(o.keepbuying);
    assert(s1.len() == 2);
    let s2 = s1 + le_i16(o.vacationsort);
    assert(s2.len() == 4);
    let s3 = s2 + le_i16(o.resetlotaction);
    assert(s3.len() == 6);
    let s4 = s3 + le_i16(o.communitysort);
    assert(s4.len() == 8);
    let s5 = s4 + le_i16(o.dreamflags);
    assert(s5.len() == 10);
    let s6 = s5 + le_i16(o.renderflags);
    assert(s6.len() == 12);
    let s7 = s6 + le_i16(o.unused8);
    assert(s7.len() == 14);
    let s8 = s7 + le_i16(o.unused9);
    assert(s8.len() == 16);
    let s9 = s8 + le_i16(o.unused10);
    assert(s9.len() == 18);
    let s10 = s9 + le_i16(o.unused11);
    assert(s10.len() == 20);
    let s11 = s10 + le_i16(o.unused12);
    assert(s11.len() == 22);
    let s12 = s11 + le_i16(o.unused13);
    assert(s12.len() == 24);
    assert(objd_part7(o, guid) == s12) by {
        reveal(objd_part7);
    }
}

/// The payload is 216 bytes long and holds the GUID it was written with at
/// offset 28, whatever GUID the description itself holds.
pub proof fn lemma_objd_guid_place(o: ObjectDefinition, guid: i32)
    ensures
        objd_payload(o, guid).len() == 216,
        objd_payload(o, guid).subrange(28, 32) == le_i32(guid),
        i32_le_at(objd_payload(o, guid), 28) == guid,
{
    let head = objd_part0(o, guid);
    let part1 = objd_part1(o, guid);
    let payload = objd_payload(o, guid);
    lemma_objd_part0(o, guid);
    lemma_objd_part1(o, guid);
    lemma_objd_part2(o, guid);
    lemma_objd_part3(o, guid);
    lemma_objd_part4(o, guid);
    lemma_objd_part5(o, guid);
    lemma_objd_part6(o, guid);
    lemma_objd_part7(o, guid);
    let tail = part1.subrange(4, 28) + objd_part2(o, guid) + objd_part3(o, guid) + objd_part4(o, guid) + objd_part5(o, guid) + objd_part6(o, guid) + objd_part7(o, guid);
    assert(part1 =~= part1.subrange(0, 4) + part1.subrange(4, 28));
    assert(payload =~= head + le_u32(i32_bits(guid)) + tail);
    lemma_u32_roundtrip(i32_bits(guid), head, tail);
    lemma_bits_roundtrip(0, guid);
    assert(payload.subrange(28, 32) =~= le_i32(guid));
}

impl Default for ObjectDefinition {
    /// The definition with an empty label and every field zero.
    fn default() -> (definition: ObjectDefinition)
        ensures
            definition.chunk_label@ == Seq::<char>::empty(),
            definition.chunk_id.0 == 0,
            definition.initialstacksize == 0,
            definition.basegraphic == 0,
            definition.numgraphics == 0,
            definition.maintreeid == 0,
            definition.gardeningtreeid == 0,
            definition.treetableid == 0,
            definition.interactiongroup == 0,
            definition.object_type == 0,
            definition.masterid == 0,
            definition.subindex == 0,
            definition.washhandstreeid == 0,
            definition.animtableid == 0,
            definition.guid == 0,
            definition.disabled == 0,
            definition.portaltreeid == 0,
            definition.price == 0,
            definition.bodystringsid == 0,
            definition.slot_chunk_id.0 == 0,
            definition.allowintersectiontreeid == 0,
            definition.usesfntable == 0,
            definition.unused4 == 0,
            definition.preptreeid == 0,
            definition.cooktreeid == 0,
            definition.surfacetreeid == 0,
            definition.disposetreeid == 0,
            definition.foodtreeid == 0,
            definition.pickupfromslottreeid == 0,
            definition.washdishtreeid == 0,
            definition.eatingsurfacetreeid == 0,
            definition.sittreeid == 0,
            definition.standtreeid == 0,
            definition.saleprice == 0,
            definition.initialdepreciation == 0,
            definition.dailydepreciation == 0,
            definition.selfdepreciating == 0,
            definition.depreciationlimit == 0,
            definition.roomflags == 0,
            definition.functionflags == 0,
            definition.catalogid == 0,
            definition.globalsimulationobject == 0,
            definition.inittreeid == 0,
            definition.placementtreeid == 0,
            definition.userpickuptreeid == 0,
            definition.wallstyle == 0,
            definition.loadtreeid == 0,
            definition.userplacementtreeid == 0,
            definition.objectversion == 0,
            definition.roomchangedtreeid == 0,
            definition.motiveeffectsid == 0,
            definition.cleanuptreeid == 0,
            definition.levelinforequesttreeid == 0,
            definition.catalogpopupid == 0,
            definition.servingsurfacetreeid == 0,
            definition.leveloffset == 0,
            definition.shadow == 0,
            definition.numattributes == 0,
            definition.cleantreeid == 0,
            definition.queueskippedtreeid == 0,
            definition.frontfacedirection == 0,
            definition.walladjacencychangedtreeid == 0,
            definition.leadobject == 0,
            definition.dynspritebaseid == 0,
            definition.numdynsprites == 0,
            definition.chairentryflags == 0,
            definition.tilewidth == 0,
            definition.suitnotcopyable == 0,
            definition.buildmodetype == 0,
            definition.originalguid == 0,
            definition.originalsuitguid == 0,
            definition.pickuptreeid == 0,
            definition.thumbnailgraphicindex == 0,
            definition.shadowflags == 0,
            definition.footprintinsetmask == 0,
            definition.mtadjupdatetreeid == 0,
            definition.shadowbrightness == 0,
            definition.repairtreeid == 0,
            definition.customwallstyleid == 0,
            definition.ratinghunger == 0,
            definition.ratingcomfort == 0,
            definition.ratinghygiene == 0,
            definition.ratingbladder == 0,
            definition.ratingenergy == 0,
            definition.ratingfun == 0,
            definition.ratingroom == 0,
            definition.ratingskillflags == 0,
            definition.numtypeattributes == 0,
            definition.miscflags == 0,
            definition.typeattrguid == 0,
            definition.functionsubsort == 0,
            definition.downtownsort == 0,
            definition.keepbuying == 0,
            definition.vacationsort == 0,
            definition.resetlotaction == 0,
            definition.communitysort == 0,
            definition.dreamflags == 0,
            definition.renderflags == 0,
            definition.unused8 == 0,
            definition.unused9 == 0,
            definition.unused10 == 0,
            definition.unused11 == 0,
            definition.unused12 == 0,
            definition.unused13 == 0,
    {
        ObjectDefinition {
            chunk_label: String::new(),
            chunk_id: IffChunkId(0),
            initialstacksize: 0,
            basegraphic: 0,
            numgraphics: 0,
            maintreeid: 0,
            gardeningtreeid: 0,
            treetableid: 0,
            interactiongroup: 0,
            object_type: 0,
            masterid: 0,
            subindex: 0,
            washhandstreeid: 0,
            animtableid: 0,
            guid: 0,
            disabled: 0,
            portaltreeid: 0,
            price: 0,
            bodystringsid: 0,
            slot_chunk_id: IffChunkId(0),
            allowintersectiontreeid: 0,
            usesfntable: 0,
            unused4: 0,
            preptreeid: 0,
            cooktreeid: 0,
            surfacetreeid: 0,
            disposetreeid: 0,
            foodtreeid: 0,
            pickupfromslottreeid: 0,
            washdishtreeid: 0,
            eatingsurfacetreeid: 0,
            sittreeid: 0,
            standtreeid: 0,
            saleprice: 0,
            initialdepreciation: 0,
            dailydepreciation: 0,
            selfdepreciating: 0,
            depreciationlimit: 0,
            roomflags: 0,
            functionflags: 0,
            catalogid: 0,
            globalsimulationobject: 0,
            inittreeid: 0,
            placementtreeid: 0,
            userpickuptreeid: 0,
            wallstyle: 0,
            loadtreeid: 0,
            userplacementtreeid: 0,
            objectversion: 0,
            roomchangedtreeid: 0,
            motiveeffectsid: 0,
            cleanuptreeid: 0,
            levelinforequesttreeid: 0,
            catalogpopupid: 0,
            servingsurfacetreeid: 0,
            leveloffset: 0,
            shadow: 0,
            numattributes: 0,
            cleantreeid: 0,
            queueskippedtreeid: 0,
            frontfacedirection: 0,
            walladjacencychangedtreeid: 0,
            leadobject: 0,
            dynspritebaseid: 0,
            numdynsprites: 0,
            chairentryflags: 0,
            tilewidth: 0,
            suitnotcopyable: 0,
            buildmodetype: 0,
            originalguid: 0,
            originalsuitguid: 0,
            pickuptreeid: 0,
            thumbnailgraphicindex: 0,
            shadowflags: 0,
            footprintinsetmask: 0,
            mtadjupdatetreeid: 0,
            shadowbrightness: 0,
            repairtreeid: 0,
            customwallstyleid: 0,
            ratinghunger: 0,
            ratingcomfort: 0,
            ratinghygiene: 0,
            ratingbladder: 0,
            ratingenergy: 0,
            ratingfun: 0,
            ratingroom: 0,
            ratingskillflags: 0,
            numtypeattributes: 0,
            miscflags: 0,
            typeattrguid: 0,
            functionsubsort: 0,
            downtownsort: 0,
            keepbuying: 0,
            vacationsort: 0,
            resetlotaction: 0,
            communitysort: 0,
            dreamflags: 0,
            renderflags: 0,
            unused8: 0,
            unused9: 0,
            unused10: 0,
            unused11: 0,
            unused12: 0,
            unused13: 0,
        }
    }
}

impl ObjectDefinition {
    /// Builds the definition chunk of this object.
    ///
    /// The payload holds the fields in their fixed order. In the place of
    /// the GUID stands `replacement_guid` where one is given, and only
    /// otherwise the GUID of the description.
    pub fn to_chunk(&self, replacement_guid: Option<i32>) -> (r: Result<IffChunk, Error>)
        ensures
            match r {
                Ok(chunk) => objd_chunk(*self, replacement_guid) == Ok::<ChunkModel, Error>(
                    chunk@,
                ),
                Err(e) => objd_chunk(*self, replacement_guid) == Err::<ChunkModel, Error>(e),
            },
    {
        let guid = match replacement_guid {
            Some(guid) => guid,
            None => self.guid,
        };
        let mut data: Vec<u8> = Vec::new();
        push_part0(&mut data, self, guid);
        push_part1(&mut data, self, guid);
        push_part2(&mut data, self, guid);
        push_part3(&mut data, self, guid);
        push_part4(&mut data, self, guid);
        push_part5(&mut data, self, guid);
        push_part6(&mut data, self, guid);
        push_part7(&mut data, self, guid);
        assert(data@ =~= objd_payload(*self, guid));
        IffChunk::new(&TAG_OBJD, self.chunk_id, self.chunk_label.as_str(), data)
    }
}

} // verus!
