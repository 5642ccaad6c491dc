//! Object GUIDs: the table of the GUIDs that an archive's object
//! definitions carry, the comparison of two such tables, and the rewriting
//! of GUID operands in bytecode.

use crate::bytes::{i32_le_at, le_i32, push_i32_le, read_i32_le};
use crate::error::Error;
use crate::iff::{models, same_tag, ChunkModel, IffChunk, IffChunkId, TAG_BHAV, TAG_OBJD};
use vstd::prelude::*;

verus! {

/// Where the GUID stands in the payload of an object definition.
pub const GUID_ADDRESS_OFFSET: usize = 28;

/// Bytes of one bytecode instruction.
pub const INSTRUCTION_SIZE: usize = 12;

/// Where the operand stands in an instruction.
pub const PARAMETER_OFFSET: usize = 4;

/// One object of an archive: the id of its definition chunk and its GUID.
#[derive(Clone, Copy, Debug, PartialEq, Eq, Structural)]
pub struct GuidEntry {
    pub id: i16,
    pub guid: i32,
}

/// The GUID that `entries` give for `id`: that of the first entry for it.
pub open spec fn guid_of(entries: Seq<GuidEntry>, id: i16) -> Option<i32>
    decreases entries.len(),
{
    if entries.len() == 0 {
        None
    } else if entries[0].id == id {
        Some(entries[0].guid)
    } else {
        guid_of(entries.drop_first(), id)
    }
}

/// The object that carries `guid`: the id of the first entry with it.
pub open spec fn object_of(entries: Seq<GuidEntry>, guid: i32) -> Option<i16>
    decreases entries.len(),
{
    if entries.len() == 0 {
        None
    } else if entries[0].guid == guid {
        Some(entries[0].id)
    } else {
        object_of(entries.drop_first(), guid)
    }
}

/// No two entries are for the same id.
pub open spec fn distinct_ids(entries: Seq<GuidEntry>) -> bool {
    forall|i: int, j: int|
        0 <= i < j < entries.len() ==> (#[trigger] entries[i]).id != (#[trigger] entries[j]).id
}

/// The two tables are for the same objects.
pub open spec fn same_objects(a: Seq<GuidEntry>, b: Seq<GuidEntry>) -> bool {
    forall|id: i16| #[trigger] guid_of(a, id) is Some <==> guid_of(b, id) is Some
}

/// The two tables give every object the same GUID.
pub open spec fn same_guids(a: Seq<GuidEntry>, b: Seq<GuidEntry>) -> bool {
    forall|id: i16| #[trigger] guid_of(a, id) == guid_of(b, id)
}

/// Whether `chunk` is an object definition.
pub open spec fn is_objd(chunk: ChunkModel) -> bool {
    chunk.header.tag == TAG_OBJD@
}

/// The entries for the object definitions among `chunks`, in file order:
/// for each id the GUID of its first definition, read from the fixed place
/// in the payload. A definition whose payload ends before that place makes
/// the archive unreadable.
pub open spec fn guid_entries(chunks: Seq<ChunkModel>) -> Result<Seq<GuidEntry>, Error>
    decreases chunks.len(),
{
    if chunks.len() == 0 {
        Ok(Seq::empty())
    } else {
        match guid_entries(chunks.drop_last()) {
            Err(e) => Err(e),
            Ok(entries) => {
                let chunk = chunks.last();
                if !is_objd(chunk) {
                    Ok(entries)
                } else if chunk.data.len() < 32 {
                    Err(Error::ObjectDefinitionTooShort { chunk_id: chunk.header.id })
                } else if guid_of(entries, chunk.header.id) is Some {
                    Ok(entries)
                } else {
                    Ok(
                        entries.push(
                            GuidEntry { id: chunk.header.id, guid: i32_le_at(chunk.data, 28) },
                        ),
                    )
                }
            },
        }
    }
}

/// The GUID table of an archive that holds `chunks`; an archive must define
/// at least one object.
pub open spec fn guid_table(chunks: Seq<ChunkModel>) -> Result<Seq<GuidEntry>, Error> {
    match guid_entries(chunks) {
        Err(e) => Err(e),
        Ok(entries) => if entries.len() == 0 {
            Err(Error::NoGuids)
        } else {
            Ok(entries)
        },
    }
}

/// Why a rebuild from an archive with the table `input` into one with the
/// table `output` cannot go on, if it cannot: the two must be for the same
/// objects, and a different file must not carry the very same GUIDs.
pub open spec fn guid_conflict(input: Seq<GuidEntry>, output: Seq<GuidEntry>, same_file: bool)
    -> Option<Error> {
    if !same_objects(input, output) {
        Some(Error::GuidKeysDiffer)
    } else if !same_file && same_guids(input, output) {
        Some(Error::GuidsIdentical)
    } else {
        None
    }
}

/// The table of object GUIDs of one archive, in the order in which the
/// archive defines its objects.
#[derive(Debug)]
pub struct GuidMap {
    pub entries: Vec<GuidEntry>,
}

impl View for GuidMap {
    type V = Seq<GuidEntry>;

    open spec fn view(&self) -> Seq<GuidEntry> {
        self.entries@
    }
}

/// A table finds an id exactly when some entry is for it, and then gives
/// the GUID of the first such entry.
pub proof fn lemma_guid_of(entries: Seq<GuidEntry>, id: i16)
    ensures
        guid_of(entries, id) is Some <==> exists|i: int|
            0 <= i < entries.len() && (#[trigger] entries[i]).id == id,
        guid_of(entries, id) matches Some(g) ==> exists|i: int|
            0 <= i < entries.len() && (#[trigger] entries[i]).id == id && entries[i].guid == g,
    decreases entries.len(),
{
    if entries.len() > 0 {
        let rest = entries.drop_first();
        lemma_guid_of(rest, id);
        if entries[0].id != id {
            if guid_of(rest, id) is Some {
                let i = choose|i: int| 0 <= i < rest.len() && (#[trigger] rest[i]).id == id;
                assert(entries[i + 1].id == id);
                let g = guid_of(rest, id)->Some_0;
                let j = choose|j: int|
                    0 <= j < rest.len() && (#[trigger] rest[j]).id == id && rest[j].guid == g;
                assert(entries[j + 1].id == id && entries[j + 1].guid == g);
            }
            if exists|i: int| 0 <= i < entries.len() && (#[trigger] entries[i]).id == id {
                let i = choose|i: int| 0 <= i < entries.len() && (#[trigger] entries[i]).id == id;
                assert(rest[i - 1].id == id);
            }
        } else {
            assert(entries[0].id == id && entries[0].guid == entries[0].guid);
        }
    }
}

/// With distinct ids, every entry is the one that its id finds.
pub proof fn lemma_guid_of_entry(entries: Seq<GuidEntry>, i: int)
    requires
        distinct_ids(entries),
        0 <= i < entries.len(),
    ensures
        guid_of(entries, entries[i].id) == Some(entries[i].guid),
    decreases entries.len(),
{
    if i > 0 {
        let rest = entries.drop_first();
        assert forall|a: int, b: int| 0 <= a < b < rest.len() implies (#[trigger] rest[a]).id != (
        #[trigger] rest[b]).id by {
            assert(rest[a] == entries[a + 1] && rest[b] == entries[b + 1]);
        }
        assert(rest[i - 1] == entries[i]);
        lemma_guid_of_entry(rest, i - 1);
    }
}

/// A table finds a GUID exactly when some entry carries it, and the object
/// it names carries it.
pub proof fn lemma_object_of(entries: Seq<GuidEntry>, guid: i32)
    ensures
        object_of(entries, guid) is Some <==> exists|i: int|
            0 <= i < entries.len() && (#[trigger] entries[i]).guid == guid,
        object_of(entries, guid) matches Some(id) ==> exists|i: int|
            0 <= i < entries.len() && (#[trigger] entries[i]).guid == guid && entries[i].id == id,
    decreases entries.len(),
{
    if entries.len() > 0 {
        let rest = entries.drop_first();
        lemma_object_of(rest, guid);
        if entries[0].guid != guid {
            if object_of(rest, guid) is Some {
                let i = choose|i: int| 0 <= i < rest.len() && (#[trigger] rest[i]).guid == guid;
                assert(entries[i + 1].guid == guid);
                let id = object_of(rest, guid)->Some_0;
                let j = choose|j: int|
                    0 <= j < rest.len() && (#[trigger] rest[j]).guid == guid && rest[j].id == id;
                assert(entries[j + 1].guid == guid && entries[j + 1].id == id);
            }
            if exists|i: int| 0 <= i < entries.len() && (#[trigger] entries[i]).guid == guid {
                let i = choose|i: int|
                    0 <= i < entries.len() && (#[trigger] entries[i]).guid == guid;
                assert(rest[i - 1].guid == guid);
            }
        } else {
            assert(entries[0].guid == guid && entries[0].id == entries[0].id);
        }
    }
}

/// Adding an entry at the end changes what is found only for an id that was
/// not found before.
pub proof fn lemma_guid_of_push(entries: Seq<GuidEntry>, entry: GuidEntry, id: i16)
    ensures
        guid_of(entries.push(entry), id) == if guid_of(entries, id) is Some {
            guid_of(entries, id)
        } else if entry.id == id {
            Some(entry.guid)
        } else {
            None
        },
    decreases entries.len(),
{
    let pushed = entries.push(entry);
    if entries.len() == 0 {
        assert(pushed.drop_first() =~= Seq::<GuidEntry>::empty());
        assert(guid_of(pushed.drop_first(), id) is None);
    } else {
        assert(pushed.drop_first() =~= entries.drop_first().push(entry));
        lemma_guid_of_push(entries.drop_first(), entry, id);
    }
}

/// The entries of an archive are for distinct ids.
pub proof fn lemma_guid_entries_distinct(chunks: Seq<ChunkModel>)
    requires
        guid_entries(chunks) is Ok,
    ensures
        distinct_ids(guid_entries(chunks)->Ok_0),
    decreases chunks.len(),
{
    if chunks.len() > 0 {
        let before = guid_entries(chunks.drop_last())->Ok_0;
        lemma_guid_entries_distinct(chunks.drop_last());
        let chunk = chunks.last();
        if is_objd(chunk) && guid_of(before, chunk.header.id) is None {
            lemma_guid_of(before, chunk.header.id);
        }
    }
}

impl GuidMap {
    /// The table is for distinct ids.
    pub open spec fn wf(&self) -> bool {
        distinct_ids(self@)
    }

    /// The table without entries.
    pub fn new() -> (r: GuidMap)
        ensures
            r@ == Seq::<GuidEntry>::empty(),
            r.wf(),
    {
        GuidMap { entries: Vec::new() }
    }

    /// How many objects the table is for.
    pub fn len(&self) -> (n: usize)
        ensures
            n == self@.len(),
    {
        self.entries.len()
    }

    /// Whether the table is for no object at all.
    pub fn is_empty(&self) -> (b: bool)
        ensures
            b == (self@.len() == 0),
    {
        self.entries.len() == 0
    }

    /// The GUID of the object `id`, if the table is for it.
    pub fn get(&self, id: IffChunkId) -> (r: Option<i32>)
        ensures
            r == guid_of(self@, id.0),
    {
        let mut i: usize = 0;
        assert(self@.skip(0) =~= self@);
        while i < self.entries.len()
            invariant
                i <= self.entries.len(),
                guid_of(self@, id.0) == guid_of(self@.skip(i as int), id.0),
            decreases self.entries.len() - i,
        {
            assert(self@.skip(i as int).drop_first() =~= self@.skip(i + 1));
            if self.entries[i].id == id.as_i16() {
                return Some(self.entries[i].guid);
            }
            i += 1;
        }
        None
    }

    /// The object that carries `guid`: the first in table order, if several
    /// do.
    pub fn find_object(&self, guid: i32) -> (r: Option<IffChunkId>)
        ensures
            match r {
                Some(id) => object_of(self@, guid) == Some(id.0),
                None => object_of(self@, guid) is None,
            },
    {
        let mut i: usize = 0;
        assert(self@.skip(0) =~= self@);
        while i < self.entries.len()
            invariant
                i <= self.entries.len(),
                object_of(self@, guid) == object_of(self@.skip(i as int), guid),
            decreases self.entries.len() - i,
        {
            assert(self@.skip(i as int).drop_first() =~= self@.skip(i + 1));
            if self.entries[i].guid == guid {
                return Some(IffChunkId(self.entries[i].id));
            }
            i += 1;
        }
        None
    }

    /// Whether every object of this table is an object of `other`.
    pub fn objects_within(&self, other: &GuidMap) -> (b: bool)
        ensures
            b == forall|id: i16| #[trigger]
                guid_of(self@, id) is Some ==> guid_of(other@, id) is Some,
    {
        let mut i: usize = 0;
        while i < self.entries.len()
            invariant
                i <= self.entries.len(),
                forall|j: int|
                    0 <= j < i ==> guid_of(other@, (#[trigger] self@[j]).id) is Some,
            decreases self.entries.len() - i,
        {
            let id = IffChunkId(self.entries[i].id);
            if other.get(id).is_none() {
                proof {
                    lemma_guid_of(self@, id.0);
                }
                return false;
            }
            i += 1;
        }
        proof {
            assert forall|id: i16| #[trigger] guid_of(self@, id) is Some implies guid_of(
                other@,
                id,
            ) is Some by {
                lemma_guid_of(self@, id);
            }
        }
        true
    }

    /// Whether every object of this table has the same GUID in `other`.
    pub fn guids_within(&self, other: &GuidMap) -> (b: bool)
        requires
            self.wf(),
        ensures
            b == forall|id: i16| #[trigger]
                guid_of(self@, id) is Some ==> guid_of(other@, id) == guid_of(self@, id),
    {
        let mut i: usize = 0;
        while i < self.entries.len()
            invariant
                i <= self.entries.len(),
                self.wf(),
                forall|j: int|
                    0 <= j < i ==> guid_of(other@, (#[trigger] self@[j]).id) == Some(
                        self@[j].guid,
                    ),
            decreases self.entries.len() - i,
        {
            let id = IffChunkId(self.entries[i].id);
            proof {
                lemma_guid_of_entry(self@, i as int);
            }
            match other.get(id) {
                Some(guid) => {
                    if guid != self.entries[i].guid {
                        return false;
                    }
                },
                None => {
                    return false;
                },
            }
            i += 1;
        }
        proof {
            assert forall|id: i16| #[trigger] guid_of(self@, id) is Some implies guid_of(
                other@,
                id,
            ) == guid_of(self@, id) by {
                lemma_guid_of(self@, id);
                let j = choose|j: int| 0 <= j < self@.len() && (#[trigger] self@[j]).id == id;
                lemma_guid_of_entry(self@, j);
            }
        }
        true
    }
}

/// Reads the GUIDs of the objects that an archive defines.
///
/// Every object definition chunk contributes the GUID at the fixed place in
/// its payload; of several definitions with one id the first counts and the
/// others are passed over. An archive without any object definition has no
/// table.
pub fn map_guids(chunks: &[IffChunk]) -> (r: Result<GuidMap, Error>)
    ensures
        match r {
            Ok(guids) => guid_table(models(chunks@)) == Ok::<Seq<GuidEntry>, Error>(guids@)
                && guids.wf() && guids@.len() > 0,
            Err(e) => guid_table(models(chunks@)) == Err::<Seq<GuidEntry>, Error>(e),
        },
{
    let mut guids = GuidMap::new();
    let mut i: usize = 0;
    let ghost all = models(chunks@);
    assert(all.take(0) =~= Seq::<ChunkModel>::empty());
    while i < chunks.len()
        invariant
            i <= chunks.len(),
            all == models(chunks@),
            guid_entries(all.take(i as int)) == Ok::<Seq<GuidEntry>, Error>(guids@),
        decreases chunks.len() - i,
    {
        proof {
            assert(all.take(i + 1).drop_last() =~= all.take(i as int));
            assert(all.take(i + 1).last() == chunks@[i as int]@);
        }
        let chunk = &chunks[i];
        if same_tag(&chunk.header.chunk_type, &TAG_OBJD) {
            if chunk.data.len() < GUID_ADDRESS_OFFSET + 4 {
                proof {
                    lemma_guid_entries_err(all.take(i + 1), all.skip(i + 1));
                    assert(all.take(i + 1) + all.skip(i + 1) =~= all);
                }
                return Err(Error::ObjectDefinitionTooShort { chunk_id: chunk.header.id.as_i16() });
            }
            if guids.get(chunk.header.id).is_none() {
                let guid = read_i32_le(chunk.data.as_slice(), GUID_ADDRESS_OFFSET);
                guids.entries.push(GuidEntry { id: chunk.header.id.as_i16(), guid });
            }
        }
        i += 1;
    }
    proof {
        assert(all.take(i as int) =~= all);
        lemma_guid_entries_distinct(all);
    }
    if guids.is_empty() {
        return Err(Error::NoGuids);
    }
    Ok(guids)
}

/// Once the definitions cannot be read, chunks that follow do not change
/// why.
pub proof fn lemma_guid_entries_err(a: Seq<ChunkModel>, b: Seq<ChunkModel>)
    requires
        guid_entries(a) is Err,
    ensures
        guid_entries(a + b) == guid_entries(a),
    decreases b.len(),
{
    if b.len() == 0 {
        assert(a + b =~= a);
    } else {
        assert((a + b).drop_last() =~= a + b.drop_last());
        lemma_guid_entries_err(a, b.drop_last());
    }
}

/// Compares the GUID table of the archive that is rebuilt with that of the
/// archive that the result replaces.
///
/// Both must be for the same objects. Where the result goes to a different
/// file, the two tables must differ in at least one GUID: a variant that
/// carries the GUIDs of the archive it was made from is not a distinct
/// object.
pub fn rebuild_guid_map(input: &GuidMap, output: &GuidMap, same_file: bool) -> (r: Result<
    (),
    Error,
>)
    requires
        input.wf(),
        output.wf(),
    ensures
        match r {
            Ok(_) => guid_conflict(input@, output@, same_file) is None,
            Err(e) => guid_conflict(input@, output@, same_file) == Some(e),
        },
        r is Ok && !same_file ==> exists|id: i16| #[trigger]
            guid_of(input@, id) != guid_of(output@, id),
{
    if !(input.objects_within(output) && output.objects_within(input)) {
        return Err(Error::GuidKeysDiffer);
    }
    if !same_file && input.guids_within(output) {
        assert(same_guids(input@, output@)) by {
            assert forall|id: i16| #[trigger] guid_of(input@, id) == guid_of(output@, id) by {
                if guid_of(input@, id) is None {
                    assert(!(guid_of(output@, id) is Some));
                }
            }
        }
        return Err(Error::GuidsIdentical);
    }
    Ok(())
}

/// Whether an instruction with this opcode carries a GUID as its operand.
pub open spec fn has_guid_operand(opcode: u8) -> bool {
    opcode == 31 || opcode == 32 || opcode == 42
}

/// The GUID that replaces the operand `guid`, if one does: the GUID that
/// `output` gives the object which carries `guid` in `input`.
pub open spec fn replacement_guid(input: Seq<GuidEntry>, output: Seq<GuidEntry>, guid: i32)
    -> Option<i32> {
    match object_of(input, guid) {
        Some(id) => guid_of(output, id),
        None => None,
    }
}

/// Byte `k` of the bytecode `data` after its GUID operands are rewritten:
/// only the four operand bytes of an instruction that carries a GUID, and
/// whose operand has a replacement, differ from `data`.
pub open spec fn patched_byte(
    data: Seq<u8>,
    input: Seq<GuidEntry>,
    output: Seq<GuidEntry>,
    k: int,
) -> u8 {
    let start = (k / 12) * 12;
    let place = k % 12;
    if 4 <= place < 8 && has_guid_operand(data[start]) {
        match replacement_guid(input, output, i32_le_at(data, start + 4)) {
            Some(guid) => le_i32(guid)[place - 4],
            None => data[k],
        }
    } else {
        data[k]
    }
}

/// The bytecode `data` with its GUID operands rewritten.
pub open spec fn patched_code(data: Seq<u8>, input: Seq<GuidEntry>, output: Seq<GuidEntry>)
    -> Seq<u8> {
    Seq::new(data.len(), |k: int| patched_byte(data, input, output, k))
}

/// Whether `chunk` holds bytecode.
pub open spec fn is_bhav(chunk: ChunkModel) -> bool {
    chunk.header.tag == TAG_BHAV@
}

/// The chunk after the rewriting: a bytecode chunk keeps its header and has
/// its operands rewritten, any other chunk stays as it is.
pub open spec fn patched_chunk(chunk: ChunkModel, input: Seq<GuidEntry>, output: Seq<GuidEntry>)
    -> ChunkModel {
    if is_bhav(chunk) {
        ChunkModel { header: chunk.header, data: patched_code(chunk.data, input, output) }
    } else {
        chunk
    }
}

/// The first bytecode chunk whose payload is not a whole number of
/// instructions, as the error it causes.
pub open spec fn misaligned_code(chunks: Seq<ChunkModel>) -> Option<Error>
    decreases chunks.len(),
{
    if chunks.len() == 0 {
        None
    } else {
        match misaligned_code(chunks.drop_last()) {
            Some(e) => Some(e),
            None => if is_bhav(chunks.last()) && chunks.last().data.len() % 12 != 0 {
                Some(Error::BehaviorMisaligned { chunk_id: chunks.last().header.id })
            } else {
                None
            },
        }
    }
}

/// The chunks after the rewriting.
pub open spec fn patched_chunks(
    chunks: Seq<ChunkModel>,
    input: Seq<GuidEntry>,
    output: Seq<GuidEntry>,
) -> Seq<ChunkModel> {
    Seq::new(chunks.len(), |i: int| patched_chunk(chunks[i], input, output))
}

/// Rewrites the GUID operands of one chunk's bytecode in place.
pub fn replace_guids_in_code(data: &mut Vec<u8>, input: &GuidMap, output: &GuidMap)
    requires
        old(data)@.len() % 12 == 0,
    ensures
        final(data)@ == patched_code(old(data)@, input@, output@),
{
    let count = data.len() / INSTRUCTION_SIZE;
    let mut j: usize = 0;
    while j < count
        invariant
            j <= count,
            count * 12 <= usize::MAX,
            count * 12 == data@.len(),
            data@.len() == old(data)@.len(),
            forall|k: int|
                0 <= k < j * 12 ==> data@[k] == patched_byte(old(data)@, input@, output@, k),
            forall|k: int| j * 12 <= k < data@.len() ==> data@[k] == old(data)@[k],
        decreases count - j,
    {
        let start = j * 12;
        let at = start + 4;
        let opcode = data[start];
        let ghost before = data@;
        let ghost original = old(data)@;
        proof {
            assert(i32_le_at(before, at as int) == i32_le_at(original, at as int));
        }
        if opcode == 31 || opcode == 32 || opcode == 42 {
            let guid = read_i32_le(data.as_slice(), at);
            let replacement = match input.find_object(guid) {
                Some(id) => output.get(id),
                None => None,
            };
            match replacement {
                Some(new_guid) => {
                    let mut bytes: Vec<u8> = Vec::new();
                    push_i32_le(&mut bytes, new_guid);
                    assert(bytes@ =~= le_i32(new_guid));
                    data.set(at, bytes[0]);
                    data.set(at + 1, bytes[1]);
                    data.set(at + 2, bytes[2]);
                    data.set(at + 3, bytes[3]);
                },
                None => {},
            }
        }
        proof {
            assert forall|k: int| 0 <= k < (j + 1) * 12 implies data@[k] == patched_byte(
                original,
                input@,
                output@,
                k,
            ) by {
                if k >= j * 12 {
                    assert(k / 12 == j as int && k % 12 == k - j * 12);
                }
            }
        }
        j += 1;
    }
    assert(data@ =~= patched_code(old(data)@, input@, output@));
}

/// Rewrites the GUID operands in every bytecode chunk.
///
/// An instruction is twelve bytes; the three opcodes 31, 32 and 42 carry a
/// GUID in the four bytes at offset 4. Such an operand is replaced where it
/// is the GUID of an object of `input_guids` that `output_guids` knows too,
/// by the GUID that `output_guids` gives that object. Nothing else changes.
/// Where the bytecode of a chunk is not a whole number of instructions, no
/// chunk is changed.
pub fn replace_guids_in_bhavs(
    chunks: &mut Vec<IffChunk>,
    input_guids: &GuidMap,
    output_guids: &GuidMap,
) -> (r: Result<(), Error>)
    ensures
        match r {
            Ok(_) => misaligned_code(models(old(chunks)@)) is None && models(final(chunks)@)
                == patched_chunks(models(old(chunks)@), input_guids@, output_guids@),
            Err(e) => misaligned_code(models(old(chunks)@)) == Some(e) && final(chunks)@ == old(
                chunks,
            )@,
        },
{
    let ghost original = models(chunks@);
    let mut i: usize = 0;
    assert(original.take(0) =~= Seq::<ChunkModel>::empty());
    while i < chunks.len()
        invariant
            i <= chunks.len(),
            chunks@ == old(chunks)@,
            original == models(chunks@),
            misaligned_code(original.take(i as int)) is None,
        decreases chunks.len() - i,
    {
        proof {
            assert(original.take(i + 1).drop_last() =~= original.take(i as int));
            assert(original.take(i + 1).last() == chunks@[i as int]@);
        }
        if same_tag(&chunks[i].header.chunk_type, &TAG_BHAV) && chunks[i].data.len()
            % INSTRUCTION_SIZE != 0 {
            proof {
                lemma_misaligned_stays(original.take(i + 1), original.skip(i + 1));
                assert(original.take(i + 1) + original.skip(i + 1) =~= original);
            }
            return Err(Error::BehaviorMisaligned { chunk_id: chunks[i].header.id.as_i16() });
        }
        i += 1;
    }
    assert(original.take(i as int) =~= original);
    let mut i: usize = 0;
    while i < chunks.len()
        invariant
            i <= chunks.len(),
            chunks@.len() == original.len(),
            misaligned_code(original) is None,
            forall|j: int|
                0 <= j < i ==> (#[trigger] chunks@[j])@ == patched_chunk(
                    original[j],
                    input_guids@,
                    output_guids@,
                ),
            forall|j: int| i <= j < chunks@.len() ==> (#[trigger] chunks@[j])@ == original[j],
        decreases chunks.len() - i,
    {
        if same_tag(&chunks[i].header.chunk_type, &TAG_BHAV) {
            proof {
                lemma_misaligned_none(original, i as int);
            }
            let ghost before = chunks@;
            replace_guids_in_code(&mut chunks[i].data, input_guids, output_guids);
            assert(forall|j: int| 0 <= j < chunks@.len() && j != i ==> chunks@[j] == before[j]);
            assert(chunks@[i as int].header == before[i as int].header);
        }
        i += 1;
    }
    assert(models(chunks@) =~= patched_chunks(original, input_guids@, output_guids@));
    Ok(())
}

/// Once a bytecode chunk is misaligned, chunks that follow do not change
/// which one is reported.
pub proof fn lemma_misaligned_stays(a: Seq<ChunkModel>, b: Seq<ChunkModel>)
    requires
        misaligned_code(a) is Some,
    ensures
        misaligned_code(a + b) == misaligned_code(a),
    decreases b.len(),
{
    if b.len() == 0 {
        assert(a + b =~= a);
    } else {
        assert((a + b).drop_last() =~= a + b.drop_last());
        lemma_misaligned_stays(a, b.drop_last());
    }
}

/// Where no bytecode chunk is misaligned, each one is a whole number of
/// instructions.
pub proof fn lemma_misaligned_none(chunks: Seq<ChunkModel>, i: int)
    requires
        misaligned_code(chunks) is None,
        0 <= i < chunks.len(),
        is_bhav(chunks[i]),
    ensures
        chunks[i].data.len() % 12 == 0,
    decreases chunks.len(),
{
    if i < chunks.len() - 1 {
        assert(chunks.drop_last()[i] == chunks[i]);
        lemma_misaligned_none(chunks.drop_last(), i);
    }
}

/// With GUIDs that no two objects of the input share, an operand that is
/// the input GUID of an object is rewritten to that object's output GUID:
/// the matching one. An operand that is no object's input GUID stays.
pub proof fn lemma_replacement_matches(input: Seq<GuidEntry>, output: Seq<GuidEntry>, guid: i32)
    requires
        forall|i: int, j: int|
            0 <= i < j < input.len() ==> (#[trigger] input[i]).guid != (#[trigger] input[j]).guid,
    ensures
        forall|i: int|
            0 <= i < input.len() && (#[trigger] input[i]).guid == guid ==> replacement_guid(
                input,
                output,
                guid,
            ) == guid_of(output, input[i].id),
        (forall|i: int| 0 <= i < input.len() ==> (#[trigger] input[i]).guid != guid)
            ==> replacement_guid(input, output, guid) is None,
{
    lemma_object_of(input, guid);
    if object_of(input, guid) is Some {
        let id = object_of(input, guid)->Some_0;
        let j = choose|j: int|
            0 <= j < input.len() && (#[trigger] input[j]).guid == guid && input[j].id == id;
        assert forall|i: int| 0 <= i < input.len() && (#[trigger] input[i]).guid
            == guid implies replacement_guid(input, output, guid) == guid_of(
            output,
            input[i].id,
        ) by {
            if i != j {
                if i < j {
                    assert(input[i].guid != input[j].guid);
                } else {
                    assert(input[j].guid != input[i].guid);
                }
            }
        }
    }
}

} // verus!
