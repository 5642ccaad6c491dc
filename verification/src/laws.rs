//! What holds of every rebuild: which chunks of the input are found again
//! in the result, what the directory of the result lists, and what becomes
//! of the GUIDs.

use crate::bitmap::ChannelImage;
use crate::bytes::{
    i32_le_at, le_i32, lemma_of_bits_roundtrip, lemma_u32_reencode, u32_le_at,
};
use crate::error::Error;
use crate::guid::{
    distinct_ids, guid_conflict, guid_of, guid_table, has_guid_operand, is_bhav,
    lemma_guid_entries_distinct, lemma_guid_of_entry, lemma_object_of, misaligned_code,
    object_of, patched_byte, patched_chunk, patched_chunks, patched_code, replacement_guid,
    same_guids, GuidEntry,
};
use crate::iff::{
    all_wf, chunk_offset, chunks_size, lemma_first_defect, lemma_new_chunk_wf, lemma_roundtrip,
    parse_iff, ChunkModel, IffModel, TAG_RSMP,
};
use crate::iff_description::IffDescription;
use crate::objd::{lemma_objd_guid_place, objd_payload};
use crate::rebuild::{
    built_chunks, finished, is_replaceable, kept_chunks, objd_chunks, rebuilt, rebuilt_archive,
    rebuilt_from, rebuilt_objd,
};
use crate::rsmp::{
    directory_chunk, lemma_chunk_position, lemma_directory_complete, lemma_directory_wf, tagged,
    tags_of,
};
use vstd::prelude::*;

verus! {

/// The archive that is rebuilt.
pub open spec fn source_of(input: Seq<u8>) -> IffModel {
    parse_iff(input)->Ok_0
}

/// The GUID table of the archive that `bytes` hold.
pub open spec fn table_of(bytes: Seq<u8>) -> Seq<GuidEntry> {
    guid_table(parse_iff(bytes)->Ok_0.chunks)->Ok_0
}

/// The chunks of a rebuild before the directory is appended: those kept
/// of the input and those built, with the bytecode rewritten.
pub open spec fn gathered(
    description: IffDescription,
    images: Seq<ChannelImage>,
    input: Seq<u8>,
    output: Seq<u8>,
) -> Seq<ChunkModel> {
    let source = source_of(input);
    patched_chunks(
        kept_chunks(source.chunks, source.chunks.len() as int) + built_chunks(
            description,
            table_of(output),
            images,
        )->Ok_0,
        table_of(input),
        table_of(output),
    )
}

/// A chunk that is kept stands in the kept chunks after as many chunks as
/// are kept of those before it, so kept chunks stay in their order.
pub proof fn lemma_kept_at(chunks: Seq<ChunkModel>, n: int, i: int)
    requires
        0 <= i < n <= chunks.len(),
        !is_replaceable(chunks[i].header.tag),
    ensures
        kept_chunks(chunks, i).len() < kept_chunks(chunks, n).len(),
        kept_chunks(chunks, n)[kept_chunks(chunks, i).len() as int] == chunks[i],
    decreases n - i,
{
    if i + 1 < n {
        lemma_kept_at(chunks, n - 1, i);
    }
}

/// The number of kept chunks does not fall as more chunks are looked at.
pub proof fn lemma_kept_grows(chunks: Seq<ChunkModel>, i: int, n: int)
    requires
        0 <= i <= n,
    ensures
        kept_chunks(chunks, i).len() <= kept_chunks(chunks, n).len(),
    decreases n - i,
{
    if i < n {
        lemma_kept_grows(chunks, i, n - 1);
    }
}

/// Rewriting bytecode from a table to the same table changes nothing.
pub proof fn lemma_patch_same(data: Seq<u8>, table: Seq<GuidEntry>)
    requires
        distinct_ids(table),
    ensures
        patched_code(data, table, table) == data,
{
    assert forall|k: int| 0 <= k < data.len() implies patched_byte(data, table, table, k)
        == data[k] by {
        let start = (k / 12) * 12;
        let place = k % 12;
        if 4 <= place < 8 && has_guid_operand(data[start]) && start + 8 <= data.len() {
            let guid = i32_le_at(data, start + 4);
            lemma_object_of(table, guid);
            match replacement_guid(table, table, guid) {
                Some(new_guid) => {
                    let id = object_of(table, guid)->Some_0;
                    let j = choose|j: int|
                        0 <= j < table.len() && (#[trigger] table[j]).guid == guid && table[j].id
                            == id;
                    lemma_guid_of_entry(table, j);
                    assert(new_guid == guid);
                    lemma_u32_reencode(data, start + 4);
                    lemma_of_bits_roundtrip(0, u32_le_at(data, start + 4));
                    assert(le_i32(guid) == data.subrange(start + 4, start + 8));
                    assert(data.subrange(start + 4, start + 8)[place - 4] == data[k]);
                },
                None => {},
            }
        } else if 4 <= place < 8 && has_guid_operand(data[start]) {
            lemma_patch_tail(data, table, k);
        }
    }
    assert(patched_code(data, table, table) =~= data);
}

/// The same for a byte of a last instruction that is cut short.
proof fn lemma_patch_tail(data: Seq<u8>, table: Seq<GuidEntry>, k: int)
    requires
        distinct_ids(table),
        0 <= k < data.len(),
    ensures
        patched_byte(data, table, table, k) == data[k],
{
    let start = (k / 12) * 12;
    let place = k % 12;
    if 4 <= place < 8 && has_guid_operand(data[start]) {
        let guid = i32_le_at(data, start + 4);
        lemma_object_of(table, guid);
        match replacement_guid(table, table, guid) {
            Some(new_guid) => {
                let id = object_of(table, guid)->Some_0;
                let j = choose|j: int|
                    0 <= j < table.len() && (#[trigger] table[j]).guid == guid && table[j].id
                        == id;
                lemma_guid_of_entry(table, j);
                assert(new_guid == guid);
                crate::bytes::lemma_digits(
                    data[start + 4] as int,
                    data[start + 5] as int,
                    data[start + 6] as int,
                    data[start + 7] as int,
                );
                lemma_of_bits_roundtrip(0, u32_le_at(data, start + 4));
            },
            None => {},
        }
    }
}

/// The stages of a rebuild that succeeds: both archives are read, their
/// GUID tables agree with each other, the description is built, and the
/// result is the gathered chunks followed by their directory.
pub proof fn lemma_rebuilt_stages(
    description: IffDescription,
    images: Seq<ChannelImage>,
    input: Seq<u8>,
    output: Seq<u8>,
    same_file: bool,
)
    requires
        rebuilt_archive(description, images, input, output, same_file) is Ok,
    ensures
        ({
            let result = rebuilt_archive(description, images, input, output, same_file)->Ok_0;
            let chunks = gathered(description, images, input, output);
            &&& parse_iff(input) is Ok
            &&& parse_iff(output) is Ok
            &&& guid_table(source_of(input).chunks) is Ok
            &&& guid_table(source_of(output).chunks) is Ok
            &&& guid_conflict(table_of(input), table_of(output), same_file) is None
            &&& built_chunks(description, table_of(output), images) is Ok
            &&& directory_chunk(chunks) is Ok
            &&& result.chunks == chunks.push(directory_chunk(chunks)->Ok_0)
            &&& result.rsmp_address == 64 + chunks_size(chunks)
            &&& 64 + chunks_size(chunks) <= u32::MAX
        }),
{
    let source = source_of(input).chunks;
    let target = source_of(output).chunks;
    assert(rebuilt_archive(description, images, input, output, same_file) == rebuilt_from(
        description,
        images,
        source,
        target,
        same_file,
    ));
    let input_guids = table_of(input);
    let output_guids = table_of(output);
    let built = built_chunks(description, output_guids, images)->Ok_0;
    let all = kept_chunks(source, source.len() as int) + built;
    assert(rebuilt_from(description, images, source, target, same_file) == finished(
        all,
        input_guids,
        output_guids,
    ));
    let chunks = patched_chunks(all, input_guids, output_guids);
    assert(chunks == gathered(description, images, input, output));
    lemma_directory_wf(chunks);
    crate::iff::lemma_chunks_len(chunks);
}

/// What a rebuild that succeeds gives: an archive of well-formed chunks
/// whose preamble holds where the directory starts, and which is read back
/// from its bytes as it is.
pub proof fn lemma_rebuilt(
    description: IffDescription,
    images: Seq<ChannelImage>,
    input: Seq<u8>,
    output: Seq<u8>,
    same_file: bool,
)
    requires
        rebuilt_archive(description, images, input, output, same_file) is Ok,
    ensures
        ({
            let result = rebuilt_archive(description, images, input, output, same_file)->Ok_0;
            let chunks = gathered(description, images, input, output);
            &&& distinct_ids(table_of(input))
            &&& distinct_ids(table_of(output))
            &&& all_wf(chunks)
            &&& result.rsmp_address == chunk_offset(result.chunks, result.chunks.len() - 1)
            &&& result.wf()
            &&& rebuilt(description, images, input, output, same_file) == Ok::<Seq<u8>, Error>(
                result.bytes(),
            )
            &&& parse_iff(result.bytes()) == Ok::<IffModel, Error>(result)
        }),
{
    let result = rebuilt_archive(description, images, input, output, same_file)->Ok_0;
    let chunks = gathered(description, images, input, output);
    lemma_rebuilt_stages(description, images, input, output, same_file);
    assert(distinct_ids(table_of(input)) && distinct_ids(table_of(output))) by {
        lemma_guid_entries_distinct(source_of(input).chunks);
        lemma_guid_entries_distinct(source_of(output).chunks);
    }
    lemma_directory_wf(chunks);
    let directory = directory_chunk(chunks)->Ok_0;
    assert(result.chunks.take(result.chunks.len() - 1) =~= chunks);
    assert forall|i: int| 0 <= i < result.chunks.len() implies (#[trigger] result.chunks[i]).wf() by {
        if i < chunks.len() {
            assert(chunks[i].wf());
        }
    }
    lemma_roundtrip(result);
}

/// Non-replaceable chunk preservation. A chunk of the input whose type is
/// not built anew is found again in the result, after as many chunks as
/// were kept of those before it: with its header, and with its payload but
/// for bytecode operands that are rewritten. What stands at its place in
/// the bytes of the result are the bytes of that chunk.
pub proof fn lemma_chunk_preserved(
    description: IffDescription,
    images: Seq<ChannelImage>,
    input: Seq<u8>,
    output: Seq<u8>,
    same_file: bool,
    i: int,
)
    requires
        rebuilt_archive(description, images, input, output, same_file) is Ok,
        0 <= i < source_of(input).chunks.len(),
        !is_replaceable(source_of(input).chunks[i].header.tag),
    ensures
        ({
            let result = rebuilt_archive(description, images, input, output, same_file)->Ok_0;
            let source = source_of(input);
            let j = kept_chunks(source.chunks, i).len() as int;
            let chunk = patched_chunk(source.chunks[i], table_of(input), table_of(output));
            &&& j < result.chunks.len()
            &&& result.chunks[j] == chunk
            &&& chunk.header == source.chunks[i].header
            &&& chunk_offset(result.chunks, j) + chunk.header.size <= result.bytes().len()
            &&& result.bytes().subrange(
                chunk_offset(result.chunks, j),
                chunk_offset(result.chunks, j) + chunk.header.size,
            ) == chunk.bytes()
            &&& !is_bhav(source.chunks[i]) ==> chunk == source.chunks[i]
        }),
{
    let result = rebuilt_archive(description, images, input, output, same_file)->Ok_0;
    let source = source_of(input);
    let n = source.chunks.len() as int;
    let j = kept_chunks(source.chunks, i).len() as int;
    lemma_rebuilt_stages(description, images, input, output, same_file);
    lemma_rebuilt(description, images, input, output, same_file);
    lemma_kept_at(source.chunks, n, i);
    let chunks = gathered(description, images, input, output);
    assert(chunks[j] == patched_chunk(source.chunks[i], table_of(input), table_of(output)));
    lemma_chunk_position(result, j);
}

/// A rebuild into the same file leaves every chunk that is kept exactly as
/// it is, bytecode too.
pub proof fn lemma_chunk_preserved_in_place(
    description: IffDescription,
    images: Seq<ChannelImage>,
    input: Seq<u8>,
    same_file: bool,
    i: int,
)
    requires
        rebuilt_archive(description, images, input, input, same_file) is Ok,
        0 <= i < source_of(input).chunks.len(),
        !is_replaceable(source_of(input).chunks[i].header.tag),
    ensures
        ({
            let result = rebuilt_archive(description, images, input, input, same_file)->Ok_0;
            let source = source_of(input);
            let j = kept_chunks(source.chunks, i).len() as int;
            &&& j < result.chunks.len()
            &&& result.chunks[j] == source.chunks[i]
            &&& result.bytes().subrange(
                chunk_offset(result.chunks, j),
                chunk_offset(result.chunks, j) + source.chunks[i].header.size,
            ) == source.chunks[i].bytes()
        }),
{
    lemma_rebuilt_stages(description, images, input, input, same_file);
    lemma_rebuilt(description, images, input, input, same_file);
    lemma_chunk_preserved(description, images, input, input, same_file, i);
    lemma_patch_same(source_of(input).chunks[i].data, table_of(input));
}

/// Directory completeness after a rebuild. The last chunk of the result is
/// the directory of the chunks before it. Each of those chunks has exactly
/// one entry in it: under its own type, which is listed once, and nowhere
/// else. The offset that the entry records is where the chunk stands in
/// the bytes of the result.
pub proof fn lemma_rebuilt_directory(
    description: IffDescription,
    images: Seq<ChannelImage>,
    input: Seq<u8>,
    output: Seq<u8>,
    same_file: bool,
    i: int,
)
    requires
        rebuilt_archive(description, images, input, output, same_file) is Ok,
        0 <= i < rebuilt_archive(description, images, input, output, same_file)->Ok_0.chunks.len()
            - 1,
    ensures
        ({
            let result = rebuilt_archive(description, images, input, output, same_file)->Ok_0;
            let chunks = result.chunks.drop_last();
            let n = chunks.len() as int;
            let tags = tags_of(chunks, n);
            &&& directory_chunk(chunks) == Ok::<ChunkModel, Error>(result.chunks.last())
            &&& exists|k: int, p: int|
                0 <= k < tags.len() && 0 <= p < tagged(chunks, tags[k], n).len() && #[trigger] tagged(
                    chunks,
                    tags[k],
                    n,
                )[p] == i
            &&& forall|k: int, p: int, l: int, q: int|
                0 <= k < tags.len() && 0 <= p < tagged(chunks, tags[k], n).len() && 0 <= l
                    < tags.len() && 0 <= q < tagged(chunks, tags[l], n).len() && #[trigger] tagged(
                    chunks,
                    tags[k],
                    n,
                )[p] == i && #[trigger] tagged(chunks, tags[l], n)[q] == i ==> k == l && p == q
            &&& chunk_offset(chunks, i) == chunk_offset(result.chunks, i)
            &&& result.bytes().subrange(
                chunk_offset(chunks, i),
                chunk_offset(chunks, i) + chunks[i].header.size,
            ) == chunks[i].bytes()
        }),
{
    let result = rebuilt_archive(description, images, input, output, same_file)->Ok_0;
    let gathered_chunks = gathered(description, images, input, output);
    lemma_rebuilt_stages(description, images, input, output, same_file);
    lemma_rebuilt(description, images, input, output, same_file);
    let chunks = result.chunks.drop_last();
    assert(chunks =~= gathered_chunks);
    let inner = IffModel { rsmp_address: result.rsmp_address, chunks };
    assert forall|j: int| 0 <= j < chunks.len() implies (#[trigger] chunks[j]).wf() by {
        assert(result.chunks[j].wf());
    }
    lemma_directory_complete(inner, i);
    assert(chunks.take(i) =~= result.chunks.take(i));
    lemma_chunk_position(result, i);
}

/// GUID consistency, for a rebuild into another file: the two archives
/// differ in the GUID of at least one object.
pub proof fn lemma_variant_changes_guid(
    description: IffDescription,
    images: Seq<ChannelImage>,
    input: Seq<u8>,
    output: Seq<u8>,
)
    requires
        rebuilt_archive(description, images, input, output, false) is Ok,
    ensures
        exists|id: i16| #[trigger] guid_of(table_of(input), id) != guid_of(table_of(output), id),
{
    lemma_rebuilt_stages(description, images, input, output, false);
    assert(!same_guids(table_of(input), table_of(output)));
}

/// GUID consistency, for a rebuild into the same file: every object
/// definition is written with the GUID that the archive had for its id
/// before, whatever GUID the description holds.
pub proof fn lemma_in_place_keeps_guids(
    description: IffDescription,
    images: Seq<ChannelImage>,
    input: Seq<u8>,
    same_file: bool,
    k: int,
)
    requires
        rebuilt_archive(description, images, input, input, same_file) is Ok,
        0 <= k < description.object_definitions.object_definitions@.len(),
    ensures
        ({
            let definition = description.object_definitions.object_definitions@[k];
            let before = guid_of(table_of(input), definition.chunk_id.0);
            &&& before is Some
            &&& rebuilt_objd(definition, table_of(input)) matches Ok(chunk) && i32_le_at(
                chunk.data,
                28,
            ) == before->Some_0
        }),
{
    let definitions = description.object_definitions.object_definitions@;
    lemma_rebuilt_stages(description, images, input, input, same_file);
    assert(objd_chunks(definitions, table_of(input), definitions.len() as int) is Ok) by {
        reveal(built_chunks);
    }
    lemma_objd_chunks_ok(definitions, table_of(input), definitions.len() as int, k);
    let definition = definitions[k];
    let guid = guid_of(table_of(input), definition.chunk_id.0)->Some_0;
    lemma_objd_guid_place(definition, guid);
}

/// Where the object definitions are built, each of them is.
pub proof fn lemma_objd_chunks_ok(
    definitions: Seq<crate::objd::ObjectDefinition>,
    output: Seq<GuidEntry>,
    n: int,
    k: int,
)
    requires
        0 <= k < n,
        objd_chunks(definitions, output, n) is Ok,
    ensures
        rebuilt_objd(definitions[k], output) is Ok,
        objd_chunks(definitions, output, n)->Ok_0.len() == n,
        objd_chunks(definitions, output, n)->Ok_0[k] == rebuilt_objd(definitions[k], output)->Ok_0,
    decreases n,
{
    if k < n - 1 {
        lemma_objd_chunks_ok(definitions, output, n - 1, k);
    } else if n > 1 {
        lemma_objd_chunks_ok(definitions, output, n - 1, n - 2);
    }
}

} // verus!
