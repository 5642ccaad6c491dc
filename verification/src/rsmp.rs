//! The resource directory: the record that lists, type by type, where
//! every chunk of an archive stands and what it is called.

use crate::bytes::{le_i16, le_u32, push_all, push_i16_le, push_u32_le, push_u8};
use crate::error::Error;
use crate::iff::{
    all_wf, check_chunks, chunk_offset, chunks_bytes, chunks_size, first_defect,
    lemma_chunks_concat, lemma_chunks_len, lemma_chunks_single, models,
    new_chunk, same_tag, ChunkModel, IffChunk, IffChunkId, IffModel, TAG_RSMP,
};
use vstd::prelude::*;
use vstd::slice::slice_subrange;

verus! {

/// The tag that marks a directory payload.
pub const RSMP_MAGIC: [u8; 4] = [112, 109, 115, 114];

/// Bytes of a directory payload before its first type.
pub const RSMP_HEADER_SIZE: usize = 20;

/// The index of the first zero in `label`, or its length if there is none.
pub open spec fn first_nul(label: Seq<u8>) -> int
    decreases label.len(),
{
    if label.len() == 0 || label[0] == 0u8 {
        0
    } else {
        1 + first_nul(label.drop_first())
    }
}

/// How many bytes of a label the directory holds: the text and its
/// terminator, made even with one more byte.
pub open spec fn listed_label_len(label: Seq<u8>) -> int {
    let n = first_nul(label) + 1;
    n + n % 2
}

/// The directory entry of `chunk`, which starts at `offset` in the archive.
pub open spec fn entry_bytes(chunk: ChunkModel, offset: int) -> Seq<u8> {
    le_u32(offset as u32) + le_i16(chunk.header.id) + le_i16(chunk.header.flags)
        + chunk.header.label.subrange(0, listed_label_len(chunk.header.label))
}

/// The indices below `n` of the chunks of type `tag`, ascending.
pub open spec fn tagged(chunks: Seq<ChunkModel>, tag: Seq<u8>, n: int) -> Seq<int>
    decreases n,
{
    if n <= 0 {
        Seq::empty()
    } else if chunks[n - 1].header.tag == tag {
        tagged(chunks, tag, n - 1).push(n - 1)
    } else {
        tagged(chunks, tag, n - 1)
    }
}

/// The entries of the chunks with the indices `indices`, in that order.
pub open spec fn entries_bytes(chunks: Seq<ChunkModel>, indices: Seq<int>) -> Seq<u8>
    decreases indices.len(),
{
    if indices.len() == 0 {
        Seq::empty()
    } else {
        entries_bytes(chunks, indices.drop_last()) + entry_bytes(
            chunks[indices.last()],
            chunk_offset(chunks, indices.last()),
        )
    }
}

/// The distinct type tags of the first `n` chunks, each where it first
/// occurs.
pub open spec fn tags_of(chunks: Seq<ChunkModel>, n: int) -> Seq<Seq<u8>>
    decreases n,
{
    if n <= 0 {
        Seq::empty()
    } else {
        let before = tags_of(chunks, n - 1);
        if before.contains(chunks[n - 1].header.tag) {
            before
        } else {
            before.push(chunks[n - 1].header.tag)
        }
    }
}

/// The four bytes of a tag, last first.
pub open spec fn reversed_tag(tag: Seq<u8>) -> Seq<u8> {
    seq![tag[3], tag[2], tag[1], tag[0]]
}

/// The directory's part for one type: the tag reversed, the number of
/// chunks of the type, and their entries.
pub open spec fn group_bytes(chunks: Seq<ChunkModel>, tag: Seq<u8>) -> Seq<u8> {
    let indices = tagged(chunks, tag, chunks.len() as int);
    reversed_tag(tag) + le_u32(indices.len() as u32) + entries_bytes(chunks, indices)
}

/// The parts for the first `k` of `tags`.
pub open spec fn groups_bytes(chunks: Seq<ChunkModel>, tags: Seq<Seq<u8>>, k: int) -> Seq<u8>
    decreases k,
{
    if k <= 0 {
        Seq::empty()
    } else {
        groups_bytes(chunks, tags, k - 1) + group_bytes(chunks, tags[k - 1])
    }
}

/// The directory's types and entries for an archive that holds `chunks`.
pub open spec fn directory_body(chunks: Seq<ChunkModel>) -> Seq<u8> {
    let tags = tags_of(chunks, chunks.len() as int);
    groups_bytes(chunks, tags, tags.len() as int)
}

/// The payload of the directory for an archive that holds `chunks`: four
/// reserved bytes, the version, the marker, the size of the directory
/// chunk, the number of types, and then the types.
pub open spec fn directory_payload(chunks: Seq<ChunkModel>) -> Seq<u8> {
    let body = directory_body(chunks);
    le_u32(0) + le_u32(0) + RSMP_MAGIC@ + le_u32((96 + body.len()) as u32) + le_u32(
        tags_of(chunks, chunks.len() as int).len() as u32,
    ) + body
}

/// The directory chunk for an archive that holds `chunks`, or why there is
/// none: every chunk must be writable, and every offset and the directory's
/// own size must fit in 32 bits.
#[verifier::opaque]
pub open spec fn directory_chunk(chunks: Seq<ChunkModel>) -> Result<ChunkModel, Error> {
    match first_defect(chunks) {
        Some(e) => Err(e),
        None => if 64 + chunks_size(chunks) > u32::MAX {
            Err(Error::TooLarge { chunk_id: 0 })
        } else if 96 + directory_body(chunks).len() > u32::MAX {
            Err(Error::TooLarge { chunk_id: 0 })
        } else {
            new_chunk(TAG_RSMP@, 0, Seq::empty(), directory_payload(chunks))
        },
    }
}

/// The index found by scanning is the first zero.
pub proof fn lemma_first_nul(label: Seq<u8>, i: int)
    requires
        0 <= i < label.len(),
        label[i] == 0u8,
        forall|j: int| 0 <= j < i ==> label[j] != 0u8,
    ensures
        first_nul(label) == i,
    decreases i,
{
    if i > 0 {
        let rest = label.drop_first();
        assert(rest[i - 1] == label[i]);
        assert forall|j: int| 0 <= j < i - 1 implies rest[j] != 0u8 by {
            assert(rest[j] == label[j + 1]);
        }
        lemma_first_nul(rest, i - 1);
    }
}

/// The indices listed for a type are those of the chunks of that type, in
/// ascending order: every such chunk is listed, and none twice.
pub proof fn lemma_tagged(chunks: Seq<ChunkModel>, tag: Seq<u8>, n: int)
    requires
        0 <= n <= chunks.len(),
    ensures
        tagged(chunks, tag, n).len() <= n,
        forall|p: int|
            0 <= p < tagged(chunks, tag, n).len() ==> 0 <= (#[trigger] tagged(chunks, tag, n)[p])
                < n && chunks[tagged(chunks, tag, n)[p]].header.tag == tag,
        forall|p: int, q: int|
            0 <= p < q < tagged(chunks, tag, n).len() ==> (#[trigger] tagged(chunks, tag, n)[p])
                < (#[trigger] tagged(chunks, tag, n)[q]),
        forall|i: int|
            0 <= i < n && chunks[i].header.tag == tag ==> tagged(chunks, tag, n).contains(i),
    decreases n,
{
    if n > 0 {
        lemma_tagged(chunks, tag, n - 1);
        let before = tagged(chunks, tag, n - 1);
        let now = tagged(chunks, tag, n);
        assert forall|i: int| 0 <= i < n && chunks[i].header.tag == tag implies now.contains(
            i,
        ) by {
            if i < n - 1 {
                assert(before.contains(i));
                let p = choose|p: int| 0 <= p < before.len() && before[p] == i;
                assert(now[p] == i);
            } else {
                assert(now[now.len() - 1] == i);
            }
        }
    }
}

/// The tags listed are distinct, every one is the tag of a chunk, and the
/// tag of every chunk is listed.
pub proof fn lemma_tags_of(chunks: Seq<ChunkModel>, n: int)
    requires
        0 <= n <= chunks.len(),
    ensures
        tags_of(chunks, n).no_duplicates(),
        tags_of(chunks, n).len() <= n,
        forall|k: int|
            0 <= k < tags_of(chunks, n).len() ==> exists|i: int|
                0 <= i < n && chunks[i].header.tag == #[trigger] tags_of(chunks, n)[k],
        forall|i: int|
            0 <= i < n ==> tags_of(chunks, n).contains((#[trigger] chunks[i]).header.tag),
    decreases n,
{
    if n > 0 {
        lemma_tags_of(chunks, n - 1);
        let before = tags_of(chunks, n - 1);
        let now = tags_of(chunks, n);
        let tag = chunks[n - 1].header.tag;
        assert forall|i: int| 0 <= i < n implies now.contains(
            (#[trigger] chunks[i]).header.tag,
        ) by {
            if i < n - 1 {
                assert(before.contains(chunks[i].header.tag));
                let k = choose|k: int| 0 <= k < before.len() && before[k] == chunks[i].header.tag;
                assert(now[k] == chunks[i].header.tag);
            } else if before.contains(tag) {
            } else {
                assert(now[now.len() - 1] == tag);
            }
        }
        assert forall|k: int| 0 <= k < now.len() implies exists|i: int|
            0 <= i < n && chunks[i].header.tag == #[trigger] now[k] by {
            if k < before.len() {
                let i = choose|i: int| 0 <= i < n - 1 && chunks[i].header.tag == before[k];
                assert(chunks[i].header.tag == now[k]);
            } else {
                assert(chunks[n - 1].header.tag == now[k]);
            }
        }
    }
}

/// Directory completeness. For an archive of well-formed chunks, chunk `i`
/// has exactly one entry: its type is listed once, it is listed once under
/// that type and under no other, and the offset that its entry records is
/// where the bytes of the chunk stand in the archive.
pub proof fn lemma_directory_complete(archive: IffModel, i: int)
    requires
        archive.wf(),
        0 <= i < archive.chunks.len(),
    ensures
        ({
            let chunks = archive.chunks;
            let n = chunks.len() as int;
            let tags = tags_of(chunks, n);
            &&& exists|k: int, p: int|
                0 <= k < tags.len() && 0 <= p < tagged(chunks, tags[k], n).len() && #[trigger] tagged(
                    chunks,
                    tags[k],
                    n,
                )[p] == i
            &&& forall|k: int, p: int, l: int, q: int|
                0 <= k < tags.len() && 0 <= p < tagged(chunks, tags[k], n).len() && 0 <= l
                    < tags.len() && 0 <= q < tagged(chunks, tags[l], n).len() && #[trigger] tagged(
                    chunks,
                    tags[k],
                    n,
                )[p] == i && #[trigger] tagged(chunks, tags[l], n)[q] == i ==> k == l && p == q
            &&& chunk_offset(chunks, i) + chunks[i].header.size <= archive.bytes().len()
            &&& archive.bytes().subrange(
                chunk_offset(chunks, i),
                chunk_offset(chunks, i) + chunks[i].header.size,
            ) == chunks[i].bytes()
        }),
{
    let chunks = archive.chunks;
    let n = chunks.len() as int;
    let tags = tags_of(chunks, n);
    lemma_tags_of(chunks, n);
    assert(tags.contains(chunks[i].header.tag));
    let k = choose|k: int| 0 <= k < tags.len() && tags[k] == chunks[i].header.tag;
    lemma_tagged(chunks, tags[k], n);
    assert(tagged(chunks, tags[k], n).contains(i));
    let p = choose|p: int|
        0 <= p < tagged(chunks, tags[k], n).len() && tagged(chunks, tags[k], n)[p] == i;
    assert(tagged(chunks, tags[k], n)[p] == i);
    assert forall|g: int, h: int, l: int, q: int|
        0 <= g < tags.len() && 0 <= h < tagged(chunks, tags[g], n).len() && 0 <= l < tags.len()
            && 0 <= q < tagged(chunks, tags[l], n).len() && #[trigger] tagged(
            chunks,
            tags[g],
            n,
        )[h] == i && #[trigger] tagged(chunks, tags[l], n)[q] == i implies g == l && h
        == q by {
        lemma_tagged(chunks, tags[g], n);
        lemma_tagged(chunks, tags[l], n);
        assert(tags[g] == chunks[i].header.tag);
        assert(tags[l] == chunks[i].header.tag);
        if h < q {
            assert(tagged(chunks, tags[g], n)[h] < tagged(chunks, tags[g], n)[q]);
        }
        if q < h {
            assert(tagged(chunks, tags[g], n)[q] < tagged(chunks, tags[g], n)[h]);
        }
    }
    lemma_chunk_position(archive, i);
}

/// In an archive of well-formed chunks, the bytes of chunk `i` stand at its
/// offset.
pub proof fn lemma_chunk_position(archive: IffModel, i: int)
    requires
        archive.wf(),
        0 <= i < archive.chunks.len(),
    ensures
        chunk_offset(archive.chunks, i) + archive.chunks[i].header.size <= archive.bytes().len(),
        archive.bytes().subrange(
            chunk_offset(archive.chunks, i),
            chunk_offset(archive.chunks, i) + archive.chunks[i].header.size,
        ) == archive.chunks[i].bytes(),
{
    let chunks = archive.chunks;
    let before = chunks.take(i);
    let after = chunks.skip(i + 1);
    let c = chunks[i];
    assert(chunks =~= before + seq![c] + after);
    lemma_chunks_concat(before + seq![c], after);
    lemma_chunks_concat(before, seq![c]);
    lemma_chunks_single(c);
    assert forall|j: int| 0 <= j < before.len() implies (#[trigger] before[j]).wf() by {
        assert(before[j] == chunks[j]);
    }
    assert forall|j: int| 0 <= j < after.len() implies (#[trigger] after[j]).wf() by {
        assert(after[j] == chunks[i + 1 + j]);
    }
    lemma_chunks_len(before);
    lemma_chunks_len(after);
    assert(c.wf());
    assert(c.bytes().len() == c.header.size);
    let pre = archive.bytes().subrange(0, 64);
    assert(archive.bytes() =~= pre + chunks_bytes(before) + c.bytes() + chunks_bytes(after));
    assert(archive.bytes().subrange(
        chunk_offset(chunks, i),
        chunk_offset(chunks, i) + c.header.size,
    ) =~= c.bytes());
}

/// How many bytes of the label the directory holds.
fn listed_len(label: &[u8; 64]) -> (n: usize)
    requires
        label@.contains(0u8),
    ensures
        n == listed_label_len(label@),
        n <= 64,
{
    let mut i: usize = 0;
    while i < 64 && label[i] != 0
        invariant
            i <= 64,
            label@.contains(0u8),
            forall|j: int| 0 <= j < i ==> label@[j] != 0u8,
        decreases 64 - i,
    {
        i += 1;
    }
    proof {
        if i == 64 {
            let j = choose|j: int| 0 <= j < label@.len() && label@[j] == 0u8;
            assert(label@[j] != 0u8);
        }
        lemma_first_nul(label@, i as int);
    }
    let n = i + 1;
    n + n % 2
}

/// Appends the directory entry of `chunk`.
fn push_entry(out: &mut Vec<u8>, chunk: &IffChunk, offset: u32)
    requires
        chunk@.wf(),
    ensures
        final(out)@ == old(out)@ + entry_bytes(chunk@, offset as int),
{
    push_u32_le(out, offset);
    push_i16_le(out, chunk.header.id.as_i16());
    push_i16_le(out, chunk.header.flags);
    let n = listed_len(&chunk.header.label);
    push_all(out, slice_subrange(chunk.header.label.as_slice(), 0, n));
    assert(out@ =~= old(out)@ + entry_bytes(chunk@, offset as int));
}

/// Whether `tags` holds `tag`.
fn holds_tag(tags: &Vec<[u8; 4]>, tag: &[u8; 4]) -> (found: bool)
    ensures
        found == tag_views(tags@).contains(tag@),
{
    let mut i: usize = 0;
    while i < tags.len()
        invariant
            i <= tags.len(),
            forall|j: int| 0 <= j < i ==> tag_views(tags@)[j] != tag@,
        decreases tags.len() - i,
    {
        if same_tag(&tags[i], tag) {
            assert(tag_views(tags@)[i as int] == tag@);
            return true;
        }
        i += 1;
    }
    false
}

/// The tags as sequences of bytes.
pub open spec fn tag_views(tags: Seq<[u8; 4]>) -> Seq<Seq<u8>> {
    Seq::new(tags.len(), |i: int| tags[i]@)
}

/// Appends the directory's part for the type `tag`.
fn push_group(body: &mut Vec<u8>, chunks: &Vec<IffChunk>, offsets: &Vec<u32>, tag: &[u8; 4])
    requires
        all_wf(models(chunks@)),
        chunks.len() <= u32::MAX,
        offsets@.len() == chunks.len(),
        forall|j: int|
            0 <= j < chunks.len() ==> offsets@[j] == chunk_offset(models(chunks@), j),
    ensures
        final(body)@ == old(body)@ + group_bytes(models(chunks@), tag@),
{
    let ghost all = models(chunks@);
    let count = chunks.len();
    let mut entries: Vec<u8> = Vec::new();
    let mut listed: usize = 0;
    let mut i: usize = 0;
    while i < count
        invariant
            i <= count == chunks.len(),
            all == models(chunks@),
            all_wf(all),
            offsets@.len() == count,
            forall|j: int| 0 <= j < count ==> offsets@[j] == chunk_offset(all, j),
            listed == tagged(all, tag@, i as int).len(),
            listed <= i,
            entries@ == entries_bytes(all, tagged(all, tag@, i as int)),
        decreases count - i,
    {
        let chunk = &chunks[i];
        assert(all[i as int] == chunk@);
        if same_tag(&chunk.header.chunk_type, tag) {
            let ghost before = tagged(all, tag@, i as int);
            assert(before.push(i as int).drop_last() =~= before);
            push_entry(&mut entries, chunk, offsets[i]);
            listed += 1;
        }
        i += 1;
    }
    push_u8(body, tag[3]);
    push_u8(body, tag[2]);
    push_u8(body, tag[1]);
    push_u8(body, tag[0]);
    push_u32_le(body, listed as u32);
    push_all(body, entries.as_slice());
    assert(body@ =~= old(body)@ + group_bytes(all, tag@));
}

/// Builds the directory chunk for an archive that holds `chunks`, in this
/// order, from its first chunk on.
///
/// The directory lists each type once, in the order in which the types
/// first occur, and under it one entry per chunk of that type, in file
/// order: where the chunk starts, its id, its flags and its label up to and
/// with the terminator, padded to an even number of bytes.
pub fn create_rsmp_chunk(chunks: &Vec<IffChunk>) -> (r: Result<IffChunk, Error>)
    ensures
        match r {
            Ok(chunk) => directory_chunk(models(chunks@)) == Ok::<ChunkModel, Error>(chunk@),
            Err(e) => directory_chunk(models(chunks@)) == Err::<ChunkModel, Error>(e),
        },
{
    reveal(directory_chunk);
    let ghost all = models(chunks@);
    match check_chunks(chunks) {
        Err(e) => {
            return Err(e);
        },
        Ok(_) => {},
    }
    let count = chunks.len();
    let mut offsets: Vec<u32> = Vec::new();
    let mut tags: Vec<[u8; 4]> = Vec::new();
    let mut total: u64 = 64;
    let mut i: usize = 0;
    proof {
        assert(all.take(0) =~= Seq::<ChunkModel>::empty());
        assert(tag_views(tags@) =~= tags_of(all, 0));
    }
    while i < count
        invariant
            i <= count == chunks.len(),
            all == models(chunks@),
            all_wf(all),
            first_defect(all) is None,
            offsets@.len() == i,
            total == 64 + chunks_size(all.take(i as int)),
            total <= u32::MAX,
            forall|j: int| 0 <= j < i ==> offsets@[j] == chunk_offset(all, j),
            tag_views(tags@) == tags_of(all, i as int),
        decreases count - i,
    {
        proof {
            assert(all.take(i + 1).drop_last() =~= all.take(i as int));
            assert(all.take(i + 1).last() == all[i as int]);
            assert(all[i as int] == chunks@[i as int]@);
        }
        let chunk = &chunks[i];
        let next = total + chunk.header.size as u64;
        if next > 0xffff_ffff {
            proof {
                reveal(directory_chunk);
                lemma_size_grows(all.take(i + 1), all.skip(i + 1));
                assert(all.take(i + 1) + all.skip(i + 1) =~= all);
            }
            return Err(Error::TooLarge { chunk_id: 0 });
        }
        offsets.push(total as u32);
        if !holds_tag(&tags, &chunk.header.chunk_type) {
            let ghost before = tag_views(tags@);
            tags.push(chunk.header.chunk_type);
            assert(tag_views(tags@) =~= before.push(chunk.header.chunk_type@));
        }
        total = next;
        i += 1;
    }
    assert(all.take(count as int) =~= all);
    let ghost tag_list = tags_of(all, count as int);
    proof {
        lemma_chunks_len(all);
        lemma_tags_of(all, count as int);
    }
    let mut body: Vec<u8> = Vec::new();
    let mut k: usize = 0;
    while k < tags.len()
        invariant
            k <= tags.len(),
            chunks.len() <= u32::MAX,
            all == models(chunks@),
            all_wf(all),
            offsets@.len() == chunks.len(),
            forall|j: int| 0 <= j < chunks.len() ==> offsets@[j] == chunk_offset(all, j),
            tag_views(tags@) == tag_list,
            body@ == groups_bytes(all, tag_list, k as int),
        decreases tags.len() - k,
    {
        assert(tags@[k as int]@ == tag_list[k as int]);
        push_group(&mut body, chunks, &offsets, &tags[k]);
        k += 1;
    }
    if body.len() > 0xffff_ffff - 96 {
        return Err(Error::TooLarge { chunk_id: 0 });
    }
    let mut payload: Vec<u8> = Vec::new();
    push_u32_le(&mut payload, 0);
    push_u32_le(&mut payload, 0);
    push_all(&mut payload, RSMP_MAGIC.as_slice());
    push_u32_le(&mut payload, (96 + body.len()) as u32);
    push_u32_le(&mut payload, tags.len() as u32);
    push_all(&mut payload, body.as_slice());
    assert(payload@ =~= directory_payload(all));
    let empty: [u8; 0] = [];
    assert(empty@ =~= Seq::<u8>::empty());
    IffChunk::with_label_bytes(&TAG_RSMP, IffChunkId(0), empty.as_slice(), payload)
}

/// Where chunks have a directory, they are well formed, their offsets fit
/// in 32 bits, and the directory is well formed too.
pub proof fn lemma_directory_wf(chunks: Seq<ChunkModel>)
    requires
        directory_chunk(chunks) is Ok,
    ensures
        all_wf(chunks),
        64 + chunks_size(chunks) <= u32::MAX,
        directory_chunk(chunks)->Ok_0.wf(),
{
    reveal(directory_chunk);
    crate::iff::lemma_first_defect(chunks);
    crate::iff::lemma_new_chunk_wf(TAG_RSMP@, 0, Seq::empty(), directory_payload(chunks));
}

/// The sizes of a prefix do not exceed those of the whole.
pub proof fn lemma_size_grows(a: Seq<ChunkModel>, b: Seq<ChunkModel>)
    ensures
        chunks_size(a + b) >= chunks_size(a),
    decreases b.len(),
{
    if b.len() == 0 {
        assert(a + b =~= a);
    } else {
        assert((a + b).drop_last() =~= a + b.drop_last());
        lemma_size_grows(a, b.drop_last());
    }
}

} // verus!
