//! Giving draw groups that show one sprite from two sides, flipped, a
//! frame of their own for each of the four directions.

use crate::dgrp::{DrawGroup, DrawGroupItem, DrawGroupItemList};
use crate::iff::IffChunkId;
use crate::iff_description::DrawGroups;
use crate::spr::SpriteIndex;
use vstd::prelude::*;

verus! {

/// The flag of an item that is shown flipped.
pub const FLIPPED_SPRITE_FLAG: u32 = 1;

/// Why a draw group that shows a flipped sprite was left as it is.
#[derive(Copy, Clone, Debug, PartialEq, Eq, Structural)]
pub enum RotationWarning {
    /// The sprite is not shown flipped in one half of the item lists and
    /// unflipped in the other.
    UnequalUsage { chunk_id: i16 },
    /// The item lists of the group do not all have the same length.
    UnequalLength { chunk_id: i16 },
}

/// Whether the item is shown flipped.
pub open spec fn flipped(item: DrawGroupItem) -> bool {
    item.flags & 1 != 0
}

/// Whether every list has more than `k` items.
pub open spec fn column_exists(lists: Seq<DrawGroupItemList>, k: int) -> bool {
    forall|l: int| 0 <= l < lists.len() ==> k < (#[trigger] lists[l]).draw_group_items@.len()
}

/// Whether the group has item lists, all with as many items as the first,
/// and no more lists than a 32-bit index can count.
pub open spec fn uniform(group: DrawGroup) -> bool {
    let lists = group.draw_group_item_lists@;
    &&& 0 < lists.len() <= i32::MAX
    &&& forall|l: int|
        0 <= l < lists.len() ==> (#[trigger] lists[l]).draw_group_items@.len()
            == lists[0].draw_group_items@.len()
}

/// The sprite of item `k` in the first of the first `n` lists in which
/// that item is flipped, or is not, as `want` says.
pub open spec fn first_sprite(lists: Seq<DrawGroupItemList>, k: int, want: bool, n: int)
    -> Option<IffChunkId>
    decreases n,
{
    if n <= 0 {
        None
    } else {
        match first_sprite(lists, k, want, n - 1) {
            Some(id) => Some(id),
            None => if flipped(lists[n - 1].draw_group_items@[k]) == want {
                Some(lists[n - 1].draw_group_items@[k].sprite_chunk_id)
            } else {
                None
            },
        }
    }
}

/// In how many of the first `n` lists item `k` shows the sprite `id`,
/// flipped or not as `want` says.
pub open spec fn usage(lists: Seq<DrawGroupItemList>, k: int, id: IffChunkId, want: bool, n: int)
    -> int
    decreases n,
{
    if n <= 0 {
        0
    } else {
        usage(lists, k, id, want, n - 1) + if lists[n - 1].draw_group_items@[k].sprite_chunk_id
            == id && flipped(lists[n - 1].draw_group_items@[k]) == want {
            1int
        } else {
            0int
        }
    }
}

/// In how many lists item `k` shows the first sprite that is shown
/// flipped, or unflipped, in that way.
pub open spec fn first_usage(lists: Seq<DrawGroupItemList>, k: int, want: bool) -> int {
    match first_sprite(lists, k, want, lists.len() as int) {
        Some(id) => usage(lists, k, id, want, lists.len() as int),
        None => 0,
    }
}

/// Whether item `k` can be given four directions: either one half of the
/// lists shows one sprite flipped and the other half one sprite
/// unflipped, or all lists show one sprite unflipped.
pub open spec fn convertible(lists: Seq<DrawGroupItemList>, k: int) -> bool {
    (first_usage(lists, k, true) == lists.len() / 2 && first_usage(lists, k, false) == lists.len()
        / 2) || first_usage(lists, k, false) == lists.len()
}

/// The frame that list `l` shows once every direction has its own frame:
/// the largest scale comes last among the frames.
pub open spec fn rotated_index(l: int) -> i32 {
    ((2 - l / 4) * 4 + l % 4) as i32
}

/// The item `k` of list `l` after the conversion.
pub open spec fn rotated_item(lists: Seq<DrawGroupItemList>, l: int, k: int) -> DrawGroupItem {
    let item = lists[l].draw_group_items@[k];
    if convertible(lists, k) {
        match first_sprite(lists, k, false, lists.len() as int) {
            Some(id) => DrawGroupItem {
                sprite_chunk_id: id,
                flags: item.flags & !1u32,
                sprite_index: SpriteIndex(rotated_index(l)),
                ..item
            },
            None => item,
        }
    } else {
        item
    }
}

/// Whether item `k` gives a warning: a sprite is shown flipped, but the
/// item cannot be given four directions.
pub open spec fn column_warns(lists: Seq<DrawGroupItemList>, k: int) -> bool {
    !convertible(lists, k) && first_usage(lists, k, true) > 0
}

/// Whether `after` is the group `before` with every item converted that
/// can be, if the group is uniform, and `before` itself if it is not.
pub open spec fn group_rotated(before: DrawGroup, after: DrawGroup) -> bool {
    if uniform(before) {
        let lists = before.draw_group_item_lists@;
        &&& after == (DrawGroup { draw_group_item_lists: after.draw_group_item_lists, ..before })
        &&& after.draw_group_item_lists@.len() == lists.len()
        &&& forall|l: int|
            0 <= l < lists.len() ==> {
                &&& after.draw_group_item_lists@[l] == (DrawGroupItemList {
                    draw_group_items: after.draw_group_item_lists@[l].draw_group_items,
                    ..#[trigger] lists[l]
                })
                &&& after.draw_group_item_lists@[l].draw_group_items@.len()
                    == lists[l].draw_group_items@.len()
                &&& forall|k: int|
                    0 <= k < lists[l].draw_group_items@.len()
                        ==> #[trigger] after.draw_group_item_lists@[l].draw_group_items@[k]
                        == rotated_item(lists, l, k)
            }
    } else {
        after == before
    }
}

/// The warnings for the first `k` items of a uniform group.
pub open spec fn column_warnings(group: DrawGroup, k: int) -> Seq<RotationWarning>
    decreases k,
{
    if k <= 0 {
        Seq::empty()
    } else if column_warns(group.draw_group_item_lists@, k - 1) {
        column_warnings(group, k - 1).push(
            RotationWarning::UnequalUsage { chunk_id: group.chunk_id.0 },
        )
    } else {
        column_warnings(group, k - 1)
    }
}

/// Whether an item of the group is shown flipped.
pub open spec fn any_flipped(group: DrawGroup) -> bool {
    exists|l: int, i: int|
        0 <= l < group.draw_group_item_lists@.len() && 0 <= i
            < group.draw_group_item_lists@[l].draw_group_items@.len() && flipped(
            #[trigger] group.draw_group_item_lists@[l].draw_group_items@[i],
        )
}

/// The warnings for one group.
pub open spec fn group_warnings(group: DrawGroup) -> Seq<RotationWarning> {
    if uniform(group) {
        column_warnings(group, group.draw_group_item_lists@[0].draw_group_items@.len() as int)
    } else if any_flipped(group) {
        seq![RotationWarning::UnequalLength { chunk_id: group.chunk_id.0 }]
    } else {
        Seq::empty()
    }
}

/// The warnings for the first `k` groups, in order.
pub open spec fn groups_warnings(groups: Seq<DrawGroup>, k: int) -> Seq<RotationWarning>
    decreases k,
{
    if k <= 0 {
        Seq::empty()
    } else {
        groups_warnings(groups, k - 1) + group_warnings(groups[k - 1])
    }
}

/// What is found in a column depends on the items of that column alone.
pub proof fn lemma_same_column(
    a: Seq<DrawGroupItemList>,
    b: Seq<DrawGroupItemList>,
    k: int,
    id: IffChunkId,
    want: bool,
    n: int,
)
    requires
        0 <= n <= a.len(),
        a.len() == b.len(),
        forall|l: int|
            0 <= l < a.len() ==> (#[trigger] a[l]).draw_group_items@[k]
                == b[l].draw_group_items@[k],
    ensures
        first_sprite(a, k, want, n) == first_sprite(b, k, want, n),
        usage(a, k, id, want, n) == usage(b, k, id, want, n),
    decreases n,
{
    if n > 0 {
        lemma_same_column(a, b, k, id, want, n - 1);
        assert(a[n - 1].draw_group_items@[k] == b[n - 1].draw_group_items@[k]);
    }
}

/// Whether a column can be converted, and what it is converted to, depends
/// on the items of that column alone.
pub proof fn lemma_same_decision(a: Seq<DrawGroupItemList>, b: Seq<DrawGroupItemList>, k: int)
    requires
        a.len() == b.len(),
        forall|l: int|
            0 <= l < a.len() ==> (#[trigger] a[l]).draw_group_items@[k]
                == b[l].draw_group_items@[k],
    ensures
        convertible(a, k) == convertible(b, k),
        column_warns(a, k) == column_warns(b, k),
        first_sprite(a, k, false, a.len() as int) == first_sprite(b, k, false, b.len() as int),
{
    let n = a.len() as int;
    let none = IffChunkId(0);
    lemma_same_column(a, b, k, none, true, n);
    lemma_same_column(a, b, k, none, false, n);
    match first_sprite(a, k, true, n) {
        Some(id) => lemma_same_column(a, b, k, id, true, n),
        None => {},
    }
    match first_sprite(a, k, false, n) {
        Some(id) => lemma_same_column(a, b, k, id, false, n),
        None => {},
    }
}

/// A usage is not negative and not more than the number of lists.
pub proof fn lemma_usage_bounds(
    lists: Seq<DrawGroupItemList>,
    k: int,
    id: IffChunkId,
    want: bool,
    n: int,
)
    requires
        0 <= n,
    ensures
        0 <= usage(lists, k, id, want, n) <= n,
    decreases n,
{
    if n > 0 {
        lemma_usage_bounds(lists, k, id, want, n - 1);
    }
}

/// Whether the item is shown flipped.
fn is_flipped(item: &DrawGroupItem) -> (r: bool)
    ensures
        r == flipped(*item),
{
    item.flags & FLIPPED_SPRITE_FLAG != 0
}

/// The sprite of item `k` in the first list in which it is flipped, or is
/// not, and in how many lists item `k` shows that sprite in that way.
fn column_usage(lists: &Vec<DrawGroupItemList>, k: usize, want: bool) -> (r: (
    Option<IffChunkId>,
    usize,
))
    requires
        column_exists(lists@, k as int),
    ensures
        r.0 == first_sprite(lists@, k as int, want, lists@.len() as int),
        r.1 == first_usage(lists@, k as int, want),
{
    let mut first: Option<IffChunkId> = None;
    let mut l: usize = 0;
    while l < lists.len()
        invariant
            l <= lists.len(),
            column_exists(lists@, k as int),
            first == first_sprite(lists@, k as int, want, l as int),
        decreases lists.len() - l,
    {
        assert(k < lists@[l as int].draw_group_items@.len());
        if first.is_none() && is_flipped(&lists[l].draw_group_items[k]) == want {
            first = Some(lists[l].draw_group_items[k].sprite_chunk_id);
        }
        l += 1;
    }
    let id = match first {
        Some(id) => id,
        None => {
            return (None, 0);
        },
    };
    let mut count: usize = 0;
    let mut l: usize = 0;
    while l < lists.len()
        invariant
            l <= lists.len(),
            column_exists(lists@, k as int),
            count == usage(lists@, k as int, id, want, l as int),
            count <= l,
        decreases lists.len() - l,
    {
        assert(k < lists@[l as int].draw_group_items@.len());
        let item = &lists[l].draw_group_items[k];
        if item.sprite_chunk_id.as_i16() == id.as_i16() && is_flipped(item) == want {
            count += 1;
        }
        l += 1;
    }
    (first, count)
}

/// Whether the lists of the group all have as many items as the first.
fn is_uniform(group: &DrawGroup) -> (r: bool)
    ensures
        r == uniform(*group),
{
    let lists = &group.draw_group_item_lists;
    if lists.len() == 0 || lists.len() > 0x7fff_ffff {
        return false;
    }
    let length = lists[0].draw_group_items.len();
    let mut l: usize = 0;
    while l < lists.len()
        invariant
            l <= lists.len(),
            0 < lists.len() <= i32::MAX,
            lists@ == group.draw_group_item_lists@,
            length == lists@[0].draw_group_items@.len(),
            forall|j: int|
                0 <= j < l ==> (#[trigger] lists@[j]).draw_group_items@.len() == length,
        decreases lists.len() - l,
    {
        if lists[l].draw_group_items.len() != length {
            return false;
        }
        l += 1;
    }
    true
}

/// Whether an item of the group is shown flipped.
fn has_flipped(group: &DrawGroup) -> (r: bool)
    ensures
        r == any_flipped(*group),
{
    let lists = &group.draw_group_item_lists;
    let mut l: usize = 0;
    while l < lists.len()
        invariant
            l <= lists.len(),
            lists@ == group.draw_group_item_lists@,
            forall|a: int, i: int|
                0 <= a < l && 0 <= i < lists@[a].draw_group_items@.len() ==> !flipped(
                    #[trigger] lists@[a].draw_group_items@[i],
                ),
        decreases lists.len() - l,
    {
        let items = &lists[l].draw_group_items;
        let mut i: usize = 0;
        while i < items.len()
            invariant
                i <= items.len(),
                l < lists.len(),
                lists@ == group.draw_group_item_lists@,
                items@ == lists@[l as int].draw_group_items@,
                forall|c: int| 0 <= c < i ==> !flipped(#[trigger] items@[c]),
            decreases items.len() - i,
        {
            if is_flipped(&items[i]) {
                assert(flipped(group.draw_group_item_lists@[l as int].draw_group_items@[i as int]));
                return true;
            }
            i += 1;
        }
        l += 1;
    }
    false
}

/// Whether `lists` are the lists `origin` with the first `done` items of
/// every list converted and the others as they were.
pub open spec fn columns_rotated(
    origin: Seq<DrawGroupItemList>,
    lists: Seq<DrawGroupItemList>,
    done: int,
) -> bool {
    &&& lists.len() == origin.len()
    &&& forall|l: int|
        0 <= l < origin.len() ==> {
            &&& lists[l] == (DrawGroupItemList {
                draw_group_items: lists[l].draw_group_items,
                ..#[trigger] origin[l]
            })
            &&& lists[l].draw_group_items@.len() == origin[l].draw_group_items@.len()
            &&& forall|k: int|
                0 <= k < origin[l].draw_group_items@.len()
                    ==> #[trigger] lists[l].draw_group_items@[k] == if k < done {
                    rotated_item(origin, l, k)
                } else {
                    origin[l].draw_group_items@[k]
                }
        }
}

/// Converts item `k` of every list to the sprite `id`.
fn rotate_column(
    lists: &mut Vec<DrawGroupItemList>,
    Ghost(origin): Ghost<Seq<DrawGroupItemList>>,
    k: usize,
    id: IffChunkId,
)
    requires
        columns_rotated(origin, old(lists)@, k as int),
        column_exists(origin, k as int),
        origin.len() <= i32::MAX,
        convertible(origin, k as int),
        first_sprite(origin, k as int, false, origin.len() as int) == Some(id),
    ensures
        columns_rotated(origin, final(lists)@, k + 1),
{
    let mut l: usize = 0;
    while l < lists.len()
        invariant
            l <= lists.len(),
            lists@.len() == origin.len() <= i32::MAX,
            column_exists(origin, k as int),
            convertible(origin, k as int),
            first_sprite(origin, k as int, false, origin.len() as int) == Some(id),
            forall|a: int|
                0 <= a < origin.len() ==> {
                    &&& lists@[a] == (DrawGroupItemList {
                        draw_group_items: lists@[a].draw_group_items,
                        ..#[trigger] origin[a]
                    })
                    &&& lists@[a].draw_group_items@.len() == origin[a].draw_group_items@.len()
                    &&& forall|c: int|
                        0 <= c < origin[a].draw_group_items@.len()
                            ==> #[trigger] lists@[a].draw_group_items@[c] == if c < k || (c == k
                            && a < l) {
                            rotated_item(origin, a, c)
                        } else {
                            origin[a].draw_group_items@[c]
                        }
                },
        decreases lists.len() - l,
    {
        assert(k < origin[l as int].draw_group_items@.len());
        let item = lists[l].draw_group_items[k];
        assert(item == origin[l as int].draw_group_items@[k as int]);
        let index = (2 - (l as i32) / 4) * 4 + (l as i32) % 4;
        lists[l].draw_group_items[k] = DrawGroupItem {
            sprite_chunk_id: id,
            flags: item.flags & !FLIPPED_SPRITE_FLAG,
            sprite_index: SpriteIndex(index),
            ..item
        };
        l += 1;
    }
}

/// Converts the items of one group, and appends the warnings for it.
fn rotate_group(group: &mut DrawGroup, warnings: &mut Vec<RotationWarning>)
    ensures
        group_rotated(*old(group), *final(group)),
        final(warnings)@ == old(warnings)@ + group_warnings(*old(group)),
{
    let chunk_id = group.chunk_id.as_i16();
    if !is_uniform(group) {
        if has_flipped(group) {
            warnings.push(RotationWarning::UnequalLength { chunk_id });
            assert(warnings@ =~= old(warnings)@ + group_warnings(*old(group)));
        } else {
            assert(warnings@ =~= old(warnings)@ + group_warnings(*old(group)));
        }
        return ;
    }
    let ghost first = *group;
    let ghost origin = group.draw_group_item_lists@;
    let count = group.draw_group_item_lists.len();
    let length = group.draw_group_item_lists[0].draw_group_items.len();
    let mut k: usize = 0;
    assert(warnings@ =~= old(warnings)@ + column_warnings(first, 0));
    while k < length
        invariant
            k <= length,
            first == *old(group),
            chunk_id == first.chunk_id.0,
            origin == first.draw_group_item_lists@,
            uniform(first),
            count == origin.len(),
            length == origin[0].draw_group_items@.len(),
            *group == (DrawGroup { draw_group_item_lists: group.draw_group_item_lists, ..first }),
            columns_rotated(origin, group.draw_group_item_lists@, k as int),
            warnings@ == old(warnings)@ + column_warnings(first, k as int),
        decreases length - k,
    {
        let ghost before = warnings@;
        proof {
            assert forall|l: int| 0 <= l < origin.len() implies k < (
            #[trigger] group.draw_group_item_lists@[l]).draw_group_items@.len() by {
                assert(origin[l].draw_group_items@.len() == length);
            }
            assert forall|l: int| 0 <= l < origin.len() implies k < (
            #[trigger] origin[l]).draw_group_items@.len() by {}
            lemma_same_decision(group.draw_group_item_lists@, origin, k as int);
            lemma_same_column(
                group.draw_group_item_lists@,
                origin,
                k as int,
                IffChunkId(0),
                true,
                origin.len() as int,
            );
        }
        let (flipped_sprite, flipped_count) = column_usage(
            &group.draw_group_item_lists,
            k,
            true,
        );
        let (unflipped_sprite, unflipped_count) = column_usage(
            &group.draw_group_item_lists,
            k,
            false,
        );
        proof {
            match first_sprite(origin, k as int, true, origin.len() as int) {
                Some(id) => lemma_same_column(
                    group.draw_group_item_lists@,
                    origin,
                    k as int,
                    id,
                    true,
                    origin.len() as int,
                ),
                None => {},
            }
            match first_sprite(origin, k as int, false, origin.len() as int) {
                Some(id) => lemma_same_column(
                    group.draw_group_item_lists@,
                    origin,
                    k as int,
                    id,
                    false,
                    origin.len() as int,
                ),
                None => {},
            }
            lemma_same_column(
                group.draw_group_item_lists@,
                origin,
                k as int,
                IffChunkId(0),
                false,
                origin.len() as int,
            );
        }
        let convert = (flipped_count == count / 2 && unflipped_count == count / 2)
            || unflipped_count == count;
        if convert {
            match unflipped_sprite {
                Some(id) => {
                    rotate_column(&mut group.draw_group_item_lists, Ghost(origin), k, id);
                },
                None => {},
            }
        } else if flipped_count > 0 {
            warnings.push(RotationWarning::UnequalUsage { chunk_id });
        }
        assert(warnings@ =~= old(warnings)@ + column_warnings(first, k + 1));
        k += 1;
    }
}

/// Gives the items of draw groups a frame of their own for each of the
/// four directions, where they show one sprite from two sides.
///
/// A group is looked at only if its item lists all have the same length.
/// Of such a group, item by item: the item is converted if one half of
/// the lists shows one sprite at its place flipped and the other half one
/// sprite unflipped, or if all lists show one sprite unflipped. Converted,
/// every list shows the unflipped sprite, unflipped, and the frame that is
/// made for the direction and scale of the list. The result is the
/// warnings, in order, for the items and groups that show a flipped sprite
/// and were left as they are.
pub fn add_rotations(draw_groups: &mut DrawGroups) -> (warnings: Vec<RotationWarning>)
    ensures
        final(draw_groups).draw_groups@.len() == old(draw_groups).draw_groups@.len(),
        forall|g: int|
            0 <= g < old(draw_groups).draw_groups@.len() ==> group_rotated(
                #[trigger] old(draw_groups).draw_groups@[g],
                final(draw_groups).draw_groups@[g],
            ),
        warnings@ == groups_warnings(
            old(draw_groups).draw_groups@,
            old(draw_groups).draw_groups@.len() as int,
        ),
{
    let mut warnings: Vec<RotationWarning> = Vec::new();
    let ghost origin = draw_groups.draw_groups@;
    let mut g: usize = 0;
    assert(warnings@ =~= groups_warnings(origin, 0));
    while g < draw_groups.draw_groups.len()
        invariant
            g <= draw_groups.draw_groups.len(),
            origin == old(draw_groups).draw_groups@,
            draw_groups.draw_groups@.len() == origin.len(),
            forall|k: int|
                0 <= k < g ==> group_rotated(#[trigger] origin[k], draw_groups.draw_groups@[k]),
            forall|k: int| g <= k < origin.len() ==> draw_groups.draw_groups@[k] == origin[k],
            warnings@ == groups_warnings(origin, g as int),
        decreases draw_groups.draw_groups.len() - g,
    {
        rotate_group(&mut draw_groups.draw_groups[g], &mut warnings);
        g += 1;
    }
    warnings
}

} // verus!
