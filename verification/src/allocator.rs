//! Where in a texture a tile goes: the rectangle allocator of the `etagere` crate.
//!
//! The allocator is described by what was done to it since it was made. Its calls depend
//! on that history and on their arguments alone.
use crate::geometry::{Area, DevicePixels, Point, Size};
use etagere::BucketedAtlasAllocator;
use vstd::prelude::*;

verus! {

/// `etagere`'s allocator, of which nothing but its history is known here.
#[verifier::external_type_specification]
#[verifier::external_body]
pub struct ExBucketedAtlasAllocator(BucketedAtlasAllocator);

/// Something that happened to an allocator.
pub enum AllocatorEvent {
    /// It was made for a texture of this size.
    Created { width: int, height: int },
    /// A rectangle was handed out.
    Placed { id: u32, area: Area },
    /// A rectangle was given back.
    Released { id: u32 },
}

/// What happened to an allocator, oldest first. A request that was turned down leaves no
/// trace.
pub uninterp spec fn allocator_history(allocator: BucketedAtlasAllocator) -> Seq<AllocatorEvent>;

/// What an allocator with this history answers to a request for `width` times `height`
/// pixels: the number of the rectangle and its upper left corner.
pub uninterp spec fn placement(history: Seq<AllocatorEvent>, width: i32, height: i32) -> Option<
    (u32, i32, i32),
>;

/// The rectangles that were handed out and not given back, by number.
pub open spec fn live_areas(history: Seq<AllocatorEvent>) -> Map<u32, Area>
    decreases history.len(),
{
    if history.len() == 0 {
        Map::empty()
    } else {
        match history.last() {
            AllocatorEvent::Created { .. } => Map::empty(),
            AllocatorEvent::Placed { id, area } => live_areas(history.drop_last()).insert(id, area),
            AllocatorEvent::Released { id } => live_areas(history.drop_last()).remove(id),
        }
    }
}

/// The number of a rectangle counts the rectangles of its bucket in twelve of its bits. They
/// begin anew at zero with every 4096th.
pub open spec fn begins_round(id: u32) -> bool {
    id / 4096 % 4096 == 0
}

/// How often the rectangles of a bucket were counted anew, in all buckets together.
pub open spec fn count_rounds(history: Seq<AllocatorEvent>) -> nat
    decreases history.len(),
{
    if history.len() == 0 {
        0
    } else {
        match history.last() {
            AllocatorEvent::Created { .. } => 0,
            AllocatorEvent::Placed { id, .. } => {
                let rounds = count_rounds(history.drop_last());
                if begins_round(id) {
                    rounds + 1
                } else {
                    rounds
                }
            },
            AllocatorEvent::Released { .. } => count_rounds(history.drop_last()),
        }
    }
}

/// How often an allocator may count the rectangles of a bucket anew: a bucket that has counted
/// up to 15 times 4096 is close to the end of its 16-bit counter.
pub const MAX_ROUNDS: u32 = 15;

/// The longest side for which an allocator is made here: none of `etagere`'s sums and
/// products overflows below it.
pub const MAX_SIDE: i32 = 32767;

/// The history of an allocator that was made for a texture of `width` times `height`
/// pixels.
pub open spec fn is_history_of(history: Seq<AllocatorEvent>, width: int, height: int) -> bool {
    &&& history.len() > 0
    &&& history[0] == (AllocatorEvent::Created { width, height })
    &&& 0 <= width <= MAX_SIDE
    &&& 0 <= height <= MAX_SIDE
}

/// The width that an allocator was made for.
pub open spec fn history_width(history: Seq<AllocatorEvent>) -> int {
    history[0]->width
}

/// The height that an allocator was made for.
pub open spec fn history_height(history: Seq<AllocatorEvent>) -> int {
    history[0]->height
}

/// The history after a rectangle was handed out.
pub open spec fn after_placement(
    history: Seq<AllocatorEvent>,
    width: i32,
    height: i32,
    id: u32,
    x: i32,
    y: i32,
) -> Seq<AllocatorEvent> {
    history.push(
        AllocatorEvent::Placed {
            id,
            area: Area { x: x as int, y: y as int, width: width as int, height: height as int },
        },
    )
}

/// The rectangle lies in the texture, is not empty, has a number of its own and touches
/// no other that is in use.
pub open spec fn is_free_area(history: Seq<AllocatorEvent>, id: u32, area: Area) -> bool {
    &&& area.fits(history_width(history), history_height(history))
    &&& !live_areas(history).contains_key(id)
    &&& forall|other: u32| #[trigger]
        live_areas(history).contains_key(other) ==> area.is_disjoint(live_areas(history)[other])
}

/// `BucketedAtlasAllocator::new`: an allocator for a texture of this size, in which
/// nothing is in use.
#[verifier::external_body]
pub(crate) fn new_allocator(width: i32, height: i32) -> (allocator: BucketedAtlasAllocator)
    requires
        0 <= width <= MAX_SIDE,
        0 <= height <= MAX_SIDE,
    ensures
        allocator_history(allocator) == seq![
            AllocatorEvent::Created { width: width as int, height: height as int },
        ],
{
    BucketedAtlasAllocator::new(etagere::Size::new(width, height))
}

/// `BucketedAtlasAllocator::allocate`: hands out a rectangle of the requested width and at
/// least the requested height, of which this function's caller uses the upper part.
///
/// The answer is named by [`placement`]. A rectangle that is handed out is free
/// ([`is_free_area`]); a request that is turned down changes nothing; an allocator of which
/// nothing was ever asked turns down no request that fits; and fewer than 2^24 rectangles
/// are in use at a time (4095 buckets with a 12-bit item number each).
///
/// The search for shelves to merge reads two shelves past an empty one. It stays in bounds
/// because the topmost shelf always has a rectangle in use: it got one when it was made, and
/// it is taken down with its last one.
///
/// A bucket counts its rectangles in 16 bits for as long as its shelf stands, and a build with
/// overflow checks stops past 65535. The search passes a bucket over at 4095, but one that is
/// reached by merging shelves is never refused. The lower twelve bits of the count are those of
/// the rectangle's number that [`begins_round`] reads, so that a bucket that has counted to 15
/// times 4096 has begun 15 rounds. With fewer rounds than that in all, no counter overflows.
#[verifier::external_body]
pub(crate) fn allocate_area(
    allocator: &mut BucketedAtlasAllocator,
    width: i32,
    height: i32,
) -> (answer: Option<(u32, i32, i32)>)
    requires
        is_history_of(
            allocator_history(*old(allocator)),
            history_width(allocator_history(*old(allocator))),
            history_height(allocator_history(*old(allocator))),
        ),
        count_rounds(allocator_history(*old(allocator))) < MAX_ROUNDS,
    ensures
        answer == placement(allocator_history(*old(allocator)), width, height),
        match answer {
            None => allocator_history(*final(allocator)) == allocator_history(*old(allocator)),
            Some((id, x, y)) => {
                &&& allocator_history(*final(allocator)) == after_placement(
                    allocator_history(*old(allocator)),
                    width,
                    height,
                    id,
                    x,
                    y,
                )
                &&& is_free_area(
                    allocator_history(*old(allocator)),
                    id,
                    Area { x: x as int, y: y as int, width: width as int, height: height as int },
                )
            },
        },
        allocator_history(*old(allocator)).len() == 1 && 0 < width <= history_width(
            allocator_history(*old(allocator)),
        ) && 0 < height <= history_height(allocator_history(*old(allocator))) ==> answer is Some,
        live_areas(allocator_history(*final(allocator))).len() < 0x100_0000,
{
    let allocation = allocator.allocate(etagere::Size::new(width, height))?;
    let min = allocation.rectangle.min;
    Some((allocation.id.serialize(), min.x, min.y))
}

/// `BucketedAtlasAllocator::deallocate`: gives a rectangle back that is in use.
#[verifier::external_body]
pub(crate) fn deallocate_area(allocator: &mut BucketedAtlasAllocator, id: u32)
    requires
        live_areas(allocator_history(*old(allocator))).contains_key(id),
    ensures
        allocator_history(*final(allocator)) == allocator_history(*old(allocator)).push(
            AllocatorEvent::Released { id },
        ),
{
    allocator.deallocate(etagere::AllocId::deserialize(id));
}

/// The sides of a size as the allocator takes them.
pub fn size_to_etagere(size: Size) -> (sides: (i32, i32))
    ensures
        sides == (size.width.0, size.height.0),
{
    (size.width.0, size.height.0)
}

/// A corner of a rectangle as the allocator gives it.
pub fn point_from_etagere(corner: (i32, i32)) -> (point: Point)
    ensures
        point == (Point { x: DevicePixels(corner.0), y: DevicePixels(corner.1) }),
{
    Point { x: DevicePixels(corner.0), y: DevicePixels(corner.1) }
}

} // verus!
