//! The measured sizes of the frame.
//!
//! The size of a picture follows from its commands. The size of a text comes
//! from whoever renders it and is handed in. Within a frame the sizes of an
//! entity's payloads accumulate to their maximum; from frame to frame nothing
//! is kept.

use vstd::prelude::*;
use crate::entity::{Entities, Entity};
use crate::geometry::ContentSize;
use crate::picture::{tallest, widest, Picture};
use crate::storage::Storage;

verus! {

/// The measured size of the payload of an entity.
#[derive(Clone, Copy, Debug, PartialEq, Eq, Structural)]
pub struct Measurement {
    pub entity: Entity,
    pub width: u32,
    pub height: u32,
}

/// The sizes of the pictures of live entities. A picture with a rectangle
/// that ends beyond the coordinate range has no size.
pub open spec fn picture_sizes(entities: &Entities, pictures: Map<u32, Picture>) -> Map<
    u32,
    ContentSize,
> {
    Map::new(
        |id: u32|
            entities.occupant(id) is Some && pictures.contains_key(id) && pictures[id].bounded(),
        |id: u32|
            ContentSize {
                width: widest(pictures[id]@) as u32,
                height: tallest(pictures[id]@) as u32,
            },
    )
}

/// The size held for `id`, or the empty size.
pub open spec fn size_of(sizes: Map<u32, ContentSize>, id: u32) -> ContentSize {
    if sizes.contains_key(id) {
        sizes[id]
    } else {
        ContentSize { width: 0, height: 0 }
    }
}

/// The sizes after one more measurement: the size of its entity grows to
/// hold it. A measurement of an entity that is not live counts for nothing.
pub open spec fn with_measurement(
    sizes: Map<u32, ContentSize>,
    entities: &Entities,
    m: Measurement,
) -> Map<u32, ContentSize> {
    if entities.is_live(m.entity) {
        sizes.insert(m.entity.id(), size_of(sizes, m.entity.id()).grown(m.width, m.height))
    } else {
        sizes
    }
}

/// The content sizes of a frame: those of the pictures, grown by the
/// measurements handed in.
pub open spec fn measured(
    entities: &Entities,
    pictures: Map<u32, Picture>,
    measurements: Seq<Measurement>,
) -> Map<u32, ContentSize>
    decreases measurements.len(),
{
    if measurements.len() == 0 {
        picture_sizes(entities, pictures)
    } else {
        with_measurement(
            measured(entities, pictures, measurements.drop_last()),
            entities,
            measurements.last(),
        )
    }
}

/// Replaces the content sizes by those of this frame.
pub fn refresh_content_sizes(
    entities: &Entities,
    pictures: &Storage<Picture>,
    measurements: &Vec<Measurement>,
    content_sizes: &mut Storage<ContentSize>,
)
    ensures
        final(content_sizes)@ == measured(entities, pictures@, measurements@),
{
    content_sizes.clear();
    let ids = pictures.ids();
    let mut k: usize = 0;
    while k < ids.len()
        invariant
            0 <= k <= ids.len(),
            forall|id: u32| ids@.contains(id) <==> pictures@.contains_key(id),
            forall|id: u32|
                #[trigger] content_sizes@.contains_key(id) <==> ids@.take(k as int).contains(id)
                    && picture_sizes(entities, pictures@).contains_key(id),
            forall|id: u32|
                #[trigger] content_sizes@.contains_key(id) ==> content_sizes@[id] == picture_sizes(
                    entities,
                    pictures@,
                )[id],
        decreases ids.len() - k,
    {
        let id = ids[k];
        let ghost head = ids@.take(k as int);
        let ghost next = ids@.take(k + 1);
        let ghost before = content_sizes@;
        proof {
            assert(ids@.contains(id));
            assert forall|x: u32| next.contains(x) <==> head.contains(x) || x == id by {
                if head.contains(x) {
                    let j = choose|j: int| 0 <= j < head.len() && head[j] == x;
                    assert(next[j] == x);
                }
                if x == id {
                    assert(next[k as int] == x);
                }
                if next.contains(x) {
                    let j = choose|j: int| 0 <= j < next.len() && next[j] == x;
                    if j < k {
                        assert(head[j] == x);
                    }
                }
            }
        }
        if entities.entity(id).is_some() {
            match pictures.get(id) {
                Some(picture) => {
                    match picture.checked_size() {
                        Some(size) => {
                            content_sizes.insert(
                                id,
                                ContentSize { width: size.0, height: size.1 },
                            );
                        },
                        None => {},
                    }
                },
                None => {},
            }
        }
        proof {
            assert forall|x: u32| #[trigger]
                content_sizes@.contains_key(x) <==> next.contains(x) && picture_sizes(
                    entities,
                    pictures@,
                ).contains_key(x) by {
                if x != id {
                    assert(content_sizes@.contains_key(x) == before.contains_key(x));
                }
            }
        }
        k += 1;
    }
    proof {
        assert(ids@.take(k as int) =~= ids@);
        assert(content_sizes@ =~= picture_sizes(entities, pictures@));
    }
    let mut k: usize = 0;
    while k < measurements.len()
        invariant
            0 <= k <= measurements.len(),
            content_sizes@ == measured(entities, pictures@, measurements@.take(k as int)),
        decreases measurements.len() - k,
    {
        let m = measurements[k];
        proof {
            assert(measurements@.take(k + 1).drop_last() =~= measurements@.take(k as int));
            assert(measurements@.take(k + 1).last() == m);
        }
        if entities.is_alive(m.entity) {
            let current = match content_sizes.get(m.entity.id()) {
                Some(size) => *size,
                None => ContentSize::new(),
            };
            content_sizes.insert(m.entity.id(), current.absorb(m.width, m.height));
        }
        k += 1;
    }
    assert(measurements@.take(k as int) =~= measurements@);
}

} // verus!
