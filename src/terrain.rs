use vstd::prelude::*;

use crate::protocol::{CHUNK_SIZE, CHUNK_VOLUME};

verus! {

pub const AIR: u32 = 0;

pub const STONE: u32 = 1;

pub const DIRT: u32 = 2;

pub const GRASS: u32 = 3;

pub const FLOWER: u32 = 5;

pub const MUSHROOM: u32 = 6;

/// Relies on `rand::random`: a value drawn from the thread-local generator.
/// Nothing is promised about which value comes out.
pub assume_specification<T>[ rand::random::<T> ]() -> (r: T)
    where
        rand::distributions::Standard: rand::distributions::Distribution<T>,
;

/// True with probability one in 512: nine fair coin flips, all heads.
fn one_in_512() -> bool {
    let mut k: u32 = 0;
    while k < 9
        invariant
            k <= 9,
        decreases 9 - k,
    {
        if !rand::random::<bool>() {
            return false;
        }
        k = k + 1;
    }
    true
}

/// The block at height `y` of a column whose terrain surface is at
/// `height`: stone below it, two layers of dirt, then the grass layer, then
/// air. Grass may carry a decoration instead.
pub open spec fn base_block(y: int, height: int) -> u32 {
    if y < height {
        STONE
    } else if y <= height + 1 {
        DIRT
    } else if y == height + 2 {
        GRASS
    } else {
        AIR
    }
}

/// The decoration of a grass block: a mushroom on one roll, a flower on
/// the other, the flower winning when both come up.
pub fn surface_block(mushroom: bool, flower: bool) -> (r: u32)
    ensures
        r == (if flower {
            FLOWER
        } else if mushroom {
            MUSHROOM
        } else {
            GRASS
        }),
{
    if flower {
        FLOWER
    } else if mushroom {
        MUSHROOM
    } else {
        GRASS
    }
}

/// The block generated where `planned` was planned: the same, except that
/// grass may be decorated.
pub open spec fn placed(planned: u32, block: u32) -> bool {
    if planned == GRASS {
        block == GRASS || block == FLOWER || block == MUSHROOM
    } else {
        block == planned
    }
}

/// Column (x, z) and height within the chunk of block `i`, stored x-major,
/// then by height, then by z.
pub open spec fn block_x(i: int) -> int {
    i / 256
}

pub open spec fn block_y(i: int) -> int {
    (i / 16) % 16
}

pub open spec fn block_z(i: int) -> int {
    i % 16
}

/// What block `i` of the chunk at chunk height `chunk_y` is before
/// decoration, given the surface heights of its columns.
pub open spec fn planned_block(chunk_y: i32, heights: [[i32; 16]; 16], i: int) -> u32 {
    base_block(
        chunk_y * 16 + block_y(i),
        heights@[block_x(i)]@[block_z(i)] as int,
    )
}

/// Client-side terrain generation, until chunks come from a server.
pub struct World {}

impl World {
    /// The blocks of the chunk at chunk height `chunk_y`, given the surface
    /// height of each of its columns (`heights[x][z]`, in blocks). `None`
    /// when the chunk is all air. Grass blocks are decorated at random.
    pub fn generate_chunk(chunk_y: i32, heights: &[[i32; 16]; 16]) -> (r: Option<Vec<u32>>)
        ensures
            r.is_none() == (forall|i: int|
                0 <= i < CHUNK_VOLUME ==> planned_block(chunk_y, *heights, i) == AIR),
            r matches Some(v) ==> {
                &&& v@.len() == CHUNK_VOLUME
                &&& forall|i: int|
                    0 <= i < CHUNK_VOLUME ==> placed(
                        planned_block(chunk_y, *heights, i),
                        #[trigger] v@[i],
                    )
            },
    {
        let mut blocks: Vec<u32> = Vec::new();
        let mut solid = false;
        let mut i: usize = 0;
        while i < CHUNK_VOLUME
            invariant
                i <= CHUNK_VOLUME,
                blocks@.len() == i,
                solid == (exists|j: int| 0 <= j < i && planned_block(chunk_y, *heights, j) != AIR),
                forall|j: int|
                    0 <= j < i ==> placed(
                        planned_block(chunk_y, *heights, j),
                        #[trigger] blocks@[j],
                    ),
            decreases CHUNK_VOLUME - i,
        {
            let x = i / 256;
            let y = (i / CHUNK_SIZE) % CHUNK_SIZE;
            let z = i % CHUNK_SIZE;
            let world_y = chunk_y as i64 * 16 + y as i64;
            let height = heights[x][z] as i64;
            let block = if world_y < height {
                STONE
            } else if world_y <= height + 1 {
                DIRT
            } else if world_y == height + 2 {
                let mushroom = one_in_512();
                let flower = one_in_512();
                surface_block(mushroom, flower)
            } else {
                AIR
            };
            let ghost p = planned_block(chunk_y, *heights, i as int);
            proof {
                assert(p == base_block(world_y as int, height as int));
            }
            if block != AIR {
                solid = true;
            }
            blocks.push(block);
            i = i + 1;
        }
        if solid {
            Some(blocks)
        } else {
            None
        }
    }
}

} // verus!
