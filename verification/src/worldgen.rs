//! Deterministic terrain classification. Noise sampling itself lives with
//! the caller (it is floating-point); this module turns sampled per-column
//! values — surface height, biome temperature and precipitation — into the
//! blocks of a chunk, column by column and depth by depth.

use vstd::prelude::*;
use crate::coords::{BlockPos, ChunkPos};
use crate::block::Block;
use crate::chunk::{Chunk, LoadedChunk, chunk_pos_in_range, block_cell_idx};

verus! {

/// Noise-derived climate of one column, each level in `[0, 15]`.
#[derive(Clone, Copy, PartialEq, Eq, Structural, Debug)]
pub struct BiomeNoiseData {
    pub temperature: u8,
    pub precipitation: u8,
}

/// Two layers of region noise that decide where biomes begin and end.
#[derive(Clone, Copy, PartialEq, Eq, Structural, Debug)]
pub struct BiomeNoise(pub i64, pub i64);

/// Biomes of the world's surface layer.
#[derive(Clone, Copy, PartialEq, Eq, Structural, Debug)]
pub enum SurfaceBiome {
    /// Oak and birch trees grow here.
    Grasslands,
    /// Grasslands with far more frequent vegetation and shrubs.
    LushGrasslands,
    ConiferousForest,
    BroadleafForest,
    /// Very moist forest.
    Jungle,
    Swamp,
    /// Like a swamp but with no trees.
    FloodedGrasslands,
    /// Dry, cold, little vegetation.
    Tundra,
    /// Ice and snow everywhere.
    Arctic,
    /// A cold forest.
    Taiga,
    Desert,
    /// Like a desert but with more shrubs and vegetation.
    XericShrubland,
    /// Savanna with very few trees, mostly grass.
    SavannaGrassland,
    /// Savanna with much more frequent trees.
    SavannaWoodland,
}

/// Biomes of mountain ranges.
#[derive(Clone, Copy, PartialEq, Eq, Structural, Debug)]
pub enum MountainBiome {
    SnowyPeaks,
    BarrenPeaks,
    MontaneForest,
}

/// Biomes of the seas.
#[derive(Clone, Copy, PartialEq, Eq, Structural, Debug)]
pub enum SeaBiome {
    Sea,
    FrozenSea,
}

/// Biomes below the surface.
#[derive(Clone, Copy, PartialEq, Eq, Structural, Debug)]
pub enum UndergroundBiome {
    SolidGround,
    Caverns,
    LushCaverns,
    UndergroundLake,
    FloodedCaverns,
}

/// The surface biome of a temperature/precipitation pair, both in
/// `[0, 15]`: temperature rises down the table, precipitation rises to the
/// right.
pub open spec fn spec_biome_for(t: int, p: int) -> SurfaceBiome {
    if t <= 2 {
        if p <= 12 {
            SurfaceBiome::Grasslands
        } else {
            SurfaceBiome::Arctic
        }
    } else if t <= 6 {
        SurfaceBiome::Grasslands
    } else if t <= 9 {
        if p <= 11 {
            SurfaceBiome::Grasslands
        } else if p <= 14 {
            SurfaceBiome::LushGrasslands
        } else {
            SurfaceBiome::FloodedGrasslands
        }
    } else if t <= 12 {
        SurfaceBiome::Grasslands
    } else {
        if p <= 2 {
            SurfaceBiome::Desert
        } else if p <= 4 {
            SurfaceBiome::XericShrubland
        } else if p <= 10 {
            SurfaceBiome::Grasslands
        } else if p <= 13 {
            SurfaceBiome::Jungle
        } else {
            SurfaceBiome::Swamp
        }
    }
}

/// The block a biome lays down at a given depth below its surface: depth 0
/// is the surface itself, negative depths are below it, positive depths are
/// open air.
pub open spec fn spec_block_at_depth(b: SurfaceBiome, depth: int) -> Block {
    if depth > 0 {
        Block::Air
    } else {
        match b {
            SurfaceBiome::Grasslands => if depth == 0 {
                Block::Grass
            } else if depth > -3 {
                Block::Dirt
            } else if depth > -6 {
                Block::RockyDirt
            } else {
                Block::Stone
            },
            _ => Block::Stone,
        }
    }
}

impl SurfaceBiome {
    /// Classifies climate noise into a biome; levels beyond 15 are a caller
    /// error (the noise pipeline clamps them).
    pub fn new(biome_noise: BiomeNoiseData) -> (r: SurfaceBiome)
        requires
            biome_noise.temperature <= 15,
            biome_noise.precipitation <= 15,
        ensures
            r == spec_biome_for(biome_noise.temperature as int, biome_noise.precipitation as int),
    {
        let t = biome_noise.temperature;
        let p = biome_noise.precipitation;
        if t <= 2 {
            if p <= 12 {
                SurfaceBiome::Grasslands
            } else {
                SurfaceBiome::Arctic
            }
        } else if t <= 6 {
            SurfaceBiome::Grasslands
        } else if t <= 9 {
            if p <= 11 {
                SurfaceBiome::Grasslands
            } else if p <= 14 {
                SurfaceBiome::LushGrasslands
            } else {
                SurfaceBiome::FloodedGrasslands
            }
        } else if t <= 12 {
            SurfaceBiome::Grasslands
        } else {
            if p <= 2 {
                SurfaceBiome::Desert
            } else if p <= 4 {
                SurfaceBiome::XericShrubland
            } else if p <= 10 {
                SurfaceBiome::Grasslands
            } else if p <= 13 {
                SurfaceBiome::Jungle
            } else {
                SurfaceBiome::Swamp
            }
        }
    }

    /// The block this biome lays down at a depth relative to its surface.
    pub fn get_block_at_depth(&self, depth: i64) -> (r: Block)
        ensures
            r == spec_block_at_depth(*self, depth as int),
    {
        if depth > 0 {
            Block::Air
        } else {
            match self {
                SurfaceBiome::Grasslands => if depth == 0 {
                    Block::Grass
                } else if depth > -3 {
                    Block::Dirt
                } else if depth > -6 {
                    Block::RockyDirt
                } else {
                    Block::Stone
                },
                _ => Block::Stone,
            }
        }
    }
}

/// Per-column samples for one chunk footprint, indexed by `x * 32 + z`:
/// the surface height in world block coordinates, and the two climate
/// levels. The caller samples these from its noise source; everything after
/// that is deterministic classification.
pub struct ColumnSamples {
    pub heights: Vec<i64>,
    pub temperature: Vec<u8>,
    pub precipitation: Vec<u8>,
}

impl ColumnSamples {
    pub open spec fn wf(self) -> bool {
        &&& self.heights@.len() == 1024
        &&& self.temperature@.len() == 1024
        &&& self.precipitation@.len() == 1024
        &&& forall|i: int| 0 <= i < 1024
            ==> -0x2000_0000_0000_0000 <= #[trigger] self.heights@[i] <= 0x2000_0000_0000_0000
        &&& forall|i: int| 0 <= i < 1024 ==> #[trigger] self.temperature@[i] <= 15
        &&& forall|i: int| 0 <= i < 1024 ==> #[trigger] self.precipitation@[i] <= 15
    }

    /// Samples describing a single flat surface at world height `h` with
    /// uniform climate.
    pub fn uniform(h: i64, climate: BiomeNoiseData) -> (r: ColumnSamples)
        requires
            -0x2000_0000_0000_0000 <= h <= 0x2000_0000_0000_0000,
            climate.temperature <= 15,
            climate.precipitation <= 15,
        ensures
            r.wf(),
            forall|i: int| 0 <= i < 1024 ==> #[trigger] r.heights@[i] == h,
            forall|i: int| 0 <= i < 1024 ==> #[trigger] r.temperature@[i] == climate.temperature,
            forall|i: int| 0 <= i < 1024
                ==> #[trigger] r.precipitation@[i] == climate.precipitation,
    {
        let mut heights: Vec<i64> = Vec::new();
        let mut temperature: Vec<u8> = Vec::new();
        let mut precipitation: Vec<u8> = Vec::new();
        let mut i: usize = 0;
        while i < 1024
            invariant
                i <= 1024,
                heights@.len() == i,
                temperature@.len() == i,
                precipitation@.len() == i,
                forall|k: int| 0 <= k < i ==> #[trigger] heights@[k] == h,
                forall|k: int| 0 <= k < i ==> #[trigger] temperature@[k] == climate.temperature,
                forall|k: int| 0 <= k < i ==> #[trigger] precipitation@[k] == climate.precipitation,
            decreases 1024 - i,
        {
            heights.push(h);
            temperature.push(climate.temperature);
            precipitation.push(climate.precipitation);
            i += 1;
        }
        ColumnSamples { heights, temperature, precipitation }
    }
}

/// The block generated at chunk-local `(x, y, z)` of the chunk at
/// `position`: the column's biome lays its block for the depth of the
/// world-space y coordinate below the column's surface height.
pub open spec fn spec_generated_block(
    position: ChunkPos,
    samples: ColumnSamples,
    x: int,
    y: int,
    z: int,
) -> Block {
    let col = x * 32 + z;
    let depth = position.y * 32 + y - samples.heights@[col];
    spec_block_at_depth(
        spec_biome_for(samples.temperature@[col] as int, samples.precipitation@[col] as int),
        depth,
    )
}

/// The terrain generator. The seed selects the caller's noise functions;
/// classification itself is pure.
pub struct WorldGenerator {
    pub seed: u32,
}

impl WorldGenerator {
    pub fn new(seed: u32) -> (r: WorldGenerator)
        ensures
            r.seed == seed,
    {
        WorldGenerator { seed }
    }

    /// Generates the chunk at `position` from per-column samples: every
    /// cell holds exactly the block its column's biome lays down at its
    /// depth. The chunk starts with a load count of zero and an empty mesh
    /// cache.
    pub fn generate_chunk(&self, position: ChunkPos, samples: &ColumnSamples) -> (r: LoadedChunk)
        requires
            chunk_pos_in_range(position),
            samples.wf(),
        ensures
            r.load_count == 0,
            r.chunk.wf(),
            r.chunk.chunk_position == position,
            forall|p: BlockPos| p.spec_is_chunk_local()
                ==> r.chunk.spec_block_at(p) == spec_generated_block(
                    position,
                    *samples,
                    p.x as int,
                    p.y as int,
                    p.z as int,
                ),
    {
        let blocks = generate_blocks(position, samples);
        let chunk = Chunk::new(position, blocks);
        proof {
            assert forall|p: BlockPos| p.spec_is_chunk_local() implies chunk.spec_block_at(p)
                == spec_generated_block(position, *samples, p.x as int, p.y as int, p.z as int) by {
                assert(0 <= block_cell_idx(p.x as int, p.y as int, p.z as int) < 32768);
            }
        }
        LoadedChunk::new(chunk)
    }
}

/// The dense block cube of a generated chunk, row-major by `block_cell_idx`.
pub fn generate_blocks(position: ChunkPos, samples: &ColumnSamples) -> (r: Vec<Block>)
    requires
        chunk_pos_in_range(position),
        samples.wf(),
    ensures
        r@.len() == 32768,
        forall|a: int, b: int, c: int| 0 <= a < 32 && 0 <= b < 32 && 0 <= c < 32
            ==> r@[#[trigger] block_cell_idx(a, b, c)] == spec_generated_block(
                position,
                *samples,
                a,
                b,
                c,
            ),
{
    let base_y: i64 = position.y * 32;
    let mut r: Vec<Block> = Vec::new();
    let mut x: usize = 0;
    while x < 32
        invariant
            x <= 32,
            chunk_pos_in_range(position),
            samples.wf(),
            base_y == position.y * 32,
            r@.len() == x * 1024,
            forall|a: int, b: int, c: int| 0 <= a < x && 0 <= b < 32 && 0 <= c < 32
                ==> r@[#[trigger] block_cell_idx(a, b, c)] == spec_generated_block(
                    position,
                    *samples,
                    a,
                    b,
                    c,
                ),
        decreases 32 - x,
    {
        let mut y: usize = 0;
        while y < 32
            invariant
                x < 32,
                y <= 32,
                chunk_pos_in_range(position),
                samples.wf(),
                base_y == position.y * 32,
                r@.len() == x * 1024 + y * 32,
                forall|a: int, b: int, c: int| 0 <= a < 32 && 0 <= b < 32 && 0 <= c < 32
                    && a * 1024 + b * 32 + c < x * 1024 + y * 32
                    ==> r@[#[trigger] block_cell_idx(a, b, c)] == spec_generated_block(
                        position,
                        *samples,
                        a,
                        b,
                        c,
                    ),
            decreases 32 - y,
        {
            let mut z: usize = 0;
            while z < 32
                invariant
                    x < 32,
                    y < 32,
                    z <= 32,
                    chunk_pos_in_range(position),
                    samples.wf(),
                    base_y == position.y * 32,
                    r@.len() == x * 1024 + y * 32 + z,
                    forall|a: int, b: int, c: int| 0 <= a < 32 && 0 <= b < 32 && 0 <= c < 32
                        && a * 1024 + b * 32 + c < x * 1024 + y * 32 + z
                        ==> r@[#[trigger] block_cell_idx(a, b, c)] == spec_generated_block(
                            position,
                            *samples,
                            a,
                            b,
                            c,
                        ),
                decreases 32 - z,
            {
                let col: usize = x * 32 + z;
                let h = samples.heights[col];
                let t = samples.temperature[col];
                let p = samples.precipitation[col];
                let biome = SurfaceBiome::new(BiomeNoiseData { temperature: t, precipitation: p });
                let depth: i64 = base_y + (y as i64) - h;
                let block = biome.get_block_at_depth(depth);
                r.push(block);
                proof {
                    assert(r@[block_cell_idx(x as int, y as int, z as int)] == block);
                    assert(block == spec_generated_block(
                        position,
                        *samples,
                        x as int,
                        y as int,
                        z as int,
                    ));
                    assert forall|a: int, b: int, c: int|
                        0 <= a < 32 && 0 <= b < 32 && 0 <= c < 32 && a * 1024 + b * 32 + c < x
                            * 1024 + y * 32 + z + 1 implies r@[#[trigger] block_cell_idx(a, b, c)]
                        == spec_generated_block(position, *samples, a, b, c) by {
                        if a * 1024 + b * 32 + c < x * 1024 + y * 32 + z {
                            assert(r@[block_cell_idx(a, b, c)] == r@.drop_last()[block_cell_idx(
                                a,
                                b,
                                c,
                            )]);
                        } else {
                            assert(a * 1024 + b * 32 + c == x * 1024 + y * 32 + z);
                            assert(a == x as int && b == y as int && c == z as int);
                        }
                    }
                }
                z += 1;
            }
            y += 1;
        }
        x += 1;
    }
    r
}

} // verus!
