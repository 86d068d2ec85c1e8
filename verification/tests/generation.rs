use voxel_world::block::Block;
use voxel_world::coords::{BlockPos, ChunkPos};
use voxel_world::worldgen::{
    BiomeNoiseData, ColumnSamples, SurfaceBiome, WorldGenerator,
};

#[test]
fn biome_table_spot_checks() {
    let b = |t: u8, p: u8| SurfaceBiome::new(BiomeNoiseData { temperature: t, precipitation: p });
    assert_eq!(b(0, 0), SurfaceBiome::Grasslands);
    assert_eq!(b(0, 12), SurfaceBiome::Grasslands);
    assert_eq!(b(0, 13), SurfaceBiome::Arctic);
    assert_eq!(b(2, 15), SurfaceBiome::Arctic);
    assert_eq!(b(3, 15), SurfaceBiome::Grasslands);
    assert_eq!(b(7, 11), SurfaceBiome::Grasslands);
    assert_eq!(b(8, 12), SurfaceBiome::LushGrasslands);
    assert_eq!(b(9, 14), SurfaceBiome::LushGrasslands);
    assert_eq!(b(9, 15), SurfaceBiome::FloodedGrasslands);
    assert_eq!(b(10, 15), SurfaceBiome::Grasslands);
    assert_eq!(b(13, 0), SurfaceBiome::Desert);
    assert_eq!(b(15, 2), SurfaceBiome::Desert);
    assert_eq!(b(15, 3), SurfaceBiome::XericShrubland);
    assert_eq!(b(15, 4), SurfaceBiome::XericShrubland);
    assert_eq!(b(15, 5), SurfaceBiome::Grasslands);
    assert_eq!(b(15, 10), SurfaceBiome::Grasslands);
    assert_eq!(b(15, 11), SurfaceBiome::Jungle);
    assert_eq!(b(14, 13), SurfaceBiome::Jungle);
    assert_eq!(b(15, 14), SurfaceBiome::Swamp);
    assert_eq!(b(15, 15), SurfaceBiome::Swamp);
}

#[test]
fn grasslands_layering_by_depth() {
    let g = SurfaceBiome::Grasslands;
    assert_eq!(g.get_block_at_depth(1), Block::Air);
    assert_eq!(g.get_block_at_depth(100), Block::Air);
    assert_eq!(g.get_block_at_depth(0), Block::Grass);
    assert_eq!(g.get_block_at_depth(-1), Block::Dirt);
    assert_eq!(g.get_block_at_depth(-2), Block::Dirt);
    assert_eq!(g.get_block_at_depth(-3), Block::RockyDirt);
    assert_eq!(g.get_block_at_depth(-5), Block::RockyDirt);
    assert_eq!(g.get_block_at_depth(-6), Block::Stone);
    assert_eq!(g.get_block_at_depth(-100), Block::Stone);
}

#[test]
fn other_biomes_are_stone_below_the_surface() {
    assert_eq!(SurfaceBiome::Arctic.get_block_at_depth(0), Block::Stone);
    assert_eq!(SurfaceBiome::Desert.get_block_at_depth(-1), Block::Stone);
    assert_eq!(SurfaceBiome::Jungle.get_block_at_depth(3), Block::Air);
}

#[test]
fn generated_chunk_follows_the_height_field() {
    let generator = WorldGenerator::new(0);
    let climate = BiomeNoiseData { temperature: 5, precipitation: 5 };  // grasslands
    let samples = ColumnSamples::uniform(10, climate);
    let lc = generator.generate_chunk(ChunkPos::new(0, 0, 0), &samples);
    assert_eq!(lc.load_count, 0);
    let c = &lc.chunk;
    // world y == 10 is the surface
    assert_eq!(c.get_block(BlockPos::new(7, 10, 20)), Block::Grass);
    assert_eq!(c.get_block(BlockPos::new(7, 11, 20)), Block::Air);
    assert_eq!(c.get_block(BlockPos::new(7, 31, 20)), Block::Air);
    assert_eq!(c.get_block(BlockPos::new(7, 9, 20)), Block::Dirt);
    assert_eq!(c.get_block(BlockPos::new(7, 8, 20)), Block::Dirt);
    assert_eq!(c.get_block(BlockPos::new(7, 7, 20)), Block::RockyDirt);
    assert_eq!(c.get_block(BlockPos::new(7, 4, 20)), Block::Stone);
    assert_eq!(c.get_block(BlockPos::new(7, 0, 20)), Block::Stone);
}

#[test]
fn generation_respects_chunk_offset() {
    let generator = WorldGenerator::new(1);
    let climate = BiomeNoiseData { temperature: 5, precipitation: 5 };
    let samples = ColumnSamples::uniform(10, climate);
    // one chunk up: every world y is 32..64, far above the surface
    let above = generator.generate_chunk(ChunkPos::new(0, 1, 0), &samples);
    assert_eq!(above.chunk.get_block(BlockPos::new(0, 0, 0)), Block::Air);
    // one chunk down: everything is deep underground
    let below = generator.generate_chunk(ChunkPos::new(0, -1, 0), &samples);
    assert_eq!(below.chunk.get_block(BlockPos::new(0, 31, 0)), Block::Stone);
}
