//! Voxel ray casting: the classic DDA grid traversal, stepping whichever
//! axis crosses its next block boundary soonest. Crossing times are exact
//! rationals kept as integers over a common denominator, so the traversal
//! order is exact — no floating point anywhere.

use vstd::prelude::*;
use vstd::arithmetic::div_mod::{lemma_div_non_zero, lemma_div_nonincreasing};
use crate::coords::BlockPos;
use crate::world::World;

verus! {

/// The fixed data of one traversal: origin block, per-axis step direction
/// (`-1`, `0` or `+1`), per-axis crossing interval (scaled so all three
/// axes share one time unit; the sentinel on an axis the ray does not move
/// along), and the length bound in blocks.
pub ghost struct RayCfg {
    pub start: BlockPos,
    pub sx: int,
    pub sy: int,
    pub sz: int,
    pub ix: int,
    pub iy: int,
    pub iz: int,
    pub max_length: int,
}

/// The changing data: how many boundaries each axis has crossed, and each
/// axis's next crossing time.
pub ghost struct RayState {
    pub kx: int,
    pub ky: int,
    pub kz: int,
    pub nx: int,
    pub ny: int,
    pub nz: int,
}

/// Sentinel time for an axis the ray never crosses: beyond every reachable
/// crossing time.
pub open spec fn ray_never() -> int {
    u128::MAX as int
}

/// Block the traversal stands on after the crossings in `st`.
pub open spec fn ray_pos(cfg: RayCfg, st: RayState) -> BlockPos {
    BlockPos {
        x: (cfg.start.x + cfg.sx * st.kx) as i64,
        y: (cfg.start.y + cfg.sy * st.ky) as i64,
        z: (cfg.start.z + cfg.sz * st.kz) as i64,
    }
}

/// Squared distance travelled, in whole-block steps per axis.
pub open spec fn ray_sq_dist(st: RayState) -> int {
    st.kx * st.kx + st.ky * st.ky + st.kz * st.kz
}

/// Which axis crosses its next boundary soonest: x wins only outright, y
/// wins its tie against z, z takes the rest.
pub open spec fn ray_axis(st: RayState) -> int {
    if st.nx < st.ny && st.nx < st.nz {
        0
    } else if st.ny < st.nz {
        1
    } else {
        2
    }
}

/// The state after crossing the chosen axis's boundary.
pub open spec fn ray_advance(cfg: RayCfg, st: RayState) -> RayState {
    let a = ray_axis(st);
    if a == 0 {
        RayState { kx: st.kx + 1, nx: st.nx + cfg.ix, ..st }
    } else if a == 1 {
        RayState { ky: st.ky + 1, ny: st.ny + cfg.iy, ..st }
    } else {
        RayState { kz: st.kz + 1, nz: st.nz + cfg.iz, ..st }
    }
}

/// One boundary crossing at a time: step the soonest axis, give up once the
/// travelled distance exceeds the bound or the ray leaves loaded space,
/// answer the first non-air block met, and otherwise march on. (The
/// traversal only ever builds states whose crossing counts lie between zero
/// and the length bound; other states answer `None` at once.)
pub open spec fn ray_march(w: World, cfg: RayCfg, st: RayState) -> Option<BlockPos>
    decreases 3 * (cfg.max_length + 1) - st.kx - st.ky - st.kz,
{
    if !(0 <= st.kx <= cfg.max_length && 0 <= st.ky <= cfg.max_length && 0 <= st.kz
        <= cfg.max_length) {
        None
    } else {
        let st2 = ray_advance(cfg, st);
        let p = ray_pos(cfg, st2);
        if ray_sq_dist(st2) > cfg.max_length * cfg.max_length {
            None
        } else {
            match w.spec_block_lookup(p) {
                None => None,
                Some(b) => if !b.spec_is_air() {
                    Some(p)
                } else {
                    ray_march(w, cfg, st2)
                },
            }
        }
    }
}

/// The initial state: every axis one full crossing interval away from its
/// first boundary.
pub open spec fn ray_init(cfg: RayCfg) -> RayState {
    RayState { kx: 0, ky: 0, kz: 0, nx: cfg.ix, ny: cfg.iy, nz: cfg.iz }
}

/// Sign of a direction component.
pub open spec fn sign_of(d: int) -> int {
    if d > 0 {
        1
    } else if d < 0 {
        -1
    } else {
        0
    }
}

/// Magnitude of a direction component, 1 for a zero component.
pub open spec fn mag_or_one(d: int) -> int {
    if d == 0 {
        1
    } else if d > 0 {
        d
    } else {
        -d
    }
}

/// Crossing interval of one axis: the shared time scale divided by the
/// component's magnitude; the sentinel for a zero component.
pub open spec fn interval_of(d: int, scale: int) -> int {
    if d == 0 {
        ray_never()
    } else {
        scale / mag_or_one(d)
    }
}

/// Common time scale: the product of the component magnitudes, so every
/// axis's crossing interval is an exact integer.
pub open spec fn ray_scale(dx: int, dy: int, dz: int) -> int {
    mag_or_one(dx) * mag_or_one(dy) * mag_or_one(dz)
}

/// The whole traversal for a world, an origin block and an integer
/// direction vector.
pub open spec fn spec_block_raycast(
    w: World,
    ray_start: BlockPos,
    ray: BlockPos,
    max_length: int,
) -> Option<BlockPos> {
    let scale = ray_scale(ray.x as int, ray.y as int, ray.z as int);
    let cfg = RayCfg {
        start: ray_start,
        sx: sign_of(ray.x as int),
        sy: sign_of(ray.y as int),
        sz: sign_of(ray.z as int),
        ix: interval_of(ray.x as int, scale),
        iy: interval_of(ray.y as int, scale),
        iz: interval_of(ray.z as int, scale),
        max_length,
    };
    ray_march(w, cfg, ray_init(cfg))
}

/// Whatever the traversal answers is a resident, non-air block.
pub proof fn lemma_ray_march_hit(w: World, cfg: RayCfg, st: RayState)
    ensures
        match ray_march(w, cfg, st) {
            Some(p) => match w.spec_block_lookup(p) {
                Some(b) => !b.spec_is_air(),
                None => false,
            },
            None => true,
        },
    decreases 3 * (cfg.max_length + 1) - st.kx - st.ky - st.kz,
{
    if 0 <= st.kx <= cfg.max_length && 0 <= st.ky <= cfg.max_length && 0 <= st.kz
        <= cfg.max_length {
        let st2 = ray_advance(cfg, st);
        if ray_sq_dist(st2) <= cfg.max_length * cfg.max_length {
            match w.spec_block_lookup(ray_pos(cfg, st2)) {
                None => {},
                Some(b) => {
                    if b.spec_is_air() {
                        lemma_ray_march_hit(w, cfg, st2);
                    }
                },
            }
        }
    }
}

/// Relation of an executable interval to the model's: equal for a real
/// axis, sentinel for a zero one.
pub open spec fn interval_bounded(s: int, i_exec: int, i_spec: int) -> bool {
    if s == 0 {
        i_spec == ray_never() && i_exec == u128::MAX as int
    } else {
        i_exec == i_spec && 1 <= i_spec <= 0x1_0000_0000_0000_0000
    }
}

impl World {
    /// Casts a ray from the corner of `ray_start` along the integer
    /// direction `ray`, for at most `max_length` blocks of Euclidean
    /// distance. Returns the first non-air block met; `None` once the
    /// length runs out, and `None` as soon as the ray enters a coordinate
    /// whose chunk is not resident — the caller cannot see past the edge of
    /// the loaded world.
    pub fn block_raycast(&self, ray_start: BlockPos, ray: BlockPos, max_length: u64) -> (r: Option<
        BlockPos,
    >)
        requires
            self.wf(),
            -0x10_0000 <= ray.x <= 0x10_0000,
            -0x10_0000 <= ray.y <= 0x10_0000,
            -0x10_0000 <= ray.z <= 0x10_0000,
            !(ray.x == 0 && ray.y == 0 && ray.z == 0),
            max_length <= 0x10_0000,
            -0x0080_0000_0000_0000 <= ray_start.x <= 0x0080_0000_0000_0000,
            -0x0080_0000_0000_0000 <= ray_start.y <= 0x0080_0000_0000_0000,
            -0x0080_0000_0000_0000 <= ray_start.z <= 0x0080_0000_0000_0000,
        ensures
            r == spec_block_raycast(*self, ray_start, ray, max_length as int),
            match r {
                Some(p) => match self.spec_block_lookup(p) {
                    Some(b) => !b.spec_is_air(),
                    None => false,
                },
                None => true,
            },
    {
        let ax: u128 = if ray.x == 0 { 1 } else if ray.x > 0 { ray.x as u128 } else { (-ray.x) as u128 };
        let ay: u128 = if ray.y == 0 { 1 } else if ray.y > 0 { ray.y as u128 } else { (-ray.y) as u128 };
        let az: u128 = if ray.z == 0 { 1 } else if ray.z > 0 { ray.z as u128 } else { (-ray.z) as u128 };
        proof {
            assert(ax == mag_or_one(ray.x as int));
            assert(ay == mag_or_one(ray.y as int));
            assert(az == mag_or_one(ray.z as int));
            assert(ax * ay <= 0x100_0000_0000 && 1 <= ax * ay) by (nonlinear_arith)
                requires
                    1 <= ax <= 0x10_0000,
                    1 <= ay <= 0x10_0000,
            ;
            assert((ax * ay) * az <= 0x1_0000_0000_0000_0000 && 1 <= (ax * ay) * az)
                by (nonlinear_arith)
                requires
                    1 <= ax * ay <= 0x100_0000_0000,
                    1 <= az <= 0x10_0000,
            ;
        }
        let scale: u128 = ax * ay * az;
        proof {
            assert(scale == ray_scale(ray.x as int, ray.y as int, ray.z as int));
        }
        let sx: i64 = if ray.x > 0 { 1 } else if ray.x < 0 { -1 } else { 0 };
        let sy: i64 = if ray.y > 0 { 1 } else if ray.y < 0 { -1 } else { 0 };
        let sz: i64 = if ray.z > 0 { 1 } else if ray.z < 0 { -1 } else { 0 };
        let ix: u128 = if ray.x == 0 { u128::MAX } else { scale / ax };
        let iy: u128 = if ray.y == 0 { u128::MAX } else { scale / ay };
        let iz: u128 = if ray.z == 0 { u128::MAX } else { scale / az };
        let ghost cfg = RayCfg {
            start: ray_start,
            sx: sx as int,
            sy: sy as int,
            sz: sz as int,
            ix: interval_of(ray.x as int, scale as int),
            iy: interval_of(ray.y as int, scale as int),
            iz: interval_of(ray.z as int, scale as int),
            max_length: max_length as int,
        };
        proof {
            assert(ax <= scale && ay <= scale && az <= scale) by (nonlinear_arith)
                requires
                    scale == ax * ay * az,
                    1 <= ax,
                    1 <= ay,
                    1 <= az,
            ;
            if ray.x != 0 {
                lemma_div_non_zero(scale as int, ax as int);
                lemma_div_nonincreasing(scale as int, ax as int);
            }
            if ray.y != 0 {
                lemma_div_non_zero(scale as int, ay as int);
                lemma_div_nonincreasing(scale as int, ay as int);
            }
            if ray.z != 0 {
                lemma_div_non_zero(scale as int, az as int);
                lemma_div_nonincreasing(scale as int, az as int);
            }
            assert(interval_bounded(cfg.sx, ix as int, cfg.ix));
            assert(interval_bounded(cfg.sy, iy as int, cfg.iy));
            assert(interval_bounded(cfg.sz, iz as int, cfg.iz));
        }
        ray_march_loop(self, ray_start, sx, sy, sz, ix, iy, iz, max_length, Ghost(cfg))
    }
}

/// The DDA loop itself, against a prepared configuration.
#[verifier::rlimit(100)]
fn ray_march_loop(
    w: &World,
    ray_start: BlockPos,
    sx: i64,
    sy: i64,
    sz: i64,
    ix: u128,
    iy: u128,
    iz: u128,
    max_length: u64,
    Ghost(cfg): Ghost<RayCfg>,
) -> (r: Option<BlockPos>)
    requires
        w.wf(),
        cfg.start == ray_start,
        cfg.sx == sx as int,
        cfg.sy == sy as int,
        cfg.sz == sz as int,
        cfg.max_length == max_length as int,
        max_length <= 0x10_0000,
        -1 <= sx <= 1,
        -1 <= sy <= 1,
        -1 <= sz <= 1,
        !(sx == 0 && sy == 0 && sz == 0),
        interval_bounded(cfg.sx, ix as int, cfg.ix),
        interval_bounded(cfg.sy, iy as int, cfg.iy),
        interval_bounded(cfg.sz, iz as int, cfg.iz),
        -0x0080_0000_0000_0000 <= ray_start.x <= 0x0080_0000_0000_0000,
        -0x0080_0000_0000_0000 <= ray_start.y <= 0x0080_0000_0000_0000,
        -0x0080_0000_0000_0000 <= ray_start.z <= 0x0080_0000_0000_0000,
    ensures
        r == ray_march(*w, cfg, ray_init(cfg)),
        match r {
            Some(p) => match w.spec_block_lookup(p) {
                Some(b) => !b.spec_is_air(),
                None => false,
            },
            None => true,
        },
{
    let mut block_pos = ray_start;
    let mut kx: u64 = 0;
    let mut ky: u64 = 0;
    let mut kz: u64 = 0;
    let mut nx: u128 = ix;
    let mut ny: u128 = iy;
    let mut nz: u128 = iz;
    let ghost target = ray_march(*w, cfg, ray_init(cfg));
    proof {
        lemma_ray_march_hit(*w, cfg, ray_init(cfg));
    }
    loop
        invariant
            w.wf(),
            cfg.start == ray_start,
            cfg.sx == sx as int,
            cfg.sy == sy as int,
            cfg.sz == sz as int,
            cfg.max_length == max_length as int,
            max_length <= 0x10_0000,
            -1 <= sx <= 1,
            -1 <= sy <= 1,
            -1 <= sz <= 1,
            !(sx == 0 && sy == 0 && sz == 0),
            interval_bounded(cfg.sx, ix as int, cfg.ix),
            interval_bounded(cfg.sy, iy as int, cfg.iy),
            interval_bounded(cfg.sz, iz as int, cfg.iz),
            -0x0080_0000_0000_0000 <= ray_start.x <= 0x0080_0000_0000_0000,
            -0x0080_0000_0000_0000 <= ray_start.y <= 0x0080_0000_0000_0000,
            -0x0080_0000_0000_0000 <= ray_start.z <= 0x0080_0000_0000_0000,
            target == ray_march(*w, cfg, ray_init(cfg)),
            sx == 0 ==> kx == 0 && nx == u128::MAX,
            sy == 0 ==> ky == 0 && ny == u128::MAX,
            sz == 0 ==> kz == 0 && nz == u128::MAX,
            kx <= max_length,
            ky <= max_length,
            kz <= max_length,
            sx != 0 ==> nx as int == cfg.ix * (kx as int + 1),
            sy != 0 ==> ny as int == cfg.iy * (ky as int + 1),
            sz != 0 ==> nz as int == cfg.iz * (kz as int + 1),
            block_pos.x as int == cfg.start.x + cfg.sx * (kx as int),
            block_pos.y as int == cfg.start.y + cfg.sy * (ky as int),
            block_pos.z as int == cfg.start.z + cfg.sz * (kz as int),
            ray_march(*w, cfg, RayState {
                kx: kx as int,
                ky: ky as int,
                kz: kz as int,
                nx: nx as int,
                ny: ny as int,
                nz: nz as int,
            }) == target,
            match target {
                Some(p) => match w.spec_block_lookup(p) {
                    Some(b) => !b.spec_is_air(),
                    None => false,
                },
                None => true,
            },
        decreases 3 * (max_length as int) + 3 - kx - ky - kz,
    {
        let ghost st = RayState {
            kx: kx as int,
            ky: ky as int,
            kz: kz as int,
            nx: nx as int,
            ny: ny as int,
            nz: nz as int,
        };
        // advance the soonest axis; a zero-direction axis carries the
        // sentinel time and is never the soonest
        if nx < ny && nx < nz {
            proof {
                assert(sx != 0);
                assert(ray_axis(st) == 0);
                assert(cfg.ix * (kx as int + 1) + cfg.ix == cfg.ix * (kx as int + 2))
                    by (nonlinear_arith);
                assert(cfg.ix * (kx as int + 2) <= 0x1_0000_0000_0000_0000 * (kx as int + 2))
                    by (nonlinear_arith)
                    requires
                        0 <= cfg.ix <= 0x1_0000_0000_0000_0000,
                        0 <= kx,
                ;
                assert(0x1_0000_0000_0000_0000 * (kx as int + 2) < u128::MAX as int)
                    by (nonlinear_arith)
                    requires
                        0 <= kx as int <= 0x10_0000,
                ;
                assert(-0x10_0000 <= cfg.sx * (kx as int) <= 0x10_0000) by (nonlinear_arith)
                    requires
                        -1 <= cfg.sx <= 1,
                        0 <= kx as int <= 0x10_0000,
                ;
            }
            kx = kx + 1;
            block_pos = BlockPos { x: block_pos.x + sx, y: block_pos.y, z: block_pos.z };
            nx = nx + ix;
        } else if ny < nz {
            proof {
                assert(sy != 0);
                assert(ray_axis(st) == 1);
                assert(cfg.iy * (ky as int + 1) + cfg.iy == cfg.iy * (ky as int + 2))
                    by (nonlinear_arith);
                assert(cfg.iy * (ky as int + 2) <= 0x1_0000_0000_0000_0000 * (ky as int + 2))
                    by (nonlinear_arith)
                    requires
                        0 <= cfg.iy <= 0x1_0000_0000_0000_0000,
                        0 <= ky,
                ;
                assert(0x1_0000_0000_0000_0000 * (ky as int + 2) < u128::MAX as int)
                    by (nonlinear_arith)
                    requires
                        0 <= ky as int <= 0x10_0000,
                ;
                assert(-0x10_0000 <= cfg.sy * (ky as int) <= 0x10_0000) by (nonlinear_arith)
                    requires
                        -1 <= cfg.sy <= 1,
                        0 <= ky as int <= 0x10_0000,
                ;
            }
            ky = ky + 1;
            block_pos = BlockPos { x: block_pos.x, y: block_pos.y + sy, z: block_pos.z };
            ny = ny + iy;
        } else {
            proof {
                assert(if sz == 0 {
                    nz == u128::MAX
                } else {
                    true
                });
                if sz == 0 {
                    // some axis is real; its time is below the sentinel, so
                    // z would not have been chosen
                    if sx != 0 {
                        assert(nx as int == cfg.ix * (kx as int + 1));
                        assert(cfg.ix * (kx as int + 1) < u128::MAX as int) by (nonlinear_arith)
                            requires
                                1 <= cfg.ix <= 0x1_0000_0000_0000_0000,
                                0 <= kx as int <= 0x10_0000,
                        ;
                    } else {
                        assert(sy != 0);
                        assert(ny as int == cfg.iy * (ky as int + 1));
                        assert(cfg.iy * (ky as int + 1) < u128::MAX as int) by (nonlinear_arith)
                            requires
                                1 <= cfg.iy <= 0x1_0000_0000_0000_0000,
                                0 <= ky as int <= 0x10_0000,
                        ;
                    }
                    assert(false);
                }
                assert(ray_axis(st) == 2);
                assert(cfg.iz * (kz as int + 1) + cfg.iz == cfg.iz * (kz as int + 2))
                    by (nonlinear_arith);
                assert(cfg.iz * (kz as int + 2) <= 0x1_0000_0000_0000_0000 * (kz as int + 2))
                    by (nonlinear_arith)
                    requires
                        0 <= cfg.iz <= 0x1_0000_0000_0000_0000,
                        0 <= kz,
                ;
                assert(0x1_0000_0000_0000_0000 * (kz as int + 2) < u128::MAX as int)
                    by (nonlinear_arith)
                    requires
                        0 <= kz as int <= 0x10_0000,
                ;
                assert(-0x10_0000 <= cfg.sz * (kz as int) <= 0x10_0000) by (nonlinear_arith)
                    requires
                        -1 <= cfg.sz <= 1,
                        0 <= kz as int <= 0x10_0000,
                ;
            }
            kz = kz + 1;
            block_pos = BlockPos { x: block_pos.x, y: block_pos.y, z: block_pos.z + sz };
            nz = nz + iz;
        }
        let ghost st2 = RayState {
            kx: kx as int,
            ky: ky as int,
            kz: kz as int,
            nx: nx as int,
            ny: ny as int,
            nz: nz as int,
        };
        proof {
            assert(st2 == ray_advance(cfg, st));
            assert(cfg.sx * (st.kx + 1) == cfg.sx * st.kx + cfg.sx) by (nonlinear_arith);
            assert(cfg.sy * (st.ky + 1) == cfg.sy * st.ky + cfg.sy) by (nonlinear_arith);
            assert(cfg.sz * (st.kz + 1) == cfg.sz * st.kz + cfg.sz) by (nonlinear_arith);
            assert(-0x10_0001 <= cfg.sx * st2.kx <= 0x10_0001) by (nonlinear_arith)
                requires
                    -1 <= cfg.sx <= 1,
                    0 <= st2.kx <= 0x10_0001,
            ;
            assert(-0x10_0001 <= cfg.sy * st2.ky <= 0x10_0001) by (nonlinear_arith)
                requires
                    -1 <= cfg.sy <= 1,
                    0 <= st2.ky <= 0x10_0001,
            ;
            assert(-0x10_0001 <= cfg.sz * st2.kz <= 0x10_0001) by (nonlinear_arith)
                requires
                    -1 <= cfg.sz <= 1,
                    0 <= st2.kz <= 0x10_0001,
            ;
            assert(block_pos == ray_pos(cfg, st2));
        }
        // squared Euclidean distance travelled so far
        proof {
            assert(kx as int * (kx as int) <= 0x10_0001 * 0x10_0001 && ky as int * (ky as int)
                <= 0x10_0001 * 0x10_0001 && kz as int * (kz as int) <= 0x10_0001 * 0x10_0001)
                by (nonlinear_arith)
                requires
                    0 <= kx as int <= 0x10_0001,
                    0 <= ky as int <= 0x10_0001,
                    0 <= kz as int <= 0x10_0001,
            ;
        }
        let sq: u128 = (kx as u128) * (kx as u128) + (ky as u128) * (ky as u128) + (kz as u128)
            * (kz as u128);
        proof {
            assert(max_length as int * (max_length as int) <= 0x10_0000 * 0x10_0000)
                by (nonlinear_arith)
                requires
                    0 <= max_length as int <= 0x10_0000,
            ;
        }
        let max_sq: u128 = (max_length as u128) * (max_length as u128);
        proof {
            assert(sq == ray_sq_dist(st2));
        }
        if sq > max_sq {
            proof {
                assert(ray_march(*w, cfg, st) == None::<BlockPos>);
            }
            return None;
        }
        proof {
            assert(kx as int <= cfg.max_length && ky as int <= cfg.max_length && kz as int
                <= cfg.max_length) by (nonlinear_arith)
                requires
                    kx as int * kx as int + ky as int * ky as int + kz as int * kz as int
                        <= cfg.max_length * cfg.max_length,
                    0 <= kx as int,
                    0 <= ky as int,
                    0 <= kz as int,
                    0 <= cfg.max_length,
            ;
        }
        match w.get_block(block_pos) {
            None => {
                proof {
                    assert(ray_march(*w, cfg, st) == None::<BlockPos>);
                }
                return None;
            },
            Some(b) => {
                if !b.is_air() {
                    proof {
                        assert(ray_march(*w, cfg, st) == Some(block_pos));
                    }
                    return Some(block_pos);
                }
                proof {
                    assert(ray_march(*w, cfg, st) == ray_march(*w, cfg, st2));
                }
            },
        }
    }
}

} // verus!
