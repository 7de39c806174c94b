//! Greedy meshing: collapse each chunk's visible voxel faces, per face
//! direction, into a minimal-pass set of merged rectangles, then pack each
//! rectangle into one 64-bit quad word for the GPU.
//!
//! The sweep runs once per direction. Per sweep layer it scans the
//! `(u, v)` plane row by row; from each unvisited visible cell it grows a
//! run along `u`, then grows along `v` only while every cell of the widened
//! row is visible and unvisited, marks the rectangle visited, and emits one
//! quad. The whole algorithm is mirrored by spec functions, so the output
//! is pinned down exactly: it depends on the block grid alone, which makes
//! the mesher deterministic by construction.

use vstd::prelude::*;
use crate::chunk::grid_block;
use crate::chunk::spec_texture_id;
use crate::chunk::Block;
use crate::chunk::Chunk;
use crate::chunk::CS;
use crate::chunk::get_texture_id;
use crate::chunk::BlockType;
use crate::direction::face_visible;
use crate::direction::face_visible_at;
use crate::direction::Direction;

verus! {

/// An axis-aligned rectangle of `width x height` same-direction visible
/// faces: anchor voxel `(x, y, z)`, extents along the plane axes `(u, v)`,
/// the face direction, and the texture of the anchor voxel.
#[derive(PartialEq, Eq, Structural, Clone, Copy, Debug)]
pub struct MergedQuad {
    pub x: usize,
    pub y: usize,
    pub z: usize,
    pub width: usize,
    pub height: usize,
    pub direction: Direction,
    pub texture_id: u32,
}

/// Sweep-layer coordinate of a quad: its anchor's position on the normal axis.
pub open spec fn quad_layer(q: MergedQuad) -> int {
    match q.direction {
        Direction::Top => q.y as int,
        Direction::Bottom => q.y as int,
        Direction::Right => q.x as int,
        Direction::Left => q.x as int,
        Direction::Front => q.z as int,
        Direction::Back => q.z as int,
    }
}

/// In-plane `u` coordinate of a quad's anchor.
pub open spec fn quad_u(q: MergedQuad) -> int {
    match q.direction {
        Direction::Top => q.x as int,
        Direction::Bottom => q.x as int,
        Direction::Right => q.z as int,
        Direction::Left => q.z as int,
        Direction::Front => q.x as int,
        Direction::Back => q.x as int,
    }
}

/// In-plane `v` coordinate of a quad's anchor.
pub open spec fn quad_v(q: MergedQuad) -> int {
    match q.direction {
        Direction::Top => q.z as int,
        Direction::Bottom => q.z as int,
        Direction::Right => q.y as int,
        Direction::Left => q.y as int,
        Direction::Front => q.y as int,
        Direction::Back => q.y as int,
    }
}

/// A quad stays inside its chunk: anchor plus extent never crosses the
/// chunk edge, and extents are at least one cell.
pub open spec fn quad_wf(q: MergedQuad) -> bool {
    &&& 0 <= quad_layer(q) < CS
    &&& 1 <= q.width
    &&& 1 <= q.height
    &&& quad_u(q) + q.width <= CS
    &&& quad_v(q) + q.height <= CS
}

/// Whether quad `q` covers plane cell `(u, v)` of sweep layer `layer` for
/// direction `d`.
pub open spec fn quad_covers(q: MergedQuad, d: Direction, layer: int, u: int, v: int) -> bool {
    &&& q.direction == d
    &&& quad_layer(q) == layer
    &&& quad_u(q) <= u < quad_u(q) + q.width
    &&& quad_v(q) <= v < quad_v(q) + q.height
}

/// Whether some quad of `qs` covers plane cell `(u, v)` of layer `layer`.
pub open spec fn covered(qs: Seq<MergedQuad>, d: Direction, layer: int, u: int, v: int) -> bool {
    exists|k: int| 0 <= k < qs.len() && quad_covers(qs[k], d, layer, u, v)
}

/// `u` coordinate of plane-mask index `i`.
pub open spec fn idx_u(i: int) -> int {
    i % (CS as int)
}

/// `v` coordinate of plane-mask index `i`.
pub open spec fn idx_v(i: int) -> int {
    i / (CS as int)
}

/// Whether plane cell `(u, v)` lies in the rectangle anchored at
/// `(u0, v0)` with extents `w x h`.
pub open spec fn cell_in_rect(u0: int, v0: int, w: int, h: int, u: int, v: int) -> bool {
    u0 <= u < u0 + w && v0 <= v < v0 + h
}

/// The visited mask with one rectangle's cells all marked.
pub open spec fn mark_rect(m: Seq<bool>, u0: int, v0: int, w: int, h: int) -> Seq<bool> {
    Seq::new(m.len(), |i: int| cell_in_rect(u0, v0, w, h, idx_u(i), idx_v(i)) || m[i])
}

/// The all-unvisited mask of one sweep layer's plane.
pub open spec fn empty_mask() -> Seq<bool> {
    Seq::new((CS * CS) as nat, |i: int| false)
}

/// Largest `w` a run anchored at `(u, v)` can grow to along `u`: cells
/// `u + w0 .. u + w` are all visible and unvisited, and growth stopped at
/// the chunk edge or at the first cell that is not.
pub open spec fn grow_width(
    blocks: Seq<Block>,
    d: Direction,
    layer: int,
    m: Seq<bool>,
    u: int,
    v: int,
    w: int,
) -> int
    decreases CS - u - w,
{
    if u + w < CS && face_visible(blocks, d, layer, u + w, v) && !m[u + w + v * CS] {
        grow_width(blocks, d, layer, m, u, v, w + 1)
    } else {
        w
    }
}

/// Every cell of the width-`w` row at `(u, v)` is visible and unvisited.
pub open spec fn row_clear(
    blocks: Seq<Block>,
    d: Direction,
    layer: int,
    m: Seq<bool>,
    u: int,
    v: int,
    w: int,
) -> bool {
    forall|i: int|
        0 <= i < w ==> #[trigger] face_visible(blocks, d, layer, u + i, v) && !m[u + i + v * CS]
}

/// Largest `h` the rectangle can grow to along `v`: growth extends one row
/// at a time, only while the whole widened row is visible and unvisited.
pub open spec fn grow_height(
    blocks: Seq<Block>,
    d: Direction,
    layer: int,
    m: Seq<bool>,
    u: int,
    v: int,
    w: int,
    h: int,
) -> int
    decreases CS - v - h,
{
    if v + h < CS && row_clear(blocks, d, layer, m, u, v + h, w) {
        grow_height(blocks, d, layer, m, u, v, w, h + 1)
    } else {
        h
    }
}

/// The quad emitted for the rectangle anchored at plane cell `(u, v)` of
/// layer `layer`: anchor mapped back to voxel coordinates, texture taken
/// from the anchor voxel.
pub open spec fn spec_make_quad(
    blocks: Seq<Block>,
    d: Direction,
    layer: int,
    u: int,
    v: int,
    w: int,
    h: int,
) -> MergedQuad {
    let (x, y, z) = d.cell_voxel(layer, u, v);
    MergedQuad {
        x: x as usize,
        y: y as usize,
        z: z as usize,
        width: w as usize,
        height: h as usize,
        direction: d,
        texture_id: spec_texture_id(grid_block(blocks, x, y, z)),
    }
}

/// One sweep layer's scan from plane index `p` on: quads emitted in scan
/// order, together with the final visited mask.
pub open spec fn scan_layer(
    blocks: Seq<Block>,
    d: Direction,
    layer: int,
    m: Seq<bool>,
    p: int,
) -> (Seq<MergedQuad>, Seq<bool>)
    decreases CS * CS - p,
{
    if p < 0 || CS * CS <= p {
        (Seq::empty(), m)
    } else {
        let u = idx_u(p);
        let v = idx_v(p);
        if face_visible(blocks, d, layer, u, v) && !m[p] {
            let w = grow_width(blocks, d, layer, m, u, v, 1);
            let h = grow_height(blocks, d, layer, m, u, v, w, 1);
            let q = spec_make_quad(blocks, d, layer, u, v, w, h);
            let rest = scan_layer(blocks, d, layer, mark_rect(m, u, v, w, h), p + 1);
            (seq![q] + rest.0, rest.1)
        } else {
            scan_layer(blocks, d, layer, m, p + 1)
        }
    }
}

/// Quads of one sweep layer, scanned from an all-unvisited mask.
pub open spec fn layer_quads(blocks: Seq<Block>, d: Direction, layer: int) -> Seq<MergedQuad> {
    scan_layer(blocks, d, layer, empty_mask(), 0).0
}

/// Quads of sweep layers `0 .. n` for direction `d`, in layer order.
pub open spec fn mesh_layers(blocks: Seq<Block>, d: Direction, n: int) -> Seq<MergedQuad>
    decreases n,
{
    if n <= 0 {
        Seq::empty()
    } else {
        mesh_layers(blocks, d, n - 1) + layer_quads(blocks, d, n - 1)
    }
}

/// All quads the greedy mesher emits for direction `d`: a function of the
/// block grid alone.
pub open spec fn dir_quads(blocks: Seq<Block>, d: Direction) -> Seq<MergedQuad> {
    mesh_layers(blocks, d, CS as int)
}

/// Bit layout of a packed quad: `x`, `y`, `z`, `width` and `height` in six
/// bits each, the face-direction id in three, the texture id above them.
pub open spec fn spec_pack(x: u64, y: u64, z: u64, width: u64, height: u64, dir: u64, tex: u64) -> u64 {
    x | (y << 6) | (z << 12) | (width << 18) | (height << 24) | (dir << 30) | (tex << 33)
}

/// The packed form of a merged quad.
pub open spec fn spec_pack_quad(q: MergedQuad) -> u64 {
    spec_pack(
        q.x as u64,
        q.y as u64,
        q.z as u64,
        q.width as u64,
        q.height as u64,
        q.direction.face_index() as u64,
        q.texture_id as u64,
    )
}

/// The packed quad stream of direction `d`.
pub open spec fn packed_dir(blocks: Seq<Block>, d: Direction) -> Seq<u64> {
    dir_quads(blocks, d).map_values(|q: MergedQuad| spec_pack_quad(q))
}

/// Pack one quad's fields into the 64-bit layout the GPU consumes.
pub fn pack_data(
    x: usize,
    y: usize,
    z: usize,
    width: usize,
    height: usize,
    direction: u8,
    texture_id: u32,
) -> (r: u64)
    requires
        x < 64,
        y < 64,
        z < 64,
        width < 64,
        height < 64,
        direction < 8,
    ensures
        r == spec_pack(
            x as u64,
            y as u64,
            z as u64,
            width as u64,
            height as u64,
            direction as u64,
            texture_id as u64,
        ),
{
    (x as u64) | ((y as u64) << 6) | ((z as u64) << 12) | ((width as u64) << 18) | ((height
        as u64) << 24) | ((direction as u64) << 30) | ((texture_id as u64) << 33)
}

/// The packed layout keeps its fields apart: each one is recoverable by
/// shifting and masking, so no two in-range quads pack to the same word.
pub proof fn lemma_pack_fields(x: u64, y: u64, z: u64, w: u64, h: u64, dir: u64, tex: u64)
    requires
        x < 64,
        y < 64,
        z < 64,
        w < 64,
        h < 64,
        dir < 8,
        tex < 0x8000_0000,
    ensures
        spec_pack(x, y, z, w, h, dir, tex) & 0x3F == x,
        (spec_pack(x, y, z, w, h, dir, tex) >> 6) & 0x3F == y,
        (spec_pack(x, y, z, w, h, dir, tex) >> 12) & 0x3F == z,
        (spec_pack(x, y, z, w, h, dir, tex) >> 18) & 0x3F == w,
        (spec_pack(x, y, z, w, h, dir, tex) >> 24) & 0x3F == h,
        (spec_pack(x, y, z, w, h, dir, tex) >> 30) & 0x7 == dir,
        spec_pack(x, y, z, w, h, dir, tex) >> 33 == tex,
{
    let r = x | (y << 6) | (z << 12) | (w << 18) | (h << 24) | (dir << 30) | (tex << 33);
    assert((r & 0x3F == x) && ((r >> 6) & 0x3F == y) && ((r >> 12) & 0x3F == z) && ((r >> 18)
        & 0x3F == w) && ((r >> 24) & 0x3F == h) && ((r >> 30) & 0x7 == dir) && (r >> 33 == tex))
        by (bit_vector)
        requires
            r == x | (y << 6) | (z << 12) | (w << 18) | (h << 24) | (dir << 30) | (tex << 33),
            x < 64,
            y < 64,
            z < 64,
            w < 64,
            h < 64,
            dir < 8,
            tex < 0x8000_0000,
    ;
}

/// A plane cell `(u, v)` and its flat mask index decompose each other.
pub proof fn lemma_idx_roundtrip(u: int, v: int)
    requires
        0 <= u < CS,
        0 <= v,
    ensures
        idx_u(u + v * CS) == u,
        idx_v(u + v * CS) == v,
{
    assert((u + v * (CS as int)) % (CS as int) == u && (u + v * (CS as int)) / (CS as int) == v)
        by (nonlinear_arith)
        requires
            0 <= u < CS as int,
            0 <= v,
            CS == 32,
    ;
}

/// A flat mask index decomposes into in-range plane coordinates.
pub proof fn lemma_idx_decompose(i: int)
    requires
        0 <= i < CS * CS,
    ensures
        0 <= idx_u(i) < CS,
        0 <= idx_v(i) < CS,
        i == idx_u(i) + idx_v(i) * CS,
{
    assert(0 <= i % (CS as int) < CS as int && 0 <= i / (CS as int) < CS as int && i == i % (
    CS as int) + (i / (CS as int)) * (CS as int)) by (nonlinear_arith)
        requires
            0 <= i < (CS as int) * (CS as int),
            CS == 32,
    ;
}

/// Decide whether the whole width-`w` row at `(u, v)` is visible and
/// unvisited.
fn check_row(
    c: &Chunk,
    d: Direction,
    visited: &Vec<bool>,
    layer: usize,
    u: usize,
    v: usize,
    w: usize,
) -> (r: bool)
    requires
        c.wf(),
        visited@.len() == CS * CS,
        layer < CS,
        u < CS,
        v < CS,
        u + w <= CS,
    ensures
        r == row_clear(c.blocks@, d, layer as int, visited@, u as int, v as int, w as int),
{
    let mut i: usize = 0;
    while i < w
        invariant
            c.wf(),
            visited@.len() == CS * CS,
            layer < CS,
            u < CS,
            v < CS,
            u + w <= CS,
            i <= w,
            forall|j: int|
                0 <= j < i ==> #[trigger] face_visible(
                    c.blocks@,
                    d,
                    layer as int,
                    u as int + j,
                    v as int,
                ) && !visited@[u as int + j + v as int * CS],
        decreases w - i,
    {
        let vis_here = face_visible_at(c, d, layer, u + i, v);
        if !vis_here || visited[u + i + v * CS] {
            assert(!(face_visible(c.blocks@, d, layer as int, u as int + i as int, v as int)
                && !visited@[u as int + i as int + v as int * CS]));
            return false;
        }
        i = i + 1;
    }
    true
}

/// Mesh one sweep layer of direction `d`: the scan, growth and marking
/// loops of the greedy algorithm, pinned to their spec mirror.
fn mesh_layer(c: &Chunk, d: Direction, layer: usize) -> (quads: Vec<MergedQuad>)
    requires
        c.wf(),
        layer < CS,
    ensures
        quads@ == layer_quads(c.blocks@, d, layer as int),
{
    let mut visited: Vec<bool> = Vec::new();
    let mut k: usize = 0;
    while k < CS * CS
        invariant
            k <= CS * CS,
            visited@.len() == k,
            forall|i: int| 0 <= i < k ==> !visited@[i],
        decreases CS * CS - k,
    {
        visited.push(false);
        k = k + 1;
    }
    proof {
        assert(visited@ =~= empty_mask());
    }
    let mut quads: Vec<MergedQuad> = Vec::new();
    let mut p: usize = 0;
    while p < CS * CS
        invariant
            c.wf(),
            layer < CS,
            p <= CS * CS,
            visited@.len() == CS * CS,
            quads@ + scan_layer(c.blocks@, d, layer as int, visited@, p as int).0 == layer_quads(
                c.blocks@,
                d,
                layer as int,
            ),
        decreases CS * CS - p,
    {
        let u = p % CS;
        let v = p / CS;
        proof {
            lemma_idx_decompose(p as int);
        }
        let vis = face_visible_at(c, d, layer, u, v);
        if vis && !visited[p] {
            let ghost m0 = visited@;
            // Grow the run along u while the next cell is visible and unvisited.
            let mut w: usize = 1;
            loop
                invariant
                    c.wf(),
                    layer < CS,
                    u < CS,
                    v < CS,
                    visited@.len() == CS * CS,
                    visited@ == m0,
                    1 <= w,
                    u + w <= CS,
                    grow_width(c.blocks@, d, layer as int, m0, u as int, v as int, w as int)
                        == grow_width(c.blocks@, d, layer as int, m0, u as int, v as int, 1),
                ensures
                    visited@ == m0,
                    1 <= w,
                    u + w <= CS,
                    w as int == grow_width(c.blocks@, d, layer as int, m0, u as int, v as int, 1),
                decreases CS - u - w,
            {
                if !(u + w < CS) {
                    break ;
                }
                let vis_next = face_visible_at(c, d, layer, u + w, v);
                if !vis_next || visited[u + w + v * CS] {
                    break ;
                }
                proof {
                    assert(grow_width(c.blocks@, d, layer as int, m0, u as int, v as int, w as int)
                        == grow_width(
                        c.blocks@,
                        d,
                        layer as int,
                        m0,
                        u as int,
                        v as int,
                        w as int + 1,
                    ));
                }
                w = w + 1;
            }
            // Grow along v while every cell of the widened row stays clear.
            let mut h: usize = 1;
            loop
                invariant
                    c.wf(),
                    layer < CS,
                    u < CS,
                    v < CS,
                    visited@.len() == CS * CS,
                    visited@ == m0,
                    1 <= w,
                    u + w <= CS,
                    1 <= h,
                    v + h <= CS,
                    grow_height(
                        c.blocks@,
                        d,
                        layer as int,
                        m0,
                        u as int,
                        v as int,
                        w as int,
                        h as int,
                    ) == grow_height(
                        c.blocks@,
                        d,
                        layer as int,
                        m0,
                        u as int,
                        v as int,
                        w as int,
                        1,
                    ),
                ensures
                    visited@ == m0,
                    1 <= h,
                    v + h <= CS,
                    h as int == grow_height(
                        c.blocks@,
                        d,
                        layer as int,
                        m0,
                        u as int,
                        v as int,
                        w as int,
                        1,
                    ),
                decreases CS - v - h,
            {
                if !(v + h < CS) {
                    break ;
                }
                let row_ok = check_row(c, d, &visited, layer, u, v + h, w);
                if !row_ok {
                    break ;
                }
                proof {
                    assert(grow_height(
                        c.blocks@,
                        d,
                        layer as int,
                        m0,
                        u as int,
                        v as int,
                        w as int,
                        h as int,
                    ) == grow_height(
                        c.blocks@,
                        d,
                        layer as int,
                        m0,
                        u as int,
                        v as int,
                        w as int,
                        h as int + 1,
                    ));
                }
                h = h + 1;
            }
            // Emit the quad for this rectangle.
            let (cx, cy, cz) = d.cell_coords(layer, u, v);
            let tex = match c.get_block_at(cx, cy, cz) {
                Some(b) => get_texture_id(b.block_type),
                None => {
                    proof {
                        assert(false);
                    }
                    0
                },
            };
            let quad = MergedQuad {
                x: cx,
                y: cy,
                z: cz,
                width: w,
                height: h,
                direction: d,
                texture_id: tex,
            };
            proof {
                assert(quad == spec_make_quad(
                    c.blocks@,
                    d,
                    layer as int,
                    u as int,
                    v as int,
                    w as int,
                    h as int,
                ));
            }
            // Mark the rectangle visited, row by row.
            let mut dv: usize = 0;
            while dv < h
                invariant
                    visited@.len() == CS * CS,
                    u < CS,
                    v < CS,
                    u + w <= CS,
                    v + h <= CS,
                    1 <= w,
                    1 <= h,
                    dv <= h,
                    forall|i: int|
                        0 <= i < CS * CS ==> #[trigger] visited@[i] == (cell_in_rect(
                            u as int,
                            v as int,
                            w as int,
                            dv as int,
                            idx_u(i),
                            idx_v(i),
                        ) || m0[i]),
                decreases h - dv,
            {
                let mut du: usize = 0;
                while du < w
                    invariant
                        visited@.len() == CS * CS,
                        u < CS,
                        v < CS,
                        u + w <= CS,
                        v + h <= CS,
                        1 <= w,
                        1 <= h,
                        dv < h,
                        du <= w,
                        forall|i: int|
                            0 <= i < CS * CS ==> #[trigger] visited@[i] == ((cell_in_rect(
                                u as int,
                                v as int,
                                w as int,
                                dv as int,
                                idx_u(i),
                                idx_v(i),
                            ) || (idx_v(i) == v + dv && u <= idx_u(i) < u as int + du)) || m0[i]),
                    decreases w - du,
                {
                    let idx = u + du + (v + dv) * CS;
                    visited[idx] = true;
                    proof {
                        lemma_idx_roundtrip(u as int + du as int, v as int + dv as int);
                    }
                    du = du + 1;
                }
                proof {
                    assert forall|i: int| 0 <= i < CS * CS implies #[trigger] visited@[i] == (
                    cell_in_rect(
                        u as int,
                        v as int,
                        w as int,
                        dv as int + 1,
                        idx_u(i),
                        idx_v(i),
                    ) || m0[i]) by {}
                }
                dv = dv + 1;
            }
            proof {
                assert(visited@ =~= mark_rect(m0, u as int, v as int, w as int, h as int));
                assert(scan_layer(c.blocks@, d, layer as int, m0, p as int).0 == seq![quad]
                    + scan_layer(c.blocks@, d, layer as int, visited@, p as int + 1).0);
                assert(quads@.push(quad) + scan_layer(
                    c.blocks@,
                    d,
                    layer as int,
                    visited@,
                    p as int + 1,
                ).0 =~= quads@ + scan_layer(c.blocks@, d, layer as int, m0, p as int).0);
            }
            quads.push(quad);
        } else {
            proof {
                assert(scan_layer(c.blocks@, d, layer as int, visited@, p as int) == scan_layer(
                    c.blocks@,
                    d,
                    layer as int,
                    visited@,
                    p as int + 1,
                ));
            }
        }
        p = p + 1;
    }
    proof {
        assert(quads@ + scan_layer(c.blocks@, d, layer as int, visited@, (CS * CS) as int).0
            =~= quads@);
    }
    quads
}

/// Mesh every sweep layer of one direction, in layer order.
pub fn mesh_direction(c: &Chunk, d: Direction) -> (quads: Vec<MergedQuad>)
    requires
        c.wf(),
    ensures
        quads@ == dir_quads(c.blocks@, d),
{
    let mut quads: Vec<MergedQuad> = Vec::new();
    proof {
        assert(quads@ =~= mesh_layers(c.blocks@, d, 0));
    }
    let mut layer: usize = 0;
    while layer < CS
        invariant
            c.wf(),
            layer <= CS,
            quads@ == mesh_layers(c.blocks@, d, layer as int),
        decreases CS - layer,
    {
        let mut lq = mesh_layer(c, d, layer);
        quads.append(&mut lq);
        layer = layer + 1;
        proof {
            assert(quads@ == mesh_layers(c.blocks@, d, layer as int));
        }
    }
    quads
}

/// A quad as the mesher emits it: well-formed, of the direction meshed, a
/// texture id the block kinds allow, and covering only faces visible on its
/// own sweep layer.
pub open spec fn quad_valid(blocks: Seq<Block>, d: Direction, q: MergedQuad) -> bool {
    &&& quad_wf(q)
    &&& q.direction == d
    &&& q.texture_id <= 1
    &&& forall|u: int, v: int|
        #[trigger] quad_covers(q, d, quad_layer(q), u, v) ==> face_visible(
            blocks,
            d,
            quad_layer(q),
            u,
            v,
        )
}

/// A quad emitted while mask `m` was current additionally covers only cells
/// that were unvisited in `m`.
pub open spec fn quad_ok(
    blocks: Seq<Block>,
    d: Direction,
    layer: int,
    m: Seq<bool>,
    q: MergedQuad,
) -> bool {
    &&& quad_valid(blocks, d, q)
    &&& quad_layer(q) == layer
    &&& forall|u: int, v: int|
        #[trigger] quad_covers(q, d, layer, u, v) ==> !m[u + v * CS]
}

/// Coverage by a sequence with one quad in front splits into the head quad
/// and the rest.
proof fn lemma_covered_cons(
    q: MergedQuad,
    qs: Seq<MergedQuad>,
    d: Direction,
    layer: int,
    u: int,
    v: int,
)
    ensures
        covered(seq![q] + qs, d, layer, u, v) <==> (quad_covers(q, d, layer, u, v) || covered(
            qs,
            d,
            layer,
            u,
            v,
        )),
{
    let s = seq![q] + qs;
    if covered(s, d, layer, u, v) {
        let k = choose|k: int| 0 <= k < s.len() && quad_covers(s[k], d, layer, u, v);
        if k == 0 {
            assert(quad_covers(q, d, layer, u, v));
        } else {
            assert(s[k] == qs[k - 1]);
            assert(0 <= k - 1 < qs.len() && quad_covers(qs[k - 1], d, layer, u, v));
        }
    }
    if quad_covers(q, d, layer, u, v) {
        assert(s[0] == q);
        assert(0 <= 0 < s.len() && quad_covers(s[0], d, layer, u, v));
    }
    if covered(qs, d, layer, u, v) {
        let k = choose|k: int| 0 <= k < qs.len() && quad_covers(qs[k], d, layer, u, v);
        assert(s[k + 1] == qs[k]);
        assert(0 <= k + 1 < s.len() && quad_covers(s[k + 1], d, layer, u, v));
    }
}

/// Coverage by a concatenation splits into the two halves.
proof fn lemma_covered_concat(
    a: Seq<MergedQuad>,
    b: Seq<MergedQuad>,
    d: Direction,
    layer: int,
    u: int,
    v: int,
)
    ensures
        covered(a + b, d, layer, u, v) <==> (covered(a, d, layer, u, v) || covered(
            b,
            d,
            layer,
            u,
            v,
        )),
{
    let s = a + b;
    if covered(s, d, layer, u, v) {
        let k = choose|k: int| 0 <= k < s.len() && quad_covers(s[k], d, layer, u, v);
        if k < a.len() {
            assert(s[k] == a[k]);
            assert(0 <= k < a.len() && quad_covers(a[k], d, layer, u, v));
        } else {
            assert(s[k] == b[k - a.len()]);
            assert(0 <= k - a.len() < b.len() && quad_covers(b[k - a.len()], d, layer, u, v));
        }
    }
    if covered(a, d, layer, u, v) {
        let k = choose|k: int| 0 <= k < a.len() && quad_covers(a[k], d, layer, u, v);
        assert(s[k] == a[k]);
        assert(0 <= k < s.len() && quad_covers(s[k], d, layer, u, v));
    }
    if covered(b, d, layer, u, v) {
        let k = choose|k: int| 0 <= k < b.len() && quad_covers(b[k], d, layer, u, v);
        assert(s[a.len() + k] == b[k]);
        assert(0 <= a.len() + k < s.len() && quad_covers(s[a.len() + k], d, layer, u, v));
    }
}

/// Width growth keeps the whole grown row visible and unvisited and stops
/// inside the chunk.
proof fn lemma_grow_width_props(
    blocks: Seq<Block>,
    d: Direction,
    layer: int,
    m: Seq<bool>,
    u: int,
    v: int,
    w0: int,
)
    requires
        0 <= u,
        1 <= w0,
        u + w0 <= CS,
        row_clear(blocks, d, layer, m, u, v, w0),
    ensures
        w0 <= grow_width(blocks, d, layer, m, u, v, w0),
        u + grow_width(blocks, d, layer, m, u, v, w0) <= CS,
        row_clear(blocks, d, layer, m, u, v, grow_width(blocks, d, layer, m, u, v, w0)),
    decreases CS - u - w0,
{
    if u + w0 < CS && face_visible(blocks, d, layer, u + w0, v) && !m[u + w0 + v * CS] {
        assert(row_clear(blocks, d, layer, m, u, v, w0 + 1)) by {
            assert forall|i: int| 0 <= i < w0 + 1 implies #[trigger] face_visible(
                blocks,
                d,
                layer,
                u + i,
                v,
            ) && !m[u + i + v * CS] by {
                if i < w0 {
                    assert(row_clear(blocks, d, layer, m, u, v, w0));
                    assert(face_visible(blocks, d, layer, u + i, v));
                    assert(!m[u + i + v * CS]);
                }
            }
        }
        lemma_grow_width_props(blocks, d, layer, m, u, v, w0 + 1);
    }
}

/// Height growth keeps every grown row clear and stops inside the chunk.
proof fn lemma_grow_height_props(
    blocks: Seq<Block>,
    d: Direction,
    layer: int,
    m: Seq<bool>,
    u: int,
    v: int,
    w: int,
    h0: int,
)
    requires
        0 <= v,
        1 <= h0,
        v + h0 <= CS,
        forall|j: int| 0 <= j < h0 ==> #[trigger] row_clear(blocks, d, layer, m, u, v + j, w),
    ensures
        h0 <= grow_height(blocks, d, layer, m, u, v, w, h0),
        v + grow_height(blocks, d, layer, m, u, v, w, h0) <= CS,
        forall|j: int|
            0 <= j < grow_height(blocks, d, layer, m, u, v, w, h0) ==> #[trigger] row_clear(
                blocks,
                d,
                layer,
                m,
                u,
                v + j,
                w,
            ),
    decreases CS - v - h0,
{
    if v + h0 < CS && row_clear(blocks, d, layer, m, u, v + h0, w) {
        assert forall|j: int| 0 <= j < h0 + 1 implies #[trigger] row_clear(
            blocks,
            d,
            layer,
            m,
            u,
            v + j,
            w,
        ) by {
            if j < h0 {
                assert(row_clear(blocks, d, layer, m, u, v + j, w));
            } else {
                assert(v + j == v + h0);
            }
        }
        lemma_grow_height_props(blocks, d, layer, m, u, v, w, h0 + 1);
    }
}

/// The emitted quad's plane coordinates are the rectangle it was grown
/// from, and its texture comes from the closed block enumeration.
proof fn lemma_make_quad_props(
    blocks: Seq<Block>,
    d: Direction,
    layer: int,
    u: int,
    v: int,
    w: int,
    h: int,
)
    requires
        0 <= layer < CS,
        0 <= u < CS,
        0 <= v < CS,
        1 <= w,
        1 <= h,
        u + w <= CS,
        v + h <= CS,
    ensures
        ({
            let q = spec_make_quad(blocks, d, layer, u, v, w, h);
            &&& quad_layer(q) == layer
            &&& quad_u(q) == u
            &&& quad_v(q) == v
            &&& q.width == w
            &&& q.height == h
            &&& q.direction == d
            &&& q.texture_id <= 1
            &&& quad_wf(q)
            &&& forall|uu: int, vv: int|
                #[trigger] quad_covers(q, d, layer, uu, vv) <==> cell_in_rect(u, v, w, h, uu, vv)
        }),
{
}

/// Invariants of the layer scan, by induction over the scan position: the
/// final mask is the input mask plus exactly the cells of the emitted
/// quads; every visible cell ends up marked; every emitted quad is valid,
/// lies on this layer, and covers only cells unvisited in the input mask;
/// and the emitted quads are pairwise disjoint.
proof fn lemma_scan_layer_props(blocks: Seq<Block>, d: Direction, layer: int, m: Seq<bool>, p: int)
    requires
        m.len() == CS * CS,
        0 <= p <= CS * CS,
        0 <= layer < CS,
        forall|i: int|
            0 <= i < CS * CS && #[trigger] m[i] ==> face_visible(blocks, d, layer, idx_u(i), idx_v(i)),
        forall|i: int|
            0 <= i < p && #[trigger] face_visible(blocks, d, layer, idx_u(i), idx_v(i)) ==> m[i],
    ensures
        ({
            let (qs, mf) = scan_layer(blocks, d, layer, m, p);
            &&& mf.len() == CS * CS
            &&& forall|i: int|
                0 <= i < CS * CS ==> (#[trigger] mf[i] <==> m[i] || covered(
                    qs,
                    d,
                    layer,
                    idx_u(i),
                    idx_v(i),
                ))
            &&& forall|i: int|
                0 <= i < CS * CS && #[trigger] face_visible(blocks, d, layer, idx_u(i), idx_v(i))
                    ==> mf[i]
            &&& forall|k: int| 0 <= k < qs.len() ==> quad_ok(blocks, d, layer, m, #[trigger] qs[k])
            &&& forall|k1: int, k2: int, uu: int, vv: int|
                0 <= k1 < k2 < qs.len() ==> !(#[trigger] quad_covers(qs[k1], d, layer, uu, vv)
                    && #[trigger] quad_covers(qs[k2], d, layer, uu, vv))
        }),
    decreases CS * CS - p,
{
    if p == CS * CS {
        let (qs, mf) = scan_layer(blocks, d, layer, m, p);
        assert(qs.len() == 0);
        assert forall|i: int| 0 <= i < CS * CS implies (#[trigger] mf[i] <==> m[i] || covered(
            qs,
            d,
            layer,
            idx_u(i),
            idx_v(i),
        )) by {
            assert(!covered(qs, d, layer, idx_u(i), idx_v(i)));
        }
    } else {
        let u = idx_u(p);
        let v = idx_v(p);
        lemma_idx_decompose(p);
        if face_visible(blocks, d, layer, u, v) && !m[p] {
            let w = grow_width(blocks, d, layer, m, u, v, 1);
            let h = grow_height(blocks, d, layer, m, u, v, w, 1);
            let q = spec_make_quad(blocks, d, layer, u, v, w, h);
            let m2 = mark_rect(m, u, v, w, h);
            let rest = scan_layer(blocks, d, layer, m2, p + 1);
            let qs = seq![q] + rest.0;
            let mf = rest.1;
            assert(scan_layer(blocks, d, layer, m, p) == (qs, mf));

            // The grown rectangle is visible and unvisited throughout.
            assert(row_clear(blocks, d, layer, m, u, v, 1)) by {
                assert forall|i: int| 0 <= i < 1 implies #[trigger] face_visible(
                    blocks,
                    d,
                    layer,
                    u + i,
                    v,
                ) && !m[u + i + v * CS] by {
                    assert(u + i == u);
                    assert(u + i + v * CS == p);
                }
            }
            lemma_grow_width_props(blocks, d, layer, m, u, v, 1);
            assert forall|j: int| 0 <= j < 1 implies #[trigger] row_clear(
                blocks,
                d,
                layer,
                m,
                u,
                v + j,
                w,
            ) by {
                assert(v + j == v);
            }
            lemma_grow_height_props(blocks, d, layer, m, u, v, w, 1);
            lemma_make_quad_props(blocks, d, layer, u, v, w, h);

            // Every cell of the rectangle is visible and unvisited in m.
            assert forall|uu: int, vv: int|
                #[trigger] quad_covers(q, d, layer, uu, vv) implies face_visible(
                blocks,
                d,
                layer,
                uu,
                vv,
            ) && !m[uu + vv * CS] by {
                let i = uu - u;
                let j = vv - v;
                assert(row_clear(blocks, d, layer, m, u, v + j, w));
                assert(face_visible(blocks, d, layer, u + i, v + j));
                assert(!m[u + i + (v + j) * CS]);
                assert(u + i == uu && v + j == vv);
                assert(face_visible(blocks, d, layer, uu, vv));
                assert(u + i + (v + j) * CS == uu + vv * CS);
            }
            assert(quad_ok(blocks, d, layer, m, q));

            // The marked mask adds exactly the rectangle's cells.
            assert(m2.len() == CS * CS);
            assert forall|i: int| 0 <= i < CS * CS implies (#[trigger] m2[i] <==> m[i]
                || quad_covers(q, d, layer, idx_u(i), idx_v(i))) by {
                lemma_idx_decompose(i);
            }

            // The recursive scan starts from a mask that still only marks
            // visible cells, with the prefix through p fully handled.
            assert forall|i: int| 0 <= i < CS * CS && #[trigger] m2[i] implies face_visible(
                blocks,
                d,
                layer,
                idx_u(i),
                idx_v(i),
            ) by {
                lemma_idx_decompose(i);
                if !m[i] {
                    assert(quad_covers(q, d, layer, idx_u(i), idx_v(i)));
                }
            }
            assert forall|i: int|
                0 <= i < p + 1 && #[trigger] face_visible(blocks, d, layer, idx_u(i), idx_v(i))
                implies m2[i] by {
                lemma_idx_decompose(i);
                if i == p {
                    assert(quad_covers(q, d, layer, u, v));
                    assert(m2[p]);
                }
            }
            lemma_scan_layer_props(blocks, d, layer, m2, p + 1);

            // Mask characterization of the whole call.
            assert forall|i: int| 0 <= i < CS * CS implies (#[trigger] mf[i] <==> m[i] || covered(
                qs,
                d,
                layer,
                idx_u(i),
                idx_v(i),
            )) by {
                lemma_covered_cons(q, rest.0, d, layer, idx_u(i), idx_v(i));
            }

            // Emitted quads: the head is ok by construction, the rest are ok
            // for the larger mask, hence for m too.
            assert forall|k: int| 0 <= k < qs.len() implies quad_ok(
                blocks,
                d,
                layer,
                m,
                #[trigger] qs[k],
            ) by {
                if k == 0 {
                    assert(qs[k] == q);
                } else {
                    assert(qs[k] == rest.0[k - 1]);
                    assert(quad_ok(blocks, d, layer, m2, rest.0[k - 1]));
                    assert forall|uu: int, vv: int|
                        #[trigger] quad_covers(qs[k], d, layer, uu, vv) implies !m[uu + vv * CS] by {
                        assert(!m2[uu + vv * CS]);
                        assert(quad_wf(qs[k]));
                        assert(0 <= uu < CS && 0 <= vv < CS);
                        lemma_idx_roundtrip(uu, vv);
                    }
                }
            }

            // Disjointness: later quads only cover cells the head's marking
            // left unvisited, and the head covers only marked ones.
            assert forall|k1: int, k2: int, uu: int, vv: int|
                0 <= k1 < k2 < qs.len() implies !(#[trigger] quad_covers(qs[k1], d, layer, uu, vv)
                && #[trigger] quad_covers(qs[k2], d, layer, uu, vv)) by {
                if quad_covers(qs[k1], d, layer, uu, vv) && quad_covers(qs[k2], d, layer, uu, vv) {
                    assert(quad_wf(qs[k2]));
                    assert(0 <= uu < CS && 0 <= vv < CS);
                    lemma_idx_roundtrip(uu, vv);
                    if k1 == 0 {
                        assert(qs[k1] == q);
                        assert(qs[k2] == rest.0[k2 - 1]);
                        assert(quad_ok(blocks, d, layer, m2, rest.0[k2 - 1]));
                        assert(m2[uu + vv * CS]);
                        assert(!m2[uu + vv * CS]);
                    } else {
                        assert(qs[k1] == rest.0[k1 - 1] && qs[k2] == rest.0[k2 - 1]);
                    }
                }
            }
        } else {
            assert(scan_layer(blocks, d, layer, m, p) == scan_layer(blocks, d, layer, m, p + 1));
            assert forall|i: int|
                0 <= i < p + 1 && #[trigger] face_visible(blocks, d, layer, idx_u(i), idx_v(i))
                implies m[i] by {
                if i == p {
                    assert(face_visible(blocks, d, layer, u, v) ==> m[p]);
                }
            }
            lemma_scan_layer_props(blocks, d, layer, m, p + 1);
        }
    }
}

/// One layer's quads, scanned from an all-unvisited mask: every quad is
/// valid and on this layer; coverage equals visibility; no overlaps.
proof fn lemma_layer_quads_props(blocks: Seq<Block>, d: Direction, layer: int)
    requires
        0 <= layer < CS,
    ensures
        forall|k: int|
            0 <= k < layer_quads(blocks, d, layer).len() ==> quad_valid(
                blocks,
                d,
                #[trigger] layer_quads(blocks, d, layer)[k],
            ) && quad_layer(layer_quads(blocks, d, layer)[k]) == layer,
        forall|u: int, v: int|
            0 <= u < CS && 0 <= v < CS ==> (#[trigger] covered(
                layer_quads(blocks, d, layer),
                d,
                layer,
                u,
                v,
            ) <==> face_visible(blocks, d, layer, u, v)),
        forall|k1: int, k2: int, uu: int, vv: int|
            0 <= k1 < k2 < layer_quads(blocks, d, layer).len() ==> !(#[trigger] quad_covers(
                layer_quads(blocks, d, layer)[k1],
                d,
                layer,
                uu,
                vv,
            ) && #[trigger] quad_covers(layer_quads(blocks, d, layer)[k2], d, layer, uu, vv)),
{
    let m = empty_mask();
    lemma_scan_layer_props(blocks, d, layer, m, 0);
    let qs = layer_quads(blocks, d, layer);
    let mf = scan_layer(blocks, d, layer, m, 0).1;
    assert forall|u: int, v: int| 0 <= u < CS && 0 <= v < CS implies (#[trigger] covered(
        qs,
        d,
        layer,
        u,
        v,
    ) <==> face_visible(blocks, d, layer, u, v)) by {
        let i = u + v * CS;
        lemma_idx_roundtrip(u, v);
        if face_visible(blocks, d, layer, u, v) {
            assert(face_visible(blocks, d, layer, idx_u(i), idx_v(i)));
            assert(mf[i]);
            assert(covered(qs, d, layer, u, v));
        }
        if covered(qs, d, layer, u, v) {
            let k = choose|k: int| 0 <= k < qs.len() && quad_covers(qs[k], d, layer, u, v);
            assert(quad_ok(blocks, d, layer, m, qs[k]));
            assert(face_visible(blocks, d, layer, u, v));
        }
    }
}

/// Quads of the first `n` layers: valid quads of layers below `n`, coverage
/// equal to visibility on those layers, and no overlaps.
proof fn lemma_mesh_layers_props(blocks: Seq<Block>, d: Direction, n: int)
    requires
        0 <= n <= CS,
    ensures
        forall|k: int|
            0 <= k < mesh_layers(blocks, d, n).len() ==> quad_valid(
                blocks,
                d,
                #[trigger] mesh_layers(blocks, d, n)[k],
            ) && 0 <= quad_layer(mesh_layers(blocks, d, n)[k]) < n,
        forall|l: int, u: int, v: int|
            0 <= l < n && 0 <= u < CS && 0 <= v < CS ==> (#[trigger] covered(
                mesh_layers(blocks, d, n),
                d,
                l,
                u,
                v,
            ) <==> face_visible(blocks, d, l, u, v)),
        forall|k1: int, k2: int, l: int, uu: int, vv: int|
            0 <= k1 < k2 < mesh_layers(blocks, d, n).len() ==> !(#[trigger] quad_covers(
                mesh_layers(blocks, d, n)[k1],
                d,
                l,
                uu,
                vv,
            ) && #[trigger] quad_covers(mesh_layers(blocks, d, n)[k2], d, l, uu, vv)),
    decreases n,
{
    if n > 0 {
        lemma_mesh_layers_props(blocks, d, n - 1);
        lemma_layer_quads_props(blocks, d, n - 1);
        let a = mesh_layers(blocks, d, n - 1);
        let b = layer_quads(blocks, d, n - 1);
        let s = mesh_layers(blocks, d, n);
        assert(s == a + b);
        assert forall|k: int| 0 <= k < s.len() implies quad_valid(blocks, d, #[trigger] s[k]) && 0
            <= quad_layer(s[k]) < n by {
            if k < a.len() {
                assert(s[k] == a[k]);
            } else {
                assert(s[k] == b[k - a.len()]);
            }
        }
        assert forall|l: int, u: int, v: int|
            0 <= l < n && 0 <= u < CS && 0 <= v < CS implies (#[trigger] covered(s, d, l, u, v)
            <==> face_visible(blocks, d, l, u, v)) by {
            lemma_covered_concat(a, b, d, l, u, v);
            if covered(b, d, l, u, v) {
                let k = choose|k: int| 0 <= k < b.len() && quad_covers(b[k], d, l, u, v);
                assert(quad_layer(b[k]) == n - 1);
                assert(l == n - 1);
            }
            if covered(a, d, l, u, v) {
                let k = choose|k: int| 0 <= k < a.len() && quad_covers(a[k], d, l, u, v);
                assert(0 <= quad_layer(a[k]) < n - 1);
                assert(l < n - 1);
            }
            if l < n - 1 {
                assert(covered(s, d, l, u, v) <==> covered(a, d, l, u, v));
            } else {
                assert(covered(s, d, l, u, v) <==> covered(b, d, l, u, v));
            }
        }
        assert forall|k1: int, k2: int, l: int, uu: int, vv: int|
            0 <= k1 < k2 < s.len() implies !(#[trigger] quad_covers(s[k1], d, l, uu, vv)
            && #[trigger] quad_covers(s[k2], d, l, uu, vv)) by {
            if quad_covers(s[k1], d, l, uu, vv) && quad_covers(s[k2], d, l, uu, vv) {
                if k2 < a.len() {
                    assert(s[k1] == a[k1] && s[k2] == a[k2]);
                } else if k1 >= a.len() {
                    assert(s[k1] == b[k1 - a.len()] && s[k2] == b[k2 - a.len()]);
                    assert(quad_layer(s[k1]) == n - 1 && l == n - 1);
                } else {
                    assert(s[k1] == a[k1] && s[k2] == b[k2 - a.len()]);
                    assert(quad_layer(s[k1]) < n - 1 && quad_layer(s[k2]) == n - 1);
                    assert(l == quad_layer(s[k1]) && l == quad_layer(s[k2]));
                }
            }
        }
    }
}

/// Coverage (one direction of the meshing law): a plane cell is covered by
/// some emitted quad exactly when its face is visible, so the union of the
/// quads' cells per direction equals the visible-face set, with nothing
/// missing and nothing extra.
pub proof fn lemma_mesh_coverage(blocks: Seq<Block>, d: Direction, layer: int, u: int, v: int)
    requires
        0 <= layer < CS,
        0 <= u < CS,
        0 <= v < CS,
    ensures
        covered(dir_quads(blocks, d), d, layer, u, v) <==> face_visible(blocks, d, layer, u, v),
{
    lemma_mesh_layers_props(blocks, d, CS as int);
}

/// No duplicated coverage (the other direction of the meshing law): two
/// distinct emitted quads never cover the same plane cell.
pub proof fn lemma_mesh_disjoint(
    blocks: Seq<Block>,
    d: Direction,
    k1: int,
    k2: int,
    layer: int,
    u: int,
    v: int,
)
    requires
        0 <= k1 < dir_quads(blocks, d).len(),
        0 <= k2 < dir_quads(blocks, d).len(),
        k1 != k2,
    ensures
        !(quad_covers(dir_quads(blocks, d)[k1], d, layer, u, v) && quad_covers(
            dir_quads(blocks, d)[k2],
            d,
            layer,
            u,
            v,
        )),
{
    lemma_mesh_layers_props(blocks, d, CS as int);
}

/// Every quad the mesher emits is well-formed: in bounds for its direction,
/// at least one cell in extent, and textured from the block enumeration.
pub proof fn lemma_dir_quads_valid(blocks: Seq<Block>, d: Direction)
    ensures
        forall|k: int|
            0 <= k < dir_quads(blocks, d).len() ==> quad_valid(
                blocks,
                d,
                #[trigger] dir_quads(blocks, d)[k],
            ),
{
    lemma_mesh_layers_props(blocks, d, CS as int);
}

/// A scan over a layer with no visible face emits nothing and leaves the
/// mask unchanged.
proof fn lemma_scan_no_visible(blocks: Seq<Block>, d: Direction, layer: int, m: Seq<bool>, p: int)
    requires
        m.len() == CS * CS,
        0 <= p <= CS * CS,
        forall|u: int, v: int|
            0 <= u < CS && 0 <= v < CS ==> !(#[trigger] face_visible(blocks, d, layer, u, v)),
    ensures
        scan_layer(blocks, d, layer, m, p).0 == Seq::<MergedQuad>::empty(),
        scan_layer(blocks, d, layer, m, p).1 == m,
    decreases CS * CS - p,
{
    if p < CS * CS {
        lemma_idx_decompose(p);
        assert(!face_visible(blocks, d, layer, idx_u(p), idx_v(p)));
        lemma_scan_no_visible(blocks, d, layer, m, p + 1);
    }
}

/// A scan over a fully marked mask emits nothing.
proof fn lemma_scan_all_marked(blocks: Seq<Block>, d: Direction, layer: int, m: Seq<bool>, p: int)
    requires
        m.len() == CS * CS,
        0 <= p <= CS * CS,
        forall|i: int| 0 <= i < CS * CS ==> #[trigger] m[i],
    ensures
        scan_layer(blocks, d, layer, m, p).0 == Seq::<MergedQuad>::empty(),
        scan_layer(blocks, d, layer, m, p).1 == m,
    decreases CS * CS - p,
{
    if p < CS * CS {
        assert(m[p]);
        lemma_scan_all_marked(blocks, d, layer, m, p + 1);
    }
}

/// A chunk of nothing but air has no visible face in any direction, so the
/// mesher emits zero quads for every direction.
pub proof fn lemma_all_air_meshes_empty(blocks: Seq<Block>, d: Direction)
    requires
        blocks.len() == CS * CS * CS,
        forall|i: int|
            0 <= i < blocks.len() ==> (#[trigger] blocks[i]).block_type == BlockType::AIR,
    ensures
        dir_quads(blocks, d).len() == 0,
        packed_dir(blocks, d).len() == 0,
{
    assert forall|l: int, u: int, v: int|
        0 <= u < CS && 0 <= v < CS implies !(#[trigger] face_visible(blocks, d, l, u, v)) by {
        let (x, y, z) = d.cell_voxel(l, u, v);
        if 0 <= x < CS && 0 <= y < CS && 0 <= z < CS {
            assert(blocks[x + y * CS + z * CS * CS].block_type == BlockType::AIR);
        }
    }
    lemma_mesh_layers_air_empty(blocks, d, CS as int);
}

/// Helper for the all-air law: no layer of an all-air grid emits quads.
proof fn lemma_mesh_layers_air_empty(blocks: Seq<Block>, d: Direction, n: int)
    requires
        0 <= n <= CS,
        forall|l: int, u: int, v: int|
            0 <= u < CS && 0 <= v < CS ==> !(#[trigger] face_visible(blocks, d, l, u, v)),
    ensures
        mesh_layers(blocks, d, n).len() == 0,
    decreases n,
{
    if n > 0 {
        lemma_mesh_layers_air_empty(blocks, d, n - 1);
        assert forall|u: int, v: int|
            0 <= u < CS && 0 <= v < CS implies !(#[trigger] face_visible(blocks, d, n - 1, u, v))
            by {}
        lemma_scan_no_visible(blocks, d, n - 1, empty_mask(), 0);
    }
}

/// In a fully solid grid a face is visible exactly on the boundary layer
/// its direction's normal points out of: every in-range neighbor is solid,
/// and only the step off the chunk edge reads as air.
proof fn lemma_solid_visibility(
    blocks: Seq<Block>,
    t: BlockType,
    d: Direction,
    layer: int,
    u: int,
    v: int,
)
    requires
        blocks.len() == CS * CS * CS,
        t != BlockType::AIR,
        forall|i: int| 0 <= i < blocks.len() ==> (#[trigger] blocks[i]).block_type == t,
        0 <= layer < CS,
        0 <= u < CS,
        0 <= v < CS,
    ensures
        face_visible(blocks, d, layer, u, v) <==> layer == d.boundary_layer(),
{
    let (x, y, z) = d.cell_voxel(layer, u, v);
    assert(blocks[x + y * CS + z * CS * CS].block_type == t);
    let (nx, ny, nz) = d.normal();
    let (ax, ay, az) = (x + nx, y + ny, z + nz);
    if 0 <= ax < CS && 0 <= ay < CS && 0 <= az < CS {
        assert(blocks[ax + ay * CS + az * CS * CS].block_type == t);
    }
}

/// On a row that is visible and unvisited all the way to the chunk edge,
/// width growth reaches the edge.
proof fn lemma_grow_width_to_edge(
    blocks: Seq<Block>,
    d: Direction,
    layer: int,
    m: Seq<bool>,
    v: int,
    w0: int,
)
    requires
        1 <= w0 <= CS,
        forall|uu: int|
            0 <= uu < CS ==> #[trigger] face_visible(blocks, d, layer, uu, v) && !m[uu + v * CS],
    ensures
        grow_width(blocks, d, layer, m, 0, v, w0) == CS,
    decreases CS - w0,
{
    if w0 < CS {
        assert(face_visible(blocks, d, layer, 0 + w0, v));
        assert(!m[0 + w0 + v * CS]);
        lemma_grow_width_to_edge(blocks, d, layer, m, v, w0 + 1);
    }
}

/// When every row of the layer is clear across the full width, height
/// growth reaches the chunk edge.
proof fn lemma_grow_height_to_edge(
    blocks: Seq<Block>,
    d: Direction,
    layer: int,
    m: Seq<bool>,
    h0: int,
)
    requires
        1 <= h0 <= CS,
        forall|j: int|
            0 <= j < CS ==> #[trigger] row_clear(blocks, d, layer, m, 0, j, CS as int),
    ensures
        grow_height(blocks, d, layer, m, 0, 0, CS as int, h0) == CS,
    decreases CS - h0,
{
    if h0 < CS {
        assert(row_clear(blocks, d, layer, m, 0, 0 + h0, CS as int));
        lemma_grow_height_to_edge(blocks, d, layer, m, h0 + 1);
    }
}

/// The boundary layer of a fully solid grid scans to exactly one quad: the
/// full chunk face.
proof fn lemma_layer_quads_solid(blocks: Seq<Block>, t: BlockType, d: Direction)
    requires
        blocks.len() == CS * CS * CS,
        t != BlockType::AIR,
        forall|i: int| 0 <= i < blocks.len() ==> (#[trigger] blocks[i]).block_type == t,
    ensures
        layer_quads(blocks, d, d.boundary_layer()) =~= seq![
            spec_make_quad(blocks, d, d.boundary_layer(), 0, 0, CS as int, CS as int),
        ],
{
    let b = d.boundary_layer();
    let m0 = empty_mask();
    assert(0 <= b < CS);
    assert forall|uu: int, vv: int|
        0 <= uu < CS && 0 <= vv < CS implies #[trigger] face_visible(blocks, d, b, uu, vv) by {
        lemma_solid_visibility(blocks, t, d, b, uu, vv);
    }
    lemma_idx_decompose(0);
    assert(idx_u(0) == 0 && idx_v(0) == 0);
    assert(face_visible(blocks, d, b, 0, 0));
    assert(!m0[0]);
    // width grows to the edge
    assert forall|uu: int|
        0 <= uu < CS implies #[trigger] face_visible(blocks, d, b, uu, 0) && !m0[uu + 0 * CS] by {
        assert(0 <= uu + 0 * CS < CS * CS);
    }
    lemma_grow_width_to_edge(blocks, d, b, m0, 0, 1);
    let w = grow_width(blocks, d, b, m0, 0, 0, 1);
    assert(w == CS);
    // every row is clear, so height grows to the edge
    assert forall|j: int|
        0 <= j < CS implies #[trigger] row_clear(blocks, d, b, m0, 0, j, CS as int) by {
        assert forall|i: int| 0 <= i < CS as int implies #[trigger] face_visible(
            blocks,
            d,
            b,
            0 + i,
            j,
        ) && !m0[0 + i + j * CS] by {
            assert(face_visible(blocks, d, b, i, j));
            assert(0 <= 0 + i + j * CS < CS * CS);
        }
    }
    lemma_grow_height_to_edge(blocks, d, b, m0, 1);
    let h = grow_height(blocks, d, b, m0, 0, 0, w, 1);
    assert(h == CS);
    let q = spec_make_quad(blocks, d, b, 0, 0, w, h);
    let m2 = mark_rect(m0, 0, 0, w, h);
    assert forall|i: int| 0 <= i < CS * CS implies #[trigger] m2[i] by {
        lemma_idx_decompose(i);
        assert(cell_in_rect(0, 0, w, h, idx_u(i), idx_v(i)));
    }
    lemma_scan_all_marked(blocks, d, b, m2, 1);
    assert(scan_layer(blocks, d, b, m0, 0).0 == seq![q] + scan_layer(blocks, d, b, m2, 1).0);
}

/// Below and at the boundary layer, a fully solid grid's sweep has emitted
/// either nothing or exactly the one full-face quad.
proof fn lemma_mesh_layers_solid(blocks: Seq<Block>, t: BlockType, d: Direction, n: int)
    requires
        blocks.len() == CS * CS * CS,
        t != BlockType::AIR,
        forall|i: int| 0 <= i < blocks.len() ==> (#[trigger] blocks[i]).block_type == t,
        0 <= n <= CS,
    ensures
        mesh_layers(blocks, d, n) =~= (if n <= d.boundary_layer() {
            Seq::<MergedQuad>::empty()
        } else {
            seq![spec_make_quad(blocks, d, d.boundary_layer(), 0, 0, CS as int, CS as int)]
        }),
    decreases n,
{
    let b = d.boundary_layer();
    if n > 0 {
        lemma_mesh_layers_solid(blocks, t, d, n - 1);
        if n - 1 == b {
            lemma_layer_quads_solid(blocks, t, d);
        } else {
            assert forall|uu: int, vv: int|
                0 <= uu < CS && 0 <= vv < CS implies !(#[trigger] face_visible(
                blocks,
                d,
                n - 1,
                uu,
                vv,
            )) by {
                lemma_solid_visibility(blocks, t, d, n - 1, uu, vv);
            }
            lemma_scan_no_visible(blocks, d, n - 1, empty_mask(), 0);
        }
    }
}

/// A fully solid, single-material chunk meshes to exactly one maximal quad
/// per face direction: the full chunk face on the boundary layer the
/// direction points out of.
pub proof fn lemma_full_solid_single_quad(blocks: Seq<Block>, t: BlockType, d: Direction)
    requires
        blocks.len() == CS * CS * CS,
        t != BlockType::AIR,
        forall|i: int| 0 <= i < blocks.len() ==> (#[trigger] blocks[i]).block_type == t,
    ensures
        dir_quads(blocks, d) =~= seq![
            spec_make_quad(blocks, d, d.boundary_layer(), 0, 0, CS as int, CS as int),
        ],
        dir_quads(blocks, d).len() == 1,
{
    lemma_mesh_layers_solid(blocks, t, d, CS as int);
    assert(d.boundary_layer() < CS);
}

/// Meshing is a function of the voxel content alone: grids with the same
/// blocks mesh to byte-identical packed quad sequences, so running the
/// mesher twice on an unmodified grid reproduces its output exactly.
pub proof fn lemma_mesh_deterministic(g1: Seq<Block>, g2: Seq<Block>, d: Direction)
    requires
        g1 == g2,
    ensures
        packed_dir(g1, d) == packed_dir(g2, d),
{
}

/// Mesh one direction and pack each quad into its 64-bit word.
fn mesh_packed(c: &Chunk, d: Direction) -> (r: Vec<u64>)
    requires
        c.wf(),
    ensures
        r@ == packed_dir(c.blocks@, d),
{
    let quads = mesh_direction(c, d);
    proof {
        lemma_dir_quads_valid(c.blocks@, d);
    }
    let mut r: Vec<u64> = Vec::new();
    let mut i: usize = 0;
    while i < quads.len()
        invariant
            quads@ == dir_quads(c.blocks@, d),
            forall|k: int|
                0 <= k < quads@.len() ==> quad_valid(c.blocks@, d, #[trigger] quads@[k]),
            i <= quads@.len(),
            r@.len() == i,
            forall|j: int| 0 <= j < i ==> r@[j] == spec_pack_quad(#[trigger] quads@[j]),
        decreases quads@.len() - i,
    {
        let q = quads[i];
        proof {
            assert(quad_valid(c.blocks@, d, quads@[i as int]));
            assert(q.x < CS && q.y < CS && q.z < CS && 1 <= q.width <= CS && 1 <= q.height <= CS);
        }
        let packed = pack_data(
            q.x,
            q.y,
            q.z,
            q.width,
            q.height,
            q.direction.face_id(),
            q.texture_id,
        );
        r.push(packed);
        i = i + 1;
    }
    proof {
        assert(r@ =~= packed_dir(c.blocks@, d));
    }
    r
}

/// Greedy-mesh a chunk: six packed quad streams, one per face direction,
/// each pinned to the packed form of that direction's merged quads.
pub fn greedy_mesh(chunk: &Chunk) -> (r: Vec<Vec<u64>>)
    requires
        chunk.wf(),
    ensures
        r@.len() == 6,
        r@[0]@ == packed_dir(chunk.blocks@, Direction::Top),
        r@[1]@ == packed_dir(chunk.blocks@, Direction::Bottom),
        r@[2]@ == packed_dir(chunk.blocks@, Direction::Right),
        r@[3]@ == packed_dir(chunk.blocks@, Direction::Left),
        r@[4]@ == packed_dir(chunk.blocks@, Direction::Front),
        r@[5]@ == packed_dir(chunk.blocks@, Direction::Back),
{
    let mut r: Vec<Vec<u64>> = Vec::new();
    r.push(mesh_packed(chunk, Direction::Top));
    r.push(mesh_packed(chunk, Direction::Bottom));
    r.push(mesh_packed(chunk, Direction::Right));
    r.push(mesh_packed(chunk, Direction::Left));
    r.push(mesh_packed(chunk, Direction::Front));
    r.push(mesh_packed(chunk, Direction::Back));
    r
}

} // verus!
