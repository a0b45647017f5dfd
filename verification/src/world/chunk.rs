use vstd::prelude::*;

verus! {

/// The six axis-aligned faces of a block.
#[derive(Clone, Copy, Debug, PartialEq, Eq, Hash, Structural)]
pub enum Face {
    Up,
    Down,
    North,
    South,
    East,
    West,
}

/// Unit normal of a face, as `(dx, dy, dz)`.
pub open spec fn face_normal(face: Face) -> (int, int, int) {
    match face {
        Face::Up => (0, 1, 0),
        Face::Down => (0, -1, 0),
        Face::North => (0, 0, -1),
        Face::South => (0, 0, 1),
        Face::East => (1, 0, 0),
        Face::West => (-1, 0, 0),
    }
}

impl Face {
    pub const ALL: [Face; 6] = [
        Face::Up,
        Face::Down,
        Face::North,
        Face::South,
        Face::East,
        Face::West,
    ];

    pub fn normal(self) -> (n: [i32; 3])
        ensures
            (n[0] as int, n[1] as int, n[2] as int) == face_normal(self),
    {
        match self {
            Face::Up => [0, 1, 0],
            Face::Down => [0, -1, 0],
            Face::North => [0, 0, -1],
            Face::South => [0, 0, 1],
            Face::East => [1, 0, 0],
            Face::West => [-1, 0, 0],
        }
    }
}

/// One vertex of a chunk mesh, in chunk-local block units.
///
/// `corner` is the quad corner (0..4) that the vertex belongs to; it selects the
/// texture coordinate within the tile `tex_page` of the block texture row.
#[derive(Clone, Copy, Debug, PartialEq, Eq, Structural)]
pub struct MeshVertex {
    pub x: usize,
    pub y: usize,
    pub z: usize,
    pub corner: usize,
    pub tex_page: u32,
    pub block: u8,
    pub light: u32,
}

/// Position of the flat block array that holds the cell `(x, y, z)`.
pub open spec fn cell_index(x: int, y: int, z: int, width: int) -> int {
    x + z * width + y * width * width
}

pub fn index(x: usize, y: usize, z: usize, width: usize, _height: usize) -> (i: usize)
    requires
        x + z * width + y * width * width <= usize::MAX,
    ensures
        i == cell_index(x as int, y as int, z as int, width as int),
{
    proof {
        assert(z * width <= x + z * width + y * width * width) by (nonlinear_arith)
            requires x + z * width + y * width * width <= usize::MAX, 0 <= x, 0 <= y, 0 <= z, 0 <= width;
        assert(y * width <= x + z * width + y * width * width) by (nonlinear_arith)
            requires x + z * width + y * width * width <= usize::MAX, 0 <= x, 0 <= y, 0 <= z, 0 <= width;
        assert(y * width * width == (y * width) * width) by (nonlinear_arith);
    }
    x + z * width + y * width * width
}

/// The horizontal coordinate of a scan position; chunk-local, the same for every face.
pub fn pos_for(face: Face, u: usize, _v: usize, w: usize, _cx: i32, _cz: i32) -> (x: usize)
    ensures
        x == u,
{
    let _ = face;
    let _ = w;
    u
}

/// The (u, v, w) axes a face is scanned along; the same axes for every face.
pub fn face_axes(face: Face) -> (axes: (usize, usize, usize))
    ensures
        axes == (0usize, 1usize, 2usize),
{
    match face {
        Face::Up | Face::Down => (0, 1, 2),
        _ => (0, 1, 2),
    }
}

/// Whether the cell `(x, y, z)` lies inside a `width x height x depth` chunk.
pub open spec fn in_chunk(x: int, y: int, z: int, width: int, height: int, depth: int) -> bool {
    0 <= x < width && 0 <= y < height && 0 <= z < depth
}

/// Whether the block at `(x, y, z)` lies in the chunk and is solid. The
/// coordinates are signed so that the neighbour of an edge block can be asked for.
pub fn neighbor_occludes(
    blocks: &[u8],
    x: i64,
    y: i64,
    z: i64,
    width: usize,
    height: usize,
    depth: usize,
) -> (occ: bool)
    requires
        in_chunk(x as int, y as int, z as int, width as int, height as int, depth as int)
            ==> cell_index(x as int, y as int, z as int, width as int) < blocks@.len(),
    ensures
        occ == (in_chunk(x as int, y as int, z as int, width as int, height as int, depth as int)
            && blocks@[cell_index(x as int, y as int, z as int, width as int)] != 0),
{
    if x < 0 || y < 0 || z < 0 || x as u64 >= width as u64 || y as u64 >= height as u64 || z as u64
        >= depth as u64 {
        false
    } else {
        assert(in_chunk(x as int, y as int, z as int, width as int, height as int, depth as int));
        assert(blocks@.len() == blocks.len());
        let (ux, uy, uz) = (x as usize, y as usize, z as usize);
        assert(cell_index(x as int, y as int, z as int, width as int) == ux + uz * width + uy * width * width);
        blocks[index(ux, uy, uz, width, height)] != 0
    }
}

// ---- The greedy scan, stated over the flat block array ----

/// A scan position `(u, v, w)` of the chunk mesher: `u` and `w` run over the
/// width, `v` over the height.
pub open spec fn in_scan(u: int, v: int, w: int, width: int, height: int) -> bool {
    0 <= u < width && 0 <= v < height && 0 <= w < width
}

pub open spec fn block_at(blocks: Seq<u8>, width: int, u: int, v: int, w: int) -> u8 {
    blocks[cell_index(u, v, w, width)]
}

/// Position of face `face` in the pass order of `Face::ALL`.
pub open spec fn face_index(face: Face) -> int {
    match face {
        Face::Up => 0,
        Face::Down => 1,
        Face::North => 2,
        Face::South => 3,
        Face::East => 4,
        Face::West => 5,
    }
}

/// The block next to `(u, v, w)` across `face`.
pub open spec fn neighbor_of(face: Face, u: int, v: int, w: int) -> (int, int, int) {
    let n = face_normal(face);
    (u + n.0, v + n.1, w + n.2)
}

/// The block across `face` from `(u, v, w)` lies in the chunk and is solid.
pub open spec fn face_occluded(
    blocks: Seq<u8>,
    width: int,
    height: int,
    depth: int,
    face: Face,
    u: int,
    v: int,
    w: int,
) -> bool {
    let p = neighbor_of(face, u, v, w);
    in_chunk(p.0, p.1, p.2, width, height, depth) && block_at(blocks, width, p.0, p.1, p.2) != 0
}

/// In the pass of `face`, the solid block at `(u, v, w)` is merged into the run of
/// its left neighbour: same block type, and not covered across that face.
pub open spec fn continues_run(
    blocks: Seq<u8>,
    width: int,
    height: int,
    depth: int,
    face: Face,
    u: int,
    v: int,
    w: int,
) -> bool {
    &&& u > 0
    &&& block_at(blocks, width, u, v, w) != 0
    &&& block_at(blocks, width, u - 1, v, w) == block_at(blocks, width, u, v, w)
    &&& !face_occluded(blocks, width, height, depth, face, u, v, w)
}

/// In the pass of `face`, a quad starts at `(u, v, w)`: the block is solid and
/// starts a run.
pub open spec fn starts_quad(
    blocks: Seq<u8>,
    width: int,
    height: int,
    depth: int,
    face: Face,
    u: int,
    v: int,
    w: int,
) -> bool {
    block_at(blocks, width, u, v, w) != 0 && !continues_run(blocks, width, height, depth, face, u, v, w)
}

/// A merged run drawn as one quad: the face, the run's first block `(u, v, w)`
/// and the end `end` of the run along `u` (exclusive).
pub struct Quad {
    pub face: Face,
    pub u: int,
    pub v: int,
    pub w: int,
    pub end: int,
}

/// `q` is the run of its face pass that starts at its first block, with the run's
/// true end: every block up to the end is merged in, the block at the end is not.
pub open spec fn run_quad(q: Quad, blocks: Seq<u8>, width: int, height: int, depth: int) -> bool {
    &&& in_scan(q.u, q.v, q.w, width, height)
    &&& starts_quad(blocks, width, height, depth, q.face, q.u, q.v, q.w)
    &&& q.u < q.end <= width
    &&& forall|k: int|
        q.u < k < q.end ==> #[trigger] continues_run(blocks, width, height, depth, q.face, k, q.v, q.w)
    &&& q.end < width ==> !continues_run(blocks, width, height, depth, q.face, q.end, q.v, q.w)
}

/// Pass order, then scan order within a pass: `(face index, u, v, w)` compared by
/// face, then `w`, then `v`, then `u`.
pub open spec fn key_before(a: (int, int, int, int), b: (int, int, int, int)) -> bool {
    a.0 < b.0 || (a.0 == b.0 && (a.3 < b.3 || (a.3 == b.3 && (a.2 < b.2 || (a.2 == b.2 && a.1 < b.1)))))
}

pub open spec fn quad_key(q: Quad) -> (int, int, int, int) {
    (face_index(q.face), q.u, q.v, q.w)
}

/// `qs` holds a quad of `face` that starts at `(u, v, w)`.
pub open spec fn has_quad_at(qs: Seq<Quad>, face: Face, u: int, v: int, w: int) -> bool {
    exists|i: int|
        0 <= i < qs.len() && #[trigger] qs[i].face == face && qs[i].u == u && qs[i].v == v && qs[i].w == w
}

/// `qs` lists, in pass order and scan order, each once, exactly the runs of every
/// face pass.
pub open spec fn greedy_quads(qs: Seq<Quad>, blocks: Seq<u8>, width: int, height: int, depth: int) -> bool {
    &&& forall|i: int| 0 <= i < qs.len() ==> run_quad(#[trigger] qs[i], blocks, width, height, depth)
    &&& forall|i: int, j: int| 0 <= i < j < qs.len() ==> key_before(quad_key(qs[i]), quad_key(qs[j]))
    &&& forall|face: Face, u: int, v: int, w: int|
        in_scan(u, v, w, width, height) && #[trigger] starts_quad(blocks, width, height, depth, face, u, v, w)
            ==> has_quad_at(qs, face, u, v, w)
}

/// Triangle-list order of the quad corners: `0, 1, 2, 0, 2, 3`.
pub open spec fn tri_corner(j: int) -> int {
    if j < 3 {
        j
    } else if j == 3 {
        0
    } else {
        j - 2
    }
}

/// Corner `k` (0..4) of the quad of `face` on the box of blocks `x0..x1` along x,
/// at height `y` and depth `z`.
pub open spec fn quad_corner(face: Face, x0: int, x1: int, y: int, z: int, k: int) -> (int, int, int) {
    match face {
        Face::Up => if k == 0 {
            (x0, y + 1, z)
        } else if k == 1 {
            (x1, y + 1, z)
        } else if k == 2 {
            (x1, y + 1, z + 1)
        } else {
            (x0, y + 1, z + 1)
        },
        Face::Down => if k == 0 {
            (x0, y, z)
        } else if k == 1 {
            (x1, y, z)
        } else if k == 2 {
            (x1, y, z + 1)
        } else {
            (x0, y, z + 1)
        },
        Face::North => if k == 0 {
            (x0, y, z)
        } else if k == 1 {
            (x1, y, z)
        } else if k == 2 {
            (x1, y + 1, z)
        } else {
            (x0, y + 1, z)
        },
        Face::South => if k == 0 {
            (x0, y, z + 1)
        } else if k == 1 {
            (x1, y, z + 1)
        } else if k == 2 {
            (x1, y + 1, z + 1)
        } else {
            (x0, y + 1, z + 1)
        },
        Face::East => if k == 0 {
            (x1, y, z)
        } else if k == 1 {
            (x1, y, z + 1)
        } else if k == 2 {
            (x1, y + 1, z + 1)
        } else {
            (x1, y + 1, z)
        },
        Face::West => if k == 0 {
            (x0, y, z)
        } else if k == 1 {
            (x0, y, z + 1)
        } else if k == 2 {
            (x0, y + 1, z + 1)
        } else {
            (x0, y + 1, z)
        },
    }
}

/// The light value of every mesh vertex: full sky and block light.
pub open spec fn full_light() -> u32 {
    255
}

/// Vertex `j` (0..6) of the two triangles that draw `face` of the blocks `x0..x1`.
pub open spec fn face_vertex(face: Face, x0: int, x1: int, y: int, z: int, block: u8, j: int) -> MeshVertex {
    let k = tri_corner(j);
    let p = quad_corner(face, x0, x1, y, z, k);
    MeshVertex {
        x: p.0 as usize,
        y: p.1 as usize,
        z: p.2 as usize,
        corner: k as usize,
        tex_page: (block % 16) as u32,
        block,
        light: full_light(),
    }
}

pub open spec fn quad_vertices(face: Face, x0: int, x1: int, y: int, z: int, block: u8) -> Seq<MeshVertex> {
    Seq::new(6, |j: int| face_vertex(face, x0, x1, y, z, block, j))
}

/// The two triangles of quad `q`, in the type of its first block.
pub open spec fn quad_mesh(q: Quad, blocks: Seq<u8>, width: int) -> Seq<MeshVertex> {
    quad_vertices(q.face, q.u, q.end, q.v, q.w, block_at(blocks, width, q.u, q.v, q.w))
}

/// The mesh that the quads `qs` make, in order.
pub open spec fn mesh_of(qs: Seq<Quad>, blocks: Seq<u8>, width: int) -> Seq<MeshVertex>
    decreases qs.len(),
{
    if qs.len() == 0 {
        Seq::empty()
    } else {
        mesh_of(qs.drop_last(), blocks, width) + quad_mesh(qs.last(), blocks, width)
    }
}

// ---- Arithmetic of the flat index ----

proof fn lemma_cell_index_bound(u: int, v: int, w: int, width: int, height: int)
    requires
        in_scan(u, v, w, width, height),
    ensures
        0 <= cell_index(u, v, w, width) < width * width * height,
{
    assert(0 <= u + w * width <= width * width - 1) by (nonlinear_arith)
        requires 0 <= u < width, 0 <= w < width;
    assert(v * width * width + width * width <= width * width * height) by (nonlinear_arith)
        requires 0 <= v < height, 0 <= width;
    assert(0 <= v * width * width) by (nonlinear_arith)
        requires 0 <= v, 0 <= width;
}

proof fn lemma_cell_index_injective(a: (int, int, int), b: (int, int, int), width: int, height: int)
    requires
        in_scan(a.0, a.1, a.2, width, height),
        in_scan(b.0, b.1, b.2, width, height),
        cell_index(a.0, a.1, a.2, width) == cell_index(b.0, b.1, b.2, width),
    ensures
        a == b,
{
    let ww = width * width;
    assert(0 <= a.0 + a.2 * width < ww) by (nonlinear_arith)
        requires 0 <= a.0 < width, 0 <= a.2 < width, ww == width * width;
    assert(0 <= b.0 + b.2 * width < ww) by (nonlinear_arith)
        requires 0 <= b.0 < width, 0 <= b.2 < width, ww == width * width;
    assert(a.1 * width * width == a.1 * ww) by (nonlinear_arith)
        requires ww == width * width;
    assert(b.1 * width * width == b.1 * ww) by (nonlinear_arith)
        requires ww == width * width;
    let x = cell_index(a.0, a.1, a.2, width);
    vstd::arithmetic::div_mod::lemma_fundamental_div_mod_converse(x, ww, a.1, a.0 + a.2 * width);
    vstd::arithmetic::div_mod::lemma_fundamental_div_mod_converse(x, ww, b.1, b.0 + b.2 * width);
    let y = a.0 + a.2 * width;
    vstd::arithmetic::div_mod::lemma_fundamental_div_mod_converse(y, width, a.2, a.0);
    vstd::arithmetic::div_mod::lemma_fundamental_div_mod_converse(y, width, b.2, b.0);
}

/// Every scan position other than `p` has another index than `p`.
proof fn lemma_cell_index_distinct(p: (int, int, int), width: int, height: int)
    requires
        in_scan(p.0, p.1, p.2, width, height),
    ensures
        forall|u: int, v: int, w: int|
            in_scan(u, v, w, width, height) && (u, v, w) != p ==> #[trigger] cell_index(u, v, w, width)
                != cell_index(p.0, p.1, p.2, width),
{
    assert forall|u: int, v: int, w: int|
        in_scan(u, v, w, width, height) && (u, v, w) != p implies #[trigger] cell_index(u, v, w, width)
            != cell_index(p.0, p.1, p.2, width) by {
        if cell_index(u, v, w, width) == cell_index(p.0, p.1, p.2, width) {
            lemma_cell_index_injective((u, v, w), p, width, height);
        }
    }
}

/// Appends the two triangles that draw `face` of the run of blocks `u..u_end`
/// along `u` at `(v, w)`: the face of the box those blocks fill.
pub fn emit_face(
    vertices: &mut Vec<MeshVertex>,
    face: Face,
    u: usize,
    u_end: usize,
    v: usize,
    w: usize,
    block: u8,
    _cx: i32,
    _cz: i32,
    width: usize,
    height: usize,
    depth: usize,
)
    requires
        u < u_end,
        v < usize::MAX,
        w < usize::MAX,
    ensures
        final(vertices)@ == old(vertices)@ + quad_vertices(
            face,
            u as int,
            u_end as int,
            v as int,
            w as int,
            block,
        ),
{
    let (x0, x1, y, z) = (u, u_end, v, w);
    let light = 15u32 | (15u32 << 4);
    assert(light == 255) by (bit_vector)
        requires light == 15u32 | (15u32 << 4);
    let tex_page = block as u32 % 16;

    let quad: [(usize, usize, usize); 4] = match face {
        Face::Up => [(x0, y + 1, z), (x1, y + 1, z), (x1, y + 1, z + 1), (x0, y + 1, z + 1)],
        Face::Down => [(x0, y, z), (x1, y, z), (x1, y, z + 1), (x0, y, z + 1)],
        Face::North => [(x0, y, z), (x1, y, z), (x1, y + 1, z), (x0, y + 1, z)],
        Face::South => [(x0, y, z + 1), (x1, y, z + 1), (x1, y + 1, z + 1), (x0, y + 1, z + 1)],
        Face::East => [(x1, y, z), (x1, y, z + 1), (x1, y + 1, z + 1), (x1, y + 1, z)],
        Face::West => [(x0, y, z), (x0, y, z + 1), (x0, y + 1, z + 1), (x0, y + 1, z)],
    };
    assert(forall|k: int|
        0 <= k < 4 ==> (quad[k].0 as int, quad[k].1 as int, quad[k].2 as int) == quad_corner(
            face,
            x0 as int,
            x1 as int,
            y as int,
            z as int,
            k,
        ));

    let order: [usize; 6] = [0, 1, 2, 0, 2, 3];
    let ghost start = vertices@;
    let ghost quad_seq = quad_vertices(face, u as int, u_end as int, v as int, w as int, block);
    let mut j: usize = 0;
    while j < 6
        invariant
            j <= 6,
            start == old(vertices)@,
            quad_seq == quad_vertices(face, u as int, u_end as int, v as int, w as int, block),
            vertices@ == start + quad_seq.take(j as int),
            light == 255,
            tex_page == (block % 16) as u32,
            order@ == seq![0usize, 1, 2, 0, 2, 3],
            forall|k: int|
                0 <= k < 4 ==> (quad[k].0 as int, quad[k].1 as int, quad[k].2 as int) == quad_corner(
                    face,
                    x0 as int,
                    x1 as int,
                    y as int,
                    z as int,
                    k,
                ),
            x0 == u,
            x1 == u_end,
            y == v,
            z == w,
        decreases 6 - j,
    {
        let k = order[j];
        let p = quad[k];
        vertices.push(MeshVertex { x: p.0, y: p.1, z: p.2, corner: k, tex_page, block, light });
        assert(quad_seq.take(j as int + 1) =~= quad_seq.take(j as int).push(quad_seq[j as int]));
        j += 1;
    }
    assert(quad_seq.take(6) =~= quad_seq);
}

// ---- Scan progress ----

/// Every solid scan position before `pos` is marked in this pass, and no other.
spec fn visited_upto(visited: Seq<bool>, blocks: Seq<u8>, width: int, height: int, pos: (int, int, int)) -> bool {
    forall|u: int, v: int, w: int|
        in_scan(u, v, w, width, height) && block_at(blocks, width, u, v, w) != 0
            ==> visited[#[trigger] cell_index(u, v, w, width)] == scan_before((u, v, w), pos)
}

/// `a` is visited before `b` in the scan order of one pass (`w`, then `v`, then `u`).
pub open spec fn scan_before(a: (int, int, int), b: (int, int, int)) -> bool {
    a.2 < b.2 || (a.2 == b.2 && (a.1 < b.1 || (a.1 == b.1 && a.0 < b.0)))
}

/// `qs` lists in order, each once, the runs that start before `key`.
spec fn quads_upto(
    qs: Seq<Quad>,
    blocks: Seq<u8>,
    width: int,
    height: int,
    depth: int,
    key: (int, int, int, int),
) -> bool {
    &&& forall|i: int|
        0 <= i < qs.len() ==> run_quad(#[trigger] qs[i], blocks, width, height, depth) && key_before(
            quad_key(qs[i]),
            key,
        )
    &&& forall|i: int, j: int| 0 <= i < j < qs.len() ==> key_before(quad_key(qs[i]), quad_key(qs[j]))
    &&& forall|face: Face, u: int, v: int, w: int|
        in_scan(u, v, w, width, height) && key_before((face_index(face), u, v, w), key)
            && #[trigger] starts_quad(blocks, width, height, depth, face, u, v, w) ==> has_quad_at(
            qs,
            face,
            u,
            v,
            w,
        )
}

/// Two keys that split the quads alike hold the same progress facts.
proof fn lemma_same_key(
    qs: Seq<Quad>,
    blocks: Seq<u8>,
    width: int,
    height: int,
    depth: int,
    k1: (int, int, int, int),
    k2: (int, int, int, int),
)
    requires
        forall|f: int, u: int, v: int, w: int|
            0 <= f < 6 && in_scan(u, v, w, width, height) ==> key_before((f, u, v, w), k1) == key_before(
                (f, u, v, w),
                k2,
            ),
        quads_upto(qs, blocks, width, height, depth, k1),
    ensures
        quads_upto(qs, blocks, width, height, depth, k2),
{
    assert forall|i: int| 0 <= i < qs.len() implies key_before(quad_key(qs[i]), k2) by {
        assert(run_quad(qs[i], blocks, width, height, depth));
        let q = qs[i];
        assert(0 <= face_index(q.face) < 6);
        assert(key_before((face_index(q.face), q.u, q.v, q.w), k1) == key_before(
            (face_index(q.face), q.u, q.v, q.w),
            k2,
        ));
    }
    assert forall|face: Face, u: int, v: int, w: int|
        in_scan(u, v, w, width, height) && key_before((face_index(face), u, v, w), k2)
            && #[trigger] starts_quad(blocks, width, height, depth, face, u, v, w) implies has_quad_at(
        qs,
        face,
        u,
        v,
        w,
    ) by {
        assert(0 <= face_index(face) < 6);
        assert(key_before((face_index(face), u, v, w), k1));
    }
}

proof fn lemma_mesh_push(qs: Seq<Quad>, q: Quad, blocks: Seq<u8>, width: int)
    ensures
        mesh_of(qs.push(q), blocks, width) == mesh_of(qs, blocks, width) + quad_mesh(q, blocks, width),
{
    assert(qs.push(q).drop_last() =~= qs);
}

/// In a chunk with at least two blocks along a row, every scan position and its
/// neighbours have coordinates that a signed 64-bit integer holds.
proof fn lemma_coords_fit(u: int, v: int, w: int, width: int, height: int, len: int)
    requires
        in_scan(u, v, w, width, height),
        width >= 2,
        width * width * height <= len,
        len <= 0xffff_ffff_ffff_ffff,
    ensures
        u + 1 <= i64::MAX,
        v + 1 <= i64::MAX,
        w + 1 <= i64::MAX,
{
    assert(2 * width <= width * width) by (nonlinear_arith)
        requires width >= 2;
    assert(width * width <= width * width * height) by (nonlinear_arith)
        requires height >= 1, width >= 0;
    assert(4 * height <= width * width * height) by (nonlinear_arith)
        requires width >= 2, height >= 0;
}

/// What the mesher needs of its input: the mark grid of `width * height * depth`
/// cells can be allocated, the block array covers every scan position, every
/// solid scan position lies within the mark grid, and the array covers the
/// in-chunk neighbour of every block that may extend a run.
pub open spec fn chunk_input(blocks: Seq<u8>, width: int, height: int, depth: int) -> bool {
    &&& 0 <= width
    &&& 0 <= height
    &&& 0 <= depth
    &&& width * height <= usize::MAX
    &&& width * height * depth <= usize::MAX
    &&& width * width * height <= blocks.len()
    &&& forall|u: int, v: int, w: int|
        in_scan(u, v, w, width, height) && #[trigger] block_at(blocks, width, u, v, w) != 0
            ==> cell_index(u, v, w, width) < width * height * depth
    &&& forall|face: Face, u: int, v: int, w: int|
        in_scan(u, v, w, width, height) && u > 0 && block_at(blocks, width, u, v, w) != 0 && block_at(
            blocks,
            width,
            u - 1,
            v,
            w,
        ) == block_at(blocks, width, u, v, w) && in_chunk(
            (#[trigger] neighbor_of(face, u, v, w)).0,
            neighbor_of(face, u, v, w).1,
            neighbor_of(face, u, v, w).2,
            width,
            height,
            depth,
        ) ==> cell_index(
            neighbor_of(face, u, v, w).0,
            neighbor_of(face, u, v, w).1,
            neighbor_of(face, u, v, w).2,
            width,
        ) < blocks.len()
}

/// Greedy meshing of a chunk: for each face in the order of `Face::ALL`, a pass
/// over the rows merges runs of one block type along `u` whose blocks are not
/// covered across that face (the first block of a run is drawn whether covered
/// or not), and draws each run as one quad over the whole run. Each pass keeps
/// its own marks.
pub fn build_chunk_mesh(
    blocks: &[u8],
    width: usize,
    height: usize,
    depth: usize,
    chunk_x: i32,
    chunk_z: i32,
) -> (vertices: Vec<MeshVertex>)
    requires
        chunk_input(blocks@, width as int, height as int, depth as int),
    ensures
        exists|qs: Seq<Quad>|
            greedy_quads(qs, blocks@, width as int, height as int, depth as int) && vertices@ == mesh_of(
                qs,
                blocks@,
                width as int,
            ),
{
    let ghost bs = blocks@;
    assert(bs.len() == blocks.len());
    let ghost wd = width as int;
    let ghost ht = height as int;
    let ghost dp = depth as int;
    let mut vertices: Vec<MeshVertex> = Vec::new();
    let ghost mut qs: Seq<Quad> = Seq::empty();
    let faces = Face::ALL;
    let mut fi: usize = 0;
    while fi < 6
        invariant
            fi <= 6,
            bs == blocks@,
            wd == width,
            ht == height,
            dp == depth,
            chunk_input(bs, wd, ht, dp),
            bs.len() <= usize::MAX,
            faces == Face::ALL,
            quads_upto(qs, bs, wd, ht, dp, (fi as int, 0, 0, 0)),
            vertices@ == mesh_of(qs, bs, wd),
        decreases 6 - fi,
    {
        let face = faces[fi];
        assert(face_index(face) == fi);
        let n = face.normal();
        let (_u, _v, _w) = face_axes(face);
        let mut visited = vec![false; width * height * depth];
        assert(visited_upto(visited@, bs, wd, ht, (0, 0, 0)));
        let mut w_i: usize = 0;
        while w_i < width
            invariant
                fi < 6,
                w_i <= width,
                bs == blocks@,
                wd == width,
                ht == height,
                dp == depth,
                chunk_input(bs, wd, ht, dp),
                bs.len() <= usize::MAX,
                face_index(face) == fi,
                (n[0] as int, n[1] as int, n[2] as int) == face_normal(face),
                visited@.len() == wd * ht * dp,
                visited_upto(visited@, bs, wd, ht, (0, 0, w_i as int)),
                quads_upto(qs, bs, wd, ht, dp, (fi as int, 0, 0, w_i as int)),
                vertices@ == mesh_of(qs, bs, wd),
            decreases width - w_i,
        {
            let mut v_i: usize = 0;
            while v_i < height
                invariant
                    fi < 6,
                    w_i < width,
                    v_i <= height,
                    bs == blocks@,
                    wd == width,
                    ht == height,
                    dp == depth,
                    chunk_input(bs, wd, ht, dp),
                    bs.len() <= usize::MAX,
                    face_index(face) == fi,
                    (n[0] as int, n[1] as int, n[2] as int) == face_normal(face),
                    visited@.len() == wd * ht * dp,
                    visited_upto(visited@, bs, wd, ht, (0, v_i as int, w_i as int)),
                    quads_upto(qs, bs, wd, ht, dp, (fi as int, 0, v_i as int, w_i as int)),
                    vertices@ == mesh_of(qs, bs, wd),
                decreases height - v_i,
            {
                let mut u_start: usize = 0;
                while u_start < width
                    invariant
                        fi < 6,
                        w_i < width,
                        v_i < height,
                        u_start <= width,
                        bs == blocks@,
                        wd == width,
                        ht == height,
                        dp == depth,
                        chunk_input(bs, wd, ht, dp),
                        bs.len() <= usize::MAX,
                        face_index(face) == fi,
                        (n[0] as int, n[1] as int, n[2] as int) == face_normal(face),
                        visited@.len() == wd * ht * dp,
                        visited_upto(visited@, bs, wd, ht, (u_start as int, v_i as int, w_i as int)),
                        quads_upto(qs, bs, wd, ht, dp, (fi as int, u_start as int, v_i as int, w_i as int)),
                        vertices@ == mesh_of(qs, bs, wd),
                        u_start < width ==> !continues_run(
                            bs,
                            wd,
                            ht,
                            dp,
                            face,
                            u_start as int,
                            v_i as int,
                            w_i as int,
                        ),
                    decreases width - u_start,
                {
                    let ghost cur = (u_start as int, v_i as int, w_i as int);
                    proof {
                        lemma_cell_index_bound(u_start as int, v_i as int, w_i as int, wd, ht);
                    }
                    let x = pos_for(face, u_start, v_i, w_i, chunk_x, chunk_z);
                    let idx = index(x, v_i, w_i, width, height);
                    let block = blocks[idx];
                    assert(block == block_at(bs, wd, cur.0, cur.1, cur.2));
                    if block == 0 || visited[idx] {
                        assert(block == 0);
                        assert(!starts_quad(bs, wd, ht, dp, face, cur.0, cur.1, cur.2));
                        u_start += 1;
                        proof {
                            assert forall|f: Face, a: int, b: int, c: int|
                                in_scan(a, b, c, wd, ht) && key_before(
                                    (face_index(f), a, b, c),
                                    (fi as int, u_start as int, v_i as int, w_i as int),
                                ) && #[trigger] starts_quad(bs, wd, ht, dp, f, a, b, c) implies has_quad_at(
                                qs,
                                f,
                                a,
                                b,
                                c,
                            ) by {
                                if f == face && (a, b, c) == cur {
                                } else {
                                    assert(key_before(
                                        (face_index(f), a, b, c),
                                        (fi as int, cur.0, v_i as int, w_i as int),
                                    ));
                                }
                            }
                        }
                    } else {
                        // Extend the run along `u` while the block type repeats and
                        // nothing covers it across this face.
                        let mut u_end = u_start + 1;
                        while u_end < width
                            invariant
                                w_i < width,
                                v_i < height,
                                u_start < u_end <= width,
                                bs == blocks@,
                                wd == width,
                                ht == height,
                                dp == depth,
                                chunk_input(bs, wd, ht, dp),
                                bs.len() <= usize::MAX,
                                (n[0] as int, n[1] as int, n[2] as int) == face_normal(face),
                                visited@.len() == wd * ht * dp,
                                visited_upto(visited@, bs, wd, ht, (u_start as int, v_i as int, w_i as int)),
                                block != 0,
                                forall|k: int|
                                    u_start <= k < u_end ==> block_at(bs, wd, k, v_i as int, w_i as int) == block,
                                forall|k: int|
                                    u_start < k < u_end ==> !face_occluded(
                                        bs,
                                        wd,
                                        ht,
                                        dp,
                                        face,
                                        k,
                                        v_i as int,
                                        w_i as int,
                                    ),
                            ensures
                                u_start < u_end <= width,
                                forall|k: int|
                                    u_start <= k < u_end ==> block_at(bs, wd, k, v_i as int, w_i as int) == block,
                                forall|k: int|
                                    u_start < k < u_end ==> !face_occluded(
                                        bs,
                                        wd,
                                        ht,
                                        dp,
                                        face,
                                        k,
                                        v_i as int,
                                        w_i as int,
                                    ),
                                u_end < width ==> (block_at(bs, wd, u_end as int, v_i as int, w_i as int)
                                    != block || face_occluded(
                                    bs,
                                    wd,
                                    ht,
                                    dp,
                                    face,
                                    u_end as int,
                                    v_i as int,
                                    w_i as int,
                                )),
                            decreases width - u_end,
                        {
                            proof {
                                lemma_cell_index_bound(u_end as int, v_i as int, w_i as int, wd, ht);
                            }
                            let x2 = pos_for(face, u_end, v_i, w_i, chunk_x, chunk_z);
                            let idx2 = index(x2, v_i, w_i, width, height);
                            if blocks[idx2] != block || visited[idx2] {
                                break;
                            }
                            // check the neighbour in the normal direction
                            proof {
                                lemma_coords_fit(u_end as int, v_i as int, w_i as int, wd, ht, bs.len() as int);
                                assert(block_at(bs, wd, u_end - 1, v_i as int, w_i as int) == block);
                                let nb = neighbor_of(face, u_end as int, v_i as int, w_i as int);
                                assert(in_chunk(nb.0, nb.1, nb.2, wd, ht, dp) ==> cell_index(nb.0, nb.1, nb.2, wd)
                                    < bs.len());
                            }
                            let nx = x2 as i64 + n[0] as i64;
                            let ny = v_i as i64 + n[1] as i64;
                            let nz = w_i as i64 + n[2] as i64;
                            if neighbor_occludes(blocks, nx, ny, nz, width, height, depth) {
                                break;
                            }
                            u_end += 1;
                        }
                        let mut i = u_start;
                        while i < u_end
                            invariant
                                w_i < width,
                                v_i < height,
                                u_start <= i <= u_end <= width,
                                bs == blocks@,
                                wd == width,
                                ht == height,
                                dp == depth,
                                chunk_input(bs, wd, ht, dp),
                                bs.len() <= usize::MAX,
                                visited@.len() == wd * ht * dp,
                                block != 0,
                                forall|k: int|
                                    u_start <= k < u_end ==> block_at(bs, wd, k, v_i as int, w_i as int) == block,
                                forall|a: int, b: int, c: int|
                                    in_scan(a, b, c, wd, ht) && block_at(bs, wd, a, b, c) != 0
                                        ==> visited@[#[trigger] cell_index(a, b, c, wd)] == (scan_before(
                                        (a, b, c),
                                        (u_start as int, v_i as int, w_i as int),
                                    ) || (b == v_i && c == w_i && u_start <= a < i)),
                            decreases u_end - i,
                        {
                            proof {
                                lemma_cell_index_bound(i as int, v_i as int, w_i as int, wd, ht);
                                lemma_cell_index_distinct((i as int, v_i as int, w_i as int), wd, ht);
                            }
                            assert(block_at(bs, wd, i as int, v_i as int, w_i as int) == block);
                            let xi = pos_for(face, i, v_i, w_i, chunk_x, chunk_z);
                            let ii = index(xi, v_i, w_i, width, height);
                            visited[ii] = true;
                            i += 1;
                        }
                        emit_face(
                            &mut vertices,
                            face,
                            u_start,
                            u_end,
                            v_i,
                            w_i,
                            block,
                            chunk_x,
                            chunk_z,
                            width,
                            height,
                            depth,
                        );
                        proof {
                            let q = Quad { face, u: cur.0, v: cur.1, w: cur.2, end: u_end as int };
                            lemma_mesh_push(qs, q, bs, wd);
                            let old_qs = qs;
                            let next = (fi as int, u_end as int, v_i as int, w_i as int);
                            assert forall|k: int| cur.0 < k < u_end implies #[trigger] continues_run(
                                bs,
                                wd,
                                ht,
                                dp,
                                face,
                                k,
                                cur.1,
                                cur.2,
                            ) by {
                                assert(block_at(bs, wd, k - 1, cur.1, cur.2) == block);
                                assert(block_at(bs, wd, k, cur.1, cur.2) == block);
                            }
                            assert(u_end < width ==> !continues_run(bs, wd, ht, dp, face, u_end as int, cur.1, cur.2))
                                by {
                                if u_end < width {
                                    assert(block_at(bs, wd, u_end - 1, cur.1, cur.2) == block);
                                }
                            }
                            assert(run_quad(q, bs, wd, ht, dp));
                            qs = qs.push(q);
                            assert forall|i: int| 0 <= i < qs.len() implies run_quad(
                                #[trigger] qs[i],
                                bs,
                                wd,
                                ht,
                                dp,
                            ) && key_before(quad_key(qs[i]), next) by {
                                if i < old_qs.len() {
                                    assert(qs[i] == old_qs[i]);
                                }
                            }
                            assert forall|i: int, j: int| 0 <= i < j < qs.len() implies key_before(
                                quad_key(qs[i]),
                                quad_key(qs[j]),
                            ) by {
                                assert(qs[i] == old_qs[i]);
                                if j < old_qs.len() {
                                    assert(qs[j] == old_qs[j]);
                                }
                            }
                            assert forall|f: Face, a: int, b: int, c: int|
                                in_scan(a, b, c, wd, ht) && key_before((face_index(f), a, b, c), next)
                                    && #[trigger] starts_quad(bs, wd, ht, dp, f, a, b, c) implies has_quad_at(
                                qs,
                                f,
                                a,
                                b,
                                c,
                            ) by {
                                if key_before((face_index(f), a, b, c), (fi as int, cur.0, cur.1, cur.2)) {
                                    assert(has_quad_at(old_qs, f, a, b, c));
                                    let k = choose|k: int|
                                        0 <= k < old_qs.len() && #[trigger] old_qs[k].face == f && old_qs[k].u
                                            == a && old_qs[k].v == b && old_qs[k].w == c;
                                    assert(qs[k] == old_qs[k]);
                                } else {
                                    assert(face_index(f) == fi);
                                    assert(f == face);
                                    if a == cur.0 {
                                        assert(qs[qs.len() - 1] == q);
                                    } else {
                                        assert(continues_run(bs, wd, ht, dp, face, a, b, c));
                                    }
                                }
                            }
                            assert(quads_upto(qs, bs, wd, ht, dp, next));
                        }
                        u_start = u_end;
                    }
                }
                proof {
                    lemma_same_key(
                        qs,
                        bs,
                        wd,
                        ht,
                        dp,
                        (fi as int, wd, v_i as int, w_i as int),
                        (fi as int, 0, v_i as int + 1, w_i as int),
                    );
                }
                v_i += 1;
            }
            proof {
                lemma_same_key(
                    qs,
                    bs,
                    wd,
                    ht,
                    dp,
                    (fi as int, 0, ht, w_i as int),
                    (fi as int, 0, 0, w_i as int + 1),
                );
            }
            w_i += 1;
        }
        proof {
            lemma_same_key(qs, bs, wd, ht, dp, (fi as int, 0, 0, wd), (fi as int + 1, 0, 0, 0));
        }
        fi += 1;
    }
    proof {
        lemma_same_key(qs, bs, wd, ht, dp, (6, 0, 0, 0), (7, 0, 0, 0));
    }
    assert(greedy_quads(qs, bs, wd, ht, dp));
    vertices
}

// ---- Laws of the mesh ----

/// Every quad is drawn as two triangles: six vertices per quad.
pub proof fn lemma_mesh_len(qs: Seq<Quad>, blocks: Seq<u8>, width: int)
    ensures
        mesh_of(qs, blocks, width).len() == 6 * qs.len(),
    decreases qs.len(),
{
    if qs.len() > 0 {
        lemma_mesh_len(qs.drop_last(), blocks, width);
    }
}

/// A run of one block type along a row, uncovered across `face` past its first
/// block, is drawn in that face's pass as a single quad: no block after the first
/// starts one.
pub proof fn lemma_run_merges(
    blocks: Seq<u8>,
    width: int,
    height: int,
    depth: int,
    face: Face,
    start: int,
    end: int,
    v: int,
    w: int,
)
    requires
        0 <= start < end <= width,
        block_at(blocks, width, start, v, w) != 0,
        forall|k: int| start <= k < end ==> #[trigger] block_at(blocks, width, k, v, w) == block_at(
            blocks,
            width,
            start,
            v,
            w,
        ),
        forall|k: int|
            start < k < end ==> !#[trigger] face_occluded(blocks, width, height, depth, face, k, v, w),
    ensures
        forall|k: int|
            start < k < end ==> !#[trigger] starts_quad(blocks, width, height, depth, face, k, v, w),
{
    assert forall|k: int| start < k < end implies !#[trigger] starts_quad(
        blocks,
        width,
        height,
        depth,
        face,
        k,
        v,
        w,
    ) by {
        assert(block_at(blocks, width, k - 1, v, w) == block_at(blocks, width, start, v, w));
        assert(block_at(blocks, width, k, v, w) == block_at(blocks, width, start, v, w));
        assert(!face_occluded(blocks, width, height, depth, face, k, v, w));
    }
}

/// A run has one end: two quads of the same face and first block are the same quad.
proof fn lemma_run_end_unique(q1: Quad, q2: Quad, blocks: Seq<u8>, width: int, height: int, depth: int)
    requires
        run_quad(q1, blocks, width, height, depth),
        run_quad(q2, blocks, width, height, depth),
        q1.face == q2.face,
        q1.u == q2.u,
        q1.v == q2.v,
        q1.w == q2.w,
    ensures
        q1 == q2,
{
    if q1.end < q2.end {
        assert(continues_run(blocks, width, height, depth, q2.face, q1.end, q2.v, q2.w));
    } else if q2.end < q1.end {
        assert(continues_run(blocks, width, height, depth, q1.face, q2.end, q1.v, q1.w));
    }
}

proof fn lemma_sorted_same_elements(a: Seq<Quad>, b: Seq<Quad>)
    requires
        forall|i: int, j: int| 0 <= i < j < a.len() ==> key_before(quad_key(a[i]), quad_key(a[j])),
        forall|i: int, j: int| 0 <= i < j < b.len() ==> key_before(quad_key(b[i]), quad_key(b[j])),
        forall|x: Quad| a.contains(x) <==> b.contains(x),
    ensures
        a == b,
    decreases a.len(),
{
    if a.len() == 0 {
        if b.len() > 0 {
            assert(b.contains(b[0]));
        }
        assert(a =~= b);
    } else if b.len() == 0 {
        assert(a.contains(a[0]));
    } else {
        assert(b.contains(a[0]));
        assert(a.contains(b[0]));
        let j = choose|j: int| 0 <= j < b.len() && b[j] == a[0];
        let i = choose|i: int| 0 <= i < a.len() && a[i] == b[0];
        if i > 0 {
            assert(key_before(quad_key(a[0]), quad_key(a[i])));
            if j > 0 {
                assert(key_before(quad_key(b[0]), quad_key(b[j])));
            }
        }
        if j > 0 {
            assert(key_before(quad_key(b[0]), quad_key(b[j])));
        }
        assert(a[0] == b[0]);
        let a2 = a.drop_first();
        let b2 = b.drop_first();
        assert forall|x: Quad| a2.contains(x) implies b2.contains(x) by {
            let k = choose|k: int| 0 <= k < a2.len() && a2[k] == x;
            assert(a[k + 1] == x);
            assert(key_before(quad_key(a[0]), quad_key(a[k + 1])));
            assert(b.contains(x));
            let m = choose|m: int| 0 <= m < b.len() && b[m] == x;
            assert(m != 0);
            assert(b2[m - 1] == x);
        }
        assert forall|x: Quad| b2.contains(x) implies a2.contains(x) by {
            let k = choose|k: int| 0 <= k < b2.len() && b2[k] == x;
            assert(b[k + 1] == x);
            assert(key_before(quad_key(b[0]), quad_key(b[k + 1])));
            assert(a.contains(x));
            let m = choose|m: int| 0 <= m < a.len() && a[m] == x;
            assert(m != 0);
            assert(a2[m - 1] == x);
        }
        assert forall|i: int, j: int| 0 <= i < j < a2.len() implies key_before(
            quad_key(a2[i]),
            quad_key(a2[j]),
        ) by {
            assert(key_before(quad_key(a[i + 1]), quad_key(a[j + 1])));
        }
        assert forall|i: int, j: int| 0 <= i < j < b2.len() implies key_before(
            quad_key(b2[i]),
            quad_key(b2[j]),
        ) by {
            assert(key_before(quad_key(b[i + 1]), quad_key(b[j + 1])));
        }
        lemma_sorted_same_elements(a2, b2);
        assert(a =~= b) by {
            assert forall|k: int| 0 <= k < a.len() implies a[k] == b[k] by {
                if k > 0 {
                    assert(a[k] == a2[k - 1]);
                    assert(b[k] == b2[k - 1]);
                }
            }
        }
    }
}

/// The quads of a chunk are determined: two sequences that both list the runs
/// of every face pass in order are the same sequence, so the mesh that
/// `build_chunk_mesh` returns is the only one its contract admits.
pub proof fn lemma_greedy_quads_unique(
    qs1: Seq<Quad>,
    qs2: Seq<Quad>,
    blocks: Seq<u8>,
    width: int,
    height: int,
    depth: int,
)
    requires
        greedy_quads(qs1, blocks, width, height, depth),
        greedy_quads(qs2, blocks, width, height, depth),
    ensures
        qs1 == qs2,
{
    assert forall|x: Quad| qs1.contains(x) implies qs2.contains(x) by {
        let k = choose|k: int| 0 <= k < qs1.len() && qs1[k] == x;
        assert(run_quad(qs1[k], blocks, width, height, depth));
        assert(starts_quad(blocks, width, height, depth, x.face, x.u, x.v, x.w));
        assert(has_quad_at(qs2, x.face, x.u, x.v, x.w));
        let m = choose|m: int|
            0 <= m < qs2.len() && #[trigger] qs2[m].face == x.face && qs2[m].u == x.u && qs2[m].v == x.v
                && qs2[m].w == x.w;
        assert(run_quad(qs2[m], blocks, width, height, depth));
        lemma_run_end_unique(x, qs2[m], blocks, width, height, depth);
    }
    assert forall|x: Quad| qs2.contains(x) implies qs1.contains(x) by {
        let k = choose|k: int| 0 <= k < qs2.len() && qs2[k] == x;
        assert(run_quad(qs2[k], blocks, width, height, depth));
        assert(starts_quad(blocks, width, height, depth, x.face, x.u, x.v, x.w));
        assert(has_quad_at(qs1, x.face, x.u, x.v, x.w));
        let m = choose|m: int|
            0 <= m < qs1.len() && #[trigger] qs1[m].face == x.face && qs1[m].u == x.u && qs1[m].v == x.v
                && qs1[m].w == x.w;
        assert(run_quad(qs1[m], blocks, width, height, depth));
        lemma_run_end_unique(x, qs1[m], blocks, width, height, depth);
    }
    lemma_sorted_same_elements(qs1, qs2);
}

/// Each solid block lies in a run of every face pass: some block at or left of
/// it in its row starts a quad of that face.
proof fn lemma_run_start_left(
    blocks: Seq<u8>,
    width: int,
    height: int,
    depth: int,
    face: Face,
    u: int,
    v: int,
    w: int,
)
    requires
        in_scan(u, v, w, width, height),
        block_at(blocks, width, u, v, w) != 0,
    ensures
        exists|s: int| 0 <= s <= u && #[trigger] starts_quad(blocks, width, height, depth, face, s, v, w),
    decreases u,
{
    if starts_quad(blocks, width, height, depth, face, u, v, w) {
    } else {
        lemma_run_start_left(blocks, width, height, depth, face, u - 1, v, w);
    }
}

/// The mesh is empty exactly when every scanned block is air.
pub proof fn lemma_mesh_empty_iff_air(qs: Seq<Quad>, blocks: Seq<u8>, width: int, height: int, depth: int)
    requires
        greedy_quads(qs, blocks, width, height, depth),
    ensures
        (mesh_of(qs, blocks, width).len() == 0) <==> (forall|u: int, v: int, w: int|
            in_scan(u, v, w, width, height) ==> #[trigger] block_at(blocks, width, u, v, w) == 0),
{
    lemma_mesh_len(qs, blocks, width);
    if qs.len() > 0 {
        assert(run_quad(qs[0], blocks, width, height, depth));
        assert(block_at(blocks, width, qs[0].u, qs[0].v, qs[0].w) != 0);
    } else {
        assert forall|u: int, v: int, w: int|
            in_scan(u, v, w, width, height) implies #[trigger] block_at(blocks, width, u, v, w) == 0 by {
            if block_at(blocks, width, u, v, w) != 0 {
                lemma_run_start_left(blocks, width, height, depth, Face::Up, u, v, w);
                let s = choose|s: int| 0 <= s <= u && #[trigger] starts_quad(blocks, width, height, depth, Face::Up, s, v, w);
                assert(has_quad_at(qs, Face::Up, s, v, w));
            }
        }
    }
}

/// The positions of the solid blocks in the flat block array.
pub open spec fn solid_cells(blocks: Seq<u8>) -> Set<int> {
    Set::new(|i: int| 0 <= i < blocks.len() && blocks[i] != 0)
}

/// The face of a quad and the position of its first block in the array.
spec fn quad_slot(q: Quad, width: int) -> (Face, int) {
    (q.face, cell_index(q.u, q.v, q.w, width))
}

/// The slots of one face over a set of block positions.
spec fn face_slots(cells: Set<int>, face: Face) -> Set<(Face, int)> {
    cells.map(|i: int| (face, i))
}

proof fn lemma_face_slots_len(cells: Set<int>, face: Face)
    requires
        cells.finite(),
    ensures
        face_slots(cells, face).finite(),
        face_slots(cells, face).len() <= cells.len(),
{
    vstd::set_lib::lemma_map_size_bound(cells, face_slots(cells, face), |i: int| (face, i));
}

/// Each solid block starts at most one quad in each of the six face passes, and
/// air starts none: the mesh holds at most 36 vertices per solid block.
pub proof fn lemma_mesh_at_most_six_faces_per_block(
    qs: Seq<Quad>,
    blocks: Seq<u8>,
    width: int,
    height: int,
    depth: int,
)
    requires
        chunk_input(blocks, width, height, depth),
        greedy_quads(qs, blocks, width, height, depth),
    ensures
        mesh_of(qs, blocks, width).len() <= 36 * solid_cells(blocks).len(),
{
    lemma_mesh_len(qs, blocks, width);
    assert(qs.no_duplicates()) by {
        assert forall|i: int, j: int| 0 <= i < qs.len() && 0 <= j < qs.len() && i != j implies qs[i]
            != qs[j] by {
            if i < j {
                assert(key_before(quad_key(qs[i]), quad_key(qs[j])));
            } else {
                assert(key_before(quad_key(qs[j]), quad_key(qs[i])));
            }
        }
    }
    qs.unique_seq_to_set();
    let quads = qs.to_set();
    let slot = |q: Quad| quad_slot(q, width);
    let slots = quads.map(slot);
    assert(vstd::relations::injective_on(slot, quads)) by {
        assert forall|a: Quad, b: Quad|
            quads.contains(a) && quads.contains(b) && #[trigger] slot(a) == #[trigger] slot(b) implies a == b by {
            let i = choose|i: int| 0 <= i < qs.len() && qs[i] == a;
            let j = choose|j: int| 0 <= j < qs.len() && qs[j] == b;
            assert(run_quad(qs[i], blocks, width, height, depth));
            assert(run_quad(qs[j], blocks, width, height, depth));
            lemma_cell_index_injective((a.u, a.v, a.w), (b.u, b.v, b.w), width, height);
            if i < j {
                assert(key_before(quad_key(qs[i]), quad_key(qs[j])));
            } else if j < i {
                assert(key_before(quad_key(qs[j]), quad_key(qs[i])));
            }
        }
    }
    vstd::seq_lib::seq_to_set_is_finite(qs);
    vstd::set_lib::lemma_map_size(quads, slots, slot);

    let cells = solid_cells(blocks);
    vstd::set_lib::lemma_int_range(0, blocks.len() as int);
    vstd::set_lib::lemma_len_subset(cells, vstd::set_lib::set_int_range(0, blocks.len() as int));
    let up = face_slots(cells, Face::Up);
    let down = face_slots(cells, Face::Down);
    let north = face_slots(cells, Face::North);
    let south = face_slots(cells, Face::South);
    let east = face_slots(cells, Face::East);
    let west = face_slots(cells, Face::West);
    lemma_face_slots_len(cells, Face::Up);
    lemma_face_slots_len(cells, Face::Down);
    lemma_face_slots_len(cells, Face::North);
    lemma_face_slots_len(cells, Face::South);
    lemma_face_slots_len(cells, Face::East);
    lemma_face_slots_len(cells, Face::West);
    let all = up.union(down).union(north).union(south).union(east).union(west);
    vstd::set_lib::lemma_len_union(up, down);
    vstd::set_lib::lemma_len_union(up.union(down), north);
    vstd::set_lib::lemma_len_union(up.union(down).union(north), south);
    vstd::set_lib::lemma_len_union(up.union(down).union(north).union(south), east);
    vstd::set_lib::lemma_len_union(up.union(down).union(north).union(south).union(east), west);
    assert(slots.subset_of(all)) by {
        assert forall|x: (Face, int)| slots.contains(x) implies all.contains(x) by {
            let q = choose|q: Quad| quads.contains(q) && slot(q) == x;
            let i = choose|i: int| 0 <= i < qs.len() && qs[i] == q;
            assert(run_quad(qs[i], blocks, width, height, depth));
            lemma_cell_index_bound(q.u, q.v, q.w, width, height);
            assert(cells.contains(x.1));
            let f = |c: int| (q.face, c);
            assert(f(x.1) == x);
            match q.face {
                Face::Up => assert(up.contains(x)),
                Face::Down => assert(down.contains(x)),
                Face::North => assert(north.contains(x)),
                Face::South => assert(south.contains(x)),
                Face::East => assert(east.contains(x)),
                Face::West => assert(west.contains(x)),
            }
        }
    }
    vstd::set_lib::lemma_len_subset(slots, all);
}

/// The cell `(x, y, z)` lies in the chunk and holds a solid block.
pub open spec fn solid_cell(blocks: Seq<u8>, width: int, height: int, depth: int, x: int, y: int, z: int) -> bool {
    0 <= x < width && 0 <= y < height && 0 <= z < depth && blocks[x + z * width + y * width * width] != 0
}

/// A face is covered by the solid block next to it on that side: above for Up,
/// below for Down, at `z - 1` for North, at `z + 1` for South, at `x + 1` for
/// East and at `x - 1` for West. A run of a face pass never continues into a
/// block covered on that face.
pub proof fn lemma_covered_face_breaks_run(
    blocks: Seq<u8>,
    width: int,
    height: int,
    depth: int,
    face: Face,
    u: int,
    v: int,
    w: int,
)
    ensures
        face == Face::Up ==> (face_occluded(blocks, width, height, depth, face, u, v, w) == solid_cell(
            blocks, width, height, depth, u, v + 1, w)),
        face == Face::Down ==> (face_occluded(blocks, width, height, depth, face, u, v, w) == solid_cell(
            blocks, width, height, depth, u, v - 1, w)),
        face == Face::North ==> (face_occluded(blocks, width, height, depth, face, u, v, w) == solid_cell(
            blocks, width, height, depth, u, v, w - 1)),
        face == Face::South ==> (face_occluded(blocks, width, height, depth, face, u, v, w) == solid_cell(
            blocks, width, height, depth, u, v, w + 1)),
        face == Face::East ==> (face_occluded(blocks, width, height, depth, face, u, v, w) == solid_cell(
            blocks, width, height, depth, u + 1, v, w)),
        face == Face::West ==> (face_occluded(blocks, width, height, depth, face, u, v, w) == solid_cell(
            blocks, width, height, depth, u - 1, v, w)),
        face == Face::North && solid_cell(blocks, width, height, depth, u, v, w - 1) ==> !continues_run(
            blocks, width, height, depth, face, u, v, w),
        face == Face::South && solid_cell(blocks, width, height, depth, u, v, w + 1) ==> !continues_run(
            blocks, width, height, depth, face, u, v, w),
        face == Face::Up && solid_cell(blocks, width, height, depth, u, v + 1, w) ==> !continues_run(
            blocks, width, height, depth, face, u, v, w),
        face == Face::Down && solid_cell(blocks, width, height, depth, u, v - 1, w) ==> !continues_run(
            blocks, width, height, depth, face, u, v, w),
        face == Face::East && solid_cell(blocks, width, height, depth, u + 1, v, w) ==> !continues_run(
            blocks, width, height, depth, face, u, v, w),
        face == Face::West && solid_cell(blocks, width, height, depth, u - 1, v, w) ==> !continues_run(
            blocks, width, height, depth, face, u, v, w),
{
}

/// `p` is a corner of the rectangle that `face` of the blocks `x0..x1` (row `y`,
/// depth `z`) covers: it lies on the face's side of the blocks, at an end of each
/// of the other two extents.
pub open spec fn is_face_corner(face: Face, x0: int, x1: int, y: int, z: int, p: (int, int, int)) -> bool {
    let xs = p.0 == x0 || p.0 == x1;
    let ys = p.1 == y || p.1 == y + 1;
    let zs = p.2 == z || p.2 == z + 1;
    match face {
        Face::Up => p.1 == y + 1 && xs && zs,
        Face::Down => p.1 == y && xs && zs,
        Face::North => p.2 == z && xs && ys,
        Face::South => p.2 == z + 1 && xs && ys,
        Face::East => p.0 == x1 && ys && zs,
        Face::West => p.0 == x0 && ys && zs,
    }
}

/// Number of coordinates in which two points differ.
pub open spec fn coords_apart(a: (int, int, int), b: (int, int, int)) -> int {
    (if a.0 != b.0 { 1int } else { 0 }) + (if a.1 != b.1 { 1int } else { 0 }) + (if a.2 != b.2 { 1int } else { 0 })
}

/// The four corners of a quad are the four distinct corners of its face's
/// rectangle, taken around its edge (each next corner one side away, corners 0
/// and 2 opposite), so the two triangles 0-1-2 and 0-2-3 cover the rectangle.
/// Every vertex sits on one of them, with full light and the block's tile in a
/// row of 16.
pub proof fn lemma_quad_covers_face(face: Face, x0: int, x1: int, y: int, z: int, block: u8, j: int)
    requires
        0 <= x0 < x1 <= usize::MAX,
        0 <= y < usize::MAX,
        0 <= z < usize::MAX,
        0 <= j < 6,
    ensures
        forall|k: int| 0 <= k < 4 ==> is_face_corner(face, x0, x1, y, z, #[trigger] quad_corner(face, x0, x1, y, z, k)),
        forall|k: int, m: int|
            0 <= k < m < 4 ==> #[trigger] quad_corner(face, x0, x1, y, z, k) != #[trigger] quad_corner(face, x0, x1, y, z, m),
        forall|k: int|
            0 <= k < 4 ==> coords_apart(#[trigger] quad_corner(face, x0, x1, y, z, k), quad_corner(face, x0, x1, y, z, (k + 1) % 4)) == 1,
        coords_apart(quad_corner(face, x0, x1, y, z, 0), quad_corner(face, x0, x1, y, z, 2)) == 2,
        tri_corner(0) != tri_corner(1) && tri_corner(1) != tri_corner(2) && tri_corner(0) != tri_corner(2),
        tri_corner(3) != tri_corner(4) && tri_corner(4) != tri_corner(5) && tri_corner(3) != tri_corner(5),
        exists|i: int| 0 <= i < 6 && #[trigger] tri_corner(i) == 0,
        exists|i: int| 0 <= i < 6 && #[trigger] tri_corner(i) == 1,
        exists|i: int| 0 <= i < 6 && #[trigger] tri_corner(i) == 2,
        exists|i: int| 0 <= i < 6 && #[trigger] tri_corner(i) == 3,
        ({
            let v = face_vertex(face, x0, x1, y, z, block, j);
            &&& 0 <= v.corner < 4
            &&& (v.x as int, v.y as int, v.z as int) == quad_corner(face, x0, x1, y, z, v.corner as int)
            &&& v.light == 255
            &&& v.block == block
            &&& v.tex_page < 16
            &&& (block - v.tex_page) % 16 == 0
        }),
{
    assert forall|k: int| 0 <= k < 4 implies coords_apart(#[trigger] quad_corner(face, x0, x1, y, z, k), quad_corner(face, x0, x1, y, z, (k + 1) % 4)) == 1 by {
        if k == 3 {
            assert((k + 1) % 4 == 0);
        } else {
            assert((k + 1) % 4 == k + 1);
        }
    }
    assert(tri_corner(0) == 0 && tri_corner(1) == 1 && tri_corner(2) == 2 && tri_corner(5) == 3);
    let k = tri_corner(j);
    assert(0 <= k < 4);
    let p = quad_corner(face, x0, x1, y, z, k);
    assert(0 <= p.0 <= usize::MAX && 0 <= p.1 <= usize::MAX && 0 <= p.2 <= usize::MAX);
}

proof fn lemma_run_same_type_upto(q: Quad, blocks: Seq<u8>, width: int, height: int, depth: int, k: int)
    requires
        run_quad(q, blocks, width, height, depth),
        q.u <= k < q.end,
    ensures
        blocks[k + q.w * width + q.v * width * width] == blocks[q.u + q.w * width + q.v * width * width],
    decreases k - q.u,
{
    if k > q.u {
        assert(continues_run(blocks, width, height, depth, q.face, k, q.v, q.w));
        lemma_run_same_type_upto(q, blocks, width, height, depth, k - 1);
    }
}

/// A quad covers solid blocks of one type only, none of them covered on its face
/// past the first, and starts where the row does not merge into it from the left:
/// at the row's start, after air or another block type, or at a block covered on
/// that face.
pub proof fn lemma_quad_is_one_block_type(q: Quad, blocks: Seq<u8>, width: int, height: int, depth: int, k: int)
    requires
        run_quad(q, blocks, width, height, depth),
    ensures
        blocks[q.u + q.w * width + q.v * width * width] != 0,
        q.u <= k < q.end ==> blocks[k + q.w * width + q.v * width * width] == blocks[q.u + q.w * width + q.v * width
            * width],
        q.u < k < q.end ==> !face_occluded(blocks, width, height, depth, q.face, k, q.v, q.w),
        q.u == 0 || blocks[q.u - 1 + q.w * width + q.v * width * width] != blocks[q.u + q.w * width + q.v * width
            * width] || face_occluded(blocks, width, height, depth, q.face, q.u, q.v, q.w),
{
    if q.u <= k < q.end {
        lemma_run_same_type_upto(q, blocks, width, height, depth, k);
    }
    if q.u < k < q.end {
        assert(continues_run(blocks, width, height, depth, q.face, k, q.v, q.w));
    }
    assert(!continues_run(blocks, width, height, depth, q.face, q.u, q.v, q.w));
}

} // verus!
