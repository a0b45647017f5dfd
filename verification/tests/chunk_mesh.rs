use wsarndr::world::chunk::{
    build_chunk_mesh, emit_face, face_axes, index, neighbor_occludes, pos_for, Face, MeshVertex,
};

fn vertex(x: usize, y: usize, z: usize, corner: usize, block: u8) -> MeshVertex {
    MeshVertex { x, y, z, corner, tex_page: (block % 16) as u32, block, light: 255 }
}

/// The six vertices of `face` of the run of blocks x0..x1 at height y, depth z.
fn face_quad(face: Face, x0: usize, x1: usize, y: usize, z: usize, block: u8) -> Vec<MeshVertex> {
    let corners = match face {
        Face::Up => [(x0, y + 1, z), (x1, y + 1, z), (x1, y + 1, z + 1), (x0, y + 1, z + 1)],
        Face::Down => [(x0, y, z), (x1, y, z), (x1, y, z + 1), (x0, y, z + 1)],
        Face::North => [(x0, y, z), (x1, y, z), (x1, y + 1, z), (x0, y + 1, z)],
        Face::South => [(x0, y, z + 1), (x1, y, z + 1), (x1, y + 1, z + 1), (x0, y + 1, z + 1)],
        Face::East => [(x1, y, z), (x1, y, z + 1), (x1, y + 1, z + 1), (x1, y + 1, z)],
        Face::West => [(x0, y, z), (x0, y, z + 1), (x0, y + 1, z + 1), (x0, y + 1, z)],
    };
    [0usize, 1, 2, 0, 2, 3]
        .iter()
        .map(|&k| vertex(corners[k].0, corners[k].1, corners[k].2, k, block))
        .collect()
}

fn top_face(u: usize, v: usize, w: usize, block: u8) -> Vec<MeshVertex> {
    face_quad(Face::Up, u, u + 1, v, w, block)
}

fn quads(list: &[(Face, usize, usize, usize, usize, u8)]) -> Vec<MeshVertex> {
    list.iter().flat_map(|&(f, x0, x1, y, z, b)| face_quad(f, x0, x1, y, z, b)).collect()
}

#[test]
fn normals_are_unit_axes() {
    assert_eq!(Face::Up.normal(), [0, 1, 0]);
    assert_eq!(Face::Down.normal(), [0, -1, 0]);
    assert_eq!(Face::North.normal(), [0, 0, -1]);
    assert_eq!(Face::South.normal(), [0, 0, 1]);
    assert_eq!(Face::East.normal(), [1, 0, 0]);
    assert_eq!(Face::West.normal(), [-1, 0, 0]);
}

#[test]
fn all_faces_in_order() {
    assert_eq!(
        Face::ALL,
        [Face::Up, Face::Down, Face::North, Face::South, Face::East, Face::West]
    );
}

#[test]
fn index_is_row_major() {
    // x + z * width + y * width * width
    assert_eq!(index(0, 0, 0, 4, 3), 0);
    assert_eq!(index(3, 0, 0, 4, 3), 3);
    assert_eq!(index(1, 0, 2, 4, 3), 9);
    assert_eq!(index(1, 2, 2, 4, 3), 41);
}

#[test]
fn scan_helpers() {
    assert_eq!(pos_for(Face::East, 7, 1, 2, 5, -3), 7);
    assert_eq!(face_axes(Face::Up), (0, 1, 2));
    assert_eq!(face_axes(Face::West), (0, 1, 2));
}

#[test]
fn neighbour_outside_never_occludes() {
    let blocks = vec![1u8; 8];
    assert!(!neighbor_occludes(&blocks, -1, 0, 0, 2, 2, 2));
    assert!(!neighbor_occludes(&blocks, 0, 2, 0, 2, 2, 2));
    assert!(!neighbor_occludes(&blocks, 0, 0, 2, 2, 2, 2));
    assert!(neighbor_occludes(&blocks, 1, 1, 1, 2, 2, 2));
    let mut holes = blocks.clone();
    holes[index(1, 1, 1, 2, 2)] = 0;
    assert!(!neighbor_occludes(&holes, 1, 1, 1, 2, 2, 2));
}

#[test]
fn emit_face_writes_two_triangles() {
    let mut v = Vec::new();
    emit_face(&mut v, Face::Up, 1, 2, 2, 3, 17, 0, 0, 4, 4, 4);
    assert_eq!(v, top_face(1, 2, 3, 17));
    assert_eq!(v[0].tex_page, 1);

    let mut e = Vec::new();
    emit_face(&mut e, Face::East, 0, 1, 0, 0, 2, 0, 0, 1, 1, 1);
    let pos: Vec<(usize, usize, usize)> = e.iter().map(|p| (p.x, p.y, p.z)).collect();
    assert_eq!(
        pos,
        vec![(1, 0, 0), (1, 0, 1), (1, 1, 1), (1, 0, 0), (1, 1, 1), (1, 1, 0)]
    );
    let corners: Vec<usize> = e.iter().map(|p| p.corner).collect();
    assert_eq!(corners, vec![0, 1, 2, 0, 2, 3]);
}

#[test]
fn emit_face_covers_the_whole_run() {
    let mut v = Vec::new();
    emit_face(&mut v, Face::Up, 1, 4, 0, 2, 3, 0, 0, 5, 1, 5);
    let pos: Vec<(usize, usize, usize)> = v.iter().map(|p| (p.x, p.y, p.z)).collect();
    assert_eq!(
        pos,
        vec![(1, 1, 2), (4, 1, 2), (4, 1, 3), (1, 1, 2), (4, 1, 3), (1, 1, 3)]
    );
    let mut e = Vec::new();
    emit_face(&mut e, Face::East, 1, 4, 0, 2, 3, 0, 0, 5, 1, 5);
    assert!(e.iter().all(|p| p.x == 4));
    let mut w = Vec::new();
    emit_face(&mut w, Face::West, 1, 4, 0, 2, 3, 0, 0, 5, 1, 5);
    assert!(w.iter().all(|p| p.x == 1));
}

#[test]
fn empty_chunk_has_no_mesh() {
    let blocks = vec![0u8; 27];
    assert!(build_chunk_mesh(&blocks, 3, 3, 3, 0, 0).is_empty());
    assert!(build_chunk_mesh(&[], 0, 0, 0, 0, 0).is_empty());
}

#[test]
fn single_block_has_all_six_faces() {
    let mesh = build_chunk_mesh(&[5], 1, 1, 1, 0, 0);
    assert_eq!(mesh.len(), 36);
    let want: Vec<MeshVertex> = Face::ALL.iter().flat_map(|&f| face_quad(f, 0, 1, 0, 0, 5)).collect();
    assert_eq!(mesh, want);
}

#[test]
fn equal_run_merges_per_face() {
    // width 3, height 1: row w = 0 holds 4 4 4; other rows empty.
    let mut blocks = vec![0u8; 9];
    for u in 0..3 {
        blocks[index(u, 0, 0, 3, 1)] = 4;
    }
    let mesh = build_chunk_mesh(&blocks, 3, 1, 3, 0, 0);
    let want = quads(&[
        (Face::Up, 0, 3, 0, 0, 4),
        (Face::Down, 0, 3, 0, 0, 4),
        (Face::North, 0, 3, 0, 0, 4),
        (Face::South, 0, 3, 0, 0, 4),
        // east of block 1 lies block 2: the run breaks there
        (Face::East, 0, 1, 0, 0, 4),
        (Face::East, 1, 3, 0, 0, 4),
        // west of blocks 1 and 2 lie blocks 0 and 1
        (Face::West, 0, 1, 0, 0, 4),
        (Face::West, 1, 2, 0, 0, 4),
        (Face::West, 2, 3, 0, 0, 4),
    ]);
    assert_eq!(mesh, want);
}

#[test]
fn two_block_run_is_one_quad_per_open_face() {
    // a 2 x 1 x 2 chunk with blocks [1, 1, 0, 0]
    let mesh = build_chunk_mesh(&[1, 1, 0, 0], 2, 1, 2, 0, 0);
    let want = quads(&[
        (Face::Up, 0, 2, 0, 0, 1),
        (Face::Down, 0, 2, 0, 0, 1),
        (Face::North, 0, 2, 0, 0, 1),
        (Face::South, 0, 2, 0, 0, 1),
        (Face::East, 0, 2, 0, 0, 1),
        (Face::West, 0, 1, 0, 0, 1),
        (Face::West, 1, 2, 0, 0, 1),
    ]);
    assert_eq!(mesh, want);
    assert_eq!(mesh[1].x, 2);
}

#[test]
fn different_blocks_start_new_quads() {
    let mut blocks = vec![0u8; 9];
    blocks[index(0, 0, 0, 3, 1)] = 1;
    blocks[index(1, 0, 0, 3, 1)] = 1;
    blocks[index(2, 0, 0, 3, 1)] = 2;
    blocks[index(1, 0, 2, 3, 1)] = 7;
    let mesh = build_chunk_mesh(&blocks, 3, 1, 3, 0, 0);
    let up = quads(&[(Face::Up, 0, 2, 0, 0, 1), (Face::Up, 2, 3, 0, 0, 2), (Face::Up, 1, 2, 0, 2, 7)]);
    assert_eq!(mesh[..18].to_vec(), up);
    // Up, Down, North, South: 3 quads each; East, West: 4 each
    assert_eq!(mesh.len(), 6 * 20);
}

#[test]
fn covered_block_breaks_a_run() {
    // width 3, height 2: bottom row 3 3 3, a block above the middle one.
    let mut blocks = vec![0u8; 18];
    for u in 0..3 {
        blocks[index(u, 0, 0, 3, 2)] = 3;
    }
    blocks[index(1, 1, 0, 3, 2)] = 9;
    let mesh = build_chunk_mesh(&blocks, 3, 2, 3, 0, 0);
    // (1,0,0) is covered from above: it starts a new top run that takes in (2,0,0);
    // the block above is scanned after the bottom layer of row 0.
    let up = quads(&[(Face::Up, 0, 1, 0, 0, 3), (Face::Up, 1, 3, 0, 0, 3), (Face::Up, 1, 2, 1, 0, 9)]);
    assert_eq!(mesh[..18].to_vec(), up);
}

#[test]
fn scan_order_is_face_then_w_then_v_then_u() {
    // width 2, height 2, depth 2: one block in each of two rows.
    let mut blocks = vec![0u8; 8];
    blocks[index(1, 1, 0, 2, 2)] = 1; // w = 0, v = 1
    blocks[index(0, 0, 1, 2, 2)] = 2; // w = 1, v = 0
    let mesh = build_chunk_mesh(&blocks, 2, 2, 2, 0, 0);
    let mut want = Vec::new();
    for f in Face::ALL {
        want.extend(face_quad(f, 1, 2, 1, 0, 1));
        want.extend(face_quad(f, 0, 1, 0, 1, 2));
    }
    assert_eq!(mesh, want);
}

#[test]
fn shallow_chunk_with_empty_far_rows() {
    // depth 1 < width 2: rows w = 1 lie outside the mark grid and hold no blocks.
    let mut blocks = vec![0u8; 4];
    blocks[index(0, 0, 0, 2, 1)] = 6;
    blocks[index(1, 0, 0, 2, 1)] = 6;
    let mesh = build_chunk_mesh(&blocks, 2, 1, 1, 0, 0);
    assert_eq!(mesh[..6].to_vec(), face_quad(Face::Up, 0, 2, 0, 0, 6));
    assert_eq!(mesh.len(), 6 * 7);
}

#[test]
fn thin_and_flat_chunks() {
    // one block wide: no runs to merge, every solid block gets six faces
    let mesh = build_chunk_mesh(&[1, 0, 2], 1, 3, 1, 0, 0);
    assert_eq!(mesh.len(), 2 * 36);
    // no height: nothing to scan, whatever the width
    assert!(build_chunk_mesh(&[], 1000, 0, 7, 0, 0).is_empty());
}

#[test]
fn chunk_offset_does_not_move_the_mesh() {
    let blocks: Vec<u8> = (0..27).map(|i| ((i * 7) % 4) as u8).collect();
    assert_eq!(
        build_chunk_mesh(&blocks, 3, 3, 3, 0, 0),
        build_chunk_mesh(&blocks, 3, 3, 3, -12, 40)
    );
}

#[test]
fn mesh_length_is_six_per_quad() {
    let blocks: Vec<u8> = (0..27).map(|i| (i % 3) as u8).collect();
    let solid = blocks.iter().filter(|b| **b != 0).count();
    let mesh = build_chunk_mesh(&blocks, 3, 3, 3, 1, 1);
    assert_eq!(mesh.len() % 6, 0);
    assert!(mesh.len() <= 36 * solid);
    assert!(mesh.iter().all(|v| v.light == 255));
}
