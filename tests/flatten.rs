use quake_models::flat_model::FlatModel;
use quake_models::md2;
use quake_models::mdl;
use quake_models::ErrorKind;

fn md2_header(skin_width: i32, skin_height: i32) -> md2::Header {
    md2::Header {
        ident: md2::HEADER_IDENT,
        version: md2::HEADER_VERSION,
        skin_width,
        skin_height,
        frame_size: 0,
        num_skins: 0,
        num_vertices: 0,
        num_texcoords: 0,
        num_faces: 0,
        num_gl_cmds: 0,
        num_frames: 0,
        offset_skins: 0,
        offset_texcoords: 0,
        offset_faces: 0,
        offset_frames: 0,
        offset_gl_cmds: 0,
        offset_end: 0,
    }
}

fn md2_frame(base: u8, n: u8, scale: u32) -> md2::Frame {
    let mut vertices = Vec::new();
    for i in 0..n {
        vertices.push(md2::Vertex { v: [base + i, base + 2 * i, base + 3 * i], normal_idx: i });
    }
    md2::Frame { scale: [scale; 3], translate: [0; 3], name: String::from("f"), vertices }
}

/// Two frames of four positions; the second triangle meets position 2 with another
/// texture coordinate index than the first.
fn md2_model() -> md2::Model {
    let texcoords = (0..5).map(|i| md2::TexCoord { s: 8 * i, t: 4 * i }).collect();
    md2::Model {
        header: md2_header(64, 64),
        skin_names: Vec::new(),
        texcoords,
        faces: vec![
            md2::Triangle { vertex: [0, 1, 2], st_idx: [0, 1, 2] },
            md2::Triangle { vertex: [0, 2, 3], st_idx: [0, 3, 4] },
        ],
        frames: vec![md2_frame(0, 4, 7), md2_frame(100, 4, 9)],
        commands: Vec::new(),
    }
}

#[test]
fn it_works() {
    assert_eq!(2 + 2, 4);
}

#[test]
fn md2_end_to_end_one_split() {
    let model = md2_model();
    assert!(model.is_consistent());
    let flat = FlatModel::from_md2(&model).unwrap();
    assert_eq!(flat.vertices.len(), 2);
    assert_eq!(flat.vertices[0].len(), 5);
    assert_eq!(flat.vertices[1].len(), 5);
    assert_eq!(flat.texcoords.len(), 5);
    assert_eq!(flat.indices, vec![(0, 1, 2), (0, 4, 3)]);
    assert_eq!(flat.skin_width, 64);
    assert_eq!(flat.skin_height, 64);
    assert_eq!(flat.transforms.len(), 2);
    assert_eq!(flat.transforms[1].scale, [9; 3]);
}

#[test]
fn md2_split_copies_the_position_in_every_frame() {
    let model = md2_model();
    let flat = FlatModel::from_md2(&model).unwrap();
    for f in 0..2 {
        for s in 0..4 {
            assert_eq!(flat.vertices[f][s], model.frames[f].vertices[s].v);
        }
        assert_eq!(flat.vertices[f][4], model.frames[f].vertices[2].v);
    }
    assert_eq!(flat.vertices[1][4], [102, 104, 106]);
}

#[test]
fn md2_texcoords_have_half_texel_offset() {
    let flat = FlatModel::from_md2(&md2_model()).unwrap();
    // texel (s, t) is stored as (2s + 1, 2t + 1) over (2 * 64, 2 * 64)
    assert_eq!(flat.texcoords[0], (1, 1));
    assert_eq!(flat.texcoords[1], (17, 9));
    assert_eq!(flat.texcoords[2], (33, 17));
    assert_eq!(flat.texcoords[3], (65, 33));
    assert_eq!(flat.texcoords[4], (49, 25));
}

#[test]
fn md2_same_pair_reuses_the_slot() {
    let mut model = md2_model();
    model.faces.push(md2::Triangle { vertex: [2, 2, 0], st_idx: [3, 2, 0] });
    let flat = FlatModel::from_md2(&model).unwrap();
    assert_eq!(flat.texcoords.len(), 5);
    assert_eq!(flat.indices[2], (4, 2, 0));
}

#[test]
fn md2_each_new_texcoord_gets_its_own_slot() {
    let mut model = md2_model();
    model.faces.push(md2::Triangle { vertex: [2, 2, 2], st_idx: [4, 0, 3] });
    let flat = FlatModel::from_md2(&model).unwrap();
    assert_eq!(flat.texcoords.len(), 7);
    assert_eq!(flat.indices[2], (5, 6, 4));
    for f in 0..2 {
        assert_eq!(flat.vertices[f].len(), 7);
        assert_eq!(flat.vertices[f][5], model.frames[f].vertices[2].v);
        assert_eq!(flat.vertices[f][6], model.frames[f].vertices[2].v);
    }
}

#[test]
fn md2_lengths_and_indices_in_range() {
    let mut model = md2_model();
    model.faces.push(md2::Triangle { vertex: [1, 3, 2], st_idx: [4, 4, 4] });
    let flat = FlatModel::from_md2(&model).unwrap();
    for frame in &flat.vertices {
        assert_eq!(frame.len(), flat.texcoords.len());
    }
    for &(a, b, c) in &flat.indices {
        assert!(a < flat.texcoords.len() && b < flat.texcoords.len() && c < flat.texcoords.len());
    }
}

#[test]
fn md2_empty_model_is_refused() {
    let mut model = md2_model();
    model.faces.clear();
    assert_eq!(FlatModel::from_md2(&model).unwrap_err().kind, ErrorKind::EmptyModel);
    let mut model = md2_model();
    model.frames.clear();
    assert_eq!(FlatModel::from_md2(&model).unwrap_err().kind, ErrorKind::EmptyModel);
}

#[test]
fn md2_consistency_check() {
    let mut model = md2_model();
    model.faces.push(md2::Triangle { vertex: [0, 1, 4], st_idx: [0, 0, 0] });
    assert!(!model.is_consistent());
    let mut model = md2_model();
    model.faces.push(md2::Triangle { vertex: [0, 1, 2], st_idx: [0, 0, 5] });
    assert!(!model.is_consistent());
    let mut model = md2_model();
    model.frames[1].vertices.pop();
    assert!(!model.is_consistent());
}

fn mdl_header(skin_width: i32, num_verices: i32) -> mdl::Header {
    mdl::Header {
        ident: mdl::HEADER_IDENT,
        version: mdl::HEADER_VERSION,
        scale: [1; 3],
        translate: [2; 3],
        boundigradius: 0,
        eyeposition: [0; 3],
        num_skins: 0,
        skin_width,
        skin_height: 32,
        num_verices,
        num_faces: 0,
        num_frames: 0,
        synctype: 0,
        flags: 0,
        size: 0,
    }
}

fn mdl_frame(base: u8, n: u8) -> mdl::Frame {
    let vertex = |i: u8| mdl::Vertex { v: [base + i, base + i, base + i], normal_idx: 0 };
    mdl::Frame {
        type_: 0,
        frame: mdl::SimpleFrame {
            bboxmin: vertex(0),
            bboxmax: vertex(0),
            name: String::from("frame"),
            verts: (0..n).map(vertex).collect(),
        },
    }
}

/// Position 1 lies on the seam and is used by a front and by a back triangle.
fn mdl_model() -> mdl::Model {
    mdl::Model {
        header: mdl_header(64, 4),
        skins: Vec::new(),
        texcoords: vec![
            mdl::TexCoord { onseam: 0, s: 0, t: 0 },
            mdl::TexCoord { onseam: 32, s: 10, t: 20 },
            mdl::TexCoord { onseam: 0, s: 5, t: 6 },
            mdl::TexCoord { onseam: 0, s: 7, t: 8 },
        ],
        triangles: vec![
            mdl::Triangle { facefront: 1, vertex: [0, 1, 2] },
            mdl::Triangle { facefront: 0, vertex: [1, 3, 2] },
        ],
        frames: vec![mdl_frame(0, 4), mdl_frame(50, 4)],
    }
}

#[test]
fn mdl_seam_front_and_back() {
    let model = mdl_model();
    assert!(model.is_consistent());
    let flat = FlatModel::from_mdl(&model).unwrap();
    assert_eq!(flat.texcoords.len(), 5);
    assert_eq!(flat.indices, vec![(0, 1, 2), (4, 3, 2)]);
    // front: (2 * 10 + 1) / 128; back: (2 * 10 + 1 + 64) / 128, half the skin further
    assert_eq!(flat.texcoords[1], (21, 41));
    assert_eq!(flat.texcoords[4], (85, 41));
    assert_eq!(flat.texcoords[4].0 - flat.texcoords[1].0, i64::from(flat.skin_width));
    assert_eq!(flat.texcoords[3], (15, 17));
    for f in 0..2 {
        assert_eq!(flat.vertices[f].len(), 5);
        assert_eq!(flat.vertices[f][4], model.frames[f].frame.verts[1].v);
    }
    assert_eq!(flat.transforms[1].scale, [1; 3]);
    assert_eq!(flat.transforms[1].translate, [2; 3]);
}

#[test]
fn mdl_seam_corners_are_not_shared() {
    let mut model = mdl_model();
    model.triangles.push(mdl::Triangle { facefront: 0, vertex: [1, 1, 0] });
    let flat = FlatModel::from_mdl(&model).unwrap();
    assert_eq!(flat.indices[2], (5, 6, 0));
    assert_eq!(flat.texcoords.len(), 7);
    for frame in &flat.vertices {
        assert_eq!(frame.len(), 7);
    }
}

#[test]
fn mdl_empty_model_is_refused() {
    let mut model = mdl_model();
    model.triangles.clear();
    assert_eq!(FlatModel::from_mdl(&model).unwrap_err().kind, ErrorKind::EmptyModel);
}

#[test]
fn mdl_consistency_check() {
    let mut model = mdl_model();
    model.triangles.push(mdl::Triangle { facefront: 0, vertex: [-1, 1, 0] });
    assert!(!model.is_consistent());
    let mut model = mdl_model();
    model.triangles.push(mdl::Triangle { facefront: 0, vertex: [4, 1, 0] });
    assert!(!model.is_consistent());
}

#[test]
fn mdl_faces_by_side() {
    let model = mdl_model();
    assert!(model.sides_valid());
    let sides = model.faces_by_side();
    assert_eq!(sides.indices_front, vec![0, 1, 2]);
    assert_eq!(sides.indices_back, vec![1, 3, 2]);
    assert_eq!(sides.texcoords_front, vec![(1, 1), (21, 41), (11, 13), (0, 0)]);
    assert_eq!(sides.texcoords_back, vec![(0, 0), (85, 41), (11, 13), (15, 17)]);
}

#[test]
fn mdl_sides_check() {
    let mut model = mdl_model();
    model.header.num_verices = 5;
    assert!(!model.sides_valid());
    let mut model = mdl_model();
    model.triangles.push(mdl::Triangle { facefront: 1, vertex: [0, 4, 1] });
    assert!(!model.sides_valid());
}

#[test]
fn md2_results_grow_with_the_triangles() {
    let mut model = md2_model();
    model.faces.push(md2::Triangle { vertex: [2, 2, 1], st_idx: [4, 0, 1] });
    let full = FlatModel::from_md2(&model).unwrap();
    let mut cut = md2_model();
    cut.faces.truncate(1);
    let first = FlatModel::from_md2(&cut).unwrap();
    assert_eq!(first.indices[..], full.indices[..1]);
    for f in 0..2 {
        assert_eq!(first.vertices[f][..], full.vertices[f][..first.vertices[f].len()]);
    }
    for &(a, b, c) in &first.indices {
        for s in [a, b, c] {
            assert_eq!(first.texcoords[s], full.texcoords[s]);
        }
    }
    // four positions, seven distinct pairs over four positions met: 4 + 7 - 4 slots
    assert_eq!(full.texcoords.len(), 7);
}
