use quake_models::md2;
use quake_models::mdl;
use quake_models::{to_utf8, Error, ErrorKind};

fn put_i32(b: &mut Vec<u8>, v: i32) {
    b.extend_from_slice(&v.to_le_bytes());
}

fn put_name(b: &mut Vec<u8>, name: &[u8], len: usize) {
    let mut field = name.to_vec();
    field.resize(len, 0);
    b.extend_from_slice(&field);
}

/// An MD2 file with one skin, three texture coordinates, one triangle, a fan of one
/// vertex and a strip of one vertex, and two frames of three positions.
fn md2_bytes(skin_name: &[u8]) -> Vec<u8> {
    let num_vertices = 3;
    let offset_skins = 68;
    let offset_texcoords = offset_skins + 64;
    let offset_faces = offset_texcoords + 3 * 4;
    let offset_gl_cmds = offset_faces + 12;
    let num_gl_cmds = 10;
    let offset_frames = offset_gl_cmds + 4 * num_gl_cmds;
    let frame_size = 40 + 4 * num_vertices;
    let offset_end = offset_frames + 2 * frame_size;
    let mut b = Vec::new();
    for v in [
        md2::HEADER_IDENT,
        md2::HEADER_VERSION,
        64,
        32,
        frame_size,
        1,
        num_vertices,
        3,
        1,
        num_gl_cmds,
        2,
        offset_skins,
        offset_texcoords,
        offset_faces,
        offset_frames,
        offset_gl_cmds,
        offset_end,
    ] {
        put_i32(&mut b, v);
    }
    put_name(&mut b, skin_name, 64);
    for (s, t) in [(1i16, 2i16), (-3, 4), (5, 6)] {
        b.extend_from_slice(&s.to_le_bytes());
        b.extend_from_slice(&t.to_le_bytes());
    }
    for v in [0u16, 1, 2, 2, 1, 0] {
        b.extend_from_slice(&v.to_le_bytes());
    }
    // a fan of one vertex, a strip of one vertex, then the end of the stream
    put_i32(&mut b, 1);
    b.extend_from_slice(&0.25f32.to_le_bytes());
    b.extend_from_slice(&0.5f32.to_le_bytes());
    put_i32(&mut b, 2);
    put_i32(&mut b, -1);
    b.extend_from_slice(&0.75f32.to_le_bytes());
    b.extend_from_slice(&1.0f32.to_le_bytes());
    put_i32(&mut b, 1);
    put_i32(&mut b, 0);
    put_i32(&mut b, 0);
    for f in 0..2u8 {
        for x in [1.0f32, 2.0, 3.0, 4.0, 5.0, 6.0] {
            b.extend_from_slice(&x.to_le_bytes());
        }
        put_name(&mut b, if f == 0 { b"stand01" } else { b"stand02" }, 16);
        for v in 0..3u8 {
            b.extend_from_slice(&[10 * f + v, 20 + v, 30 + v, v]);
        }
    }
    b
}

#[test]
fn md2_decodes_every_section() {
    let m = md2::Model::from_reader(&md2_bytes(b"skin.pcx")).unwrap();
    assert_eq!(m.header.skin_width, 64);
    assert_eq!(m.header.skin_height, 32);
    assert_eq!(m.skin_names, vec![String::from("skin.pcx")]);
    assert_eq!(m.texcoords, vec![
        md2::TexCoord { s: 1, t: 2 },
        md2::TexCoord { s: -3, t: 4 },
        md2::TexCoord { s: 5, t: 6 },
    ]);
    assert_eq!(m.faces.len(), 1);
    assert_eq!(m.faces[0].vertex, [0, 1, 2]);
    assert_eq!(m.faces[0].st_idx, [2, 1, 0]);
    assert_eq!(m.frames.len(), 2);
    assert_eq!(m.frames[1].name, "stand02");
    assert_eq!(m.frames[0].scale, [1.0f32.to_bits(), 2.0f32.to_bits(), 3.0f32.to_bits()]);
    assert_eq!(m.frames[0].translate[2], 6.0f32.to_bits());
    assert_eq!(m.frames[1].vertices[2].v, [12, 22, 32]);
    assert_eq!(m.frames[1].vertices[2].normal_idx, 2);
}

#[test]
fn md2_decodes_fans_and_strips() {
    let m = md2::Model::from_reader(&md2_bytes(b"skin.pcx")).unwrap();
    assert_eq!(m.commands.len(), 2);
    assert_eq!(m.commands[0].typ, md2::CommandType::Fan);
    assert_eq!(m.commands[0].packets, vec![md2::CommandPacket {
        s: 0.25f32.to_bits(),
        t: 0.5f32.to_bits(),
        i: 2,
    }]);
    assert_eq!(m.commands[1].typ, md2::CommandType::Strip);
    assert_eq!(m.commands[1].packets[0].i, 1);
    assert_eq!(f32::from_bits(m.commands[1].packets[0].s), 0.75);
}

#[test]
fn md2_wrong_ident() {
    let mut b = md2_bytes(b"skin.pcx");
    b[0] = b'X';
    let e: Error = md2::Model::from_reader(&b).unwrap_err();
    let actual = i32::from_le_bytes([b'X', b[1], b[2], b[3]]);
    assert_eq!(e.kind, ErrorKind::IdentityMismatch { expected: md2::HEADER_IDENT, actual });
}

#[test]
fn md2_wrong_version() {
    let mut b = md2_bytes(b"skin.pcx");
    b[4] = 7;
    let e = md2::Model::from_reader(&b).unwrap_err();
    assert_eq!(e.kind, ErrorKind::VersionMismatch { expected: 8, actual: 7 });
}

#[test]
fn md2_truncated() {
    let b = md2_bytes(b"skin.pcx");
    assert_eq!(md2::Model::from_reader(&b[..40]).unwrap_err().kind, ErrorKind::Truncated);
    assert_eq!(md2::Model::from_reader(&b[..b.len() - 1]).unwrap_err().kind, ErrorKind::Truncated);
}

#[test]
fn md2_bad_skin_name() {
    let b = md2_bytes(&[b'a', 0xff, b'b']);
    let e = md2::Model::from_reader(&b).unwrap_err();
    assert_eq!(e.kind, ErrorKind::EncodingFailure);
    assert_eq!(e.message, "failed to convert skin name to utf8");
}

#[test]
fn md2_decoded_model_flattens() {
    let m = md2::Model::from_reader(&md2_bytes(b"skin.pcx")).unwrap();
    assert!(m.is_consistent());
    let flat = quake_models::flat_model::FlatModel::from_md2(&m).unwrap();
    assert_eq!(flat.indices, vec![(0, 1, 2)]);
    assert_eq!(flat.texcoords, vec![(11, 13), (-5, 9), (3, 5)]);
}

fn mdl_header(b: &mut Vec<u8>, num_skins: i32, num_frames: i32) {
    put_i32(b, mdl::HEADER_IDENT);
    put_i32(b, mdl::HEADER_VERSION);
    for x in [0.5f32, 0.5, 0.5, -1.0, -2.0, -3.0, 10.0, 0.0, 0.0, 20.0] {
        b.extend_from_slice(&x.to_le_bytes());
    }
    for v in [num_skins, 2, 2, 3, 1, num_frames, 0, 0] {
        put_i32(b, v);
    }
    b.extend_from_slice(&1.0f32.to_le_bytes());
}

/// An MDL file with one 2x2 skin, three positions, one triangle and `frame_types`
/// frames.
fn mdl_bytes(skin_group: i32, frame_types: &[i32]) -> Vec<u8> {
    let mut b = Vec::new();
    mdl_header(&mut b, 1, frame_types.len() as i32);
    put_i32(&mut b, skin_group);
    b.extend_from_slice(&[1, 2, 3, 4]);
    for (onseam, s, t) in [(0, 0, 0), (32, 1, 1), (0, 2, 0)] {
        put_i32(&mut b, onseam);
        put_i32(&mut b, s);
        put_i32(&mut b, t);
    }
    for v in [0, 0, 1, 2] {
        put_i32(&mut b, v);
    }
    for &typ in frame_types {
        put_i32(&mut b, typ);
        b.extend_from_slice(&[0, 0, 0, 0, 9, 9, 9, 0]);
        put_name(&mut b, b"walk1", 16);
        for v in 0..3u8 {
            b.extend_from_slice(&[v, v + 1, v + 2, 0]);
        }
    }
    b
}

#[test]
fn mdl_decodes_every_section() {
    let m = mdl::Model::from_reader(&mdl_bytes(0, &[0, 0])).unwrap();
    assert_eq!(m.header.num_verices, 3);
    assert_eq!(m.header.scale, [0.5f32.to_bits(); 3]);
    assert_eq!(f32::from_bits(m.header.translate[1]), -2.0);
    assert_eq!(m.skins.len(), 1);
    assert_eq!(m.skins[0].data, vec![1, 2, 3, 4]);
    assert_eq!(m.texcoords[1], mdl::TexCoord { onseam: 32, s: 1, t: 1 });
    assert_eq!(m.triangles[0].facefront, 0);
    assert_eq!(m.triangles[0].vertex, [0, 1, 2]);
    assert_eq!(m.frames.len(), 2);
    assert_eq!(m.frames[0].frame.name, "walk1");
    assert_eq!(m.frames[1].frame.bboxmax.v, [9, 9, 9]);
    assert_eq!(m.frames[1].frame.verts[2].v, [2, 3, 4]);
}

#[test]
fn mdl_group_frame_is_refused() {
    let e = mdl::Model::from_reader(&mdl_bytes(0, &[0, 1])).unwrap_err();
    assert_eq!(e.kind, ErrorKind::UnsupportedVariant);
    assert_eq!(e.message, "group frames are not supported.");
}

#[test]
fn mdl_group_frame_refused_even_when_data_ends() {
    let mut b = mdl_bytes(0, &[1]);
    b.truncate(b.len() - 8);
    assert_eq!(mdl::Model::from_reader(&b).unwrap_err().kind, ErrorKind::UnsupportedVariant);
}

#[test]
fn mdl_group_skin_is_refused() {
    let e = mdl::Model::from_reader(&mdl_bytes(1, &[0])).unwrap_err();
    assert_eq!(e.kind, ErrorKind::UnsupportedVariant);
}

#[test]
fn mdl_wrong_version_and_truncation() {
    let mut b = mdl_bytes(0, &[0]);
    b[4] = 5;
    assert_eq!(mdl::Model::from_reader(&b).unwrap_err().kind, ErrorKind::VersionMismatch { expected: 6, actual: 5 });
    let b = mdl_bytes(0, &[0]);
    assert_eq!(mdl::Model::from_reader(&b[..b.len() - 2]).unwrap_err().kind, ErrorKind::Truncated);
    assert_eq!(mdl::Model::from_reader(&b[..83]).unwrap_err().kind, ErrorKind::Truncated);
}

#[test]
fn mdl_decoded_model_flattens() {
    let m = mdl::Model::from_reader(&mdl_bytes(0, &[0, 0])).unwrap();
    assert!(m.is_consistent());
    let flat = quake_models::flat_model::FlatModel::from_mdl(&m).unwrap();
    // the back triangle's seam corner gets a fourth slot
    assert_eq!(flat.indices, vec![(0, 3, 2)]);
    assert_eq!(flat.texcoords, vec![(1, 1), (0, 0), (5, 1), (5, 3)]);
    assert_eq!(flat.vertices[1], vec![[0, 1, 2], [1, 2, 3], [2, 3, 4], [1, 2, 3]]);
}

#[test]
fn text_stops_at_zero_byte() {
    assert_eq!(to_utf8(b"abc\0xyz").unwrap(), "abc");
    assert_eq!(to_utf8(b"tris").unwrap(), "tris");
    assert_eq!(to_utf8(b"").unwrap(), "");
    assert!(to_utf8(&[0xc3, 0x28]).is_err());
    assert_eq!(to_utf8(&[0xc3, 0xa9, 0]).unwrap(), "\u{e9}");
}

#[test]
fn error_constructors() {
    assert_eq!(Error::ident(1, 2).kind, ErrorKind::IdentityMismatch { expected: 2, actual: 1 });
    assert_eq!(Error::version(3, 4).kind, ErrorKind::VersionMismatch { expected: 4, actual: 3 });
    let e = Error::io("short");
    assert_eq!(e.kind, ErrorKind::Truncated);
    assert_eq!(e.message, "short");
    assert_eq!(Error::unsupported("no").kind, ErrorKind::UnsupportedVariant);
    let bad = std::str::from_utf8(&[0xff]).unwrap_err();
    assert_eq!(Error::utf8(bad, "name").kind, ErrorKind::EncodingFailure);
    assert_eq!(Error::empty_model("none").kind, ErrorKind::EmptyModel);
}

#[test]
fn animation_table() {
    assert_eq!(md2::ANIMATIONS.len(), 21);
    assert_eq!(md2::ANIMATIONS[md2::Animation::RUN as usize], [40, 45, 10]);
    assert_eq!(md2::ANIMATIONS[md2::Animation::BOOM as usize], [198, 198, 5]);
}

#[test]
fn md2_drawing_hints_past_the_end() {
    let mut b = md2_bytes(b"skin.pcx");
    let start = (b.len() - 8) as i32;
    b[60..64].copy_from_slice(&start.to_le_bytes());
    assert_eq!(md2::Model::from_reader(&b).unwrap_err().kind, ErrorKind::Truncated);
}

#[test]
fn mdl_bad_frame_name() {
    let mut b = mdl_bytes(0, &[0]);
    b[156] = 0xff;
    assert_eq!(mdl::Model::from_reader(&b).unwrap_err().kind, ErrorKind::EncodingFailure);
    // the name comes before the positions
    b.truncate(172);
    assert_eq!(mdl::Model::from_reader(&b).unwrap_err().kind, ErrorKind::EncodingFailure);
}

#[test]
fn md2_empty_sections_may_lie_past_the_end() {
    let mut b = md2_bytes(b"skin.pcx");
    let far = (b.len() + 100) as i32;
    // no skins, no texture coordinates, no triangles, no drawing hints, no frames
    for (count_at, offset_at) in [(20, 44), (28, 48), (32, 52), (36, 60), (40, 56)] {
        b[count_at..count_at + 4].copy_from_slice(&0i32.to_le_bytes());
        b[offset_at..offset_at + 4].copy_from_slice(&far.to_le_bytes());
    }
    let m = md2::Model::from_reader(&b).unwrap();
    assert!(m.skin_names.is_empty() && m.texcoords.is_empty() && m.faces.is_empty());
    assert!(m.commands.is_empty() && m.frames.is_empty());
}

#[test]
fn md2_first_bad_frame_name_wins_over_a_later_short_frame() {
    let mut b = md2_bytes(b"skin.pcx");
    let offset_frames = i32::from_le_bytes([b[56], b[57], b[58], b[59]]) as usize;
    b[offset_frames + 24] = 0xff;
    b.truncate(b.len() - 5);
    let e = md2::Model::from_reader(&b).unwrap_err();
    assert_eq!(e.kind, ErrorKind::EncodingFailure);
    assert_eq!(e.message, "failed to convert frame name to utf8");
}

#[test]
fn md2_first_bad_skin_name_wins_over_a_later_short_skin() {
    let mut b = md2_bytes(&[0xff]);
    // two skin names: the first within the data and not UTF-8, the second cut short
    b[20..24].copy_from_slice(&2i32.to_le_bytes());
    let start = b.len() - 84;
    b[44..48].copy_from_slice(&(start as i32).to_le_bytes());
    b[start] = 0xff;
    assert_eq!(md2::Model::from_reader(&b).unwrap_err().kind, ErrorKind::EncodingFailure);
}
