//! The MDL format: one position index space, texture coordinates stored per
//! position with a flag for positions on the seam between the front and the back
//! half of the skin, one scale and translation for the whole model.
use vstd::prelude::*;

use vstd::slice::slice_to_vec;
use vstd::utf8::{decode_utf8, valid_utf8};

use crate::bytes::{count, count_of, fits, le_i32, le_u32, lemma_next_record, read_i32_at, read_u32_at};
use crate::flat_model::{plain_uv, seam_uv};
use crate::md2::text_at;
use crate::{to_utf8, Error, ErrorKind, Result};

verus! {

pub const MAX_TRIANGLES: u16 = 2048;
pub const MAX_VERTICES: u16 = 1024;
pub const MAX_TEXCOORDS: u16 = 1024;
pub const MAX_FRAMES: u16 = 256;

/// The signature "IDPO" read as a little-endian integer.
pub const HEADER_IDENT: i32 = 1330660425;
pub const HEADER_VERSION: i32 = 6;

/// Size in bytes of the header: twenty-one 32-bit fields.
pub const HEADER_SIZE: usize = 84;

/// The fixed-size header at the start of the file. Fields that the file stores as
/// 32-bit floats are kept as their bit patterns.
#[derive(Debug, Clone, Copy)]
pub struct Header {
    pub ident: i32,
    pub version: i32,
    pub scale: [u32; 3],
    pub translate: [u32; 3],
    pub boundigradius: u32,
    pub eyeposition: [u32; 3],
    pub num_skins: i32,
    pub skin_width: i32,
    pub skin_height: i32,
    pub num_verices: i32,
    pub num_faces: i32,
    pub num_frames: i32,
    /// 0: frames are played in step; 1: at random.
    pub synctype: i32,
    pub flags: i32,
    pub size: u32,
}

/// A skin picture: one palette index per texel, `skin_width * skin_height` of them.
#[derive(Debug)]
pub struct Skin {
    pub group: i32,
    pub data: Vec<u8>,
}

/// A group of skin pictures shown in turn. Not supported by the decoder.
#[derive(Debug)]
pub struct GroupSkin {
    pub group: i32,
    pub nb: i32,
    /// Bit patterns of the 32-bit float display times.
    pub time: Vec<u32>,
    pub data: Vec<u8>,
}

/// Texel coordinates of a position. `onseam > 0` marks a position on the seam
/// between the front and the back half of the skin: a back-facing triangle takes it
/// half a skin width further right.
#[derive(Debug, Clone, Copy, PartialEq, Eq, Structural)]
pub struct TexCoord {
    pub onseam: i32,
    pub s: i32,
    pub t: i32,
}

/// A triangle: `facefront == 0` for one facing away, and three position indices.
#[derive(Debug, Clone, Copy)]
pub struct Triangle {
    pub facefront: i32,
    pub vertex: [i32; 3],
}

/// A packed position (one byte per axis) and the index of its normal.
#[derive(Debug, Clone, Copy)]
pub struct Vertex {
    pub v: [u8; 3],
    pub normal_idx: u8,
}

/// A key frame: its bounding box, name and packed positions.
#[derive(Debug)]
pub struct SimpleFrame {
    pub bboxmin: Vertex,
    pub bboxmax: Vertex,
    pub name: String,
    pub verts: Vec<Vertex>,
}

/// A frame as stored: `type_ == 0` for a single key frame.
#[derive(Debug)]
pub struct Frame {
    pub type_: i32,
    pub frame: SimpleFrame,
}

/// A group of key frames played in turn. Not supported by the decoder.
#[derive(Debug)]
pub struct GroupFrame {
    pub type_: i32,
    pub min: Vertex,
    pub max: Vertex,
    /// Bit patterns of the 32-bit float display times.
    pub time: Vec<u32>,
    pub frames: Vec<SimpleFrame>,
}

/// A decoded MDL file.
#[derive(Debug)]
pub struct Model {
    pub header: Header,
    pub skins: Vec<Skin>,
    pub texcoords: Vec<TexCoord>,
    pub triangles: Vec<Triangle>,
    pub frames: Vec<Frame>,
}

/// The header as stored in the first bytes of `b`.
pub open spec fn header_at(b: Seq<u8>) -> Header {
    Header {
        ident: le_i32(b, 0) as i32,
        version: le_i32(b, 4) as i32,
        scale: [le_u32(b, 8) as u32, le_u32(b, 12) as u32, le_u32(b, 16) as u32],
        translate: [le_u32(b, 20) as u32, le_u32(b, 24) as u32, le_u32(b, 28) as u32],
        boundigradius: le_u32(b, 32) as u32,
        eyeposition: [le_u32(b, 36) as u32, le_u32(b, 40) as u32, le_u32(b, 44) as u32],
        num_skins: le_i32(b, 48) as i32,
        skin_width: le_i32(b, 52) as i32,
        skin_height: le_i32(b, 56) as i32,
        num_verices: le_i32(b, 60) as i32,
        num_faces: le_i32(b, 64) as i32,
        num_frames: le_i32(b, 68) as i32,
        synctype: le_i32(b, 72) as i32,
        flags: le_i32(b, 76) as i32,
        size: le_u32(b, 80) as u32,
    }
}

/// The error that the header of `b` gives, if any.
pub open spec fn header_error(b: Seq<u8>) -> Option<ErrorKind> {
    if b.len() < HEADER_SIZE {
        Some(ErrorKind::Truncated)
    } else if header_at(b).ident != HEADER_IDENT {
        Some(ErrorKind::IdentityMismatch { expected: HEADER_IDENT, actual: header_at(b).ident })
    } else if header_at(b).version != HEADER_VERSION {
        Some(ErrorKind::VersionMismatch { expected: HEADER_VERSION, actual: header_at(b).version })
    } else {
        None
    }
}

/// Bytes of one skin picture.
pub open spec fn skin_size(h: Header) -> int {
    h.skin_width * h.skin_height
}

/// Where skin `i` starts: skins follow the header, each a group tag and a picture.
pub open spec fn skin_pos(h: Header, i: int) -> int {
    HEADER_SIZE + i * (4 + skin_size(h))
}

/// The error that the skin at `pos` gives, if any: the tag must be 0 (a single
/// picture), and the picture must be within the data.
pub open spec fn skin_error(b: Seq<u8>, pos: int, size: int) -> Option<ErrorKind> {
    if pos + 4 > b.len() {
        Some(ErrorKind::Truncated)
    } else if le_i32(b, pos) != 0 {
        Some(ErrorKind::UnsupportedVariant)
    } else if size < 0 || pos + 4 + size > b.len() {
        Some(ErrorKind::Truncated)
    } else {
        None
    }
}

/// The first error among skins `i` and after, if any.
pub open spec fn skins_error(b: Seq<u8>, h: Header, i: int) -> Option<ErrorKind>
    decreases count_of(h.num_skins) - i,
{
    if i < 0 || i >= count_of(h.num_skins) {
        None
    } else if skin_error(b, skin_pos(h, i), skin_size(h)) is Some {
        skin_error(b, skin_pos(h, i), skin_size(h))
    } else {
        skins_error(b, h, i + 1)
    }
}

/// Where the texture coordinate records start: after the skins.
pub open spec fn texcoords_pos(h: Header) -> int {
    skin_pos(h, count_of(h.num_skins) as int)
}

/// Where the triangle records start: after one texture coordinate record per position.
pub open spec fn triangles_pos(h: Header) -> int {
    texcoords_pos(h) + 12 * count_of(h.num_verices)
}

/// Where the frames start: after the triangles.
pub open spec fn frames_pos(h: Header) -> int {
    triangles_pos(h) + 16 * count_of(h.num_faces)
}

/// Bytes of a single key frame with `nv` positions.
pub open spec fn frame_stride(nv: nat) -> nat {
    28 + 4 * nv
}

/// Where frame `i` starts.
pub open spec fn frame_pos(h: Header, i: int) -> int {
    frames_pos(h) + i * frame_stride(count_of(h.num_verices))
}

/// The error that the frame at `pos` gives, if any, in the order of its fields: its
/// type must be 0 (a single key frame), its name valid UTF-8, and all of it within the
/// data.
pub open spec fn frame_error(b: Seq<u8>, pos: int, nv: nat) -> Option<ErrorKind> {
    if pos + 4 > b.len() {
        Some(ErrorKind::Truncated)
    } else if le_i32(b, pos) != 0 {
        Some(ErrorKind::UnsupportedVariant)
    } else if pos + 28 > b.len() {
        Some(ErrorKind::Truncated)
    } else if !valid_utf8(text_at(b, pos + 12, 16)) {
        Some(ErrorKind::EncodingFailure)
    } else if pos + frame_stride(nv) > b.len() {
        Some(ErrorKind::Truncated)
    } else {
        None
    }
}

/// The first error among frames `i` and after, if any.
pub open spec fn frames_error(b: Seq<u8>, h: Header, i: int) -> Option<ErrorKind>
    decreases count_of(h.num_frames) - i,
{
    if i < 0 || i >= count_of(h.num_frames) {
        None
    } else if frame_error(b, frame_pos(h, i), count_of(h.num_verices)) is Some {
        frame_error(b, frame_pos(h, i), count_of(h.num_verices))
    } else {
        frames_error(b, h, i + 1)
    }
}

/// The first error met in decoding `b`: header, skins, texture coordinates,
/// triangles, frames; `None` when there is none.
pub open spec fn mdl_error(b: Seq<u8>) -> Option<ErrorKind> {
    let h = header_at(b);
    if header_error(b) is Some {
        header_error(b)
    } else if skins_error(b, h, 0) is Some {
        skins_error(b, h, 0)
    } else if !fits(b.len(), texcoords_pos(h), count_of(h.num_verices), 12) {
        Some(ErrorKind::Truncated)
    } else if !fits(b.len(), triangles_pos(h), count_of(h.num_faces), 16) {
        Some(ErrorKind::Truncated)
    } else {
        frames_error(b, h, 0)
    }
}

/// Whether `v` is the packed position stored at `pos`.
pub open spec fn vertex_at(b: Seq<u8>, pos: int, v: Vertex) -> bool {
    &&& v.v[0] == b[pos]
    &&& v.v[1] == b[pos + 1]
    &&& v.v[2] == b[pos + 2]
    &&& v.normal_idx == b[pos + 3]
}

/// Whether `f` is the single key frame stored at `pos` with `nv` positions.
pub open spec fn frame_at(b: Seq<u8>, pos: int, nv: nat, f: Frame) -> bool {
    &&& f.type_ == 0
    &&& vertex_at(b, pos + 4, f.frame.bboxmin)
    &&& vertex_at(b, pos + 8, f.frame.bboxmax)
    &&& f.frame.name@ == decode_utf8(text_at(b, pos + 12, 16))
    &&& f.frame.verts@.len() == nv
    &&& forall|v: int| 0 <= v < nv ==> #[trigger] vertex_at(b, pos + 28 + 4 * v, f.frame.verts@[v])
}

/// `m` is the model that `b` stores.
pub open spec fn mdl_decoded(b: Seq<u8>, m: Model) -> bool {
    let h = header_at(b);
    let nv = count_of(h.num_verices);
    &&& m.header == h
    &&& m.skins@.len() == count_of(h.num_skins)
    &&& forall|i: int| 0 <= i < m.skins@.len() ==> {
        &&& #[trigger] m.skins@[i].group == 0
        &&& m.skins@[i].data@ == b.subrange(skin_pos(h, i) + 4, skin_pos(h, i) + 4 + skin_size(h))
    }
    &&& m.texcoords@.len() == nv
    &&& forall|i: int| 0 <= i < nv ==> {
        &&& #[trigger] m.texcoords@[i].onseam == le_i32(b, texcoords_pos(h) + 12 * i)
        &&& m.texcoords@[i].s == le_i32(b, texcoords_pos(h) + 12 * i + 4)
        &&& m.texcoords@[i].t == le_i32(b, texcoords_pos(h) + 12 * i + 8)
    }
    &&& m.triangles@.len() == count_of(h.num_faces)
    &&& forall|i: int| 0 <= i < m.triangles@.len() ==> {
        &&& #[trigger] m.triangles@[i].facefront == le_i32(b, triangles_pos(h) + 16 * i)
        &&& m.triangles@[i].vertex[0] == le_i32(b, triangles_pos(h) + 16 * i + 4)
        &&& m.triangles@[i].vertex[1] == le_i32(b, triangles_pos(h) + 16 * i + 8)
        &&& m.triangles@[i].vertex[2] == le_i32(b, triangles_pos(h) + 16 * i + 12)
    }
    &&& m.frames@.len() == count_of(h.num_frames)
    &&& forall|i: int| 0 <= i < m.frames@.len() ==> #[trigger] frame_at(b, frame_pos(h, i), nv, m.frames@[i])
}

/// Reads the packed position at `pos`.
fn read_vertex(b: &[u8], pos: usize) -> (r: Vertex)
    requires
        pos + 4 <= b@.len(),
    ensures
        vertex_at(b@, pos as int, r),
{
    Vertex { v: [b[pos], b[pos + 1], b[pos + 2]], normal_idx: b[pos + 3] }
}

/// Whether `n` records of `stride` bytes from `start` lie within `len` bytes.
fn fits_from(len: usize, start: usize, n: usize, stride: usize) -> (r: bool)
    requires
        start <= len,
        n <= 0x8000_0000,
        stride <= 0x40_0000_0000,
    ensures
        r == fits(len as nat, start as int, n as nat, stride as nat),
{
    assert(n * stride <= 0x8000_0000 * 0x40_0000_0000) by (nonlinear_arith)
        requires
            n <= 0x8000_0000,
            stride <= 0x40_0000_0000,
    ;
    (n as u128) * (stride as u128) <= (len - start) as u128
}

impl Model {
    /// Reads the header and checks the signature and the revision.
    fn read_header(b: &[u8]) -> (r: Result<Header>)
        ensures
            r is Ok <==> header_error(b@) is None,
            r matches Err(e) ==> header_error(b@) == Some(e.kind),
            r matches Ok(h) ==> h == header_at(b@),
    {
        if b.len() < HEADER_SIZE {
            return Err(Error::io("failed to read header"));
        }
        let header = Header {
            ident: read_i32_at(b, 0),
            version: read_i32_at(b, 4),
            scale: [read_u32_at(b, 8), read_u32_at(b, 12), read_u32_at(b, 16)],
            translate: [read_u32_at(b, 20), read_u32_at(b, 24), read_u32_at(b, 28)],
            boundigradius: read_u32_at(b, 32),
            eyeposition: [read_u32_at(b, 36), read_u32_at(b, 40), read_u32_at(b, 44)],
            num_skins: read_i32_at(b, 48),
            skin_width: read_i32_at(b, 52),
            skin_height: read_i32_at(b, 56),
            num_verices: read_i32_at(b, 60),
            num_faces: read_i32_at(b, 64),
            num_frames: read_i32_at(b, 68),
            synctype: read_i32_at(b, 72),
            flags: read_i32_at(b, 76),
            size: read_u32_at(b, 80),
        };
        if header.ident != HEADER_IDENT {
            return Err(Error::ident(header.ident, HEADER_IDENT));
        }
        if header.version != HEADER_VERSION {
            return Err(Error::version(header.version, HEADER_VERSION));
        }
        Ok(header)
    }

    /// Reads the skins that follow the header; returns them with where they end.
    fn read_skins(b: &[u8], header: &Header) -> (r: Result<(Vec<Skin>, usize)>)
        requires
            b@.len() >= HEADER_SIZE,
        ensures
            r is Ok <==> skins_error(b@, *header, 0) is None,
            r matches Err(e) ==> skins_error(b@, *header, 0) == Some(e.kind),
            r matches Ok((v, end)) ==> {
                &&& end == texcoords_pos(*header)
                &&& end <= b@.len()
                &&& v@.len() == count_of(header.num_skins)
                &&& forall|i: int| 0 <= i < v@.len() ==> {
                    &&& #[trigger] v@[i].group == 0
                    &&& v@[i].data@ == b@.subrange(skin_pos(*header, i) + 4, skin_pos(*header, i) + 4 + skin_size(*header))
                }
            },
    {
        let ghost h = *header;
        let n = count(header.num_skins);
        let len = b.len();
        let w = header.skin_width as i64;
        let hh = header.skin_height as i64;
        assert(-0x8000_0000 * 0x8000_0000 <= w * hh <= 0x8000_0000 * 0x8000_0000) by (nonlinear_arith)
            requires
                -0x8000_0000 <= w < 0x8000_0000,
                -0x8000_0000 <= hh < 0x8000_0000,
        ;
        let size = w * hh;
        let mut skins: Vec<Skin> = Vec::new();
        let mut pos: usize = HEADER_SIZE;
        let mut i: usize = 0;
        while i < n
            invariant
                len == b@.len(),
                h == *header,
                n == count_of(h.num_skins),
                size == skin_size(h),
                i <= n,
                pos == skin_pos(h, i as int),
                pos <= len,
                skins_error(b@, h, 0) == skins_error(b@, h, i as int),
                skins@.len() == i,
                forall|k: int| 0 <= k < i ==> {
                    &&& #[trigger] skins@[k].group == 0
                    &&& skins@[k].data@ == b@.subrange(skin_pos(h, k) + 4, skin_pos(h, k) + 4 + skin_size(h))
                },
            decreases n - i,
        {
            if len - pos < 4 {
                return Err(Error::io("failed to read skin group"));
            }
            let group = read_i32_at(b, pos);
            if group != 0 {
                return Err(Error::unsupported("skin groups are not supported."));
            }
            if size < 0 || (size as u64) > ((len - pos - 4) as u64) {
                return Err(Error::io("failed to read skin data"));
            }
            let end = pos + 4 + size as usize;
            let data = slice_to_vec(&b[pos + 4..end]);
            skins.push(Skin { group, data });
            proof {
                lemma_next_record(HEADER_SIZE as int, i as int, i + 1, 4 + size);
            }
            pos = end;
            i = i + 1;
        }
        Ok((skins, pos))
    }

    /// Reads one texture coordinate record per position from `start`; returns them
    /// with where they end.
    fn read_texcoords(b: &[u8], header: &Header, start: usize) -> (r: Result<(Vec<TexCoord>, usize)>)
        requires
            start <= b@.len(),
            start == texcoords_pos(*header),
        ensures
            r is Ok <==> fits(b@.len(), start as int, count_of(header.num_verices), 12),
            r matches Err(e) ==> e.kind == ErrorKind::Truncated,
            r matches Ok((v, end)) ==> {
                &&& end == triangles_pos(*header)
                &&& end <= b@.len()
                &&& v@.len() == count_of(header.num_verices)
                &&& forall|i: int| 0 <= i < v@.len() ==> {
                    &&& #[trigger] v@[i].onseam == le_i32(b@, start + 12 * i)
                    &&& v@[i].s == le_i32(b@, start + 12 * i + 4)
                    &&& v@[i].t == le_i32(b@, start + 12 * i + 8)
                }
            },
    {
        let n = count(header.num_verices);
        let len = b.len();
        if !fits_from(len, start, n, 12) {
            return Err(Error::io("failed to read texcoord"));
        }
        let mut texcoords: Vec<TexCoord> = Vec::new();
        let mut pos = start;
        let mut i: usize = 0;
        while i < n
            invariant
                len == b@.len(),
                i <= n,
                n == count_of(header.num_verices),
                fits(b@.len(), start as int, n as nat, 12),
                pos == start + 12 * i,
                texcoords@.len() == i,
                forall|k: int| 0 <= k < i ==> {
                    &&& #[trigger] texcoords@[k].onseam == le_i32(b@, start + 12 * k)
                    &&& texcoords@[k].s == le_i32(b@, start + 12 * k + 4)
                    &&& texcoords@[k].t == le_i32(b@, start + 12 * k + 8)
                },
            decreases n - i,
        {
            proof {
                lemma_next_record(start as int, i as int, n as int, 12);
            }
            let onseam = read_i32_at(b, pos);
            let s = read_i32_at(b, pos + 4);
            let t = read_i32_at(b, pos + 8);
            texcoords.push(TexCoord { onseam, s, t });
            pos = pos + 12;
            i = i + 1;
        }
        Ok((texcoords, pos))
    }

    /// Reads the triangle records from `start`; returns them with where they end.
    fn read_triangles(b: &[u8], header: &Header, start: usize) -> (r: Result<(Vec<Triangle>, usize)>)
        requires
            start <= b@.len(),
            start == triangles_pos(*header),
        ensures
            r is Ok <==> fits(b@.len(), start as int, count_of(header.num_faces), 16),
            r matches Err(e) ==> e.kind == ErrorKind::Truncated,
            r matches Ok((v, end)) ==> {
                &&& end == frames_pos(*header)
                &&& end <= b@.len()
                &&& v@.len() == count_of(header.num_faces)
                &&& forall|i: int| 0 <= i < v@.len() ==> {
                    &&& #[trigger] v@[i].facefront == le_i32(b@, start + 16 * i)
                    &&& v@[i].vertex[0] == le_i32(b@, start + 16 * i + 4)
                    &&& v@[i].vertex[1] == le_i32(b@, start + 16 * i + 8)
                    &&& v@[i].vertex[2] == le_i32(b@, start + 16 * i + 12)
                }
            },
    {
        let n = count(header.num_faces);
        let len = b.len();
        if !fits_from(len, start, n, 16) {
            return Err(Error::io("failed to read triangle"));
        }
        let mut triangles: Vec<Triangle> = Vec::new();
        let mut pos = start;
        let mut i: usize = 0;
        while i < n
            invariant
                len == b@.len(),
                i <= n,
                n == count_of(header.num_faces),
                fits(b@.len(), start as int, n as nat, 16),
                pos == start + 16 * i,
                triangles@.len() == i,
                forall|k: int| 0 <= k < i ==> {
                    &&& #[trigger] triangles@[k].facefront == le_i32(b@, start + 16 * k)
                    &&& triangles@[k].vertex[0] == le_i32(b@, start + 16 * k + 4)
                    &&& triangles@[k].vertex[1] == le_i32(b@, start + 16 * k + 8)
                    &&& triangles@[k].vertex[2] == le_i32(b@, start + 16 * k + 12)
                },
            decreases n - i,
        {
            proof {
                lemma_next_record(start as int, i as int, n as int, 16);
            }
            let facefront = read_i32_at(b, pos);
            let a = read_i32_at(b, pos + 4);
            let c = read_i32_at(b, pos + 8);
            let d = read_i32_at(b, pos + 12);
            triangles.push(Triangle { facefront, vertex: [a, c, d] });
            pos = pos + 16;
            i = i + 1;
        }
        Ok((triangles, pos))
    }
}

impl Model {
    /// Reads the frame at `pos`, with `nv` positions; only single key frames are
    /// supported.
    fn read_frame(b: &[u8], pos: usize, nv: usize) -> (r: Result<Frame>)
        requires
            pos <= b@.len(),
            nv <= 0x8000_0000,
        ensures
            r is Ok <==> frame_error(b@, pos as int, nv as nat) is None,
            r matches Err(e) ==> frame_error(b@, pos as int, nv as nat) == Some(e.kind),
            r matches Ok(f) ==> frame_at(b@, pos as int, nv as nat, f),
    {
        let len = b.len();
        if len - pos < 4 {
            return Err(Error::io("failed to read frame type"));
        }
        let type_ = read_i32_at(b, pos);
        if type_ != 0 {
            return Err(Error::unsupported("group frames are not supported."));
        }
        if len - pos < 28 {
            return Err(Error::io("failed to read frame name."));
        }
        let bboxmin = read_vertex(b, pos + 4);
        let bboxmax = read_vertex(b, pos + 8);
        let name = match to_utf8(&b[pos + 12..pos + 28]) {
            Ok(name) => name,
            Err(e) => return Err(Error::utf8(e, "failed to covert frame name to utf8.")),
        };
        let stride = 28 + 4 * (nv as u64);
        if stride > (len - pos) as u64 {
            return Err(Error::io("failed to read vertex"));
        }
        let mut verts: Vec<Vertex> = Vec::new();
        let mut q = pos + 28;
        let mut v: usize = 0;
        while v < nv
            invariant
                len == b@.len(),
                pos + 28 + 4 * nv <= len,
                v <= nv,
                q == pos + 28 + 4 * v,
                verts@.len() == v,
                forall|u: int| 0 <= u < v ==> #[trigger] vertex_at(b@, pos + 28 + 4 * u, verts@[u]),
            decreases nv - v,
        {
            verts.push(read_vertex(b, q));
            q = q + 4;
            v = v + 1;
        }
        Ok(Frame { type_, frame: SimpleFrame { bboxmin, bboxmax, name, verts } })
    }

    /// Reads the frames from `start`.
    fn read_frames(b: &[u8], header: &Header, start: usize) -> (r: Result<Vec<Frame>>)
        requires
            start <= b@.len(),
            start == frames_pos(*header),
        ensures
            r is Ok <==> frames_error(b@, *header, 0) is None,
            r matches Err(e) ==> frames_error(b@, *header, 0) == Some(e.kind),
            r matches Ok(v) ==> {
                &&& v@.len() == count_of(header.num_frames)
                &&& forall|i: int| 0 <= i < v@.len()
                    ==> #[trigger] frame_at(b@, frame_pos(*header, i), count_of(header.num_verices), v@[i])
            },
    {
        let ghost h = *header;
        let n = count(header.num_frames);
        let nv = count(header.num_verices);
        let len = b.len();
        let mut frames: Vec<Frame> = Vec::new();
        let mut pos = start;
        let mut i: usize = 0;
        while i < n
            invariant
                len == b@.len(),
                h == *header,
                n == count_of(h.num_frames),
                nv == count_of(h.num_verices),
                i <= n,
                pos == frame_pos(h, i as int),
                pos <= len,
                frames_error(b@, h, 0) == frames_error(b@, h, i as int),
                frames@.len() == i,
                forall|k: int| 0 <= k < i ==> #[trigger] frame_at(b@, frame_pos(h, k), nv as nat, frames@[k]),
            decreases n - i,
        {
            let frame = Self::read_frame(b, pos, nv)?;
            frames.push(frame);
            proof {
                lemma_next_record(frames_pos(h), i as int, i + 1, frame_stride(nv as nat) as int);
            }
            pos = pos + 28 + 4 * nv;
            i = i + 1;
        }
        Ok(frames)
    }

    /// Decodes a model from the whole contents of an MDL file: the header, checked for
    /// the format's signature and revision, then the skins, texture coordinates,
    /// triangles and frames that follow it in that order. Grouped skins and grouped
    /// frames are refused.
    pub fn from_reader(b: &[u8]) -> (r: Result<Self>)
        ensures
            r is Ok <==> mdl_error(b@) is None,
            r matches Err(e) ==> mdl_error(b@) == Some(e.kind),
            r matches Ok(m) ==> mdl_decoded(b@, m),
    {
        let header = Self::read_header(b)?;
        let (skins, p1) = Self::read_skins(b, &header)?;
        let (texcoords, p2) = Self::read_texcoords(b, &header, p1)?;
        let (triangles, p3) = Self::read_triangles(b, &header, p2)?;
        let frames = Self::read_frames(b, &header, p3)?;
        Ok(Model { header, skins, texcoords, triangles, frames })
    }
}

/// The triangles of a model split by facing, each side with its own texture
/// coordinates (as halves of a texel, see `flat_model`), one per position.
#[derive(Debug)]
pub struct SidedFaces {
    pub texcoords_front: Vec<(i64, i64)>,
    pub texcoords_back: Vec<(i64, i64)>,
    pub indices_front: Vec<i32>,
    pub indices_back: Vec<i32>,
}

/// Whether the triangle is on the front side (`front`) or on the back side.
pub open spec fn on_side(t: Triangle, front: bool) -> bool {
    (t.facefront != 0) == front
}

/// Whether one of the first `k` corners (three per triangle, in order) is on a
/// triangle of the given side and refers to position `x`.
pub open spec fn used_before(tris: Seq<Triangle>, front: bool, x: int, k: int) -> bool {
    exists|a: int, b: int|
        0 <= a < tris.len() && 0 <= b < 3 && 3 * a + b < k && on_side(tris[a], front) && #[trigger] tris[a].vertex[b] == x
}

/// The position indices of the triangles of one side, three per triangle, in order.
pub open spec fn side_indices(tris: Seq<Triangle>, front: bool) -> Seq<i32>
    decreases tris.len(),
{
    if tris.len() == 0 {
        Seq::empty()
    } else {
        let rest = side_indices(tris.drop_last(), front);
        if on_side(tris.last(), front) {
            rest + tris.last().vertex@
        } else {
            rest
        }
    }
}

/// The texture coordinate that a back-facing triangle gives to a position.
pub open spec fn back_uv(c: TexCoord, w: i32) -> (i64, i64) {
    if c.onseam > 0 {
        seam_uv(c, w)
    } else {
        plain_uv(c)
    }
}

/// The texture coordinate of position `x` on one side: zero where no triangle of that
/// side uses it.
pub open spec fn side_uv(m: Model, front: bool, x: int) -> (i64, i64) {
    if !used_before(m.triangles@, front, x, 3 * m.triangles@.len() as int) {
        (0i64, 0i64)
    } else if front {
        plain_uv(m.texcoords@[x])
    } else {
        back_uv(m.texcoords@[x], m.header.skin_width)
    }
}

proof fn lemma_used_step(tris: Seq<Triangle>, front: bool, i: int, j: int, y: int)
    requires
        0 <= i < tris.len(),
        0 <= j < 3,
    ensures
        used_before(tris, front, y, 3 * i + j + 1)
            == (used_before(tris, front, y, 3 * i + j) || (on_side(tris[i], front) && tris[i].vertex[j] == y)),
{
    if used_before(tris, front, y, 3 * i + j + 1) && !used_before(tris, front, y, 3 * i + j) {
        let (a, b) = choose|a: int, b: int|
            0 <= a < tris.len() && 0 <= b < 3 && 3 * a + b < 3 * i + j + 1 && on_side(tris[a], front)
                && #[trigger] tris[a].vertex[b] == y;
        assert(a == i && b == j);
    }
    if on_side(tris[i], front) && tris[i].vertex[j] == y {
        assert(0 <= i < tris.len() && 0 <= j < 3 && 3 * i + j < 3 * i + j + 1 && on_side(tris[i], front)
            && tris[i].vertex[j] == y);
    }
}

impl Model {
    /// The positions of the model have texture coordinate records and the triangles
    /// refer to positions that exist.
    pub open spec fn sides_consistent(&self) -> bool {
        &&& 0 <= self.header.num_verices <= self.texcoords@.len()
        &&& forall|i: int, j: int| 0 <= i < self.triangles@.len() && 0 <= j < 3 ==> {
            &&& 0 <= #[trigger] self.triangles@[i].vertex[j]
            &&& self.triangles@[i].vertex[j] < self.header.num_verices
        }
    }

    /// Whether the triangles refer to positions that exist and have texture
    /// coordinate records (see `sides_consistent`).
    pub fn sides_valid(&self) -> (r: bool)
        ensures
            r == self.sides_consistent(),
    {
        let nv = self.header.num_verices;
        if nv < 0 || nv as usize > self.texcoords.len() {
            return false;
        }
        let mut i: usize = 0;
        while i < self.triangles.len()
            invariant
                0 <= nv <= self.texcoords@.len(),
                nv == self.header.num_verices,
                i <= self.triangles@.len(),
                forall|k: int, j: int| 0 <= k < i && 0 <= j < 3 ==> {
                    &&& 0 <= #[trigger] self.triangles@[k].vertex[j]
                    &&& self.triangles@[k].vertex[j] < nv
                },
            decreases self.triangles@.len() - i,
        {
            let tri = self.triangles[i];
            let mut j: usize = 0;
            while j < 3
                invariant
                    0 <= nv <= self.texcoords@.len(),
                    nv == self.header.num_verices,
                    i < self.triangles@.len(),
                    tri == self.triangles@[i as int],
                    j <= 3,
                    forall|k: int, jj: int| 0 <= k < i && 0 <= jj < 3 ==> {
                        &&& 0 <= #[trigger] self.triangles@[k].vertex[jj]
                        &&& self.triangles@[k].vertex[jj] < nv
                    },
                    forall|jj: int| 0 <= jj < j ==> 0 <= #[trigger] tri.vertex[jj] && tri.vertex[jj] < nv,
                decreases 3 - j,
            {
                if tri.vertex[j] < 0 || tri.vertex[j] >= nv {
                    proof {
                        let x = self.triangles@[i as int].vertex[j as int];
                        assert(!(0 <= x && x < nv));
                    }
                    return false;
                }
                j = j + 1;
            }
            i = i + 1;
        }
        true
    }

    /// Splits the triangles by facing. Each side lists the position indices of its
    /// triangles in order, and gives each position the texture coordinate its
    /// triangles use: unshifted on the front; on the back, shifted half a skin width
    /// for seam positions. Positions that no triangle of a side uses keep a zero
    /// coordinate there.
    pub fn faces_by_side(&self) -> (r: SidedFaces)
        requires
            self.sides_consistent(),
        ensures
            r.texcoords_front@.len() == self.header.num_verices,
            r.texcoords_back@.len() == self.header.num_verices,
            forall|x: int| 0 <= x < self.header.num_verices ==> #[trigger] r.texcoords_front@[x] == side_uv(*self, true, x),
            forall|x: int| 0 <= x < self.header.num_verices ==> #[trigger] r.texcoords_back@[x] == side_uv(*self, false, x),
            r.indices_front@ == side_indices(self.triangles@, true),
            r.indices_back@ == side_indices(self.triangles@, false),
    {
        let n = self.header.num_verices as usize;
        let w = self.header.skin_width;
        let ghost tris = self.triangles@;
        let mut texcoords_front: Vec<(i64, i64)> = Vec::new();
        let mut texcoords_back: Vec<(i64, i64)> = Vec::new();
        let mut x: usize = 0;
        while x < n
            invariant
                x <= n,
                texcoords_front@ == Seq::new(x as nat, |i: int| (0i64, 0i64)),
                texcoords_back@ == Seq::new(x as nat, |i: int| (0i64, 0i64)),
            decreases n - x,
        {
            texcoords_front.push((0i64, 0i64));
            texcoords_back.push((0i64, 0i64));
            x = x + 1;
            proof {
                assert(texcoords_front@ =~= Seq::new(x as nat, |i: int| (0i64, 0i64)));
                assert(texcoords_back@ =~= Seq::new(x as nat, |i: int| (0i64, 0i64)));
            }
        }
        let mut indices_front: Vec<i32> = Vec::new();
        let mut indices_back: Vec<i32> = Vec::new();
        let mut i: usize = 0;
        while i < self.triangles.len()
            invariant
                self.sides_consistent(),
                n == self.header.num_verices,
                w == self.header.skin_width,
                tris == self.triangles@,
                i <= tris.len(),
                texcoords_front@.len() == n,
                texcoords_back@.len() == n,
                forall|y: int| 0 <= y < n ==> #[trigger] texcoords_front@[y] == (if used_before(tris, true, y, 3 * i) {
                    plain_uv(self.texcoords@[y])
                } else {
                    (0i64, 0i64)
                }),
                forall|y: int| 0 <= y < n ==> #[trigger] texcoords_back@[y] == (if used_before(tris, false, y, 3 * i) {
                    back_uv(self.texcoords@[y], w)
                } else {
                    (0i64, 0i64)
                }),
                indices_front@ == side_indices(tris.take(i as int), true),
                indices_back@ == side_indices(tris.take(i as int), false),
            decreases tris.len() - i,
        {
            let tri = self.triangles[i];
            let front = tri.facefront != 0;
            let mut j: usize = 0;
            while j < 3
                invariant
                    self.sides_consistent(),
                    n == self.header.num_verices,
                    w == self.header.skin_width,
                    tris == self.triangles@,
                    i < tris.len(),
                    tri == tris[i as int],
                    front == (tri.facefront != 0),
                    j <= 3,
                    texcoords_front@.len() == n,
                    texcoords_back@.len() == n,
                    forall|y: int| 0 <= y < n ==> #[trigger] texcoords_front@[y] == (if used_before(tris, true, y, 3 * i + j) {
                        plain_uv(self.texcoords@[y])
                    } else {
                        (0i64, 0i64)
                    }),
                    forall|y: int| 0 <= y < n ==> #[trigger] texcoords_back@[y] == (if used_before(tris, false, y, 3 * i + j) {
                        back_uv(self.texcoords@[y], w)
                    } else {
                        (0i64, 0i64)
                    }),
                decreases 3 - j,
            {
                let v = tri.vertex[j] as usize;
                let c = self.texcoords[v];
                proof {
                    assert forall|y: int| 0 <= y < n implies #[trigger] used_before(tris, true, y, 3 * i + j + 1)
                        == (used_before(tris, true, y, 3 * i + j) || (on_side(tris[i as int], true) && y == v)) by {
                        lemma_used_step(tris, true, i as int, j as int, y);
                    }
                    assert forall|y: int| 0 <= y < n implies #[trigger] used_before(tris, false, y, 3 * i + j + 1)
                        == (used_before(tris, false, y, 3 * i + j) || (on_side(tris[i as int], false) && y == v)) by {
                        lemma_used_step(tris, false, i as int, j as int, y);
                    }
                }
                if front {
                    texcoords_front.set(v, (2 * (c.s as i64) + 1, 2 * (c.t as i64) + 1));
                } else if c.onseam > 0 {
                    texcoords_back.set(v, (2 * (c.s as i64) + 1 + (w as i64), 2 * (c.t as i64) + 1));
                } else {
                    texcoords_back.set(v, (2 * (c.s as i64) + 1, 2 * (c.t as i64) + 1));
                }
                j = j + 1;
            }
            if front {
                indices_front.push(tri.vertex[0]);
                indices_front.push(tri.vertex[1]);
                indices_front.push(tri.vertex[2]);
            } else {
                indices_back.push(tri.vertex[0]);
                indices_back.push(tri.vertex[1]);
                indices_back.push(tri.vertex[2]);
            }
            proof {
                let t1 = tris.take(i + 1);
                assert(t1.drop_last() =~= tris.take(i as int));
                assert(t1.last() == tri);
                assert(tri.vertex@ =~= seq![tri.vertex[0], tri.vertex[1], tri.vertex[2]]);
                if front {
                    assert(indices_front@ =~= side_indices(tris.take(i as int), true) + tri.vertex@);
                } else {
                    assert(indices_back@ =~= side_indices(tris.take(i as int), false) + tri.vertex@);
                }
            }
            i = i + 1;
        }
        proof {
            assert(tris.take(i as int) =~= tris);
        }
        SidedFaces { texcoords_front, texcoords_back, indices_front, indices_back }
    }
}

} // verus!
