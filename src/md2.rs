//! The MD2 format: positions and texture coordinates in separate index spaces,
//! one scale and translation per frame, and an optional stream of fan and strip
//! drawing hints.
use vstd::prelude::*;
use vstd::utf8::{decode_utf8, valid_utf8};

use crate::bytes::{
    count, count_of, fits, le_i16, le_i32, le_u16, le_u32, lemma_next_record, read_i16_at, read_i32_at, read_u16_at,
    read_u32_at, section,
};
use crate::{c_str, to_utf8, Error, ErrorKind, Result};

verus! {

pub const MAX_TRIANGLES: u16 = 4096;
pub const MAX_VERTICES: u16 = 2048;
pub const MAX_TEXCOORDS: u16 = 2048;
pub const MAX_FRAMES: u16 = 512;
pub const MAX_SKINS: u16 = 32;

/// The signature "IDP2" read as a little-endian integer.
pub const HEADER_IDENT: i32 = 844121161;
pub const HEADER_VERSION: i32 = 8;

/// Size in bytes of the header: seventeen 32-bit integers.
pub const HEADER_SIZE: usize = 68;

/// The last frame that the conventional animations use.
pub const MAX_ANIMATIONS: u8 = 198;

/// The conventional animations of a player model, in the order of `ANIMATIONS`.
#[allow(non_camel_case_types)]
#[derive(Debug, Clone, Copy, PartialEq, Eq, Structural)]
pub enum Animation {
    STAND,
    RUN,
    ATTACK,
    PAIN_A,
    PAIN_B,
    PAIN_C,
    JUMP,
    FLIP,
    SALUTE,
    FALLBACK,
    WAVE,
    POINT,
    CROUCH_STAND,
    CROUCH_WALK,
    CROUCH_ATTACK,
    CROUCH_PAIN,
    CROUCH_DEATH,
    DEATH_FALLBACK,
    DEATH_FALLFORWARD,
    DEATH_FALLBACKSLOW,
    BOOM,
}

/// First frame, last frame and frames per second of each animation, in the order of
/// `Animation`.
pub const ANIMATIONS: [[u8; 3]; 21] = [
    [0, 39, 9],
    [40, 45, 10],
    [46, 53, 10],
    [54, 57, 7],
    [58, 61, 7],
    [62, 65, 7],
    [66, 71, 7],
    [72, 83, 7],
    [84, 94, 7],
    [95, 111, 10],
    [112, 122, 7],
    [123, 134, 6],
    [135, 153, 10],
    [154, 159, 7],
    [160, 168, 10],
    [196, 172, 7],
    [173, 177, 5],
    [178, 183, 7],
    [184, 189, 7],
    [190, 197, 7],
    [198, 198, 5],
];

/// Whether a run of drawing hints forms a triangle fan or a triangle strip.
#[derive(Debug, Clone, Copy, PartialEq, Eq, Structural)]
pub enum CommandType {
    Fan,
    Strip,
}

/// One vertex of a drawing hint: texture coordinates, kept as the bit patterns of
/// the stored 32-bit floats, and a position index.
#[derive(Debug, Clone, Copy, PartialEq, Eq, Structural)]
pub struct CommandPacket {
    pub s: u32,
    pub t: u32,
    pub i: i32,
}

/// A fan or strip of vertices.
#[derive(Debug)]
pub struct Command {
    pub typ: CommandType,
    pub packets: Vec<CommandPacket>,
}

/// What the decoder of drawing hints reads next: the signed vertex count of a run;
/// or, for each of the run's remaining vertices, `s`, `t` and the position index, with
/// what was read of that vertex so far.
#[derive(Debug, Clone, Copy, PartialEq, Eq, Structural)]
pub enum NextCommand {
    Typ,
    S(CommandType, u32),
    T(CommandType, u32, u32),
    I(CommandType, u32, u32, u32),
}

/// The fixed-size header at the start of the file.
#[derive(Debug, Clone, Copy, PartialEq, Eq, Structural)]
pub struct Header {
    pub ident: i32,
    pub version: i32,
    pub skin_width: i32,
    pub skin_height: i32,
    pub frame_size: i32,
    pub num_skins: i32,
    pub num_vertices: i32,
    pub num_texcoords: i32,
    pub num_faces: i32,
    pub num_gl_cmds: i32,
    pub num_frames: i32,
    pub offset_skins: i32,
    pub offset_texcoords: i32,
    pub offset_faces: i32,
    pub offset_frames: i32,
    pub offset_gl_cmds: i32,
    pub offset_end: i32,
}

/// Texel coordinates of a triangle corner.
#[derive(Debug, Clone, Copy, PartialEq, Eq, Structural)]
pub struct TexCoord {
    pub s: i16,
    pub t: i16,
}

/// A triangle: three position indices and three texture coordinate indices.
#[derive(Debug, Clone, Copy)]
pub struct Triangle {
    pub vertex: [u16; 3],
    pub st_idx: [u16; 3],
}

/// A packed position (one byte per axis) and the index of its normal.
#[derive(Debug, Clone, Copy)]
pub struct Vertex {
    pub v: [u8; 3],
    pub normal_idx: u8,
}

/// One key frame: packed positions with the bit patterns of the 32-bit floats that
/// unpack them (`position = v * scale + translate`, per axis).
#[derive(Debug)]
pub struct Frame {
    pub scale: [u32; 3],
    pub translate: [u32; 3],
    pub name: String,
    pub vertices: Vec<Vertex>,
}

/// A decoded MD2 file.
#[derive(Debug)]
pub struct Model {
    pub header: Header,
    pub skin_names: Vec<String>,
    pub texcoords: Vec<TexCoord>,
    pub faces: Vec<Triangle>,
    pub frames: Vec<Frame>,
    pub commands: Vec<Command>,
}

/// The header as stored in the first bytes of `b`.
pub open spec fn header_at(b: Seq<u8>) -> Header {
    Header {
        ident: le_i32(b, 0) as i32,
        version: le_i32(b, 4) as i32,
        skin_width: le_i32(b, 8) as i32,
        skin_height: le_i32(b, 12) as i32,
        frame_size: le_i32(b, 16) as i32,
        num_skins: le_i32(b, 20) as i32,
        num_vertices: le_i32(b, 24) as i32,
        num_texcoords: le_i32(b, 28) as i32,
        num_faces: le_i32(b, 32) as i32,
        num_gl_cmds: le_i32(b, 36) as i32,
        num_frames: le_i32(b, 40) as i32,
        offset_skins: le_i32(b, 44) as i32,
        offset_texcoords: le_i32(b, 48) as i32,
        offset_faces: le_i32(b, 52) as i32,
        offset_frames: le_i32(b, 56) as i32,
        offset_gl_cmds: le_i32(b, 60) as i32,
        offset_end: le_i32(b, 64) as i32,
    }
}

/// The error that the header of `b` gives, if any.
pub open spec fn header_error(b: Seq<u8>) -> Option<ErrorKind> {
    if b.len() < HEADER_SIZE {
        Some(ErrorKind::Truncated)
    } else if header_at(b).ident != HEADER_IDENT {
        Some(ErrorKind::IdentityMismatch { expected: HEADER_IDENT, actual: header_at(b).ident })
    } else if header_at(b).version != HEADER_VERSION {
        Some(ErrorKind::VersionMismatch { expected: HEADER_VERSION, actual: header_at(b).version })
    } else {
        None
    }
}

/// The bytes of a text field of `len` bytes at `pos`, up to its first zero byte.
pub open spec fn text_at(b: Seq<u8>, pos: int, len: int) -> Seq<u8> {
    c_str(b.subrange(pos, pos + len))
}

/// The error that the skin name at `pos` gives, if any: it must be within the data
/// and valid UTF-8.
pub open spec fn skin_name_error(b: Seq<u8>, pos: int) -> Option<ErrorKind> {
    if pos < 0 || pos + 64 > b.len() {
        Some(ErrorKind::Truncated)
    } else if !valid_utf8(text_at(b, pos, 64)) {
        Some(ErrorKind::EncodingFailure)
    } else {
        None
    }
}

/// The first error among skin names `i` and after, if any.
pub open spec fn skin_names_error(b: Seq<u8>, h: Header, i: int) -> Option<ErrorKind>
    decreases count_of(h.num_skins) - i,
{
    if i < 0 || i >= count_of(h.num_skins) {
        None
    } else if skin_name_error(b, h.offset_skins + 64 * i) is Some {
        skin_name_error(b, h.offset_skins + 64 * i)
    } else {
        skin_names_error(b, h, i + 1)
    }
}

/// The texture coordinate record at `pos`.
pub open spec fn texcoord_at(b: Seq<u8>, pos: int) -> TexCoord {
    TexCoord { s: le_i16(b, pos) as i16, t: le_i16(b, pos + 2) as i16 }
}

/// Whether `tri` is the triangle record at `pos`.
pub open spec fn triangle_at(b: Seq<u8>, pos: int, tri: Triangle) -> bool {
    &&& tri.vertex[0] == le_u16(b, pos)
    &&& tri.vertex[1] == le_u16(b, pos + 2)
    &&& tri.vertex[2] == le_u16(b, pos + 4)
    &&& tri.st_idx[0] == le_u16(b, pos + 6)
    &&& tri.st_idx[1] == le_u16(b, pos + 8)
    &&& tri.st_idx[2] == le_u16(b, pos + 10)
}

impl Model {
    /// Reads the header and checks the signature and the revision.
    fn read_header(b: &[u8]) -> (r: Result<Header>)
        ensures
            r is Ok <==> header_error(b@) is None,
            r matches Err(e) ==> header_error(b@) == Some(e.kind),
            r matches Ok(h) ==> h == header_at(b@),
    {
        if b.len() < HEADER_SIZE {
            return Err(Error::io("failed to read header"));
        }
        let header = Header {
            ident: read_i32_at(b, 0),
            version: read_i32_at(b, 4),
            skin_width: read_i32_at(b, 8),
            skin_height: read_i32_at(b, 12),
            frame_size: read_i32_at(b, 16),
            num_skins: read_i32_at(b, 20),
            num_vertices: read_i32_at(b, 24),
            num_texcoords: read_i32_at(b, 28),
            num_faces: read_i32_at(b, 32),
            num_gl_cmds: read_i32_at(b, 36),
            num_frames: read_i32_at(b, 40),
            offset_skins: read_i32_at(b, 44),
            offset_texcoords: read_i32_at(b, 48),
            offset_faces: read_i32_at(b, 52),
            offset_frames: read_i32_at(b, 56),
            offset_gl_cmds: read_i32_at(b, 60),
            offset_end: read_i32_at(b, 64),
        };
        if header.ident != HEADER_IDENT {
            return Err(Error::ident(header.ident, HEADER_IDENT));
        }
        if header.version != HEADER_VERSION {
            return Err(Error::version(header.version, HEADER_VERSION));
        }
        Ok(header)
    }

    /// Reads the skin names: 64-byte zero-terminated UTF-8 fields, one after the
    /// other; fails at the first that is cut short or not UTF-8.
    fn read_skin_names(b: &[u8], header: &Header) -> (r: Result<Vec<String>>)
        ensures
            r is Ok <==> skin_names_error(b@, *header, 0) is None,
            r matches Err(e) ==> skin_names_error(b@, *header, 0) == Some(e.kind),
            r matches Ok(v) ==> v@.len() == count_of(header.num_skins) && forall|i: int| 0 <= i < v@.len()
                ==> #[trigger] v@[i]@ == decode_utf8(text_at(b@, header.offset_skins + 64 * i, 64)),
    {
        let ghost h = *header;
        let ghost off = header.offset_skins as int;
        let n = count(header.num_skins);
        let mut names: Vec<String> = Vec::new();
        if n == 0 {
            return Ok(names);
        }
        if header.offset_skins < 0 {
            return Err(Error::io("offset_skins failed."));
        }
        let len = b.len();
        let mut pos = header.offset_skins as usize;
        let mut i: usize = 0;
        while i < n
            invariant
                len == b@.len(),
                h == *header,
                i <= n,
                n == count_of(h.num_skins),
                off == h.offset_skins,
                0 <= off,
                pos == off + 64 * i,
                skin_names_error(b@, h, 0) == skin_names_error(b@, h, i as int),
                names@.len() == i,
                forall|k: int| 0 <= k < i ==> #[trigger] names@[k]@ == decode_utf8(text_at(b@, off + 64 * k, 64)),
            decreases n - i,
        {
            if pos > len || len - pos < 64 {
                return Err(Error::io("skin_name: read_exact failed."));
            }
            match to_utf8(&b[pos..pos + 64]) {
                Ok(name) => names.push(name),
                Err(e) => return Err(Error::utf8(e, "failed to convert skin name to utf8")),
            }
            pos = pos + 64;
            i = i + 1;
        }
        Ok(names)
    }

    /// Reads the texture coordinate records: two 16-bit integers each.
    fn read_texcoords(b: &[u8], header: &Header) -> (r: Result<Vec<TexCoord>>)
        ensures
            ({
                let off = header.offset_texcoords as int;
                let n = count_of(header.num_texcoords);
                &&& r is Ok <==> fits(b@.len(), off, n, 4)
                &&& r matches Err(e) ==> e.kind == ErrorKind::Truncated
                &&& r matches Ok(v) ==> v@.len() == n && forall|i: int| 0 <= i < n
                    ==> #[trigger] v@[i] == texcoord_at(b@, off + 4 * i)
            }),
    {
        let ghost off = header.offset_texcoords as int;
        let n = count(header.num_texcoords);
        if n == 0 {
            return Ok(Vec::new());
        }
        let start = match section(b.len(), header.offset_texcoords, header.num_texcoords, 4) {
            Some(p) => p,
            None => return Err(Error::io("offset_texcoords failed.")),
        };
        let mut texcoords: Vec<TexCoord> = Vec::new();
        let len = b.len();
        let mut pos = start;
        let mut i: usize = 0;
        while i < n
            invariant
                len == b@.len(),
                i <= n,
                n == count_of(header.num_texcoords),
                off == header.offset_texcoords,
                fits(b@.len(), off, n as nat, 4),
                pos == off + 4 * i,
                texcoords@.len() == i,
                forall|k: int| 0 <= k < i ==> #[trigger] texcoords@[k] == texcoord_at(b@, off + 4 * k),
            decreases n - i,
        {
            proof {
                lemma_next_record(off, i as int, n as int, 4);
                assert(pos + 4 <= b@.len());
            }
            let s = read_i16_at(b, pos);
            let t = read_i16_at(b, pos + 2);
            texcoords.push(TexCoord { s, t });
            pos = pos + 4;
            i = i + 1;
        }
        Ok(texcoords)
    }

    /// Reads the triangle records: six 16-bit indices each.
    fn read_faces(b: &[u8], header: &Header) -> (r: Result<Vec<Triangle>>)
        ensures
            ({
                let off = header.offset_faces as int;
                let n = count_of(header.num_faces);
                &&& r is Ok <==> fits(b@.len(), off, n, 12)
                &&& r matches Err(e) ==> e.kind == ErrorKind::Truncated
                &&& r matches Ok(v) ==> v@.len() == n && forall|i: int| 0 <= i < n
                    ==> #[trigger] triangle_at(b@, off + 12 * i, v@[i])
            }),
    {
        let ghost off = header.offset_faces as int;
        let n = count(header.num_faces);
        if n == 0 {
            return Ok(Vec::new());
        }
        let start = match section(b.len(), header.offset_faces, header.num_faces, 12) {
            Some(p) => p,
            None => return Err(Error::io("offset_faces failed.")),
        };
        let mut faces: Vec<Triangle> = Vec::new();
        let len = b.len();
        let mut pos = start;
        let mut i: usize = 0;
        while i < n
            invariant
                len == b@.len(),
                i <= n,
                n == count_of(header.num_faces),
                off == header.offset_faces,
                fits(b@.len(), off, n as nat, 12),
                pos == off + 12 * i,
                faces@.len() == i,
                forall|k: int| 0 <= k < i ==> #[trigger] triangle_at(b@, off + 12 * k, faces@[k]),
            decreases n - i,
        {
            proof {
                lemma_next_record(off, i as int, n as int, 12);
                assert(pos + 12 <= b@.len());
            }
            let x = read_u16_at(b, pos);
            let y = read_u16_at(b, pos + 2);
            let z = read_u16_at(b, pos + 4);
            let si = read_u16_at(b, pos + 6);
            let sj = read_u16_at(b, pos + 8);
            let sk = read_u16_at(b, pos + 10);
            faces.push(Triangle { vertex: [x, y, z], st_idx: [si, sj, sk] });
            pos = pos + 12;
            i = i + 1;
        }
        Ok(faces)
    }
}

/// The magnitude of a run's signed vertex count.
pub open spec fn run_length(n: i32) -> u32 {
    if n > 0 {
        n as u32
    } else {
        (-(n as int)) as u32
    }
}

/// The transition of the drawing hint decoder on one 32-bit token: `None` on a zero
/// count, which ends the stream; otherwise the next state, the vertex completed by
/// the token if any, and the kind of the run completed by the token if any. A
/// positive count starts a fan, a negative one a strip.
pub open spec fn command_step(state: NextCommand, word: u32) -> Option<(NextCommand, Option<CommandPacket>, Option<CommandType>)> {
    match state {
        NextCommand::Typ => {
            let n = word as i32;
            if n == 0 {
                None
            } else if n > 0 {
                Some((NextCommand::S(CommandType::Fan, run_length(n)), None, None))
            } else {
                Some((NextCommand::S(CommandType::Strip, run_length(n)), None, None))
            }
        },
        NextCommand::S(typ, n) => Some((NextCommand::T(typ, n, word), None, None)),
        NextCommand::T(typ, n, st) => Some((NextCommand::I(typ, n, st, word), None, None)),
        NextCommand::I(typ, n, st, tt) => {
            let packet = CommandPacket { s: st, t: tt, i: word as i32 };
            if n <= 1 {
                Some((NextCommand::Typ, Some(packet), Some(typ)))
            } else {
                Some((NextCommand::S(typ, (n - 1) as u32), Some(packet), None))
            }
        },
    }
}

/// Where the drawing hint decoder stands after some tokens: its state, the runs
/// completed, the vertices of the run under way, whether the stream has ended, and
/// whether the data ran out first.
pub struct CommandScan {
    pub state: NextCommand,
    pub commands: Seq<(CommandType, Seq<CommandPacket>)>,
    pub packets: Seq<CommandPacket>,
    pub stopped: bool,
    pub short: bool,
}

/// The decoder after taking one token.
pub open spec fn scan_token(sc: CommandScan, word: u32) -> CommandScan {
    match command_step(sc.state, word) {
        None => CommandScan { stopped: true, ..sc },
        Some((next, packet, done)) => {
            let packets = match packet {
                Some(p) => sc.packets.push(p),
                None => sc.packets,
            };
            match done {
                Some(typ) => CommandScan {
                    state: next,
                    commands: sc.commands.push((typ, packets)),
                    packets: Seq::empty(),
                    ..sc
                },
                None => CommandScan { state: next, packets, ..sc },
            }
        },
    }
}

/// The decoder after up to `k` tokens of the stream at `off`: it takes none after the
/// stream's end, nor once the data has run out.
pub open spec fn command_scan(b: Seq<u8>, off: int, k: nat) -> CommandScan
    decreases k,
{
    if k == 0 {
        CommandScan { state: NextCommand::Typ, commands: Seq::empty(), packets: Seq::empty(), stopped: false, short: false }
    } else {
        let sc = command_scan(b, off, (k - 1) as nat);
        if sc.stopped || sc.short {
            sc
        } else if off + 4 * (k - 1) + 4 > b.len() {
            CommandScan { short: true, ..sc }
        } else {
            scan_token(sc, le_u32(b, off + 4 * (k - 1)) as u32)
        }
    }
}

proof fn lemma_scan_settled(b: Seq<u8>, off: int, k: nat, m: nat)
    requires
        k <= m,
        command_scan(b, off, k).stopped || command_scan(b, off, k).short,
    ensures
        command_scan(b, off, m) == command_scan(b, off, k),
    decreases m - k,
{
    if k < m {
        lemma_scan_settled(b, off, k, (m - 1) as nat);
    }
}

/// One transition of the drawing hint decoder.
fn next_command(state: NextCommand, word: u32) -> (r: Option<(NextCommand, Option<CommandPacket>, Option<CommandType>)>)
    ensures
        r == command_step(state, word),
{
    match state {
        NextCommand::Typ => {
            let n = word as i32;
            if n == 0 {
                None
            } else if n > 0 {
                Some((NextCommand::S(CommandType::Fan, n as u32), None, None))
            } else {
                Some((NextCommand::S(CommandType::Strip, (0i64 - n as i64) as u32), None, None))
            }
        },
        NextCommand::S(typ, n) => Some((NextCommand::T(typ, n, word), None, None)),
        NextCommand::T(typ, n, st) => Some((NextCommand::I(typ, n, st, word), None, None)),
        NextCommand::I(typ, n, st, tt) => {
            let packet = CommandPacket { s: st, t: tt, i: word as i32 };
            if n <= 1 {
                Some((NextCommand::Typ, Some(packet), Some(typ)))
            } else {
                Some((NextCommand::S(typ, n - 1), Some(packet), None))
            }
        },
    }
}

/// `v` holds the runs `cmds`.
pub open spec fn commands_match(v: Seq<Command>, cmds: Seq<(CommandType, Seq<CommandPacket>)>) -> bool {
    &&& v.len() == cmds.len()
    &&& forall|i: int| 0 <= i < v.len() ==> #[trigger] v[i].typ == cmds[i].0 && v[i].packets@ == cmds[i].1
}

/// Whether `v` is the packed position stored at `pos`.
pub open spec fn vertex_at(b: Seq<u8>, pos: int, v: Vertex) -> bool {
    &&& v.v[0] == b[pos]
    &&& v.v[1] == b[pos + 1]
    &&& v.v[2] == b[pos + 2]
    &&& v.normal_idx == b[pos + 3]
}

/// Reads the packed position at `pos`.
fn read_vertex(b: &[u8], pos: usize) -> (r: Vertex)
    requires
        pos + 4 <= b@.len(),
    ensures
        vertex_at(b@, pos as int, r),
{
    Vertex { v: [b[pos], b[pos + 1], b[pos + 2]], normal_idx: b[pos + 3] }
}

/// Whether `f` is the frame stored at `pos` with `nv` positions.
pub open spec fn frame_at(b: Seq<u8>, pos: int, nv: nat, f: Frame) -> bool {
    &&& forall|a: int| 0 <= a < 3 ==> #[trigger] f.scale[a] == le_u32(b, pos + 4 * a)
    &&& forall|a: int| 0 <= a < 3 ==> #[trigger] f.translate[a] == le_u32(b, pos + 12 + 4 * a)
    &&& f.name@ == decode_utf8(text_at(b, pos + 24, 16))
    &&& f.vertices@.len() == nv
    &&& forall|v: int| 0 <= v < nv ==> #[trigger] vertex_at(b, pos + 40 + 4 * v, f.vertices@[v])
}

/// Bytes per frame of a model with `nv` positions per frame.
pub open spec fn frame_stride(nv: nat) -> nat {
    40 + 4 * nv
}

/// The error that the frame at `pos` gives, if any, in the order of its fields: its
/// scale, translation and name must be within the data, its name valid UTF-8, and
/// its `nv` positions within the data.
pub open spec fn frame_error(b: Seq<u8>, pos: int, nv: nat) -> Option<ErrorKind> {
    if pos < 0 || pos + 40 > b.len() {
        Some(ErrorKind::Truncated)
    } else if !valid_utf8(text_at(b, pos + 24, 16)) {
        Some(ErrorKind::EncodingFailure)
    } else if pos + frame_stride(nv) > b.len() {
        Some(ErrorKind::Truncated)
    } else {
        None
    }
}

/// Where frame `i` starts.
pub open spec fn frame_pos(h: Header, i: int) -> int {
    h.offset_frames + i * frame_stride(count_of(h.num_vertices))
}

/// The first error among frames `i` and after, if any.
pub open spec fn frames_error(b: Seq<u8>, h: Header, i: int) -> Option<ErrorKind>
    decreases count_of(h.num_frames) - i,
{
    if i < 0 || i >= count_of(h.num_frames) {
        None
    } else if frame_error(b, frame_pos(h, i), count_of(h.num_vertices)) is Some {
        frame_error(b, frame_pos(h, i), count_of(h.num_vertices))
    } else {
        frames_error(b, h, i + 1)
    }
}

impl Model {
    /// Reads the stream of drawing hints: `num_gl_cmds` tokens at most, up to a zero
    /// count. A run left unfinished at the end is dropped.
    fn read_commands(b: &[u8], header: &Header) -> (r: Result<Vec<Command>>)
        ensures
            ({
                let off = header.offset_gl_cmds as int;
                let sc = command_scan(b@, off, count_of(header.num_gl_cmds));
                &&& r is Ok <==> count_of(header.num_gl_cmds) == 0 || (off >= 0 && !sc.short)
                &&& r matches Err(e) ==> e.kind == ErrorKind::Truncated
                &&& r matches Ok(v) ==> commands_match(v@, sc.commands)
            }),
    {
        if header.num_gl_cmds <= 0 {
            return Ok(Vec::new());
        }
        if header.offset_gl_cmds < 0 {
            return Err(Error::io("offset_gl_cmds failed."));
        }
        let ghost off = header.offset_gl_cmds as int;
        let n = count(header.num_gl_cmds);
        let len = b.len();
        let mut pos = header.offset_gl_cmds as usize;
        let mut state = NextCommand::Typ;
        let mut packets: Vec<CommandPacket> = Vec::new();
        let mut commands: Vec<Command> = Vec::new();
        let mut k: usize = 0;
        while k < n
            invariant_except_break
                len == b@.len(),
                k <= n,
                n == count_of(header.num_gl_cmds),
                off == header.offset_gl_cmds,
                pos == off + 4 * k,
                ({
                    let sc = command_scan(b@, off, k as nat);
                    &&& !sc.stopped && !sc.short
                    &&& sc.state == state
                    &&& sc.packets == packets@
                    &&& commands_match(commands@, sc.commands)
                }),
            ensures
                ({
                    let sc = command_scan(b@, off, n as nat);
                    &&& !sc.short
                    &&& commands_match(commands@, sc.commands)
                }),
            decreases n - k,
        {
            let ghost sc = command_scan(b@, off, k as nat);
            if pos > len || len - pos < 4 {
                proof {
                    lemma_scan_settled(b@, off, (k + 1) as nat, n as nat);
                }
                return Err(Error::io("failed to read drawing hints."));
            }
            let word = read_u32_at(b, pos);
            match next_command(state, word) {
                None => {
                    proof {
                        lemma_scan_settled(b@, off, (k + 1) as nat, n as nat);
                    }
                    break;
                },
                Some((next, packet, done)) => {
                    match packet {
                        Some(p) => packets.push(p),
                        None => {},
                    }
                    match done {
                        Some(typ) => {
                            commands.push(Command { typ, packets });
                            packets = Vec::new();
                        },
                        None => {},
                    }
                    state = next;
                    proof {
                        let sc1 = command_scan(b@, off, (k + 1) as nat);
                        assert(sc1 == scan_token(sc, word));
                        assert(commands_match(commands@, sc1.commands));
                    }
                },
            }
            pos = pos + 4;
            k = k + 1;
        }
        Ok(commands)
    }

    /// Reads one frame of `nv` positions at `pos`.
    fn read_frame(b: &[u8], pos: usize, nv: usize) -> (r: Result<Frame>)
        requires
            pos <= b@.len(),
            nv <= 0x8000_0000,
        ensures
            r is Ok <==> frame_error(b@, pos as int, nv as nat) is None,
            r matches Err(e) ==> frame_error(b@, pos as int, nv as nat) == Some(e.kind),
            r matches Ok(f) ==> frame_at(b@, pos as int, nv as nat, f),
    {
        let len = b.len();
        if len - pos < 40 {
            return Err(Error::io("failed to read frame."));
        }
        let scale = [read_u32_at(b, pos), read_u32_at(b, pos + 4), read_u32_at(b, pos + 8)];
        let translate = [read_u32_at(b, pos + 12), read_u32_at(b, pos + 16), read_u32_at(b, pos + 20)];
        let name = match to_utf8(&b[pos + 24..pos + 40]) {
            Ok(name) => name,
            Err(e) => return Err(Error::utf8(e, "failed to convert frame name to utf8")),
        };
        if 4 * (nv as u64) > (len - pos - 40) as u64 {
            return Err(Error::io("failed to read vertices."));
        }
        let mut vertices: Vec<Vertex> = Vec::new();
        let mut q = pos + 40;
        let mut v: usize = 0;
        while v < nv
            invariant
                len == b@.len(),
                pos + 40 + 4 * nv <= b@.len(),
                v <= nv,
                q == pos + 40 + 4 * v,
                vertices@.len() == v,
                forall|u: int| 0 <= u < v ==> #[trigger] vertex_at(b@, pos + 40 + 4 * u, vertices@[u]),
            decreases nv - v,
        {
            vertices.push(read_vertex(b, q));
            q = q + 4;
            v = v + 1;
        }
        let frame = Frame { scale, translate, name, vertices };
        proof {
            assert forall|a: int| 0 <= a < 3 implies #[trigger] frame.scale[a] == le_u32(b@, pos + 4 * a) by {}
            assert forall|a: int| 0 <= a < 3 implies #[trigger] frame.translate[a] == le_u32(b@, pos + 12 + 4 * a) by {}
        }
        Ok(frame)
    }

    /// Reads the frames: `num_frames` of them, one after the other; fails at the first
    /// that is cut short or has a name that is not UTF-8.
    fn read_frames(b: &[u8], header: &Header) -> (r: Result<Vec<Frame>>)
        ensures
            r is Ok <==> frames_error(b@, *header, 0) is None,
            r matches Err(e) ==> frames_error(b@, *header, 0) == Some(e.kind),
            r matches Ok(v) ==> v@.len() == count_of(header.num_frames) && forall|i: int| 0 <= i < v@.len()
                ==> #[trigger] frame_at(b@, frame_pos(*header, i), count_of(header.num_vertices), v@[i]),
    {
        let ghost h = *header;
        let n = count(header.num_frames);
        let nv = count(header.num_vertices);
        let mut frames: Vec<Frame> = Vec::new();
        if n == 0 {
            return Ok(frames);
        }
        if header.offset_frames < 0 {
            return Err(Error::io("offset_frames failed."));
        }
        let len = b.len();
        let mut pos = header.offset_frames as usize;
        let mut i: usize = 0;
        while i < n
            invariant
                len == b@.len(),
                h == *header,
                i <= n,
                n == count_of(h.num_frames),
                nv == count_of(h.num_vertices),
                pos == frame_pos(h, i as int),
                frames_error(b@, h, 0) == frames_error(b@, h, i as int),
                frames@.len() == i,
                forall|k: int| 0 <= k < i ==> #[trigger] frame_at(b@, frame_pos(h, k), nv as nat, frames@[k]),
            decreases n - i,
        {
            if pos > len {
                return Err(Error::io("failed to read frame."));
            }
            let frame = Self::read_frame(b, pos, nv)?;
            frames.push(frame);
            proof {
                lemma_next_record(h.offset_frames as int, i as int, i + 1, frame_stride(nv as nat) as int);
            }
            pos = pos + 40 + 4 * nv;
            i = i + 1;
        }
        Ok(frames)
    }
}

/// The first error met in decoding `b`, section by section in the order header,
/// skin names, texture coordinates, triangles, drawing hints, frames; `None` when
/// there is none.
pub open spec fn md2_error(b: Seq<u8>) -> Option<ErrorKind> {
    let h = header_at(b);
    let nv = count_of(h.num_vertices);
    if header_error(b) is Some {
        header_error(b)
    } else if skin_names_error(b, h, 0) is Some {
        skin_names_error(b, h, 0)
    } else if !fits(b.len(), h.offset_texcoords as int, count_of(h.num_texcoords), 4) {
        Some(ErrorKind::Truncated)
    } else if !fits(b.len(), h.offset_faces as int, count_of(h.num_faces), 12) {
        Some(ErrorKind::Truncated)
    } else if count_of(h.num_gl_cmds) > 0 && (h.offset_gl_cmds < 0 || command_scan(
        b,
        h.offset_gl_cmds as int,
        count_of(h.num_gl_cmds),
    ).short) {
        Some(ErrorKind::Truncated)
    } else {
        frames_error(b, h, 0)
    }
}

/// `m` is the model that `b` stores.
pub open spec fn md2_decoded(b: Seq<u8>, m: Model) -> bool {
    let h = header_at(b);
    let nv = count_of(h.num_vertices);
    &&& m.header == h
    &&& m.skin_names@.len() == count_of(h.num_skins)
    &&& forall|i: int| 0 <= i < m.skin_names@.len()
        ==> #[trigger] m.skin_names@[i]@ == decode_utf8(text_at(b, h.offset_skins + 64 * i, 64))
    &&& m.texcoords@.len() == count_of(h.num_texcoords)
    &&& forall|i: int| 0 <= i < m.texcoords@.len() ==> #[trigger] m.texcoords@[i] == texcoord_at(b, h.offset_texcoords + 4 * i)
    &&& m.faces@.len() == count_of(h.num_faces)
    &&& forall|i: int| 0 <= i < m.faces@.len() ==> #[trigger] triangle_at(b, h.offset_faces + 12 * i, m.faces@[i])
    &&& commands_match(m.commands@, command_scan(b, h.offset_gl_cmds as int, count_of(h.num_gl_cmds)).commands)
    &&& m.frames@.len() == count_of(h.num_frames)
    &&& forall|i: int| 0 <= i < m.frames@.len() ==> #[trigger] frame_at(b, frame_pos(h, i), nv, m.frames@[i])
}

impl Model {
    /// Decodes a model from the whole contents of an MD2 file: the header, checked for
    /// the format's signature and revision, then each section at the offset the
    /// header gives.
    pub fn from_reader(b: &[u8]) -> (r: Result<Self>)
        ensures
            r is Ok <==> md2_error(b@) is None,
            r matches Err(e) ==> md2_error(b@) == Some(e.kind),
            r matches Ok(m) ==> md2_decoded(b@, m),
    {
        let header = Self::read_header(b)?;
        let skin_names = Self::read_skin_names(b, &header)?;
        let texcoords = Self::read_texcoords(b, &header)?;
        let faces = Self::read_faces(b, &header)?;
        let commands = Self::read_commands(b, &header)?;
        let frames = Self::read_frames(b, &header)?;
        Ok(Model { header, skin_names, texcoords, faces, frames, commands })
    }
}

} // verus!
