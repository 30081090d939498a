//! Flattening: one index space shared by positions, texture coordinates and
//! triangle corners.
//!
//! A flattened texture coordinate `(s, t)` is kept as two integers that stand for
//! `(s / (2 * skin_width), t / (2 * skin_height))`: the texel coordinate plus half a
//! texel, over the skin size.
use std::collections::HashMap;
use vstd::prelude::*;

use crate::md2;
use crate::mdl;
use crate::{Error, ErrorKind, Result};

verus! {

broadcast use vstd::std_specs::hash::group_hash_axioms;

/// Bit patterns of the 32-bit floats that unpack a frame's positions:
/// `position = v * scale + translate`, per axis.
#[derive(Debug, Clone, Copy)]
pub struct Transform {
    pub scale: [u32; 3],
    pub translate: [u32; 3],
}

/// A mesh whose frames, texture coordinates and triangles share one index space.
#[derive(Debug)]
pub struct FlatModel {
    /// One list of packed positions per frame, all of one length.
    pub vertices: Vec<Vec<[u8; 3]>>,
    /// How to unpack the positions of each frame.
    pub transforms: Vec<Transform>,
    /// One texture coordinate per slot, as halves of a texel (see the module's doc).
    pub texcoords: Vec<(i64, i64)>,
    pub skin_width: i32,
    pub skin_height: i32,
    /// Triangles, as three slots each.
    pub indices: Vec<(usize, usize, usize)>,
}

/// The state of a flattening: for each position index already met, the slot given to
/// each texture coordinate index met with it; the position index that each slot
/// copies; and the texture coordinate of each slot. MDL flattening, which shares no
/// slot between corners, leaves the first part empty.
pub struct Unified {
    pub slots: Map<usize, Map<usize, usize>>,
    pub origin: Seq<usize>,
    pub uv: Seq<(i64, i64)>,
}

/// Before any corner: each of the `n` positions is its own slot, with a zero
/// texture coordinate.
pub open spec fn start(n: nat) -> Unified {
    Unified {
        slots: Map::empty(),
        origin: Seq::new(n, |i: int| i as usize),
        uv: Seq::new(n, |i: int| (0i64, 0i64)),
    }
}

/// The slot that a corner with position `p` and texture coordinate index `t` gets.
pub open spec fn slot_for(u: Unified, p: usize, t: usize) -> usize {
    if !u.slots.contains_key(p) {
        p
    } else if u.slots[p].contains_key(t) {
        u.slots[p][t]
    } else {
        u.origin.len() as usize
    }
}

/// The state after a corner with position `p`, texture coordinate index `t` and
/// texture coordinate `st`: a position met for the first time keeps its own slot; a
/// pair met before reuses its slot; a new texture coordinate for a known position
/// gets a new slot at the end, copying that position.
pub open spec fn place(u: Unified, p: usize, t: usize, st: (i64, i64)) -> Unified {
    if !u.slots.contains_key(p) {
        Unified { slots: u.slots.insert(p, map![t => p]), origin: u.origin, uv: u.uv.update(p as int, st) }
    } else if u.slots[p].contains_key(t) {
        u
    } else {
        Unified {
            slots: u.slots.insert(p, u.slots[p].insert(t, u.origin.len() as usize)),
            origin: u.origin.push(p),
            uv: u.uv.push(st),
        }
    }
}

/// The state after the first `k` corners, each a pair of a position index and a
/// texture coordinate index into `uvs`, starting from `n` positions.
pub open spec fn unify(corners: Seq<(usize, usize)>, uvs: Seq<(i64, i64)>, n: nat, k: nat) -> Unified
    decreases k,
{
    if k == 0 {
        start(n)
    } else {
        let c = corners[k - 1];
        place(unify(corners, uvs, n, (k - 1) as nat), c.0, c.1, uvs[c.1 as int])
    }
}

/// The slot given to corner `k`.
pub open spec fn emitted(corners: Seq<(usize, usize)>, uvs: Seq<(i64, i64)>, n: nat, k: nat) -> usize {
    slot_for(unify(corners, uvs, n, k), corners[k as int].0, corners[k as int].1)
}

/// The frames of `base` seen through `origin`: slot `s` of a frame holds the
/// position `origin[s]` of that frame.
pub open spec fn spread(base: Seq<Seq<[u8; 3]>>, origin: Seq<usize>) -> Seq<Seq<[u8; 3]>> {
    base.map_values(|fr: Seq<[u8; 3]>| origin.map_values(|p: usize| fr[p as int]))
}

/// A flattened texture coordinate of the texel `(s, t)`: half a texel added.
pub open spec fn half_texel(s: int, t: int) -> (i64, i64) {
    ((2 * s + 1) as i64, (2 * t + 1) as i64)
}

/// Corner `k` of the MD2 triangles: position index and texture coordinate index.
pub open spec fn md2_corners(faces: Seq<md2::Triangle>) -> Seq<(usize, usize)> {
    Seq::new(
        3 * faces.len(),
        |k: int| (faces[k / 3].vertex[k % 3] as usize, faces[k / 3].st_idx[k % 3] as usize),
    )
}

/// The flattened texture coordinate of each MD2 texture coordinate record.
pub open spec fn md2_uvs(texcoords: Seq<md2::TexCoord>) -> Seq<(i64, i64)> {
    texcoords.map_values(|c: md2::TexCoord| half_texel(c.s as int, c.t as int))
}

/// The packed positions of each MD2 frame.
pub open spec fn md2_base(frames: Seq<md2::Frame>) -> Seq<Seq<[u8; 3]>> {
    frames.map_values(|f: md2::Frame| f.vertices@.map_values(|v: md2::Vertex| v.v))
}

/// Number of positions per frame of an MD2 model, taken from its first frame.
pub open spec fn md2_base_len(m: md2::Model) -> nat {
    if m.frames@.len() > 0 {
        m.frames@[0].vertices@.len()
    } else {
        0
    }
}

/// The records of an MD2 model agree: all frames have the same number of positions
/// and each corner of each triangle refers to a position and a texture coordinate
/// that exist.
pub open spec fn md2_consistent(m: md2::Model) -> bool {
    m.frames@.len() > 0 ==> {
        &&& forall|f: int| 0 <= f < m.frames@.len() ==> #[trigger] m.frames@[f].vertices@.len() == md2_base_len(m)
        &&& forall|i: int, j: int| 0 <= i < m.faces@.len() && 0 <= j < 3
            ==> #[trigger] m.faces@[i].vertex[j] < md2_base_len(m)
        &&& forall|i: int, j: int| 0 <= i < m.faces@.len() && 0 <= j < 3
            ==> #[trigger] m.faces@[i].st_idx[j] < m.texcoords@.len()
    }
}

/// The state after all corners of an MD2 model.
pub open spec fn md2_flattened(m: md2::Model) -> Unified {
    unify(md2_corners(m.faces@), md2_uvs(m.texcoords@), md2_base_len(m), 3 * m.faces@.len())
}

/// The triangle that MD2 face `i` becomes.
pub open spec fn md2_triangle(m: md2::Model, i: int) -> (usize, usize, usize) {
    let c = md2_corners(m.faces@);
    let u = md2_uvs(m.texcoords@);
    let n = md2_base_len(m);
    (emitted(c, u, n, (3 * i) as nat), emitted(c, u, n, (3 * i + 1) as nat), emitted(c, u, n, (3 * i + 2) as nat))
}

/// The flattened texture coordinate of an MDL record used by a front-facing
/// triangle, or off the seam.
pub open spec fn plain_uv(c: mdl::TexCoord) -> (i64, i64) {
    half_texel(c.s as int, c.t as int)
}

/// The flattened texture coordinate of an MDL record on the seam used by a
/// back-facing triangle: half a skin width further right.
pub open spec fn seam_uv(c: mdl::TexCoord, w: i32) -> (i64, i64) {
    ((2 * c.s + 1 + w) as i64, (2 * c.t + 1) as i64)
}

/// Whether a corner on position record `c` of a triangle facing away (`back`) needs
/// a slot of its own.
pub open spec fn seam_split(back: bool, c: mdl::TexCoord) -> bool {
    back && c.onseam > 0
}

/// The slot that an MDL corner with position `p` gets.
pub open spec fn seam_slot(u: Unified, p: usize, back: bool, c: mdl::TexCoord) -> usize {
    if seam_split(back, c) {
        u.origin.len() as usize
    } else {
        p
    }
}

/// The state after an MDL corner: a back-facing corner on the seam gets a new slot
/// at the end, copying its position, with the shifted coordinate; any other corner
/// keeps its position's slot and sets its coordinate there.
pub open spec fn seam_place(u: Unified, p: usize, back: bool, c: mdl::TexCoord, w: i32) -> Unified {
    if seam_split(back, c) {
        Unified { slots: u.slots, origin: u.origin.push(p), uv: u.uv.push(seam_uv(c, w)) }
    } else {
        Unified { slots: u.slots, origin: u.origin, uv: u.uv.update(p as int, plain_uv(c)) }
    }
}

/// The state after the first `k` corners, each a position index and whether its
/// triangle faces away, with the texture coordinate records `recs`, skin width `w`
/// and `n` positions.
pub open spec fn seam_unify(corners: Seq<(usize, bool)>, recs: Seq<mdl::TexCoord>, w: i32, n: nat, k: nat) -> Unified
    decreases k,
{
    if k == 0 {
        start(n)
    } else {
        let c = corners[k - 1];
        seam_place(seam_unify(corners, recs, w, n, (k - 1) as nat), c.0, c.1, recs[c.0 as int], w)
    }
}

/// The slot given to MDL corner `k`.
pub open spec fn seam_emitted(corners: Seq<(usize, bool)>, recs: Seq<mdl::TexCoord>, w: i32, n: nat, k: nat) -> usize {
    let c = corners[k as int];
    seam_slot(seam_unify(corners, recs, w, n, k), c.0, c.1, recs[c.0 as int])
}

/// Corner `k` of the MDL triangles: position index and whether the triangle faces
/// away.
pub open spec fn mdl_corners(tris: Seq<mdl::Triangle>) -> Seq<(usize, bool)> {
    Seq::new(3 * tris.len(), |k: int| (tris[k / 3].vertex[k % 3] as usize, tris[k / 3].facefront == 0))
}

/// The packed positions of each MDL frame.
pub open spec fn mdl_base(frames: Seq<mdl::Frame>) -> Seq<Seq<[u8; 3]>> {
    frames.map_values(|f: mdl::Frame| f.frame.verts@.map_values(|v: mdl::Vertex| v.v))
}

/// Number of positions per frame of an MDL model, taken from its first frame.
pub open spec fn mdl_base_len(m: mdl::Model) -> nat {
    if m.frames@.len() > 0 {
        m.frames@[0].frame.verts@.len()
    } else {
        0
    }
}

/// The records of an MDL model agree: all frames have the same number of positions
/// and each corner of each triangle refers to a position that exists and has a
/// texture coordinate record.
pub open spec fn mdl_consistent(m: mdl::Model) -> bool {
    m.frames@.len() > 0 ==> {
        &&& forall|f: int| 0 <= f < m.frames@.len() ==> #[trigger] m.frames@[f].frame.verts@.len() == mdl_base_len(m)
        &&& forall|i: int, j: int| 0 <= i < m.triangles@.len() && 0 <= j < 3 ==> {
            &&& 0 <= #[trigger] m.triangles@[i].vertex[j]
            &&& m.triangles@[i].vertex[j] < mdl_base_len(m)
            &&& m.triangles@[i].vertex[j] < m.texcoords@.len()
        }
    }
}

/// The state after all corners of an MDL model.
pub open spec fn mdl_flattened(m: mdl::Model) -> Unified {
    seam_unify(mdl_corners(m.triangles@), m.texcoords@, m.header.skin_width, mdl_base_len(m), 3 * m.triangles@.len())
}

/// The triangle that MDL triangle `i` becomes.
pub open spec fn mdl_triangle(m: mdl::Model, i: int) -> (usize, usize, usize) {
    let c = mdl_corners(m.triangles@);
    let r = m.texcoords@;
    let w = m.header.skin_width;
    let n = mdl_base_len(m);
    (
        seam_emitted(c, r, w, n, (3 * i) as nat),
        seam_emitted(c, r, w, n, (3 * i + 1) as nat),
        seam_emitted(c, r, w, n, (3 * i + 2) as nat),
    )
}

/// The state is one that flattening can reach from `n` positions in each of the
/// frames of `base`.
pub open spec fn well_formed(u: Unified, base: Seq<Seq<[u8; 3]>>, n: nat) -> bool {
    &&& base.len() > 0
    &&& forall|f: int| 0 <= f < base.len() ==> #[trigger] base[f].len() == n
    &&& n <= u.origin.len()
    &&& u.origin.len() == u.uv.len()
    &&& forall|s: int| 0 <= s < u.origin.len() ==> #[trigger] u.origin[s] < n
    &&& forall|s: int| 0 <= s < n ==> #[trigger] u.origin[s] == s
    &&& forall|p: usize, t: usize|
        u.slots.contains_key(p) && #[trigger] u.slots[p].contains_key(t) ==> u.slots[p][t] < u.origin.len()
}

/// The working values hold the state `u`.
spec fn holds(
    seen: HashMap<usize, HashMap<usize, usize>>,
    vertices: Seq<Vec<[u8; 3]>>,
    texcoords: Seq<(i64, i64)>,
    u: Unified,
    base: Seq<Seq<[u8; 3]>>,
) -> bool {
    &&& seen@.dom() == u.slots.dom()
    &&& forall|p: usize| #[trigger] seen@.contains_key(p) ==> seen@[p]@ == u.slots[p]
    &&& holds_frames(vertices, texcoords, u, base)
}

/// The frames and texture coordinates hold those of the state `u`.
spec fn holds_frames(vertices: Seq<Vec<[u8; 3]>>, texcoords: Seq<(i64, i64)>, u: Unified, base: Seq<Seq<[u8; 3]>>) -> bool {
    &&& vertices.len() == base.len()
    &&& forall|f: int| 0 <= f < base.len() ==> #[trigger] vertices[f]@ == spread(base, u.origin)[f]
    &&& texcoords == u.uv
}

/// Appends to every frame a copy of its position `p`.
fn append_copy(
    vertices: &mut Vec<Vec<[u8; 3]>>,
    p: usize,
    Ghost(base): Ghost<Seq<Seq<[u8; 3]>>>,
    Ghost(origin): Ghost<Seq<usize>>,
)
    requires
        p < origin.len(),
        origin[p as int] == p,
        old(vertices)@.len() == base.len(),
        forall|f: int| 0 <= f < base.len() ==> #[trigger] old(vertices)@[f]@ == spread(base, origin)[f],
    ensures
        final(vertices)@.len() == base.len(),
        forall|f: int| 0 <= f < base.len() ==> #[trigger] final(vertices)@[f]@ == spread(base, origin.push(p))[f],
{
    let mut f: usize = 0;
    while f < vertices.len()
        invariant
            p < origin.len(),
            origin[p as int] == p,
            vertices@.len() == base.len(),
            0 <= f <= vertices@.len(),
            forall|g: int| 0 <= g < f ==> #[trigger] vertices@[g]@ == spread(base, origin.push(p))[g],
            forall|g: int| f <= g < base.len() ==> #[trigger] vertices@[g]@ == spread(base, origin)[g],
        decreases vertices@.len() - f,
    {
        let ghost before = vertices@[f as int]@;
        let x = vertices[f][p];
        vertices[f].push(x);
        proof {
            assert(vertices@[f as int]@ =~= before.push(x));
            assert(vertices@[f as int]@ =~= spread(base, origin.push(p))[f as int]);
        }
        f = f + 1;
    }
}

/// Gives the corner with position `p` and texture coordinate index `t` its slot,
/// copying the position into a new slot of every frame where the pair is new for a
/// known position.
fn unify_corner(
    seen: &mut HashMap<usize, HashMap<usize, usize>>,
    vertices: &mut Vec<Vec<[u8; 3]>>,
    texcoords: &mut Vec<(i64, i64)>,
    p: usize,
    t: usize,
    st: (i64, i64),
    Ghost(u): Ghost<Unified>,
    Ghost(base): Ghost<Seq<Seq<[u8; 3]>>>,
    Ghost(n): Ghost<nat>,
) -> (slot: usize)
    requires
        well_formed(u, base, n),
        holds(*old(seen), old(vertices)@, old(texcoords)@, u, base),
        p < n,
    ensures
        well_formed(place(u, p, t, st), base, n),
        holds(*final(seen), final(vertices)@, final(texcoords)@, place(u, p, t, st), base),
        slot == slot_for(u, p, t),
        slot < final(texcoords)@.len(),
        old(texcoords)@.len() <= final(texcoords)@.len(),
{
    if !seen.contains_key(&p) {
        texcoords.set(p, st);
        let mut fresh: HashMap<usize, usize> = HashMap::new();
        fresh.insert(t, p);
        seen.insert(p, fresh);
        proof {
            let v = place(u, p, t, st);
            assert(fresh@ =~= map![t => p]);
            assert(seen@.dom() =~= v.slots.dom());
            assert forall|f: int| 0 <= f < base.len() implies #[trigger] vertices@[f]@ == spread(base, v.origin)[f] by {}
        }
        p
    } else {
        let known = seen.get(&p).unwrap();
        match known.get(&t) {
            Some(s) => *s,
            None => {
                let ghost v = place(u, p, t, st);
                append_copy(vertices, p, Ghost(base), Ghost(u.origin));
                texcoords.push(st);
                let slot = texcoords.len() - 1;
                let mut grown = seen.remove(&p).unwrap();
                grown.insert(t, slot);
                seen.insert(p, grown);
                proof {
                    assert(seen@.dom() =~= v.slots.dom());
                    assert(texcoords@ =~= v.uv);
                }
                slot
            }
        }
    }
}

proof fn lemma_md2_corner(faces: Seq<md2::Triangle>, i: int, j: int)
    requires
        0 <= i < faces.len(),
        0 <= j < 3,
    ensures
        md2_corners(faces)[3 * i + j] == (faces[i].vertex[j] as usize, faces[i].st_idx[j] as usize),
{
    assert((3 * i + j) / 3 == i);
    assert((3 * i + j) % 3 == j);
}

/// The flattened texture coordinate of an MD2 record.
fn md2_uv(c: md2::TexCoord) -> (r: (i64, i64))
    ensures
        r == half_texel(c.s as int, c.t as int),
{
    (2 * (c.s as i64) + 1, 2 * (c.t as i64) + 1)
}

impl FlatModel {
    /// Flattens an MD2 model: corners are taken in file order, three per triangle;
    /// a position keeps its own slot for the first texture coordinate it is met
    /// with, and every other texture coordinate met with it gets one new slot, a copy
    /// of the position appended to every frame.
    pub fn from_md2(model: &md2::Model) -> (r: Result<FlatModel>)
        requires
            md2_consistent(*model),
        ensures
            r is Err <==> model.frames@.len() == 0 || model.faces@.len() == 0,
            r matches Err(e) ==> e.kind == ErrorKind::EmptyModel,
            r matches Ok(fm) ==> {
                let u = md2_flattened(*model);
                &&& u.origin.len() == fm.texcoords@.len()
                &&& u.origin.len() <= usize::MAX
                &&& fm.vertices@.len() == model.frames@.len()
                &&& forall|f: int| 0 <= f < fm.vertices@.len()
                    ==> #[trigger] fm.vertices@[f]@ == spread(md2_base(model.frames@), u.origin)[f]
                &&& fm.texcoords@ == u.uv
                &&& forall|f: int| 0 <= f < fm.vertices@.len() ==> #[trigger] fm.vertices@[f]@.len() == fm.texcoords@.len()
                &&& forall|i: int| 0 <= i < fm.indices@.len() ==> {
                    &&& #[trigger] fm.indices@[i].0 < fm.texcoords@.len()
                    &&& fm.indices@[i].1 < fm.texcoords@.len()
                    &&& fm.indices@[i].2 < fm.texcoords@.len()
                }
                &&& fm.indices@.len() == model.faces@.len()
                &&& forall|i: int| 0 <= i < fm.indices@.len() ==> #[trigger] fm.indices@[i] == md2_triangle(*model, i)
                &&& fm.transforms@.len() == model.frames@.len()
                &&& forall|f: int| 0 <= f < fm.transforms@.len() ==> {
                    &&& #[trigger] fm.transforms@[f].scale == model.frames@[f].scale
                    &&& fm.transforms@[f].translate == model.frames@[f].translate
                }
                &&& fm.skin_width == model.header.skin_width
                &&& fm.skin_height == model.header.skin_height
            },
    {
        if model.frames.len() == 0 || model.faces.len() == 0 {
            return Err(Error::empty_model("a model needs a frame and a triangle to be flattened"));
        }
        let ghost base = md2_base(model.frames@);
        let mut vertices: Vec<Vec<[u8; 3]>> = Vec::new();
        let mut transforms: Vec<Transform> = Vec::new();
        let mut f: usize = 0;
        while f < model.frames.len()
            invariant
                f <= model.frames@.len(),
                base == md2_base(model.frames@),
                vertices@.len() == f,
                transforms@.len() == f,
                forall|g: int| 0 <= g < f ==> #[trigger] vertices@[g]@ == base[g],
                forall|g: int| 0 <= g < f ==> {
                    &&& #[trigger] transforms@[g].scale == model.frames@[g].scale
                    &&& transforms@[g].translate == model.frames@[g].translate
                },
            decreases model.frames@.len() - f,
        {
            let frame = &model.frames[f];
            let mut packed: Vec<[u8; 3]> = Vec::new();
            let mut i: usize = 0;
            while i < frame.vertices.len()
                invariant
                    i <= frame.vertices@.len(),
                    packed@ == frame.vertices@.take(i as int).map_values(|v: md2::Vertex| v.v),
                decreases frame.vertices@.len() - i,
            {
                packed.push(frame.vertices[i].v);
                proof {
                    assert(frame.vertices@.take(i + 1) =~= frame.vertices@.take(i as int).push(frame.vertices@[i as int]));
                }
                i = i + 1;
                proof {
                    assert(packed@ =~= frame.vertices@.take(i as int).map_values(|v: md2::Vertex| v.v));
                }
            }
            proof {
                assert(frame.vertices@.take(i as int) =~= frame.vertices@);
            }
            vertices.push(packed);
            transforms.push(Transform { scale: frame.scale, translate: frame.translate });
            f = f + 1;
        }
        let n = vertices[0].len();
        let ghost corners = md2_corners(model.faces@);
        let ghost uvs = md2_uvs(model.texcoords@);
        let mut texcoords: Vec<(i64, i64)> = Vec::new();
        let mut s: usize = 0;
        while s < n
            invariant
                s <= n,
                texcoords@ == Seq::new(s as nat, |i: int| (0i64, 0i64)),
            decreases n - s,
        {
            texcoords.push((0i64, 0i64));
            s = s + 1;
            proof {
                assert(texcoords@ =~= Seq::new(s as nat, |i: int| (0i64, 0i64)));
            }
        }
        let mut seen: HashMap<usize, HashMap<usize, usize>> = HashMap::new();
        let mut indices: Vec<(usize, usize, usize)> = Vec::new();
        proof {
            let u0 = unify(corners, uvs, n as nat, 0);
            assert(seen@.dom() =~= u0.slots.dom());
            assert forall|g: int| 0 <= g < base.len() implies #[trigger] vertices@[g]@ == spread(base, u0.origin)[g] by {
                assert(vertices@[g]@ =~= spread(base, u0.origin)[g]);
            }
        }
        let mut i: usize = 0;
        while i < model.faces.len()
            invariant
                md2_consistent(*model),
                model.frames@.len() > 0,
                n == md2_base_len(*model),
                base == md2_base(model.frames@),
                corners == md2_corners(model.faces@),
                uvs == md2_uvs(model.texcoords@),
                i <= model.faces@.len(),
                well_formed(unify(corners, uvs, n as nat, 3 * i as nat), base, n as nat),
                holds(seen, vertices@, texcoords@, unify(corners, uvs, n as nat, 3 * i as nat), base),
                indices@.len() == i,
                forall|j: int| 0 <= j < i ==> #[trigger] indices@[j] == md2_triangle(*model, j),
                forall|j: int| 0 <= j < i ==> {
                    &&& #[trigger] indices@[j].0 < texcoords@.len()
                    &&& indices@[j].1 < texcoords@.len()
                    &&& indices@[j].2 < texcoords@.len()
                },
            decreases model.faces@.len() - i,
        {
            let face = model.faces[i];
            let mut tri: [usize; 3] = [0; 3];
            let mut j: usize = 0;
            while j < 3
                invariant
                    md2_consistent(*model),
                    model.frames@.len() > 0,
                    n == md2_base_len(*model),
                    corners == md2_corners(model.faces@),
                    uvs == md2_uvs(model.texcoords@),
                    i < model.faces@.len(),
                    face == model.faces@[i as int],
                    j <= 3,
                    well_formed(unify(corners, uvs, n as nat, (3 * i + j) as nat), base, n as nat),
                    holds(seen, vertices@, texcoords@, unify(corners, uvs, n as nat, (3 * i + j) as nat), base),
                    forall|k: int| 0 <= k < j ==> #[trigger] tri[k] == emitted(corners, uvs, n as nat, (3 * i + k) as nat),
                    forall|k: int| 0 <= k < j ==> #[trigger] tri[k] < texcoords@.len(),
                    indices@.len() == i,
                    forall|jj: int| 0 <= jj < i ==> {
                        &&& #[trigger] indices@[jj].0 < texcoords@.len()
                        &&& indices@[jj].1 < texcoords@.len()
                        &&& indices@[jj].2 < texcoords@.len()
                    },
                decreases 3 - j,
            {
                let p = face.vertex[j] as usize;
                let t = face.st_idx[j] as usize;
                proof {
                    lemma_md2_corner(model.faces@, i as int, j as int);
                }
                let st = md2_uv(model.texcoords[t]);
                let ghost u = unify(corners, uvs, n as nat, (3 * i + j) as nat);
                let slot = unify_corner(&mut seen, &mut vertices, &mut texcoords, p, t, st, Ghost(u), Ghost(base), Ghost(n as nat));
                tri[j] = slot;
                j = j + 1;
            }
            indices.push((tri[0], tri[1], tri[2]));
            i = i + 1;
        }
        // the number of slots fits a usize: it is the length of a vector
        let _slots = texcoords.len();
        Ok(FlatModel {
            vertices,
            transforms,
            texcoords,
            skin_width: model.header.skin_width,
            skin_height: model.header.skin_height,
            indices,
        })
    }
}

/// Gives an MDL corner on position `p` its slot: a new one, copying the position in
/// every frame, when the corner needs the seam-shifted coordinate.
fn seam_corner(
    vertices: &mut Vec<Vec<[u8; 3]>>,
    texcoords: &mut Vec<(i64, i64)>,
    p: usize,
    back: bool,
    c: mdl::TexCoord,
    w: i32,
    Ghost(u): Ghost<Unified>,
    Ghost(base): Ghost<Seq<Seq<[u8; 3]>>>,
    Ghost(n): Ghost<nat>,
) -> (slot: usize)
    requires
        well_formed(u, base, n),
        holds_frames(old(vertices)@, old(texcoords)@, u, base),
        p < n,
    ensures
        well_formed(seam_place(u, p, back, c, w), base, n),
        holds_frames(final(vertices)@, final(texcoords)@, seam_place(u, p, back, c, w), base),
        slot == seam_slot(u, p, back, c),
        slot < final(texcoords)@.len(),
        old(texcoords)@.len() <= final(texcoords)@.len(),
{
    if back && c.onseam > 0 {
        append_copy(vertices, p, Ghost(base), Ghost(u.origin));
        texcoords.push((2 * (c.s as i64) + 1 + (w as i64), 2 * (c.t as i64) + 1));
        proof {
            assert(texcoords@ =~= seam_place(u, p, back, c, w).uv);
        }
        texcoords.len() - 1
    } else {
        texcoords.set(p, (2 * (c.s as i64) + 1, 2 * (c.t as i64) + 1));
        p
    }
}

proof fn lemma_mdl_corner(tris: Seq<mdl::Triangle>, i: int, j: int)
    requires
        0 <= i < tris.len(),
        0 <= j < 3,
    ensures
        mdl_corners(tris)[3 * i + j] == (tris[i].vertex[j] as usize, tris[i].facefront == 0),
{
    assert((3 * i + j) / 3 == i);
    assert((3 * i + j) % 3 == j);
}

impl FlatModel {
    /// Flattens an MDL model: corners are taken in file order, three per triangle.
    /// A corner of a back-facing triangle on a seam position gets a new slot, a copy
    /// of the position appended to every frame, with the coordinate shifted half a
    /// skin width; every other corner keeps its position's slot and sets the
    /// unshifted coordinate there. Seam corners are not shared: each gets a slot.
    pub fn from_mdl(model: &mdl::Model) -> (r: Result<FlatModel>)
        requires
            mdl_consistent(*model),
        ensures
            r is Err <==> model.frames@.len() == 0 || model.triangles@.len() == 0,
            r matches Err(e) ==> e.kind == ErrorKind::EmptyModel,
            r matches Ok(fm) ==> {
                let u = mdl_flattened(*model);
                &&& u.origin.len() == fm.texcoords@.len()
                &&& u.origin.len() <= usize::MAX
                &&& fm.vertices@.len() == model.frames@.len()
                &&& forall|f: int| 0 <= f < fm.vertices@.len()
                    ==> #[trigger] fm.vertices@[f]@ == spread(mdl_base(model.frames@), u.origin)[f]
                &&& fm.texcoords@ == u.uv
                &&& forall|f: int| 0 <= f < fm.vertices@.len() ==> #[trigger] fm.vertices@[f]@.len() == fm.texcoords@.len()
                &&& forall|i: int| 0 <= i < fm.indices@.len() ==> {
                    &&& #[trigger] fm.indices@[i].0 < fm.texcoords@.len()
                    &&& fm.indices@[i].1 < fm.texcoords@.len()
                    &&& fm.indices@[i].2 < fm.texcoords@.len()
                }
                &&& fm.indices@.len() == model.triangles@.len()
                &&& forall|i: int| 0 <= i < fm.indices@.len() ==> #[trigger] fm.indices@[i] == mdl_triangle(*model, i)
                &&& fm.transforms@.len() == model.frames@.len()
                &&& forall|f: int| 0 <= f < fm.transforms@.len() ==> {
                    &&& #[trigger] fm.transforms@[f].scale == model.header.scale
                    &&& fm.transforms@[f].translate == model.header.translate
                }
                &&& fm.skin_width == model.header.skin_width
                &&& fm.skin_height == model.header.skin_height
            },
    {
        if model.frames.len() == 0 || model.triangles.len() == 0 {
            return Err(Error::empty_model("a model needs a frame and a triangle to be flattened"));
        }
        let ghost base = mdl_base(model.frames@);
        let mut vertices: Vec<Vec<[u8; 3]>> = Vec::new();
        let mut transforms: Vec<Transform> = Vec::new();
        let mut f: usize = 0;
        while f < model.frames.len()
            invariant
                f <= model.frames@.len(),
                base == mdl_base(model.frames@),
                vertices@.len() == f,
                transforms@.len() == f,
                forall|g: int| 0 <= g < f ==> #[trigger] vertices@[g]@ == base[g],
                forall|g: int| 0 <= g < f ==> {
                    &&& #[trigger] transforms@[g].scale == model.header.scale
                    &&& transforms@[g].translate == model.header.translate
                },
            decreases model.frames@.len() - f,
        {
            let verts = &model.frames[f].frame.verts;
            let mut packed: Vec<[u8; 3]> = Vec::new();
            let mut i: usize = 0;
            while i < verts.len()
                invariant
                    i <= verts@.len(),
                    packed@ == verts@.take(i as int).map_values(|v: mdl::Vertex| v.v),
                decreases verts@.len() - i,
            {
                packed.push(verts[i].v);
                proof {
                    assert(verts@.take(i + 1) =~= verts@.take(i as int).push(verts@[i as int]));
                }
                i = i + 1;
                proof {
                    assert(packed@ =~= verts@.take(i as int).map_values(|v: mdl::Vertex| v.v));
                }
            }
            proof {
                assert(verts@.take(i as int) =~= verts@);
            }
            vertices.push(packed);
            transforms.push(Transform { scale: model.header.scale, translate: model.header.translate });
            f = f + 1;
        }
        let n = vertices[0].len();
        let w = model.header.skin_width;
        let ghost corners = mdl_corners(model.triangles@);
        let ghost recs = model.texcoords@;
        let mut texcoords: Vec<(i64, i64)> = Vec::new();
        let mut s: usize = 0;
        while s < n
            invariant
                s <= n,
                texcoords@ == Seq::new(s as nat, |i: int| (0i64, 0i64)),
            decreases n - s,
        {
            texcoords.push((0i64, 0i64));
            s = s + 1;
            proof {
                assert(texcoords@ =~= Seq::new(s as nat, |i: int| (0i64, 0i64)));
            }
        }
        let mut indices: Vec<(usize, usize, usize)> = Vec::new();
        proof {
            let u0 = seam_unify(corners, recs, w, n as nat, 0);
            assert forall|g: int| 0 <= g < base.len() implies #[trigger] vertices@[g]@ == spread(base, u0.origin)[g] by {
                assert(vertices@[g]@ =~= spread(base, u0.origin)[g]);
            }
        }
        let mut i: usize = 0;
        while i < model.triangles.len()
            invariant
                mdl_consistent(*model),
                model.frames@.len() > 0,
                n == mdl_base_len(*model),
                w == model.header.skin_width,
                base == mdl_base(model.frames@),
                corners == mdl_corners(model.triangles@),
                recs == model.texcoords@,
                i <= model.triangles@.len(),
                well_formed(seam_unify(corners, recs, w, n as nat, 3 * i as nat), base, n as nat),
                holds_frames(vertices@, texcoords@, seam_unify(corners, recs, w, n as nat, 3 * i as nat), base),
                indices@.len() == i,
                forall|j: int| 0 <= j < i ==> #[trigger] indices@[j] == mdl_triangle(*model, j),
                forall|j: int| 0 <= j < i ==> {
                    &&& #[trigger] indices@[j].0 < texcoords@.len()
                    &&& indices@[j].1 < texcoords@.len()
                    &&& indices@[j].2 < texcoords@.len()
                },
            decreases model.triangles@.len() - i,
        {
            let tri = model.triangles[i];
            let back = tri.facefront == 0;
            let mut out: [usize; 3] = [0; 3];
            let mut j: usize = 0;
            while j < 3
                invariant
                    mdl_consistent(*model),
                    model.frames@.len() > 0,
                    n == mdl_base_len(*model),
                    w == model.header.skin_width,
                    corners == mdl_corners(model.triangles@),
                    recs == model.texcoords@,
                    i < model.triangles@.len(),
                    tri == model.triangles@[i as int],
                    back == (tri.facefront == 0),
                    j <= 3,
                    well_formed(seam_unify(corners, recs, w, n as nat, (3 * i + j) as nat), base, n as nat),
                    holds_frames(vertices@, texcoords@, seam_unify(corners, recs, w, n as nat, (3 * i + j) as nat), base),
                    forall|k: int| 0 <= k < j ==> #[trigger] out[k] == seam_emitted(corners, recs, w, n as nat, (3 * i + k) as nat),
                    forall|k: int| 0 <= k < j ==> #[trigger] out[k] < texcoords@.len(),
                    indices@.len() == i,
                    forall|jj: int| 0 <= jj < i ==> {
                        &&& #[trigger] indices@[jj].0 < texcoords@.len()
                        &&& indices@[jj].1 < texcoords@.len()
                        &&& indices@[jj].2 < texcoords@.len()
                    },
                decreases 3 - j,
            {
                let p = tri.vertex[j] as usize;
                proof {
                    lemma_mdl_corner(model.triangles@, i as int, j as int);
                }
                let c = model.texcoords[p];
                let ghost u = seam_unify(corners, recs, w, n as nat, (3 * i + j) as nat);
                let slot = seam_corner(&mut vertices, &mut texcoords, p, back, c, w, Ghost(u), Ghost(base), Ghost(n as nat));
                out[j] = slot;
                j = j + 1;
            }
            indices.push((out[0], out[1], out[2]));
            i = i + 1;
        }
        // the number of slots fits a usize: it is the length of a vector
        let _slots = texcoords.len();
        Ok(FlatModel {
            vertices,
            transforms,
            texcoords,
            skin_width: model.header.skin_width,
            skin_height: model.header.skin_height,
            indices,
        })
    }
}

impl md2::Model {
    /// Whether the records agree as flattening needs (see `md2_consistent`).
    pub fn is_consistent(&self) -> (r: bool)
        ensures
            r == md2_consistent(*self),
    {
        if self.frames.len() == 0 {
            return true;
        }
        let n = self.frames[0].vertices.len();
        let mut f: usize = 0;
        while f < self.frames.len()
            invariant
                self.frames@.len() > 0,
                n == md2_base_len(*self),
                f <= self.frames@.len(),
                forall|g: int| 0 <= g < f ==> #[trigger] self.frames@[g].vertices@.len() == n,
            decreases self.frames@.len() - f,
        {
            if self.frames[f].vertices.len() != n {
                proof {
                    assert(self.frames@[f as int].vertices@.len() != md2_base_len(*self));
                }
                return false;
            }
            f = f + 1;
        }
        let mut i: usize = 0;
        while i < self.faces.len()
            invariant
                self.frames@.len() > 0,
                n == md2_base_len(*self),
                forall|g: int| 0 <= g < self.frames@.len() ==> #[trigger] self.frames@[g].vertices@.len() == n,
                i <= self.faces@.len(),
                forall|k: int, j: int| 0 <= k < i && 0 <= j < 3 ==> #[trigger] self.faces@[k].vertex[j] < n,
                forall|k: int, j: int| 0 <= k < i && 0 <= j < 3 ==> #[trigger] self.faces@[k].st_idx[j] < self.texcoords@.len(),
            decreases self.faces@.len() - i,
        {
            let face = self.faces[i];
            let mut j: usize = 0;
            while j < 3
                invariant
                    self.frames@.len() > 0,
                    n == md2_base_len(*self),
                    i < self.faces@.len(),
                    face == self.faces@[i as int],
                    j <= 3,
                    forall|k: int, jj: int| 0 <= k < i && 0 <= jj < 3 ==> #[trigger] self.faces@[k].vertex[jj] < n,
                    forall|k: int, jj: int| 0 <= k < i && 0 <= jj < 3 ==> #[trigger] self.faces@[k].st_idx[jj] < self.texcoords@.len(),
                    forall|jj: int| 0 <= jj < j ==> #[trigger] face.vertex[jj] < n,
                    forall|jj: int| 0 <= jj < j ==> #[trigger] face.st_idx[jj] < self.texcoords@.len(),
                decreases 3 - j,
            {
                if face.vertex[j] as usize >= n || face.st_idx[j] as usize >= self.texcoords.len() {
                    proof {
                        assert(!(self.faces@[i as int].vertex[j as int] < n) || !(self.faces@[i as int].st_idx[j as int]
                            < self.texcoords@.len()));
                    }
                    return false;
                }
                j = j + 1;
            }
            i = i + 1;
        }
        true
    }
}

impl mdl::Model {
    /// Whether the records agree as flattening needs (see `mdl_consistent`).
    pub fn is_consistent(&self) -> (r: bool)
        ensures
            r == mdl_consistent(*self),
    {
        if self.frames.len() == 0 {
            return true;
        }
        let n = self.frames[0].frame.verts.len();
        let mut f: usize = 0;
        while f < self.frames.len()
            invariant
                self.frames@.len() > 0,
                n == mdl_base_len(*self),
                f <= self.frames@.len(),
                forall|g: int| 0 <= g < f ==> #[trigger] self.frames@[g].frame.verts@.len() == n,
            decreases self.frames@.len() - f,
        {
            if self.frames[f].frame.verts.len() != n {
                proof {
                    assert(self.frames@[f as int].frame.verts@.len() != mdl_base_len(*self));
                }
                return false;
            }
            f = f + 1;
        }
        let mut i: usize = 0;
        while i < self.triangles.len()
            invariant
                self.frames@.len() > 0,
                n == mdl_base_len(*self),
                forall|g: int| 0 <= g < self.frames@.len() ==> #[trigger] self.frames@[g].frame.verts@.len() == n,
                i <= self.triangles@.len(),
                forall|k: int, j: int| 0 <= k < i && 0 <= j < 3 ==> {
                    &&& 0 <= #[trigger] self.triangles@[k].vertex[j]
                    &&& self.triangles@[k].vertex[j] < n
                    &&& self.triangles@[k].vertex[j] < self.texcoords@.len()
                },
            decreases self.triangles@.len() - i,
        {
            let tri = self.triangles[i];
            let mut j: usize = 0;
            while j < 3
                invariant
                    self.frames@.len() > 0,
                    n == mdl_base_len(*self),
                    i < self.triangles@.len(),
                    tri == self.triangles@[i as int],
                    j <= 3,
                    forall|k: int, jj: int| 0 <= k < i && 0 <= jj < 3 ==> {
                        &&& 0 <= #[trigger] self.triangles@[k].vertex[jj]
                        &&& self.triangles@[k].vertex[jj] < n
                        &&& self.triangles@[k].vertex[jj] < self.texcoords@.len()
                    },
                    forall|jj: int| 0 <= jj < j ==> {
                        &&& 0 <= #[trigger] tri.vertex[jj]
                        &&& tri.vertex[jj] < n
                        &&& tri.vertex[jj] < self.texcoords@.len()
                    },
                decreases 3 - j,
            {
                let v = tri.vertex[j];
                if v < 0 || v as usize >= n || v as usize >= self.texcoords.len() {
                    proof {
                        let x = self.triangles@[i as int].vertex[j as int];
                        assert(!(0 <= x && x < n && x < self.texcoords@.len()));
                    }
                    return false;
                }
                j = j + 1;
            }
            i = i + 1;
        }
        true
    }
}

} // verus!
