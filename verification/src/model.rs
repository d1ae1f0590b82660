//! The mesh text format: one directive per line, `v`, `vn`, `vt` or `f`,
//! then its arguments. Numbers are read outside this library; what the
//! reader made of each number is handed in, and everything else is decided
//! here.

use vstd::prelude::*;
use crate::errors::RenderError;
use crate::geometry::{Vec3f, VecUV2f};
use crate::text::{
    decimal, fields, fields_of, find_from, first, index_complaint, index_value, join, leading,
    opt_text, outcome, parse_index, part_at, piece, same_text, show_number, split_once, texts,
    words, words_of,
};

verus! {

/// The coordinates that a line can hold.
#[derive(Copy, Clone, Debug, PartialEq, Eq, Structural)]
pub enum Coordinate {
    X,
    Y,
    Z,
    U,
    V,
}

/// What the number reader made of the token at position `k`, where the line
/// has one.
pub open spec fn slot<S>(numbers: Seq<Result<S, String>>, k: int) -> Option<Result<S, String>> {
    if 0 <= k < numbers.len() {
        Some(numbers[k])
    } else {
        None
    }
}

impl Coordinate {
    /// The coordinate's name in messages.
    pub open spec fn label(&self) -> Seq<char> {
        match self {
            Coordinate::X => "x"@,
            Coordinate::Y => "y"@,
            Coordinate::Z => "z"@,
            Coordinate::U => "u"@,
            Coordinate::V => "v"@,
        }
    }

    /// The value of this coordinate, or what is wrong with it: the line
    /// ended before it, or the number reader refused its token.
    pub open spec fn read<S>(&self, number: Option<Result<S, String>>) -> Result<S, Seq<char>> {
        match number {
            None => Err("missing coordinate "@ + self.label()),
            Some(Err(why)) => Err("invalid coordinate "@ + self.label() + " format: "@ + why@),
            Some(Ok(value)) => Ok(value),
        }
    }

    /// The coordinate's name in messages.
    pub fn name(&self) -> (s: &'static str)
        ensures
            s@ == self.label(),
    {
        match self {
            Coordinate::X => "x",
            Coordinate::Y => "y",
            Coordinate::Z => "z",
            Coordinate::U => "u",
            Coordinate::V => "v",
        }
    }

    /// Takes what the number reader made of this coordinate's token, `None`
    /// where the line has no such token, and returns the value or the
    /// message that says what is wrong.
    pub fn parse<S: Copy>(&self, number: Option<&Result<S, String>>) -> (r: Result<S, String>)
        ensures
            outcome(r) == self.read(
                match number {
                    Some(n) => Some(*n),
                    None => None,
                },
            ),
    {
        match number {
            None => Err(join("missing coordinate ", self.name())),
            Some(Err(why)) => {
                let head = join("invalid coordinate ", self.name());
                let head = join(head.as_str(), " format: ");
                Err(join(head.as_str(), why.as_str()))
            },
            Some(Ok(value)) => Ok(*value),
        }
    }
}

/// What the number reader made of the token at position `k`.
pub fn number_at<S>(numbers: &Vec<Result<S, String>>, k: usize) -> (number: Option<
    &Result<S, String>,
>)
    ensures
        match number {
            Some(n) => Some(*n),
            None => None,
        } == slot(numbers@, k as int),
{
    if k < numbers.len() {
        Some(&numbers[k])
    } else {
        None
    }
}

/// The vector that the first three numbers of a line give, or the message
/// for the first coordinate that is missing or refused.
pub open spec fn vec3_of<S>(numbers: Seq<Result<S, String>>) -> Result<Vec3f<S>, Seq<char>> {
    match Coordinate::X.read(slot(numbers, 0)) {
        Err(why) => Err(why),
        Ok(x) => match Coordinate::Y.read(slot(numbers, 1)) {
            Err(why) => Err(why),
            Ok(y) => match Coordinate::Z.read(slot(numbers, 2)) {
                Err(why) => Err(why),
                Ok(z) => Ok(Vec3f { x, y, z }),
            },
        },
    }
}

/// The texture coordinate that the first two numbers of a line give, or the
/// message for the first coordinate that is missing or refused.
pub open spec fn uv_of<S>(numbers: Seq<Result<S, String>>) -> Result<VecUV2f<S>, Seq<char>> {
    match Coordinate::U.read(slot(numbers, 0)) {
        Err(why) => Err(why),
        Ok(u) => match Coordinate::V.read(slot(numbers, 1)) {
            Err(why) => Err(why),
            Ok(v) => Ok(VecUV2f { u, v }),
        },
    }
}

/// Reads a vector from the numbers of a `v` or `vn` line: `x`, `y` and `z`
/// in this order. Numbers after the third are ignored.
pub fn parse_vec3f<S: Copy>(numbers: &Vec<Result<S, String>>) -> (r: Result<Vec3f<S>, String>)
    ensures
        outcome(r) == vec3_of(numbers@),
{
    let x = match Coordinate::X.parse(number_at(numbers, 0)) {
        Ok(x) => x,
        Err(why) => {
            return Err(why);
        },
    };
    let y = match Coordinate::Y.parse(number_at(numbers, 1)) {
        Ok(y) => y,
        Err(why) => {
            return Err(why);
        },
    };
    let z = match Coordinate::Z.parse(number_at(numbers, 2)) {
        Ok(z) => z,
        Err(why) => {
            return Err(why);
        },
    };
    Ok(Vec3f::new(x, y, z))
}

/// Reads a texture coordinate from the numbers of a `vt` line: `u`, then
/// `v`. Numbers after the second are ignored.
pub fn parse_vec_uv_2f<S: Copy>(numbers: &Vec<Result<S, String>>) -> (r: Result<
    VecUV2f<S>,
    String,
>)
    ensures
        outcome(r) == uv_of(numbers@),
{
    let u = match Coordinate::U.parse(number_at(numbers, 0)) {
        Ok(u) => u,
        Err(why) => {
            return Err(why);
        },
    };
    let v = match Coordinate::V.parse(number_at(numbers, 1)) {
        Ok(v) => v,
        Err(why) => {
            return Err(why);
        },
    };
    Ok(VecUV2f::new(u, v))
}

/// The three indices of a face corner.
#[derive(Copy, Clone, Debug, PartialEq, Eq, Structural)]
pub enum FaceIndex {
    Vertex,
    Texture,
    Normal,
}

impl FaceIndex {
    /// What a message says against an index of this kind that is no number.
    pub open spec fn complaint(&self) -> Seq<char> {
        match self {
            FaceIndex::Vertex => "invalid vertex index format: "@,
            FaceIndex::Texture => "invalid texture index format: "@,
            FaceIndex::Normal => "invalid normal index format: "@,
        }
    }

    /// The index that a part of a corner stands for. Only the vertex index
    /// has to be there: a texture or normal index that is left out, or
    /// left empty, is 0, which stands for none.
    pub open spec fn read(&self, elem: Option<Seq<char>>) -> Result<usize, Seq<char>> {
        match elem {
            None => if *self == FaceIndex::Vertex {
                Err("missing vertex index"@)
            } else {
                Ok(0)
            },
            Some(text) => if *self != FaceIndex::Vertex && text.len() == 0 {
                Ok(0)
            } else {
                match index_value(text) {
                    Some(n) => Ok(n),
                    None => Err(self.complaint() + index_complaint(text)),
                }
            },
        }
    }

    /// The index of this kind, given what the number reader made of its
    /// text: the number, or the reader's complaint behind the words that say
    /// which index is malformed.
    pub fn settle(&self, parsed: Result<usize, String>) -> (r: Result<usize, String>)
        ensures
            outcome(r) == match parsed {
                Ok(n) => Ok::<usize, Seq<char>>(n),
                Err(why) => Err::<usize, Seq<char>>(self.complaint() + why@),
            },
    {
        match parsed {
            Ok(n) => Ok(n),
            Err(why) => {
                let head = match self {
                    FaceIndex::Vertex => "invalid vertex index format: ",
                    FaceIndex::Texture => "invalid texture index format: ",
                    FaceIndex::Normal => "invalid normal index format: ",
                };
                Err(join(head, why.as_str()))
            },
        }
    }

    /// Reads the index of this kind from its part of a corner, `None` where
    /// the corner has no such part.
    pub fn parse(&self, elem: Option<&str>) -> (r: Result<usize, String>)
        ensures
            outcome(r) == self.read(opt_text(elem)),
    {
        match elem {
            None => match self {
                FaceIndex::Vertex => Err(String::from_str("missing vertex index")),
                _ => Ok(0),
            },
            Some(text) => {
                let absent = match self {
                    FaceIndex::Vertex => false,
                    _ => text.unicode_len() == 0,
                };
                if absent {
                    Ok(0)
                } else {
                    self.settle(parse_index(text))
                }
            },
        }
    }
}

/// The indices of one face corner: vertex, texture and normal, counted from
/// 1, with 0 for a texture or normal that the corner does not name.
pub type Corner = (usize, usize, usize);

/// The indices that a corner descriptor `vertex[/texture][/normal]` names,
/// or the message for the first of them that is no number or points outside
/// what has been read: `nv` vertices, `nt` texture coordinates and `nn`
/// normals.
pub open spec fn corner_of(part: Seq<char>, nv: nat, nt: nat, nn: nat) -> Result<
    Corner,
    Seq<char>,
> {
    let parts = fields_of(part, '/');
    match FaceIndex::Vertex.read(piece(parts, 0)) {
        Err(why) => Err(why),
        Ok(vertex) => if vertex == 0 || vertex > nv {
            Err("face index out of bounds: "@ + decimal(vertex as nat))
        } else {
            match FaceIndex::Texture.read(piece(parts, 1)) {
                Err(why) => Err(why),
                Ok(texture) => if texture > nt {
                    Err("texture index out of bounds: "@ + decimal(texture as nat))
                } else {
                    match FaceIndex::Normal.read(piece(parts, 2)) {
                        Err(why) => Err(why),
                        Ok(normal) => if normal > nn {
                            Err("normal index out of bounds: "@ + decimal(normal as nat))
                        } else {
                            Ok((vertex, texture, normal))
                        },
                    }
                },
            }
        },
    }
}

/// The corners that the descriptors name, in order, or the message for the
/// first descriptor that is refused.
pub open spec fn corners_of(parts: Seq<Seq<char>>, nv: nat, nt: nat, nn: nat) -> Result<
    Seq<Corner>,
    Seq<char>,
>
    decreases parts.len(),
{
    if parts.len() == 0 {
        Ok(Seq::empty())
    } else {
        match corners_of(parts.drop_last(), nv, nt, nn) {
            Err(why) => Err(why),
            Ok(corners) => match corner_of(parts.last(), nv, nt, nn) {
                Err(why) => Err(why),
                Ok(corner) => Ok(corners.push(corner)),
            },
        }
    }
}

/// The items of `pool` that the indices name, in order; an index of 0
/// names none.
pub open spec fn gathered<A>(pool: Seq<A>, picks: Seq<usize>) -> Seq<A>
    decreases picks.len(),
{
    if picks.len() == 0 {
        Seq::empty()
    } else if picks.last() > 0 {
        gathered(pool, picks.drop_last()).push(pool[picks.last() - 1])
    } else {
        gathered(pool, picks.drop_last())
    }
}

/// The items of `pool` that the indices name, where each of `count`
/// corners names one; nothing at all where some corner names none.
pub open spec fn attribute<A>(pool: Seq<A>, picks: Seq<usize>, count: nat) -> Seq<A> {
    if gathered(pool, picks).len() == count {
        gathered(pool, picks)
    } else {
        Seq::empty()
    }
}

/// The indices of one kind that the corners hold.
pub open spec fn picks(corners: Seq<Corner>, which: FaceIndex) -> Seq<usize> {
    Seq::new(
        corners.len(),
        |i: int|
            match which {
                FaceIndex::Vertex => corners[i].0,
                FaceIndex::Texture => corners[i].1,
                FaceIndex::Normal => corners[i].2,
            },
    )
}

/// A face as three sequences.
pub struct FaceView<S> {
    pub vertices: Seq<Vec3f<S>>,
    pub textures: Seq<VecUV2f<S>>,
    pub normals: Seq<Vec3f<S>>,
}

/// The face that the corners make of what has been read: the position of
/// each corner, and its texture coordinates and normals where every corner
/// names one.
pub open spec fn face_from<S>(
    corners: Seq<Corner>,
    vertices: Seq<Vec3f<S>>,
    textures: Seq<VecUV2f<S>>,
    normals: Seq<Vec3f<S>>,
) -> FaceView<S> {
    FaceView {
        vertices: gathered(vertices, picks(corners, FaceIndex::Vertex)),
        textures: attribute(textures, picks(corners, FaceIndex::Texture), corners.len()),
        normals: attribute(normals, picks(corners, FaceIndex::Normal), corners.len()),
    }
}

/// The face that the arguments of an `f` line describe, or the message for
/// the first corner that is refused.
pub open spec fn face_of<S>(
    line: Seq<char>,
    vertices: Seq<Vec3f<S>>,
    textures: Seq<VecUV2f<S>>,
    normals: Seq<Vec3f<S>>,
) -> Result<FaceView<S>, Seq<char>> {
    match corners_of(words_of(line), vertices.len(), textures.len(), normals.len()) {
        Err(why) => Err(why),
        Ok(corners) => Ok(face_from(corners, vertices, textures, normals)),
    }
}

/// A descriptor that is refused makes every longer list of descriptors
/// fail with the same message.
pub proof fn lemma_first_refusal(parts: Seq<Seq<char>>, upto: int, nv: nat, nt: nat, nn: nat)
    requires
        0 <= upto <= parts.len(),
        corners_of(parts.take(upto), nv, nt, nn) is Err,
    ensures
        corners_of(parts, nv, nt, nn) == corners_of(parts.take(upto), nv, nt, nn),
    decreases parts.len() - upto,
{
    if upto == parts.len() {
        assert(parts.take(upto) =~= parts);
    } else {
        assert(parts.take(upto + 1).drop_last() =~= parts.take(upto));
        lemma_first_refusal(parts, upto + 1, nv, nt, nn);
    }
}

/// Every corner that is accepted names a vertex that has been read, and no
/// texture coordinate or normal beyond those that have been read.
pub proof fn lemma_corners_in_range(parts: Seq<Seq<char>>, nv: nat, nt: nat, nn: nat)
    requires
        corners_of(parts, nv, nt, nn) is Ok,
    ensures
        corners_of(parts, nv, nt, nn)->Ok_0.len() == parts.len(),
        forall|i: int|
            0 <= i < parts.len() ==> {
                let corner = #[trigger] corners_of(parts, nv, nt, nn)->Ok_0[i];
                &&& 1 <= corner.0 <= nv
                &&& corner.1 <= nt
                &&& corner.2 <= nn
            },
    decreases parts.len(),
{
    if parts.len() > 0 {
        lemma_corners_in_range(parts.drop_last(), nv, nt, nn);
    }
}

/// The attribute policy: a face has its texture coordinates, or its
/// normals, for every corner or for none. It has them exactly where every
/// corner names one, and they are then the items that the corners name,
/// corner by corner.
pub proof fn lemma_attribute_whole_or_absent<A>(pool: Seq<A>, picks: Seq<usize>)
    ensures
        attribute(pool, picks, picks.len()).len() == picks.len() || attribute(
            pool,
            picks,
            picks.len(),
        ).len() == 0,
        (forall|i: int| 0 <= i < picks.len() ==> (#[trigger] picks[i]) > 0) <==> gathered(
            pool,
            picks,
        ).len() == picks.len(),
        gathered(pool, picks).len() == picks.len() ==> forall|i: int|
            0 <= i < picks.len() ==> attribute(pool, picks, picks.len())[i] == pool[(
            #[trigger] picks[i]) - 1],
    decreases picks.len(),
{
    lemma_gathered_len(pool, picks);
    if picks.len() > 0 {
        let shorter = picks.drop_last();
        lemma_attribute_whole_or_absent(pool, shorter);
        lemma_gathered_len(pool, shorter);
        if gathered(pool, picks).len() == picks.len() {
            assert forall|i: int| 0 <= i < picks.len() implies (#[trigger] picks[i]) > 0 by {
                if i < shorter.len() {
                    assert(shorter[i] == picks[i]);
                }
            }
            assert forall|i: int| 0 <= i < picks.len() implies attribute(
                pool,
                picks,
                picks.len(),
            )[i] == pool[(#[trigger] picks[i]) - 1] by {
                if i < shorter.len() {
                    assert(shorter[i] == picks[i]);
                }
            }
        } else if forall|i: int| 0 <= i < picks.len() ==> (#[trigger] picks[i]) > 0 {
            assert forall|i: int| 0 <= i < shorter.len() implies (#[trigger] shorter[i]) > 0 by {
                assert(shorter[i] == picks[i]);
            }
            assert(picks[picks.len() - 1] > 0);
        }
    }
}

/// No more items are gathered than there are indices.
pub proof fn lemma_gathered_len<A>(pool: Seq<A>, picks: Seq<usize>)
    ensures
        gathered(pool, picks).len() <= picks.len(),
    decreases picks.len(),
{
    if picks.len() > 0 {
        lemma_gathered_len(pool, picks.drop_last());
    }
}

/// Reads one corner descriptor.
fn parse_corner(part: &str, nv: usize, nt: usize, nn: usize) -> (r: Result<Corner, String>)
    ensures
        outcome(r) == corner_of(part@, nv as nat, nt as nat, nn as nat),
{
    let parts = fields(part, '/');
    let vertex = match FaceIndex::Vertex.parse(part_at(&parts, 0)) {
        Ok(index) => index,
        Err(why) => {
            return Err(why);
        },
    };
    if vertex == 0 || vertex > nv {
        return Err(join("face index out of bounds: ", show_number(vertex).as_str()));
    }
    let texture = match FaceIndex::Texture.parse(part_at(&parts, 1)) {
        Ok(index) => index,
        Err(why) => {
            return Err(why);
        },
    };
    if texture > nt {
        return Err(join("texture index out of bounds: ", show_number(texture).as_str()));
    }
    let normal = match FaceIndex::Normal.parse(part_at(&parts, 2)) {
        Ok(index) => index,
        Err(why) => {
            return Err(why);
        },
    };
    if normal > nn {
        return Err(join("normal index out of bounds: ", show_number(normal).as_str()));
    }
    Ok((vertex, texture, normal))
}

/// One face of a mesh. A face that can be drawn has three vertices, and
/// three normals or none, and three texture coordinates or none.
#[derive(Debug)]
pub struct Face<S> {
    pub vertices: Vec<Vec3f<S>>,
    pub textures: Vec<VecUV2f<S>>,
    pub normals: Vec<Vec3f<S>>,
}

impl<S> View for Face<S> {
    type V = FaceView<S>;

    open spec fn view(&self) -> FaceView<S> {
        FaceView { vertices: self.vertices@, textures: self.textures@, normals: self.normals@ }
    }
}

impl<S: Copy> Face<S> {
    /// Reads a face from the arguments of an `f` line, one corner
    /// descriptor per word, against the vertices, texture coordinates and
    /// normals read so far. The first corner that is refused fails the
    /// line. Where not every corner names a texture coordinate the face
    /// has none, and likewise for normals.
    pub fn from(
        line: &str,
        vertices: &Vec<Vec3f<S>>,
        textures: &Vec<VecUV2f<S>>,
        normals: &Vec<Vec3f<S>>,
    ) -> (r: Result<Face<S>, String>)
        ensures
            match face_of(line@, vertices@, textures@, normals@) {
                Ok(face) => r is Ok && r->Ok_0@ == face,
                Err(why) => r is Err && r->Err_0@ == why,
            },
    {
        let parts = words(line);
        Face::from_parts(&parts, vertices, textures, normals)
    }

    /// Reads a face from its corner descriptors, as `from` does from the
    /// line that holds them.
    pub fn from_parts(
        parts: &Vec<&str>,
        vertices: &Vec<Vec3f<S>>,
        textures: &Vec<VecUV2f<S>>,
        normals: &Vec<Vec3f<S>>,
    ) -> (r: Result<Face<S>, String>)
        ensures
            match corners_of(
                texts(parts@),
                vertices@.len(),
                textures@.len(),
                normals@.len(),
            ) {
                Ok(corners) => r is Ok && r->Ok_0@ == face_from(
                    corners,
                    vertices@,
                    textures@,
                    normals@,
                ),
                Err(why) => r is Err && r->Err_0@ == why,
            },
    {
        let ghost nv = vertices@.len();
        let ghost nt = textures@.len();
        let ghost nn = normals@.len();
        let ghost mut corners: Seq<Corner> = Seq::empty();

        let mut face_vertices: Vec<Vec3f<S>> = Vec::new();
        let mut face_textures: Vec<VecUV2f<S>> = Vec::new();
        let mut face_normals: Vec<Vec3f<S>> = Vec::new();

        let mut i: usize = 0;
        proof {
            assert(texts(parts@).take(0) =~= Seq::<Seq<char>>::empty());
        }
        while i < parts.len()
            invariant
                i <= parts.len(),
                nv == vertices@.len(),
                nt == textures@.len(),
                nn == normals@.len(),
                corners_of(texts(parts@).take(i as int), nv, nt, nn) == Ok::<
                    Seq<Corner>,
                    Seq<char>,
                >(corners),
                corners.len() == i,
                face_vertices@.len() == i,
                face_vertices@ == gathered(vertices@, picks(corners, FaceIndex::Vertex)),
                face_textures@ == gathered(textures@, picks(corners, FaceIndex::Texture)),
                face_normals@ == gathered(normals@, picks(corners, FaceIndex::Normal)),
            decreases parts.len() - i,
        {
            proof {
                assert(texts(parts@).take(i + 1).drop_last() =~= texts(parts@).take(i as int));
                assert(texts(parts@).take(i + 1).last() == parts@[i as int]@);
            }
            let (vertex, texture, normal) = match parse_corner(
                parts[i],
                vertices.len(),
                textures.len(),
                normals.len(),
            ) {
                Ok(corner) => corner,
                Err(why) => {
                    proof {
                        lemma_first_refusal(texts(parts@), i + 1, nv, nt, nn);
                    }
                    return Err(why);
                },
            };
            proof {
                let longer = corners.push((vertex, texture, normal));
                assert(picks(longer, FaceIndex::Vertex).drop_last() =~= picks(
                    corners,
                    FaceIndex::Vertex,
                ));
                assert(picks(longer, FaceIndex::Texture).drop_last() =~= picks(
                    corners,
                    FaceIndex::Texture,
                ));
                assert(picks(longer, FaceIndex::Normal).drop_last() =~= picks(
                    corners,
                    FaceIndex::Normal,
                ));
                corners = longer;
            }
            face_vertices.push(vertices[vertex - 1]);
            if texture > 0 {
                face_textures.push(textures[texture - 1]);
            }
            if normal > 0 {
                face_normals.push(normals[normal - 1]);
            }
            i += 1;
        }
        proof {
            assert(texts(parts@).take(i as int) =~= texts(parts@));
        }
        if face_textures.len() != face_vertices.len() {
            face_textures = Vec::new();
        }
        if face_normals.len() != face_vertices.len() {
            face_normals = Vec::new();
        }
        Ok(Face { vertices: face_vertices, textures: face_textures, normals: face_normals })
    }
}

/// What a line of the mesh format holds.
#[derive(Copy, Clone, Debug, PartialEq, Eq, Structural)]
pub enum Directive {
    /// `v`: a vertex position.
    Vertex,
    /// `vn`: a vertex normal.
    Normal,
    /// `vt`: a texture coordinate.
    Texture,
    /// `f`: a face.
    Face,
    /// Anything else: a line without a space, or with a word before its
    /// first space that is none of the four.
    Ignored,
}

/// The directive of a line: the word before its first space.
pub open spec fn directive_of(line: Seq<char>) -> Directive {
    let at = find_from(line, ' ', 0);
    if at < line.len() {
        let head = line.subrange(0, at);
        if head == "v"@ {
            Directive::Vertex
        } else if head == "vn"@ {
            Directive::Normal
        } else if head == "vt"@ {
            Directive::Texture
        } else if head == "f"@ {
            Directive::Face
        } else {
            Directive::Ignored
        }
    } else {
        Directive::Ignored
    }
}

/// The arguments of a line: what follows its first space.
pub open spec fn arguments_of(line: Seq<char>) -> Seq<char> {
    let at = find_from(line, ' ', 0);
    if at < line.len() {
        line.subrange(at + 1, line.len() as int)
    } else {
        Seq::empty()
    }
}

/// The words of a line that stand for numbers, in order: three at most of
/// a `v` or `vn` line, two at most of a `vt` line, none of any other.
pub open spec fn number_texts(line: Seq<char>) -> Seq<Seq<char>> {
    let wanted: int = match directive_of(line) {
        Directive::Vertex => 3,
        Directive::Normal => 3,
        Directive::Texture => 2,
        _ => 0,
    };
    first(words_of(arguments_of(line)), wanted)
}

/// The note of where a line failed: `at line N: ` before the reason.
pub open spec fn located(line_number: nat, why: Seq<char>) -> Seq<char> {
    "at line "@ + decimal(line_number) + ": "@ + why
}

impl Directive {
    /// Splits a line at its first space into its directive and its
    /// arguments. A line without a space is ignored whole.
    pub fn of<'a>(line: &'a str) -> (r: (Directive, &'a str))
        ensures
            r.0 == directive_of(line@),
            r.1@ == arguments_of(line@),
    {
        match split_once(line, ' ') {
            Some((head, rest)) => {
                let directive = if same_text(head, "v") {
                    Directive::Vertex
                } else if same_text(head, "vn") {
                    Directive::Normal
                } else if same_text(head, "vt") {
                    Directive::Texture
                } else if same_text(head, "f") {
                    Directive::Face
                } else {
                    Directive::Ignored
                };
                (directive, rest)
            },
            None => {
                let rest = "";
                proof {
                    reveal_strlit("");
                    assert(rest@ =~= Seq::<char>::empty());
                }
                (Directive::Ignored, rest)
            },
        }
    }

    /// Whether `err` is the error that a malformed line of this directive
    /// gives.
    pub open spec fn fails_with(&self, err: RenderError) -> bool {
        match self {
            Directive::Vertex => err is VertexParsingError,
            Directive::Normal => err is NormalParsingError,
            Directive::Texture => err is TextureParsingError,
            Directive::Face => err is FaceParsingError,
            Directive::Ignored => false,
        }
    }
}

/// What has been read of a mesh, as sequences.
pub struct LoaderView<S> {
    pub vertices: Seq<Vec3f<S>>,
    pub normals: Seq<Vec3f<S>>,
    pub textures: Seq<VecUV2f<S>>,
    pub faces: Seq<FaceView<S>>,
    pub lines: nat,
}

/// The views of a sequence of faces.
pub open spec fn face_views<S>(faces: Seq<Face<S>>) -> Seq<FaceView<S>> {
    Seq::new(faces.len(), |i: int| faces[i]@)
}

/// What has been read once one more line is taken, or the located reason
/// for which the line is refused. `numbers` holds what the number reader
/// made of the line's number words.
pub open spec fn advance<S>(
    state: LoaderView<S>,
    line: Seq<char>,
    numbers: Seq<Result<S, String>>,
) -> Result<LoaderView<S>, Seq<char>> {
    let number = state.lines + 1;
    let counted = LoaderView { lines: number as nat, ..state };
    match directive_of(line) {
        Directive::Vertex => match vec3_of(numbers) {
            Ok(vertex) => Ok(LoaderView { vertices: state.vertices.push(vertex), ..counted }),
            Err(why) => Err(located(number as nat, why)),
        },
        Directive::Normal => match vec3_of(numbers) {
            Ok(normal) => Ok(LoaderView { normals: state.normals.push(normal), ..counted }),
            Err(why) => Err(located(number as nat, why)),
        },
        Directive::Texture => match uv_of(numbers) {
            Ok(texture) => Ok(LoaderView { textures: state.textures.push(texture), ..counted }),
            Err(why) => Err(located(number as nat, why)),
        },
        Directive::Face => match face_of(
            arguments_of(line),
            state.vertices,
            state.textures,
            state.normals,
        ) {
            Ok(face) => Ok(LoaderView { faces: state.faces.push(face), ..counted }),
            Err(why) => Err(located(number as nat, why)),
        },
        Directive::Ignored => Ok(counted),
    }
}

/// What has been read before the first line.
pub open spec fn nothing_read<S>() -> LoaderView<S> {
    LoaderView {
        vertices: Seq::empty(),
        normals: Seq::empty(),
        textures: Seq::empty(),
        faces: Seq::empty(),
        lines: 0,
    }
}

/// What the number reader made of the number words of the line at position
/// `i`; nothing where it was handed no such line.
pub open spec fn numbers_of<S>(numbers: Seq<Vec<Result<S, String>>>, i: int) -> Seq<
    Result<S, String>,
> {
    if 0 <= i < numbers.len() {
        numbers[i]@
    } else {
        Seq::empty()
    }
}

/// What the first `upto` lines give, taken one after the other, or the
/// directive and the located reason of the first line that is refused.
pub open spec fn loaded<S>(
    lines: Seq<String>,
    numbers: Seq<Vec<Result<S, String>>>,
    upto: int,
) -> Result<LoaderView<S>, (Directive, Seq<char>)>
    decreases upto,
{
    if upto <= 0 || upto > lines.len() {
        Ok(nothing_read())
    } else {
        match loaded(lines, numbers, upto - 1) {
            Err(refusal) => Err(refusal),
            Ok(state) => match advance(state, lines[upto - 1]@, numbers_of(numbers, upto - 1)) {
                Ok(next) => Ok(next),
                Err(why) => Err((directive_of(lines[upto - 1]@), why)),
            },
        }
    }
}

/// A line that is refused fails the whole text: no later line is looked
/// at.
pub proof fn lemma_first_failure<S>(
    lines: Seq<String>,
    numbers: Seq<Vec<Result<S, String>>>,
    upto: int,
)
    requires
        0 <= upto <= lines.len(),
        loaded(lines, numbers, upto) is Err,
    ensures
        loaded(lines, numbers, lines.len() as int) == loaded(lines, numbers, upto),
    decreases lines.len() - upto,
{
    if upto < lines.len() {
        lemma_first_failure(lines, numbers, upto + 1);
    }
}

/// A mesh in the making: what the lines taken so far have given.
#[derive(Debug)]
pub struct Loader<S> {
    pub vertices: Vec<Vec3f<S>>,
    pub normals: Vec<Vec3f<S>>,
    pub textures: Vec<VecUV2f<S>>,
    pub faces: Vec<Face<S>>,
    /// The number of lines taken.
    pub lines: usize,
}

impl<S> View for Loader<S> {
    type V = LoaderView<S>;

    open spec fn view(&self) -> LoaderView<S> {
        LoaderView {
            vertices: self.vertices@,
            normals: self.normals@,
            textures: self.textures@,
            faces: face_views(self.faces@),
            lines: self.lines as nat,
        }
    }
}

/// The words of `line` that the number reader has to read before the
/// line is taken.
pub fn number_words<'a>(line: &'a str) -> (out: Vec<&'a str>)
    ensures
        texts(out@) == number_texts(line@),
{
    let (directive, rest) = Directive::of(line);
    let wanted: usize = match directive {
        Directive::Vertex => 3,
        Directive::Normal => 3,
        Directive::Texture => 2,
        _ => 0,
    };
    leading(words(rest), wanted)
}

/// Writes `at line N: ` before the reason.
fn locate(line_number: usize, why: &str) -> (s: String)
    ensures
        s@ == located(line_number as nat, why@),
{
    let head = join("at line ", show_number(line_number).as_str());
    let head = join(head.as_str(), ": ");
    join(head.as_str(), why)
}

impl<S: Copy> Loader<S> {
    /// A loader that has taken no line.
    pub fn new() -> (loader: Loader<S>)
        ensures
            loader@ == nothing_read::<S>(),
    {
        let loader = Loader {
            vertices: Vec::new(),
            normals: Vec::new(),
            textures: Vec::new(),
            faces: Vec::new(),
            lines: 0,
        };
        proof {
            assert(loader@.faces =~= Seq::empty());
        }
        loader
    }

    /// Takes one more line, with what the number reader made of its number
    /// words. A line that is refused leaves what has been read as it was,
    /// and the error names the directive, the line's number counted from 1,
    /// and the reason.
    pub fn accept(&mut self, line: &str, numbers: &Vec<Result<S, String>>) -> (r: Result<
        Directive,
        RenderError,
    >)
        requires
            old(self).lines < usize::MAX,
        ensures
            match advance(old(self)@, line@, numbers@) {
                Ok(next) => r == Ok::<Directive, RenderError>(directive_of(line@)) && final(self)@
                    == next,
                Err(why) => {
                    &&& r is Err
                    &&& directive_of(line@).fails_with(r->Err_0)
                    &&& r->Err_0.detail() == why
                    &&& *final(self) == *old(self)
                },
            },
    {
        let number = self.lines + 1;
        let (directive, rest) = Directive::of(line);
        match directive {
            Directive::Vertex => match parse_vec3f(numbers) {
                Ok(vertex) => {
                    self.vertices.push(vertex);
                },
                Err(why) => {
                    return Err(RenderError::VertexParsingError(locate(number, why.as_str())));
                },
            },
            Directive::Normal => match parse_vec3f(numbers) {
                Ok(normal) => {
                    self.normals.push(normal);
                },
                Err(why) => {
                    return Err(RenderError::NormalParsingError(locate(number, why.as_str())));
                },
            },
            Directive::Texture => match parse_vec_uv_2f(numbers) {
                Ok(texture) => {
                    self.textures.push(texture);
                },
                Err(why) => {
                    return Err(RenderError::TextureParsingError(locate(number, why.as_str())));
                },
            },
            Directive::Face => match Face::from(
                rest,
                &self.vertices,
                &self.textures,
                &self.normals,
            ) {
                Ok(face) => {
                    self.faces.push(face);
                    proof {
                        assert(face_views(self.faces@) =~= face_views(old(self).faces@).push(
                            face@,
                        ));
                    }
                },
                Err(why) => {
                    return Err(RenderError::FaceParsingError(locate(number, why.as_str())));
                },
            },
            Directive::Ignored => {},
        }
        self.lines = number;
        Ok(directive)
    }

    /// The mesh that the lines taken so far describe.
    pub fn finish(self) -> (model: Model<S>)
        ensures
            model@ == self@.faces,
    {
        Model { faces: self.faces }
    }
}

/// A mesh: its faces in the order of their lines.
#[derive(Debug)]
pub struct Model<S> {
    faces: Vec<Face<S>>,
}

impl<S> View for Model<S> {
    type V = Seq<FaceView<S>>;

    closed spec fn view(&self) -> Seq<FaceView<S>> {
        face_views(self.faces@)
    }
}

/// A walk over the faces of a mesh, first to last.
#[derive(Debug)]
pub struct ModelIterator<'a, S> {
    model: &'a Model<S>,
    index: usize,
}

impl<'a, S> ModelIterator<'a, S> {
    /// The mesh that is walked.
    pub closed spec fn model(&self) -> &'a Model<S> {
        self.model
    }

    /// The number of faces handed out so far.
    pub closed spec fn position(&self) -> nat {
        self.index as nat
    }

    /// The next face, or `None` once every face has been handed out.
    pub fn next(&mut self) -> (face: Option<&'a Face<S>>)
        ensures
            final(self).model() == old(self).model(),
            match face {
                Some(f) => {
                    &&& old(self).position() < old(self).model()@.len()
                    &&& f@ == old(self).model()@[old(self).position() as int]
                    &&& final(self).position() == old(self).position() + 1
                },
                None => {
                    &&& old(self).position() >= old(self).model()@.len()
                    &&& final(self).position() == old(self).position()
                },
            },
    {
        if self.index < self.model.faces.len() {
            let result = Some(&self.model.faces[self.index]);
            self.index += 1;
            result
        } else {
            None
        }
    }
}

impl<S: Copy> Model<S> {
    /// Reads a mesh from the lines of its text, with what the number
    /// reader made of the number words of each line. The first line that
    /// is refused fails the whole text, and no mesh is returned.
    pub fn from_lines(lines: &Vec<String>, numbers: &Vec<Vec<Result<S, String>>>) -> (r: Result<
        Model<S>,
        RenderError,
    >)
        ensures
            match loaded(lines@, numbers@, lines@.len() as int) {
                Ok(state) => r is Ok && r->Ok_0@ == state.faces,
                Err((directive, why)) => {
                    &&& r is Err
                    &&& directive.fails_with(r->Err_0)
                    &&& r->Err_0.detail() == why
                },
            },
    {
        let mut loader: Loader<S> = Loader::new();
        let none: Vec<Result<S, String>> = Vec::new();
        let mut i: usize = 0;
        while i < lines.len()
            invariant
                i <= lines.len(),
                none@.len() == 0,
                loader.lines == i,
                loaded(lines@, numbers@, i as int) == Ok::<LoaderView<S>, (Directive, Seq<char>)>(
                    loader@,
                ),
            decreases lines.len() - i,
        {
            let given = if i < numbers.len() {
                &numbers[i]
            } else {
                &none
            };
            proof {
                assert(given@ =~= numbers_of(numbers@, i as int));
            }
            match loader.accept(lines[i].as_str(), given) {
                Ok(_) => {},
                Err(err) => {
                    proof {
                        lemma_first_failure(lines@, numbers@, i + 1);
                    }
                    return Err(err);
                },
            }
            i += 1;
        }
        Ok(loader.finish())
    }
}

impl<S> Model<S> {
    /// The number of faces.
    pub fn len(&self) -> (n: usize)
        ensures
            n == self@.len(),
    {
        self.faces.len()
    }

    /// The face at position `i`.
    pub fn face(&self, i: usize) -> (face: &Face<S>)
        requires
            i < self@.len(),
        ensures
            face@ == self@[i as int],
    {
        &self.faces[i]
    }

    /// A walk over the faces that starts at the first.
    pub fn iter(&self) -> (walk: ModelIterator<'_, S>)
        ensures
            walk.model() == self,
            walk.position() == 0,
    {
        ModelIterator { model: self, index: 0 }
    }
}

} // verus!
