//! The triangle mesh and its text format.
//!
//! The text is read line by line, each line as tokens between single spaces.
//! A line whose first token is `v` gives a position, `vn` a normal, `vt` a
//! texture coordinate, `f` a face; any other line is ignored. Numbers are
//! decimal, with an optional exponent, and are kept in millionths.

use vstd::prelude::*;
use vstd::slice::slice_subrange;
use crate::text::{
    fixed_value,
    index_value,
    parse_fixed,
    parse_index,
    split,
    split_at,
    texts,
    NumberError,
    UNIT,
};
use crate::vectors::{Vec2, Vec3, Vec4};

verus! {

/// Number of indices that each face adds to a mesh.
pub const STRIDE: usize = 9;

/// Largest magnitude of a number of a mesh, in millionths: the largest that
/// a coordinate holds.
pub const NUMBER_MAX: i64 = 0x7fff_ffff_ffff_ffff;

/// A triangle mesh. Coordinates are in millionths, and the `w` of every
/// position is one. Each face adds `stride` indices: the positions of its
/// three vertices, then their texture coordinates, then their normals.
/// Indices count from one; zero stands for an attribute that the face does
/// not name.
#[derive(Debug)]
pub struct Mesh {
    pub vertices: Vec<Vec4>,
    pub tex_coords: Vec<Vec2>,
    pub normals: Vec<Vec3>,
    pub indices: Vec<u32>,
    pub stride: usize,
}

/// Why a text is not a mesh.
#[derive(Clone, Copy, Debug, PartialEq, Eq, Structural)]
pub enum MeshError {
    /// A line ends before the last token that its kind calls for.
    MissingField,
    /// A token that should be a number is not one.
    BadNumber,
    /// A number is beyond what a coordinate holds.
    TooLarge,
    /// A token of a face is not one to three indices between slashes.
    BadIndex,
}

/// What a mesh holds.
pub struct MeshData {
    pub vertices: Seq<Vec4>,
    pub tex_coords: Seq<Vec2>,
    pub normals: Seq<Vec3>,
    pub indices: Seq<u32>,
    pub stride: usize,
}

impl View for Mesh {
    type V = MeshData;

    open spec fn view(&self) -> MeshData {
        MeshData {
            vertices: self.vertices@,
            tex_coords: self.tex_coords@,
            normals: self.normals@,
            indices: self.indices@,
            stride: self.stride,
        }
    }
}

/// The index in field `i` of a group of a face, zero if the group has no
/// such field.
pub open spec fn field_value(fields: Seq<Seq<u8>>, i: int) -> Result<u32, MeshError> {
    if i < fields.len() {
        match index_value(fields[i]) {
            Some(v) => Ok(v),
            None => Err(MeshError::BadIndex),
        }
    } else {
        Ok(0u32)
    }
}

/// The indices of one vertex of a face: position, texture coordinate and
/// normal, from one to three fields between slashes.
pub open spec fn group_value(group: Seq<u8>) -> Result<(u32, u32, u32), MeshError> {
    let fields = split(group, 47);
    if fields.len() > 3 {
        Err(MeshError::BadIndex)
    } else {
        match field_value(fields, 0) {
            Err(e) => Err(e),
            Ok(p) => match field_value(fields, 1) {
                Err(e) => Err(e),
                Ok(t) => match field_value(fields, 2) {
                    Err(e) => Err(e),
                    Ok(n) => Ok((p, t, n)),
                },
            },
        }
    }
}

/// The group in token `i` of a face line.
pub open spec fn group_at(parts: Seq<Seq<u8>>, i: int) -> Result<(u32, u32, u32), MeshError> {
    if i < parts.len() {
        group_value(parts[i])
    } else {
        Err(MeshError::MissingField)
    }
}

/// The indices that a face line adds: the three groups of tokens 1 to 3,
/// attribute by attribute.
pub open spec fn face_value(parts: Seq<Seq<u8>>) -> Result<Seq<u32>, MeshError> {
    match group_at(parts, 1) {
        Err(e) => Err(e),
        Ok(a) => match group_at(parts, 2) {
            Err(e) => Err(e),
            Ok(b) => match group_at(parts, 3) {
                Err(e) => Err(e),
                Ok(c) => Ok(seq![a.0, b.0, c.0, a.1, b.1, c.1, a.2, b.2, c.2]),
            },
        },
    }
}

/// The number in token `i` of a line, in millionths.
pub open spec fn number_at(parts: Seq<Seq<u8>>, i: int) -> Result<i64, MeshError> {
    if i < parts.len() {
        match fixed_value(parts[i], NUMBER_MAX as int) {
            Ok(v) => Ok(v as i64),
            Err(NumberError::Malformed) => Err(MeshError::BadNumber),
            Err(NumberError::TooLarge) => Err(MeshError::TooLarge),
        }
    } else {
        Err(MeshError::MissingField)
    }
}

/// A line without the carriage return that may end it.
pub open spec fn trimmed(line: Seq<u8>) -> Seq<u8> {
    if line.len() > 0 && line.last() == 13 {
        line.drop_last()
    } else {
        line
    }
}

/// A mesh with the position in tokens 1 to 3 of a line.
pub open spec fn with_position(data: MeshData, parts: Seq<Seq<u8>>) -> Result<MeshData, MeshError> {
    match number_at(parts, 1) {
        Err(e) => Err(e),
        Ok(x) => match number_at(parts, 2) {
            Err(e) => Err(e),
            Ok(y) => match number_at(parts, 3) {
                Err(e) => Err(e),
                Ok(z) => Ok(
                    MeshData { vertices: data.vertices.push(Vec4 { x, y, z, w: UNIT }), ..data },
                ),
            },
        },
    }
}

/// A mesh with the normal in tokens 2 to 4 of a line, where two spaces
/// follow the first token.
pub open spec fn with_normal(data: MeshData, parts: Seq<Seq<u8>>) -> Result<MeshData, MeshError> {
    match number_at(parts, 2) {
        Err(e) => Err(e),
        Ok(x) => match number_at(parts, 3) {
            Err(e) => Err(e),
            Ok(y) => match number_at(parts, 4) {
                Err(e) => Err(e),
                Ok(z) => Ok(MeshData { normals: data.normals.push(Vec3 { x, y, z }), ..data }),
            },
        },
    }
}

/// A mesh with the texture coordinate in tokens 2 and 3 of a line, where two
/// spaces follow the first token.
pub open spec fn with_tex_coord(data: MeshData, parts: Seq<Seq<u8>>) -> Result<
    MeshData,
    MeshError,
> {
    match number_at(parts, 2) {
        Err(e) => Err(e),
        Ok(x) => match number_at(parts, 3) {
            Err(e) => Err(e),
            Ok(y) => Ok(MeshData { tex_coords: data.tex_coords.push(Vec2 { x, y }), ..data }),
        },
    }
}

/// A mesh with the face in tokens 1 to 3 of a line.
pub open spec fn with_face(data: MeshData, parts: Seq<Seq<u8>>) -> Result<MeshData, MeshError> {
    match face_value(parts) {
        Err(e) => Err(e),
        Ok(face) => Ok(MeshData { indices: data.indices + face, ..data }),
    }
}

/// What a mesh holds after one more line: the first token of the line says
/// what the line adds, and a line of no known kind adds nothing.
pub open spec fn with_line(data: MeshData, line: Seq<u8>) -> Result<MeshData, MeshError> {
    let parts = split(trimmed(line), 32);
    if parts[0] == seq![118u8] {
        with_position(data, parts)
    } else if parts[0] == seq![118u8, 110u8] {
        with_normal(data, parts)
    } else if parts[0] == seq![118u8, 116u8] {
        with_tex_coord(data, parts)
    } else if parts[0] == seq![102u8] {
        with_face(data, parts)
    } else {
        Ok(data)
    }
}

/// What a mesh holds after the given lines, or the first error in them.
/// Its stride is `STRIDE`.
pub open spec fn with_lines(lines: Seq<Seq<u8>>) -> Result<MeshData, MeshError>
    decreases lines.len(),
{
    if lines.len() == 0 {
        Ok(
            MeshData {
                vertices: Seq::empty(),
                tex_coords: Seq::empty(),
                normals: Seq::empty(),
                indices: Seq::empty(),
                stride: STRIDE,
            },
        )
    } else {
        match with_lines(lines.drop_last()) {
            Err(e) => Err(e),
            Ok(data) => with_line(data, lines.last()),
        }
    }
}

/// What the text of a mesh holds: its lines, split at line feeds, in order.
pub open spec fn parsed(bytes: Seq<u8>) -> Result<MeshData, MeshError> {
    with_lines(split(bytes, 10))
}

fn parse_field(fields: &Vec<Vec<u8>>, i: usize) -> (r: Result<u32, MeshError>)
    ensures
        r == field_value(texts(fields@), i as int),
{
    if i < fields.len() {
        match parse_index(fields[i].as_slice()) {
            Some(v) => Ok(v),
            None => Err(MeshError::BadIndex),
        }
    } else {
        Ok(0)
    }
}

fn parse_group(parts: &Vec<Vec<u8>>, i: usize) -> (r: Result<(u32, u32, u32), MeshError>)
    ensures
        r == group_at(texts(parts@), i as int),
{
    if i >= parts.len() {
        return Err(MeshError::MissingField);
    }
    let fields = split_at(parts[i].as_slice(), 47);
    if fields.len() > 3 {
        return Err(MeshError::BadIndex);
    }
    let p: u32 = match parse_field(&fields, 0) {
        Ok(v) => v,
        Err(e) => {
            return Err(e);
        },
    };
    let t: u32 = match parse_field(&fields, 1) {
        Ok(v) => v,
        Err(e) => {
            return Err(e);
        },
    };
    let n: u32 = match parse_field(&fields, 2) {
        Ok(v) => v,
        Err(e) => {
            return Err(e);
        },
    };
    Ok((p, t, n))
}

/// Reads the face in the tokens of a line and appends its indices: the
/// positions of the three vertices, then their texture coordinates, then
/// their normals. On an error nothing is appended.
pub fn parse_face(parts: &Vec<Vec<u8>>, indices: &mut Vec<u32>) -> (r: Result<(), MeshError>)
    ensures
        match r {
            Ok(_) => face_value(texts(parts@)) matches Ok(face) && final(indices)@
                == old(indices)@ + face,
            Err(e) => face_value(texts(parts@)) == Err::<Seq<u32>, MeshError>(e)
                && final(indices)@ == old(indices)@,
        },
{
    let a = match parse_group(parts, 1) {
        Ok(g) => g,
        Err(e) => {
            return Err(e);
        },
    };
    let b = match parse_group(parts, 2) {
        Ok(g) => g,
        Err(e) => {
            return Err(e);
        },
    };
    let c = match parse_group(parts, 3) {
        Ok(g) => g,
        Err(e) => {
            return Err(e);
        },
    };
    indices.push(a.0);
    indices.push(b.0);
    indices.push(c.0);
    indices.push(a.1);
    indices.push(b.1);
    indices.push(c.1);
    indices.push(a.2);
    indices.push(b.2);
    indices.push(c.2);
    assert(indices@ =~= old(indices)@ + seq![a.0, b.0, c.0, a.1, b.1, c.1, a.2, b.2, c.2]);
    Ok(())
}

fn parse_number(parts: &Vec<Vec<u8>>, i: usize) -> (r: Result<i64, MeshError>)
    ensures
        r == number_at(texts(parts@), i as int),
{
    if i >= parts.len() {
        return Err(MeshError::MissingField);
    }
    match parse_fixed(parts[i].as_slice(), NUMBER_MAX) {
        Ok(v) => Ok(v),
        Err(NumberError::Malformed) => Err(MeshError::BadNumber),
        Err(NumberError::TooLarge) => Err(MeshError::TooLarge),
    }
}

/// Whether the token is exactly the given one or two characters.
fn is_word(token: &Vec<u8>, first: u8, second: Option<u8>) -> (r: bool)
    ensures
        r == (token@ == match second {
            Some(c) => seq![first, c],
            None => seq![first],
        }),
{
    match second {
        Some(c) => {
            let r = token.len() == 2 && token[0] == first && token[1] == c;
            proof {
                if r {
                    assert(token@ =~= seq![first, c]);
                } else if token@ == seq![first, c] {
                    assert(seq![first, c].len() == 2);
                    assert(seq![first, c][0] == first && seq![first, c][1] == c);
                }
            }
            r
        },
        None => {
            let r = token.len() == 1 && token[0] == first;
            proof {
                if r {
                    assert(token@ =~= seq![first]);
                } else if token@ == seq![first] {
                    assert(seq![first].len() == 1);
                    assert(seq![first][0] == first);
                }
            }
            r
        },
    }
}

fn add_position(parts: &Vec<Vec<u8>>, mesh: &mut Mesh) -> (r: Result<(), MeshError>)
    ensures
        match r {
            Ok(_) => with_position(old(mesh)@, texts(parts@)) == Ok::<MeshData, MeshError>(
                final(mesh)@,
            ),
            Err(e) => with_position(old(mesh)@, texts(parts@)) == Err::<MeshData, MeshError>(e),
        },
{
    let x: i64 = match parse_number(parts, 1) {
        Ok(v) => v,
        Err(e) => {
            return Err(e);
        },
    };
    let y: i64 = match parse_number(parts, 2) {
        Ok(v) => v,
        Err(e) => {
            return Err(e);
        },
    };
    let z: i64 = match parse_number(parts, 3) {
        Ok(v) => v,
        Err(e) => {
            return Err(e);
        },
    };
    mesh.vertices.push(Vec4 { x, y, z, w: UNIT });
    Ok(())
}

fn add_normal(parts: &Vec<Vec<u8>>, mesh: &mut Mesh) -> (r: Result<(), MeshError>)
    ensures
        match r {
            Ok(_) => with_normal(old(mesh)@, texts(parts@)) == Ok::<MeshData, MeshError>(
                final(mesh)@,
            ),
            Err(e) => with_normal(old(mesh)@, texts(parts@)) == Err::<MeshData, MeshError>(e),
        },
{
    let x: i64 = match parse_number(parts, 2) {
        Ok(v) => v,
        Err(e) => {
            return Err(e);
        },
    };
    let y: i64 = match parse_number(parts, 3) {
        Ok(v) => v,
        Err(e) => {
            return Err(e);
        },
    };
    let z: i64 = match parse_number(parts, 4) {
        Ok(v) => v,
        Err(e) => {
            return Err(e);
        },
    };
    mesh.normals.push(Vec3 { x, y, z });
    Ok(())
}

fn add_tex_coord(parts: &Vec<Vec<u8>>, mesh: &mut Mesh) -> (r: Result<(), MeshError>)
    ensures
        match r {
            Ok(_) => with_tex_coord(old(mesh)@, texts(parts@)) == Ok::<MeshData, MeshError>(
                final(mesh)@,
            ),
            Err(e) => with_tex_coord(old(mesh)@, texts(parts@)) == Err::<MeshData, MeshError>(e),
        },
{
    let x: i64 = match parse_number(parts, 2) {
        Ok(v) => v,
        Err(e) => {
            return Err(e);
        },
    };
    let y: i64 = match parse_number(parts, 3) {
        Ok(v) => v,
        Err(e) => {
            return Err(e);
        },
    };
    mesh.tex_coords.push(Vec2 { x, y });
    Ok(())
}

fn add_face(parts: &Vec<Vec<u8>>, mesh: &mut Mesh) -> (r: Result<(), MeshError>)
    ensures
        match r {
            Ok(_) => with_face(old(mesh)@, texts(parts@)) == Ok::<MeshData, MeshError>(
                final(mesh)@,
            ),
            Err(e) => with_face(old(mesh)@, texts(parts@)) == Err::<MeshData, MeshError>(e),
        },
{
    parse_face(parts, &mut mesh.indices)
}

/// Adds what one line holds to the mesh.
fn add_line(line: &[u8], mesh: &mut Mesh) -> (r: Result<(), MeshError>)
    ensures
        match r {
            Ok(_) => with_line(old(mesh)@, line@) == Ok::<MeshData, MeshError>(final(mesh)@),
            Err(e) => with_line(old(mesh)@, line@) == Err::<MeshData, MeshError>(e),
        },
{
    let end: usize = if line.len() > 0 && line[line.len() - 1] == 13 {
        line.len() - 1
    } else {
        line.len()
    };
    let parts = split_at(slice_subrange(line, 0, end), 32);
    proof {
        assert(line@.subrange(0, end as int) =~= trimmed(line@));
        assert(texts(parts@)[0] == parts@[0]@);
    }
    if is_word(&parts[0], 118, None) {
        add_position(&parts, mesh)
    } else if is_word(&parts[0], 118, Some(110)) {
        add_normal(&parts, mesh)
    } else if is_word(&parts[0], 118, Some(116)) {
        add_tex_coord(&parts, mesh)
    } else if is_word(&parts[0], 102, None) {
        add_face(&parts, mesh)
    } else {
        Ok(())
    }
}

/// Reads a mesh from its text.
pub fn load(bytes: &[u8]) -> (r: Result<Mesh, MeshError>)
    ensures
        match r {
            Ok(mesh) => parsed(bytes@) == Ok::<MeshData, MeshError>(mesh@),
            Err(e) => parsed(bytes@) == Err::<MeshData, MeshError>(e),
        },
{
    let lines = split_at(bytes, 10);
    let mut mesh = Mesh {
        vertices: Vec::new(),
        tex_coords: Vec::new(),
        normals: Vec::new(),
        indices: Vec::new(),
        stride: STRIDE,
    };
    let ghost all = texts(lines@);
    assert(all.take(0) =~= Seq::<Seq<u8>>::empty());
    let mut i: usize = 0;
    while i < lines.len()
        invariant
            i <= lines.len(),
            all == texts(lines@),
            all == split(bytes@, 10),
            with_lines(all.take(i as int)) == Ok::<MeshData, MeshError>(mesh@),
        decreases lines.len() - i,
    {
        proof {
            assert(all.take(i + 1).drop_last() =~= all.take(i as int));
            assert(all.take(i + 1).last() == lines@[i as int]@);
        }
        match add_line(lines[i].as_slice(), &mut mesh) {
            Ok(_) => {},
            Err(e) => {
                proof {
                    lemma_first_error(all, i + 1, e);
                }
                return Err(e);
            },
        }
        i = i + 1;
    }
    assert(all.take(lines@.len() as int) =~= all);
    Ok(mesh)
}

/// An error in the first `k` lines is the error of all the lines.
pub proof fn lemma_first_error(lines: Seq<Seq<u8>>, k: int, e: MeshError)
    requires
        0 <= k <= lines.len(),
        with_lines(lines.take(k)) == Err::<MeshData, MeshError>(e),
    ensures
        with_lines(lines) == Err::<MeshData, MeshError>(e),
    decreases lines.len() - k,
{
    if k < lines.len() {
        assert(lines.take(k + 1).drop_last() =~= lines.take(k));
        lemma_first_error(lines, k + 1, e);
    } else {
        assert(lines.take(k) =~= lines);
    }
}

/// Number of whole faces in the indices of a mesh whose stride is `STRIDE`.
pub open spec fn face_count(data: MeshData) -> int {
    data.indices.len() as int / STRIDE as int
}

/// Whether index `at` exists and names one of `len` attributes, counting
/// from one.
pub open spec fn names(indices: Seq<u32>, at: int, len: int) -> bool {
    0 <= at < indices.len() && 1 <= indices[at] <= len
}

/// Whether `face` is a whole face and its three indices from `offset` on
/// name attributes.
pub open spec fn names_three(indices: Seq<u32>, face: int, offset: int, len: int) -> bool {
    &&& 0 <= face < indices.len() as int / STRIDE as int
    &&& names(indices, face * STRIDE + offset, len)
    &&& names(indices, face * STRIDE + offset + 1, len)
    &&& names(indices, face * STRIDE + offset + 2, len)
}

/// Resolves index `at` to a place among `len` attributes, counting from zero.
fn place(indices: &Vec<u32>, at: usize, len: usize) -> (r: Option<usize>)
    ensures
        match r {
            Some(i) => names(indices@, at as int, len as int) && i == indices@[at as int] - 1,
            None => !names(indices@, at as int, len as int),
        },
{
    if at >= indices.len() {
        return None;
    }
    let index: u32 = indices[at];
    if index == 0 || index as u64 > len as u64 {
        None
    } else {
        Some((index - 1) as usize)
    }
}

impl Mesh {
    /// Returns the number of whole faces of a mesh whose stride is `STRIDE`.
    pub fn faces(&self) -> (n: usize)
        requires
            self.stride == STRIDE,
        ensures
            n == face_count(self@),
    {
        self.indices.len() / STRIDE
    }

    /// The positions of the three vertices of face `face`, if the face
    /// exists and each of its position indices names a position.
    pub fn positions(&self, face: usize) -> (r: Option<(Vec4, Vec4, Vec4)>)
        requires
            self.stride == STRIDE,
        ensures
            match r {
                Some(p) => {
                    &&& names_three(self@.indices, face as int, 0, self@.vertices.len() as int)
                    &&& p.0 == self@.vertices[self@.indices[face * STRIDE] - 1]
                    &&& p.1 == self@.vertices[self@.indices[face * STRIDE + 1] - 1]
                    &&& p.2 == self@.vertices[self@.indices[face * STRIDE + 2] - 1]
                },
                None => !names_three(self@.indices, face as int, 0, self@.vertices.len() as int),
            },
    {
        if face >= self.indices.len() / STRIDE {
            return None;
        }
        let at: usize = face * STRIDE;
        let n: usize = self.vertices.len();
        match (place(&self.indices, at, n), place(&self.indices, at + 1, n), place(
            &self.indices,
            at + 2,
            n,
        )) {
            (Some(a), Some(b), Some(c)) => Some((self.vertices[a], self.vertices[b], self.vertices[c])),
            _ => None,
        }
    }

    /// The texture coordinates of the three vertices of face `face`, if the
    /// face exists and each of its texture indices names a coordinate.
    pub fn texture(&self, face: usize) -> (r: Option<(Vec2, Vec2, Vec2)>)
        requires
            self.stride == STRIDE,
        ensures
            match r {
                Some(t) => {
                    &&& names_three(self@.indices, face as int, 3, self@.tex_coords.len() as int)
                    &&& t.0 == self@.tex_coords[self@.indices[face * STRIDE + 3] - 1]
                    &&& t.1 == self@.tex_coords[self@.indices[face * STRIDE + 4] - 1]
                    &&& t.2 == self@.tex_coords[self@.indices[face * STRIDE + 5] - 1]
                },
                None => !names_three(self@.indices, face as int, 3, self@.tex_coords.len() as int),
            },
    {
        if face >= self.indices.len() / STRIDE {
            return None;
        }
        let at: usize = face * STRIDE + 3;
        let n: usize = self.tex_coords.len();
        match (place(&self.indices, at, n), place(&self.indices, at + 1, n), place(
            &self.indices,
            at + 2,
            n,
        )) {
            (Some(a), Some(b), Some(c)) => Some(
                (self.tex_coords[a], self.tex_coords[b], self.tex_coords[c]),
            ),
            _ => None,
        }
    }

    /// The normals of the three vertices of face `face`, if the face exists
    /// and each of its normal indices names a normal.
    pub fn vertex_normals(&self, face: usize) -> (r: Option<(Vec3, Vec3, Vec3)>)
        requires
            self.stride == STRIDE,
        ensures
            match r {
                Some(n) => {
                    &&& names_three(self@.indices, face as int, 6, self@.normals.len() as int)
                    &&& n.0 == self@.normals[self@.indices[face * STRIDE + 6] - 1]
                    &&& n.1 == self@.normals[self@.indices[face * STRIDE + 7] - 1]
                    &&& n.2 == self@.normals[self@.indices[face * STRIDE + 8] - 1]
                },
                None => !names_three(self@.indices, face as int, 6, self@.normals.len() as int),
            },
    {
        if face >= self.indices.len() / STRIDE {
            return None;
        }
        let at: usize = face * STRIDE + 6;
        let n: usize = self.normals.len();
        match (place(&self.indices, at, n), place(&self.indices, at + 1, n), place(
            &self.indices,
            at + 2,
            n,
        )) {
            (Some(a), Some(b), Some(c)) => Some((self.normals[a], self.normals[b], self.normals[c])),
            _ => None,
        }
    }
}

} // verus!
