use vstd::prelude::*;
use crate::text::{eq_lit, first_of, lines_of, parse_u32, split_lines, u32_text_value};

verus! {

/// The pieces of `s` between occurrences of `c`; there is always at least one.
pub open spec fn split_on(s: Seq<char>, c: char) -> Seq<Seq<char>>
    decreases s.len(),
{
    let k = first_of(s, c);
    if k < 0 || k >= s.len() {
        seq![s]
    } else {
        seq![s.subrange(0, k)] + split_on(s.subrange(k + 1, s.len() as int), c)
    }
}

/// The pieces of `ps` that are not empty, in order.
pub open spec fn nonempty(ps: Seq<Seq<char>>) -> Seq<Seq<char>>
    decreases ps.len(),
{
    if ps.len() == 0 {
        ps
    } else if ps.last().len() > 0 {
        nonempty(ps.drop_last()).push(ps.last())
    } else {
        nonempty(ps.drop_last())
    }
}

pub open spec fn has_double_slash(s: Seq<char>) -> bool {
    exists|i: int| 0 <= i < s.len() - 1 && #[trigger] s[i] == '/' && s[i + 1] == '/'
}

/// What is wrong with a line of a mesh file.
#[derive(Clone, Copy, Debug, PartialEq, Eq, Structural)]
pub enum ObjFailure {
    /// The line has fewer fields than its kind needs.
    MissingField,
    /// An index is not a number.
    InvalidIndex,
    /// An index is 0 or larger than the number of items read so far.
    IndexOutOfRange,
}

/// A failure to read a mesh file, with the number of the line (counted from 1).
#[derive(Debug)]
pub struct ObjError {
    pub line: usize,
    pub failure: ObjFailure,
}

/// A corner of a face: the position of its vertex, and of its texture coordinates and its
/// normal where the face gives them, counted from 0.
#[derive(Clone, Copy, Debug, PartialEq, Eq, Structural)]
pub struct Corner {
    pub vertex: usize,
    pub uv: Option<usize>,
    pub normal: Option<usize>,
}

/// A triangle of the mesh. Where `smooth` is false the corners give no normals; a corner
/// without a normal takes the face normal.
#[derive(Clone, Copy, Debug, PartialEq, Eq, Structural)]
pub struct Face {
    pub a: Corner,
    pub b: Corner,
    pub c: Corner,
    pub smooth: bool,
}

/// The fields of a line after its keyword: the text of each number.
#[derive(Debug)]
pub struct Fields {
    pub items: Vec<Vec<char>>,
}

impl View for Fields {
    type V = Seq<Seq<char>>;

    open spec fn view(&self) -> Seq<Seq<char>> {
        self.items@.map_values(|t: Vec<char>| t@)
    }
}

/// A mesh as written: the text of the coordinates of each vertex, texture coordinate
/// and normal, and the faces, which refer to them by position.
#[derive(Debug)]
pub struct ObjDescription {
    pub vertices: Vec<Fields>,
    pub uvs: Vec<Fields>,
    pub normals: Vec<Fields>,
    pub faces: Vec<Face>,
    pub smooth: bool,
}

pub struct ObjModel {
    pub vertices: Seq<Seq<Seq<char>>>,
    pub uvs: Seq<Seq<Seq<char>>>,
    pub normals: Seq<Seq<Seq<char>>>,
    pub faces: Seq<Face>,
    pub smooth: bool,
}

impl View for ObjDescription {
    type V = ObjModel;

    open spec fn view(&self) -> ObjModel {
        ObjModel {
            vertices: self.vertices@.map_values(|f: Fields| f@),
            uvs: self.uvs@.map_values(|f: Fields| f@),
            normals: self.normals@.map_values(|f: Fields| f@),
            faces: self.faces@,
            smooth: self.smooth,
        }
    }
}

/// The position, counted from 0, that the 1-based index `t` names among `n` items.
pub open spec fn index_value(t: Seq<char>, n: nat) -> Result<usize, ObjFailure> {
    match u32_text_value(t) {
        None => Err(ObjFailure::InvalidIndex),
        Some(k) => if k == 0 || k > n {
            Err(ObjFailure::IndexOutOfRange)
        } else {
            Ok((k - 1) as usize)
        },
    }
}

/// The corner that the field `p` of a face line (`v`, `v/t`, `v/t/n` or `v//n`) gives.
/// The texture index is read where the field gives one and does not hold `//`; the normal
/// index, for smooth faces only, where the field gives one. A corner without a normal
/// takes the face normal.
pub open spec fn corner_of(p: Seq<char>, nv: nat, nt: nat, nn: nat, smooth: bool) -> Result<Corner, ObjFailure> {
    let f = nonempty(split_on(p, '/'));
    if f.len() < 1 {
        Err(ObjFailure::MissingField)
    } else {
        match index_value(f[0], nv) {
            Err(e) => Err(e),
            Ok(v) => {
                let uv: Result<Option<usize>, ObjFailure> = if has_double_slash(p) || f.len() < 2 {
                    Ok(None)
                } else {
                    match index_value(f[1], nt) {
                        Err(e) => Err(e),
                        Ok(t) => Ok(Some(t)),
                    }
                };
                let next: int = if has_double_slash(p) {
                    1
                } else {
                    2
                };
                match uv {
                    Err(e) => Err(e),
                    Ok(uv) => if !smooth {
                        Ok(Corner { vertex: v, uv, normal: None })
                    } else if f.len() <= next {
                        Ok(Corner { vertex: v, uv, normal: None })
                    } else {
                        match index_value(f[next], nn) {
                            Err(e) => Err(e),
                            Ok(n) => Ok(Corner { vertex: v, uv, normal: Some(n) }),
                        }
                    },
                }
            },
        }
    }
}

/// The mesh after one line. `v`, `vt` and `vn` add a vertex, texture coordinate or
/// normal from the next three, two or three fields; `f` adds a face from the next three;
/// `s off` turns smoothing off and `s` with anything else on; other lines change nothing.
pub open spec fn obj_step(m: ObjModel, line: Seq<char>) -> Result<ObjModel, ObjFailure> {
    let parts = split_on(line, ' ');
    let head = parts[0];
    if head == "v"@ {
        if parts.len() < 4 {
            Err(ObjFailure::MissingField)
        } else {
            Ok(ObjModel { vertices: m.vertices.push(parts.subrange(1, 4)), ..m })
        }
    } else if head == "vt"@ {
        if parts.len() < 3 {
            Err(ObjFailure::MissingField)
        } else {
            Ok(ObjModel { uvs: m.uvs.push(parts.subrange(1, 3)), ..m })
        }
    } else if head == "vn"@ {
        if parts.len() < 4 {
            Err(ObjFailure::MissingField)
        } else {
            Ok(ObjModel { normals: m.normals.push(parts.subrange(1, 4)), ..m })
        }
    } else if head == "f"@ {
        if parts.len() < 4 {
            Err(ObjFailure::MissingField)
        } else {
            let (nv, nt, nn) = (m.vertices.len(), m.uvs.len(), m.normals.len());
            match (
                corner_of(parts[1], nv, nt, nn, m.smooth),
                corner_of(parts[2], nv, nt, nn, m.smooth),
                corner_of(parts[3], nv, nt, nn, m.smooth),
            ) {
                (Ok(a), Ok(b), Ok(c)) => Ok(
                    ObjModel { faces: m.faces.push(Face { a, b, c, smooth: m.smooth }), ..m },
                ),
                (Err(e), _, _) => Err(e),
                (_, Err(e), _) => Err(e),
                (_, _, Err(e)) => Err(e),
            }
        }
    } else if head == "s"@ {
        if parts.len() < 2 {
            Err(ObjFailure::MissingField)
        } else {
            Ok(ObjModel { smooth: parts[1] != "off"@, ..m })
        }
    } else {
        Ok(m)
    }
}

/// The mesh read from line `i` on, or the position of the failing line and what is
/// wrong with it.
pub open spec fn obj_from(lines: Seq<Seq<char>>, i: int, m: ObjModel) -> Result<ObjModel, (int, ObjFailure)>
    decreases lines.len() - i,
{
    if i >= lines.len() {
        Ok(m)
    } else {
        match obj_step(m, lines[i]) {
            Err(f) => Err((i, f)),
            Ok(m2) => obj_from(lines, i + 1, m2),
        }
    }
}

/// The mesh that the text of a mesh file describes.
pub open spec fn obj_of(text: Seq<char>) -> Result<ObjModel, (int, ObjFailure)> {
    obj_from(
        lines_of(text),
        0,
        ObjModel {
            vertices: Seq::empty(),
            uvs: Seq::empty(),
            normals: Seq::empty(),
            faces: Seq::empty(),
            smooth: false,
        },
    )
}

/// Splits `s` at each `c`.
pub fn split_on_char(s: &Vec<char>, c: char) -> (r: Vec<Vec<char>>)
    ensures
        r@.map_values(|t: Vec<char>| t@) == split_on(s@, c),
{
    let ghost whole = s@;
    let mut pieces: Vec<Vec<char>> = Vec::new();
    let mut start: usize = 0;
    assert(whole.subrange(0, whole.len() as int) == whole);
    assert(pieces@.map_values(|t: Vec<char>| t@) =~= Seq::<Seq<char>>::empty());
    loop
        invariant
            start <= s.len(),
            whole == s@,
            pieces@.map_values(|t: Vec<char>| t@) + split_on(whole.subrange(start as int, whole.len() as int), c)
                == split_on(whole, c),
        decreases s.len() - start,
    {
        let ghost rest = whole.subrange(start as int, whole.len() as int);
        let mut piece: Vec<char> = Vec::new();
        let mut k: usize = start;
        while k < s.len() && s[k] != c
            invariant
                start <= k <= s.len(),
                whole == s@,
                piece@ == whole.subrange(start as int, k as int),
                forall|j: int| start <= j < k ==> whole[j] != c,
            decreases s.len() - k,
        {
            piece.push(s[k]);
            assert(whole.subrange(start as int, k + 1) == whole.subrange(start as int, k as int).push(
                whole[k as int],
            ));
            k = k + 1;
        }
        proof {
            crate::text::lemma_first_of_at(whole, c, start as int, k as int);
            if (k as int) < whole.len() {
                assert(rest.subrange(0, k - start) == piece@);
                assert(rest.subrange(k - start + 1, rest.len() as int) == whole.subrange(k + 1, whole.len() as int));
            } else {
                assert(rest == piece@);
            }
        }
        let ghost before = pieces@.map_values(|t: Vec<char>| t@);
        pieces.push(piece);
        assert(pieces@.map_values(|t: Vec<char>| t@) == before.push(piece@));
        if k < s.len() {
            start = k + 1;
            assert(before.push(piece@) + split_on(whole.subrange(start as int, whole.len() as int), c) =~= before
                + (seq![piece@] + split_on(whole.subrange(start as int, whole.len() as int), c)));
        } else {
            assert(before.push(piece@) =~= before + seq![piece@]);
            return pieces;
        }
    }
}

/// The pieces of `ps` that are not empty.
fn nonempty_pieces(ps: Vec<Vec<char>>) -> (r: Vec<Vec<char>>)
    ensures
        r@.map_values(|t: Vec<char>| t@) == nonempty(ps@.map_values(|t: Vec<char>| t@)),
{
    let ghost all = ps@.map_values(|t: Vec<char>| t@);
    let mut out: Vec<Vec<char>> = Vec::new();
    let mut rest = ps;
    let n = rest.len();
    let mut i: usize = 0;
    assert(out@.map_values(|t: Vec<char>| t@) =~= nonempty(all.subrange(0, 0)));
    while i < n
        invariant
            n == all.len(),
            i <= n,
            rest@.len() == n - i,
            forall|j: int| 0 <= j < n - i ==> (#[trigger] rest@[j])@ == all[i + j],
            out@.map_values(|t: Vec<char>| t@) == nonempty(all.subrange(0, i as int)),
        decreases n - i,
    {
        let ghost before = out@.map_values(|t: Vec<char>| t@);
        let ghost old_rest = rest@;
        let t = rest.remove(0);
        assert(t@ == all[i as int]);
        assert forall|j: int| 0 <= j < n - i - 1 implies (#[trigger] rest@[j])@ == all[i + 1 + j] by {
            assert(rest@[j] == old_rest[j + 1]);
        }
        let ghost pre = all.subrange(0, i + 1);
        assert(pre.drop_last() == all.subrange(0, i as int));
        assert(pre.last() == t@);
        if t.len() > 0 {
            out.push(t);
            assert(out@.map_values(|t: Vec<char>| t@) =~= before.push(all[i as int]));
        }
        i = i + 1;
    }
    assert(all.subrange(0, n as int) == all);
    out
}

fn contains_double_slash(p: &Vec<char>) -> (r: bool)
    ensures
        r == has_double_slash(p@),
{
    let mut i: usize = 0;
    while i < p.len() && i + 1 < p.len()
        invariant
            i <= p.len(),
            forall|j: int| 0 <= j < i && j < p@.len() - 1 ==> !(#[trigger] p@[j] == '/' && p@[j + 1] == '/'),
        decreases p.len() - i,
    {
        if p[i] == '/' && p[i + 1] == '/' {
            return true;
        }
        i = i + 1;
    }
    false
}

/// The position, counted from 0, that the 1-based index `t` names among `n` items.
fn parse_index(t: &Vec<char>, n: usize) -> (r: Result<usize, ObjFailure>)
    ensures
        r == index_value(t@, n as nat),
{
    match parse_u32(t) {
        None => Err(ObjFailure::InvalidIndex),
        Some(k) => if k == 0 || k as usize > n {
            Err(ObjFailure::IndexOutOfRange)
        } else {
            Ok(k as usize - 1)
        },
    }
}

/// The corner that the field `p` of a face line gives, as `corner_of` says.
fn parse_corner(p: &Vec<char>, nv: usize, nt: usize, nn: usize, smooth: bool) -> (r: Result<Corner, ObjFailure>)
    ensures
        r == corner_of(p@, nv as nat, nt as nat, nn as nat, smooth),
{
    let f = nonempty_pieces(split_on_char(p, '/'));
    let ghost fv = f@.map_values(|t: Vec<char>| t@);
    if f.len() < 1 {
        return Err(ObjFailure::MissingField);
    }
    assert(fv[0] == f[0]@);
    let v = match parse_index(&f[0], nv) {
        Err(e) => {
            return Err(e);
        },
        Ok(v) => v,
    };
    let double = contains_double_slash(p);
    let uv = if double || f.len() < 2 {
        None
    } else {
        assert(fv[1] == f[1]@);
        match parse_index(&f[1], nt) {
            Err(e) => {
                return Err(e);
            },
            Ok(t) => Some(t),
        }
    };
    if !smooth {
        return Ok(Corner { vertex: v, uv, normal: None });
    }
    let next: usize = if double {
        1
    } else {
        2
    };
    if f.len() <= next {
        return Ok(Corner { vertex: v, uv, normal: None });
    }
    assert(fv[next as int] == f[next as int]@);
    match parse_index(&f[next], nn) {
        Err(e) => Err(e),
        Ok(n) => Ok(Corner { vertex: v, uv, normal: Some(n) }),
    }
}

/// The pieces of `parts` from `from` up to `to`.
fn take_fields(parts: Vec<Vec<char>>, from: usize, to: usize) -> (r: Fields)
    requires
        from <= to <= parts.len(),
    ensures
        r@ == parts@.map_values(|t: Vec<char>| t@).subrange(from as int, to as int),
{
    let ghost all = parts@.map_values(|t: Vec<char>| t@);
    let mut rest = parts;
    rest.truncate(to);
    let mut k: usize = 0;
    while k < from
        invariant
            k <= from <= to,
            to <= all.len(),
            rest@.len() == to - k,
            forall|j: int| 0 <= j < to - k ==> (#[trigger] rest@[j])@ == all[k + j],
        decreases from - k,
    {
        let ghost old_rest = rest@;
        rest.remove(0);
        assert forall|j: int| 0 <= j < to - k - 1 implies (#[trigger] rest@[j])@ == all[k + 1 + j] by {
            assert(rest@[j] == old_rest[j + 1]);
        }
        k = k + 1;
    }
    let r = Fields { items: rest };
    assert(r@ =~= all.subrange(from as int, to as int));
    r
}

/// Reads one line of a mesh file into `mesh`, as `obj_step` says.
fn parse_obj_line(mesh: &mut ObjDescription, line: &Vec<char>) -> (r: Result<(), ObjFailure>)
    ensures
        match obj_step(old(mesh)@, line@) {
            Ok(m) => r is Ok && final(mesh)@ == m,
            Err(f) => r == Err::<(), ObjFailure>(f),
        },
{
    let parts = split_on_char(line, ' ');
    let ghost pv = parts@.map_values(|t: Vec<char>| t@);
    assert(pv.len() >= 1) by {
        reveal_with_fuel(split_on, 1);
    }
    assert(pv[0] == parts[0]@);
    let ghost old_view = mesh@;
    if eq_lit(&parts[0], "v") {
        if parts.len() < 4 {
            return Err(ObjFailure::MissingField);
        }
        let fields = take_fields(parts, 1, 4);
        mesh.vertices.push(fields);
        assert(mesh.vertices@.map_values(|f: Fields| f@) =~= old_view.vertices.push(pv.subrange(1, 4)));
        Ok(())
    } else if eq_lit(&parts[0], "vt") {
        if parts.len() < 3 {
            return Err(ObjFailure::MissingField);
        }
        let fields = take_fields(parts, 1, 3);
        mesh.uvs.push(fields);
        assert(mesh.uvs@.map_values(|f: Fields| f@) =~= old_view.uvs.push(pv.subrange(1, 3)));
        Ok(())
    } else if eq_lit(&parts[0], "vn") {
        if parts.len() < 4 {
            return Err(ObjFailure::MissingField);
        }
        let fields = take_fields(parts, 1, 4);
        mesh.normals.push(fields);
        assert(mesh.normals@.map_values(|f: Fields| f@) =~= old_view.normals.push(pv.subrange(1, 4)));
        Ok(())
    } else if eq_lit(&parts[0], "f") {
        if parts.len() < 4 {
            return Err(ObjFailure::MissingField);
        }
        let (nv, nt, nn) = (mesh.vertices.len(), mesh.uvs.len(), mesh.normals.len());
        assert(pv[1] == parts[1]@ && pv[2] == parts[2]@ && pv[3] == parts[3]@);
        let a = parse_corner(&parts[1], nv, nt, nn, mesh.smooth);
        let b = parse_corner(&parts[2], nv, nt, nn, mesh.smooth);
        let c = parse_corner(&parts[3], nv, nt, nn, mesh.smooth);
        match (a, b, c) {
            (Ok(a), Ok(b), Ok(c)) => {
                mesh.faces.push(Face { a, b, c, smooth: mesh.smooth });
                Ok(())
            },
            (Err(e), _, _) => Err(e),
            (_, Err(e), _) => Err(e),
            (_, _, Err(e)) => Err(e),
        }
    } else if eq_lit(&parts[0], "s") {
        if parts.len() < 2 {
            return Err(ObjFailure::MissingField);
        }
        assert(pv[1] == parts[1]@);
        mesh.smooth = !eq_lit(&parts[1], "off");
        Ok(())
    } else {
        Ok(())
    }
}

/// Reads the text of a mesh file: its vertices, texture coordinates and normals, as the
/// text of their coordinates, and its triangles. On failure the error gives the number
/// of the line.
pub fn parse_obj(text: &Vec<char>) -> (r: Result<ObjDescription, ObjError>)
    ensures
        match obj_of(text@) {
            Ok(m) => r matches Ok(d) && d@ == m,
            Err((j, f)) => r matches Err(e) && e.line == j + 1 && e.failure == f,
        },
{
    let lines = split_lines(text);
    let ghost ls = lines@.map_values(|l: Vec<char>| l@);
    let mut mesh = ObjDescription {
        vertices: Vec::new(),
        uvs: Vec::new(),
        normals: Vec::new(),
        faces: Vec::new(),
        smooth: false,
    };
    assert(mesh@.vertices =~= Seq::<Seq<Seq<char>>>::empty());
    assert(mesh@.uvs =~= Seq::<Seq<Seq<char>>>::empty());
    assert(mesh@.normals =~= Seq::<Seq<Seq<char>>>::empty());
    assert(mesh@.faces =~= Seq::<Face>::empty());
    let mut i: usize = 0;
    while i < lines.len()
        invariant
            i <= lines.len(),
            ls == lines@.map_values(|l: Vec<char>| l@),
            ls == lines_of(text@),
            obj_from(ls, i as int, mesh@) == obj_of(text@),
        decreases lines.len() - i,
    {
        assert(ls[i as int] == lines[i as int]@);
        match parse_obj_line(&mut mesh, &lines[i]) {
            Ok(()) => {},
            Err(f) => {
                return Err(ObjError { line: i + 1, failure: f });
            },
        }
        i = i + 1;
    }
    Ok(mesh)
}

} // verus!
