use vstd::prelude::*;
use crate::parsing_error::{ParseFailure, ParsingError};
use crate::text::{eq_lit, first_of, key_value, parse_u32, split_key_value, split_lines, lines_of, trim, trim_range, u32_text_value};

verus! {

/// The kinds of material.
#[derive(Clone, Copy, Debug, PartialEq, Eq, Structural)]
pub enum MaterialKind {
    Normal,
    Diffuse,
    Metallic,
    Emissive,
    Dielectric,
}

/// The kinds of object header.
#[derive(Clone, Copy, Debug, PartialEq, Eq, Structural)]
pub enum ObjectHeader {
    Mesh,
    Sphere,
    Camera,
}

pub open spec fn text_view(o: Option<Vec<char>>) -> Option<Seq<char>> {
    match o {
        Some(v) => Some(v@),
        None => None,
    }
}

/// A material as written: its kind and the text of each value given for it. A value not
/// given has its default: white for colors, 0 for roughness, 1 for the index of
/// refraction, 0.5 for strength.
#[derive(Debug)]
pub struct MaterialDescription {
    pub kind: MaterialKind,
    pub albedo: Option<Vec<char>>,
    pub roughness: Option<Vec<char>>,
    pub ior: Option<Vec<char>>,
    pub emission_color: Option<Vec<char>>,
    pub strength: Option<Vec<char>>,
}

pub struct MaterialModel {
    pub kind: MaterialKind,
    pub albedo: Option<Seq<char>>,
    pub roughness: Option<Seq<char>>,
    pub ior: Option<Seq<char>>,
    pub emission_color: Option<Seq<char>>,
    pub strength: Option<Seq<char>>,
}

impl View for MaterialDescription {
    type V = MaterialModel;

    open spec fn view(&self) -> MaterialModel {
        MaterialModel {
            kind: self.kind,
            albedo: text_view(self.albedo),
            roughness: text_view(self.roughness),
            ior: text_view(self.ior),
            emission_color: text_view(self.emission_color),
            strength: text_view(self.strength),
        }
    }
}

pub open spec fn fresh_material(kind: MaterialKind) -> MaterialModel {
    MaterialModel {
        kind,
        albedo: None,
        roughness: None,
        ior: None,
        emission_color: None,
        strength: None,
    }
}

/// A sphere as written: the text of its center and of its radius. Its block must give
/// both, so both are present in every sphere of a parsed scene; they are absent only
/// while the block is being read.
#[derive(Debug)]
pub struct SphereDescription {
    pub pos: Option<Vec<char>>,
    pub radius: Option<Vec<char>>,
}

pub struct SphereModel {
    pub pos: Option<Seq<char>>,
    pub radius: Option<Seq<char>>,
}

impl View for SphereDescription {
    type V = SphereModel;

    open spec fn view(&self) -> SphereModel {
        SphereModel { pos: text_view(self.pos), radius: text_view(self.radius) }
    }
}

/// A camera as written. Width and height default to 400 and 225; position, target and
/// field of view, when not given, to the origin, the origin and 0.
#[derive(Debug)]
pub struct CameraDescription {
    pub width: u32,
    pub height: u32,
    pub position: Option<Vec<char>>,
    pub target: Option<Vec<char>>,
    pub fov: Option<Vec<char>>,
}

pub struct CameraModel {
    pub width: u32,
    pub height: u32,
    pub position: Option<Seq<char>>,
    pub target: Option<Seq<char>>,
    pub fov: Option<Seq<char>>,
}

impl View for CameraDescription {
    type V = CameraModel;

    open spec fn view(&self) -> CameraModel {
        CameraModel {
            width: self.width,
            height: self.height,
            position: text_view(self.position),
            target: text_view(self.target),
            fov: text_view(self.fov),
        }
    }
}

pub open spec fn default_camera() -> CameraModel {
    CameraModel { width: 400, height: 225, position: None, target: None, fov: None }
}

/// An object of the scene as written.
#[derive(Debug)]
pub enum ObjectDescription {
    Sphere { sphere: SphereDescription, material: MaterialDescription },
    Mesh { mesh_file: Vec<char>, material: MaterialDescription },
}

pub enum ObjectModel {
    Sphere { sphere: SphereModel, material: MaterialModel },
    Mesh { mesh_file: Seq<char>, material: MaterialModel },
}

impl View for ObjectDescription {
    type V = ObjectModel;

    open spec fn view(&self) -> ObjectModel {
        match self {
            ObjectDescription::Sphere { sphere, material } => ObjectModel::Sphere {
                sphere: sphere@,
                material: material@,
            },
            ObjectDescription::Mesh { mesh_file, material } => ObjectModel::Mesh {
                mesh_file: mesh_file@,
                material: material@,
            },
        }
    }
}

/// A scene as written: its objects in the order of the file, and its camera, the last
/// one given.
#[derive(Debug)]
pub struct SceneDescription {
    pub objects: Vec<ObjectDescription>,
    pub camera: Option<CameraDescription>,
}

pub struct SceneModel {
    pub objects: Seq<ObjectModel>,
    pub camera: Option<CameraModel>,
}

impl View for SceneDescription {
    type V = SceneModel;

    open spec fn view(&self) -> SceneModel {
        SceneModel {
            objects: self.objects@.map_values(|o: ObjectDescription| o@),
            camera: match self.camera {
                Some(c) => Some(c@),
                None => None,
            },
        }
    }
}

/// The name in a header: the text after the opening bracket up to the first `]`.
pub open spec fn header_name_of(rest: Seq<char>) -> Seq<char> {
    rest.subrange(0, first_of(rest, ']'))
}

/// The text that a failure on `line` is about: the header name of an unknown object
/// type, the value of an unknown material type, the key of an unknown or misplaced key;
/// empty for the other failures.
pub open spec fn failure_text(line: Seq<char>, f: ParseFailure) -> Seq<char> {
    match f {
        ParseFailure::UnknownObjectType => if trim(line).len() > 0 {
            header_name_of(trim(line).drop_first())
        } else {
            Seq::empty()
        },
        ParseFailure::UnknownMaterialType => match key_value(line) {
            Some((_, v)) => v,
            None => Seq::empty(),
        },
        ParseFailure::UnknownKey => match key_value(line) {
            Some((k, _)) => k,
            None => Seq::empty(),
        },
        ParseFailure::NotAProperty => match key_value(line) {
            Some((k, _)) => k,
            None => Seq::empty(),
        },
        _ => Seq::empty(),
    }
}

/// The header named by the text after the opening bracket of a header line.
pub open spec fn header_kind(rest: Seq<char>) -> Result<ObjectHeader, ParseFailure> {
    if rest.len() == 0 {
        Err(ParseFailure::UnterminatedHeader)
    } else if rest.last() != ']' {
        Err(ParseFailure::InvalidHeaderEnd)
    } else {
        let name = header_name_of(rest);
        if name == "mesh"@ {
            Ok(ObjectHeader::Mesh)
        } else if name == "sphere"@ {
            Ok(ObjectHeader::Sphere)
        } else if name == "camera"@ {
            Ok(ObjectHeader::Camera)
        } else {
            Err(ParseFailure::UnknownObjectType)
        }
    }
}

/// The material after the line `key = value`.
pub open spec fn material_step(m: MaterialModel, key: Seq<char>, value: Seq<char>) -> Result<
    MaterialModel,
    ParseFailure,
> {
    if key == "material_type"@ {
        if value == "diffuse_material"@ {
            Ok(fresh_material(MaterialKind::Diffuse))
        } else if value == "metallic_material"@ {
            Ok(fresh_material(MaterialKind::Metallic))
        } else if value == "emissive_material"@ {
            Ok(fresh_material(MaterialKind::Emissive))
        } else if value == "dielectric_material"@ {
            Ok(fresh_material(MaterialKind::Dielectric))
        } else {
            Err(ParseFailure::UnknownMaterialType)
        }
    } else if key == "albedo"@ {
        if m.kind == MaterialKind::Metallic || m.kind == MaterialKind::Diffuse || m.kind
            == MaterialKind::Dielectric {
            Ok(MaterialModel { albedo: Some(value), ..m })
        } else {
            Err(ParseFailure::NotAProperty)
        }
    } else if key == "ior"@ {
        if m.kind == MaterialKind::Dielectric {
            Ok(MaterialModel { ior: Some(value), ..m })
        } else {
            Err(ParseFailure::NotAProperty)
        }
    } else if key == "emission_color"@ {
        if m.kind == MaterialKind::Emissive {
            Ok(MaterialModel { emission_color: Some(value), ..m })
        } else {
            Err(ParseFailure::NotAProperty)
        }
    } else if key == "strength"@ {
        if m.kind == MaterialKind::Emissive {
            Ok(MaterialModel { strength: Some(value), ..m })
        } else {
            Err(ParseFailure::NotAProperty)
        }
    } else if key == "roughness"@ {
        if m.kind == MaterialKind::Metallic {
            Ok(MaterialModel { roughness: Some(value), ..m })
        } else {
            Err(ParseFailure::NotAProperty)
        }
    } else {
        Err(ParseFailure::UnknownKey)
    }
}

/// The camera after the line `key = value`.
pub open spec fn camera_step(c: CameraModel, key: Seq<char>, value: Seq<char>) -> Result<
    CameraModel,
    ParseFailure,
> {
    if key == "height"@ {
        match u32_text_value(value) {
            Some(h) => Ok(CameraModel { height: h, ..c }),
            None => Err(ParseFailure::InvalidInteger),
        }
    } else if key == "width"@ {
        match u32_text_value(value) {
            Some(w) => Ok(CameraModel { width: w, ..c }),
            None => Err(ParseFailure::InvalidInteger),
        }
    } else if key == "position"@ {
        Ok(CameraModel { position: Some(value), ..c })
    } else if key == "target"@ {
        Ok(CameraModel { target: Some(value), ..c })
    } else if key == "fov"@ {
        Ok(CameraModel { fov: Some(value), ..c })
    } else {
        Err(ParseFailure::UnknownKey)
    }
}

/// The sphere after the line `key = value`.
pub open spec fn sphere_step(s: SphereModel, key: Seq<char>, value: Seq<char>) -> Result<
    SphereModel,
    ParseFailure,
> {
    if key == "radius"@ {
        Ok(SphereModel { radius: Some(value), ..s })
    } else if key == "pos"@ {
        Ok(SphereModel { pos: Some(value), ..s })
    } else {
        Err(ParseFailure::UnknownKey)
    }
}

/// The mesh file named by the line `key = value`.
pub open spec fn mesh_step(key: Seq<char>, value: Seq<char>) -> Result<Seq<char>, ParseFailure> {
    if key == "mesh_file"@ {
        Ok(value)
    } else {
        Err(ParseFailure::UnknownKey)
    }
}

/// The name in the header line `line`, trimmed, that begins with `[`.
fn header_name(line: &Vec<char>) -> (r: Vec<char>)
    requires
        line@.len() > 0,
    ensures
        r@ == header_name_of(line@.drop_first()),
{
    let ghost rest = line@.drop_first();
    let mut k: usize = 1;
    while k < line.len() && line[k] != ']'
        invariant
            1 <= k <= line.len(),
            rest == line@.drop_first(),
            forall|j: int| 1 <= j < k ==> line@[j] != ']',
        decreases line.len() - k,
    {
        k = k + 1;
    }
    let mut name: Vec<char> = Vec::new();
    let mut i: usize = 1;
    while i < k
        invariant
            1 <= i <= k,
            k <= line.len(),
            name@ == line@.subrange(1, i as int),
        decreases k - i,
    {
        name.push(line[i]);
        assert(line@.subrange(1, i + 1) == line@.subrange(1, i as int).push(line@[i as int]));
        i = i + 1;
    }
    proof {
        crate::text::lemma_first_of_at(line@, ']', 1, k as int);
        assert(line@.subrange(1, line@.len() as int) == rest);
        assert(rest.subrange(0, k - 1) == name@);
    }
    name
}

/// The text that the failure `f` on `line` is about, as `failure_text` says.
fn offending_text(line: &Vec<char>, f: ParseFailure) -> (r: Vec<char>)
    ensures
        r@ == failure_text(line@, f),
{
    match f {
        ParseFailure::UnknownObjectType => {
            let t = trim_range(line, 0, line.len());
            assert(line@.subrange(0, line@.len() as int) == line@);
            if t.len() == 0 {
                Vec::new()
            } else {
                header_name(&t)
            }
        },
        ParseFailure::UnknownMaterialType => match split_key_value(line) {
            Some((_, v)) => v,
            None => Vec::new(),
        },
        ParseFailure::UnknownKey | ParseFailure::NotAProperty => match split_key_value(line) {
            Some((k, _)) => k,
            None => Vec::new(),
        },
        _ => Vec::new(),
    }
}

/// The header line of an object, trimmed: `[mesh]`, `[sphere]` or `[camera]`.
pub fn parse_object_header(line: &Vec<char>) -> (r: Result<ObjectHeader, ParseFailure>)
    requires
        line@.len() > 0,
    ensures
        r == header_kind(line@.drop_first()),
{
    let ghost rest = line@.drop_first();
    if line.len() == 1 {
        return Err(ParseFailure::UnterminatedHeader);
    }
    if line[line.len() - 1] != ']' {
        return Err(ParseFailure::InvalidHeaderEnd);
    }
    let name = header_name(line);
    if eq_lit(&name, "mesh") {
        Ok(ObjectHeader::Mesh)
    } else if eq_lit(&name, "sphere") {
        Ok(ObjectHeader::Sphere)
    } else if eq_lit(&name, "camera") {
        Ok(ObjectHeader::Camera)
    } else {
        Err(ParseFailure::UnknownObjectType)
    }
}

/// Applies the line `key = value` of a material block to `mat`.
pub fn parse_material(mat: &mut MaterialDescription, key: &Vec<char>, value: Vec<char>) -> (r: Result<
    (),
    ParseFailure,
>)
    ensures
        match material_step(old(mat)@, key@, value@) {
            Ok(m) => r is Ok && final(mat)@ == m,
            Err(f) => r == Err::<(), ParseFailure>(f),
        },
{
    if eq_lit(key, "material_type") {
        let kind = if eq_lit(&value, "diffuse_material") {
            MaterialKind::Diffuse
        } else if eq_lit(&value, "metallic_material") {
            MaterialKind::Metallic
        } else if eq_lit(&value, "emissive_material") {
            MaterialKind::Emissive
        } else if eq_lit(&value, "dielectric_material") {
            MaterialKind::Dielectric
        } else {
            return Err(ParseFailure::UnknownMaterialType);
        };
        *mat = MaterialDescription {
            kind,
            albedo: None,
            roughness: None,
            ior: None,
            emission_color: None,
            strength: None,
        };
        Ok(())
    } else if eq_lit(key, "albedo") {
        if mat.kind == MaterialKind::Metallic || mat.kind == MaterialKind::Diffuse || mat.kind
            == MaterialKind::Dielectric {
            mat.albedo = Some(value);
            Ok(())
        } else {
            Err(ParseFailure::NotAProperty)
        }
    } else if eq_lit(key, "ior") {
        if mat.kind == MaterialKind::Dielectric {
            mat.ior = Some(value);
            Ok(())
        } else {
            Err(ParseFailure::NotAProperty)
        }
    } else if eq_lit(key, "emission_color") {
        if mat.kind == MaterialKind::Emissive {
            mat.emission_color = Some(value);
            Ok(())
        } else {
            Err(ParseFailure::NotAProperty)
        }
    } else if eq_lit(key, "strength") {
        if mat.kind == MaterialKind::Emissive {
            mat.strength = Some(value);
            Ok(())
        } else {
            Err(ParseFailure::NotAProperty)
        }
    } else if eq_lit(key, "roughness") {
        if mat.kind == MaterialKind::Metallic {
            mat.roughness = Some(value);
            Ok(())
        } else {
            Err(ParseFailure::NotAProperty)
        }
    } else {
        Err(ParseFailure::UnknownKey)
    }
}

/// Applies the line `key = value` of a camera block to `cam`.
pub fn parse_camera(cam: &mut CameraDescription, key: &Vec<char>, value: Vec<char>) -> (r: Result<
    (),
    ParseFailure,
>)
    ensures
        match camera_step(old(cam)@, key@, value@) {
            Ok(c) => r is Ok && final(cam)@ == c,
            Err(f) => r == Err::<(), ParseFailure>(f),
        },
{
    if eq_lit(key, "height") {
        match parse_u32(&value) {
            Some(h) => {
                cam.height = h;
                Ok(())
            },
            None => Err(ParseFailure::InvalidInteger),
        }
    } else if eq_lit(key, "width") {
        match parse_u32(&value) {
            Some(w) => {
                cam.width = w;
                Ok(())
            },
            None => Err(ParseFailure::InvalidInteger),
        }
    } else if eq_lit(key, "position") {
        cam.position = Some(value);
        Ok(())
    } else if eq_lit(key, "target") {
        cam.target = Some(value);
        Ok(())
    } else if eq_lit(key, "fov") {
        cam.fov = Some(value);
        Ok(())
    } else {
        Err(ParseFailure::UnknownKey)
    }
}

/// Applies the line `key = value` of a sphere block to `sphere`.
pub fn parse_sphere_object(sphere: &mut SphereDescription, key: &Vec<char>, value: Vec<char>) -> (r:
    Result<(), ParseFailure>)
    ensures
        match sphere_step(old(sphere)@, key@, value@) {
            Ok(s) => r is Ok && final(sphere)@ == s,
            Err(f) => r == Err::<(), ParseFailure>(f),
        },
{
    if eq_lit(key, "radius") {
        sphere.radius = Some(value);
        Ok(())
    } else if eq_lit(key, "pos") {
        sphere.pos = Some(value);
        Ok(())
    } else {
        Err(ParseFailure::UnknownKey)
    }
}

/// The mesh file named by the line `key = value` of a mesh block.
pub fn parse_mesh_object(key: &Vec<char>, value: Vec<char>) -> (r: Result<Vec<char>, ParseFailure>)
    ensures
        match mesh_step(key@, value@) {
            Ok(f) => r matches Ok(v) && v@ == f,
            Err(f) => r matches Err(e) && e == f,
        },
{
    if eq_lit(key, "mesh_file") {
        Ok(value)
    } else {
        Err(ParseFailure::UnknownKey)
    }
}

/// An object whose block has been read up to its material.
#[derive(Debug)]
pub enum Pending {
    Sphere(SphereDescription),
    Mesh(Vec<char>),
}

pub enum PendingModel {
    Sphere(SphereModel),
    Mesh(Seq<char>),
}

impl View for Pending {
    type V = PendingModel;

    open spec fn view(&self) -> PendingModel {
        match self {
            Pending::Sphere(s) => PendingModel::Sphere(s@),
            Pending::Mesh(f) => PendingModel::Mesh(f@),
        }
    }
}

/// The block that the reader is in: none, a camera block, the two lines of a sphere
/// (whether the first has been read), the line of a mesh, or the material block of an
/// object.
#[derive(Debug)]
pub enum Block {
    Top,
    Camera(CameraDescription),
    Sphere(bool, SphereDescription),
    Mesh,
    Material(Pending, MaterialDescription),
}

pub enum BlockModel {
    Top,
    Camera(CameraModel),
    Sphere(bool, SphereModel),
    Mesh,
    Material(PendingModel, MaterialModel),
}

impl View for Block {
    type V = BlockModel;

    open spec fn view(&self) -> BlockModel {
        match self {
            Block::Top => BlockModel::Top,
            Block::Camera(c) => BlockModel::Camera(c@),
            Block::Sphere(second, s) => BlockModel::Sphere(*second, s@),
            Block::Mesh => BlockModel::Mesh,
            Block::Material(p, m) => BlockModel::Material(p@, m@),
        }
    }
}

pub open spec fn starts_block(line: Seq<char>) -> bool {
    line.len() > 0 && line[0] == '['
}

/// What a trimmed line outside any block begins: nothing if it is blank, else the block
/// that its header names.
pub open spec fn open_block(t: Seq<char>) -> Result<BlockModel, ParseFailure> {
    if t.len() == 0 {
        Ok(BlockModel::Top)
    } else if t[0] != '[' {
        Err(ParseFailure::UnknownLine(t[0]))
    } else {
        match header_kind(t.drop_first()) {
            Err(f) => Err(f),
            Ok(ObjectHeader::Camera) => Ok(BlockModel::Camera(default_camera())),
            Ok(ObjectHeader::Sphere) => Ok(BlockModel::Sphere(false, SphereModel { pos: None, radius: None })),
            Ok(ObjectHeader::Mesh) => Ok(BlockModel::Mesh),
        }
    }
}

pub open spec fn object_of(p: PendingModel, m: MaterialModel) -> ObjectModel {
    match p {
        PendingModel::Sphere(s) => ObjectModel::Sphere { sphere: s, material: m },
        PendingModel::Mesh(f) => ObjectModel::Mesh { mesh_file: f, material: m },
    }
}

/// The scene once the block `b` has ended: a camera replaces the scene's camera, an
/// object with its material joins the scene's objects.
pub open spec fn close_block(scene: SceneModel, b: BlockModel) -> SceneModel {
    match b {
        BlockModel::Camera(c) => SceneModel { camera: Some(c), ..scene },
        BlockModel::Material(p, m) => SceneModel { objects: scene.objects.push(object_of(p, m)), ..scene },
        _ => scene,
    }
}

/// The scene and the block after reading `line` in block `b`. Lines are trimmed and
/// blank ones skipped. Camera and material blocks last until a line that begins with
/// `[`, which then opens the next block; a sphere takes two lines, which must give its
/// `pos` and its `radius`, and a mesh one, both followed by a material block.
pub open spec fn line_step(scene: SceneModel, b: BlockModel, line: Seq<char>) -> Result<
    (SceneModel, BlockModel),
    ParseFailure,
> {
    if trim(line).len() == 0 {
        Ok((scene, b))
    } else {
        block_line_step(scene, b, line)
    }
}

/// The scene and the block after reading the line `line`, not blank, in block `b`.
pub open spec fn block_line_step(scene: SceneModel, b: BlockModel, line: Seq<char>) -> Result<
    (SceneModel, BlockModel),
    ParseFailure,
> {
    match b {
        BlockModel::Top => match open_block(trim(line)) {
            Ok(nb) => Ok((scene, nb)),
            Err(f) => Err(f),
        },
        BlockModel::Camera(c) => if starts_block(trim(line)) {
            match open_block(trim(line)) {
                Ok(nb) => Ok((close_block(scene, b), nb)),
                Err(f) => Err(f),
            }
        } else {
            match key_value(line) {
                None => Err(ParseFailure::MissingValue),
                Some((k, v)) => match camera_step(c, k, v) {
                    Ok(c2) => Ok((scene, BlockModel::Camera(c2))),
                    Err(f) => Err(f),
                },
            }
        },
        BlockModel::Sphere(second, s) => match key_value(line) {
            None => Err(ParseFailure::MissingValue),
            Some((k, v)) => match sphere_step(s, k, v) {
                Err(f) => Err(f),
                Ok(s2) => if second {
                    if s2.pos is None || s2.radius is None {
                        Err(ParseFailure::MissingKey)
                    } else {
                        Ok((scene, BlockModel::Material(PendingModel::Sphere(s2), fresh_material(MaterialKind::Normal))))
                    }
                } else {
                    Ok((scene, BlockModel::Sphere(true, s2)))
                },
            },
        },
        BlockModel::Mesh => match key_value(line) {
            None => Err(ParseFailure::MissingValue),
            Some((k, v)) => match mesh_step(k, v) {
                Err(f) => Err(f),
                Ok(file) => Ok((scene, BlockModel::Material(PendingModel::Mesh(file), fresh_material(MaterialKind::Normal)))),
            },
        },
        BlockModel::Material(p, m) => if starts_block(trim(line)) {
            match open_block(trim(line)) {
                Ok(nb) => Ok((close_block(scene, b), nb)),
                Err(f) => Err(f),
            }
        } else {
            match key_value(line) {
                None => Err(ParseFailure::MissingValue),
                Some((k, v)) => match material_step(m, k, v) {
                    Ok(m2) => Ok((scene, BlockModel::Material(p, m2))),
                    Err(f) => Err(f),
                },
            }
        },
    }
}

/// The scene at the end of the file in block `b`: a sphere or a mesh block cut short is
/// an error.
pub open spec fn finish(scene: SceneModel, b: BlockModel) -> Result<SceneModel, ParseFailure> {
    match b {
        BlockModel::Sphere(..) => Err(ParseFailure::UnexpectedEndOfFile),
        BlockModel::Mesh => Err(ParseFailure::UnexpectedEndOfFile),
        _ => Ok(close_block(scene, b)),
    }
}

/// The scene read from line `i` on, or the position of the failing line and what is
/// wrong with it. An error at the end of the file is placed on its last line.
pub open spec fn parse_from(lines: Seq<Seq<char>>, i: int, scene: SceneModel, b: BlockModel) -> Result<
    SceneModel,
    (int, ParseFailure),
>
    decreases lines.len() - i,
{
    if i >= lines.len() {
        match finish(scene, b) {
            Ok(s) => Ok(s),
            Err(f) => Err((lines.len() - 1, f)),
        }
    } else {
        match line_step(scene, b, lines[i]) {
            Err(f) => Err((i, f)),
            Ok((s2, b2)) => parse_from(lines, i + 1, s2, b2),
        }
    }
}

/// The scene that the descriptor `text` describes.
pub open spec fn scene_of(text: Seq<char>) -> Result<SceneModel, (int, ParseFailure)> {
    parse_from(lines_of(text), 0, SceneModel { objects: Seq::empty(), camera: None }, BlockModel::Top)
}

fn open_block_exec(line: &Vec<char>) -> (r: Result<Block, ParseFailure>)
    ensures
        match open_block(trim(line@)) {
            Ok(b) => r matches Ok(nb) && nb@ == b,
            Err(f) => r matches Err(e) && e == f,
        },
{
    let t = trim_range(line, 0, line.len());
    assert(line@.subrange(0, line@.len() as int) == line@);
    if t.len() == 0 {
        return Ok(Block::Top);
    }
    if t[0] != '[' {
        return Err(ParseFailure::UnknownLine(t[0]));
    }
    match parse_object_header(&t) {
        Err(f) => Err(f),
        Ok(ObjectHeader::Camera) => Ok(
            Block::Camera(CameraDescription { width: 400, height: 225, position: None, target: None, fov: None }),
        ),
        Ok(ObjectHeader::Sphere) => Ok(Block::Sphere(false, SphereDescription { pos: None, radius: None })),
        Ok(ObjectHeader::Mesh) => Ok(Block::Mesh),
    }
}

fn close_block_exec(scene: &mut SceneDescription, b: Block)
    ensures
        final(scene)@ == close_block(old(scene)@, b@),
{
    match b {
        Block::Camera(c) => {
            scene.camera = Some(c);
        },
        Block::Material(p, m) => {
            let ghost before = scene.objects@;
            let o = match p {
                Pending::Sphere(s) => ObjectDescription::Sphere { sphere: s, material: m },
                Pending::Mesh(f) => ObjectDescription::Mesh { mesh_file: f, material: m },
            };
            scene.objects.push(o);
            assert(scene.objects@.map_values(|o: ObjectDescription| o@) =~= before.map_values(
                |o: ObjectDescription| o@,
            ).push(o@));
        },
        _ => {},
    }
}

/// Reads `line` in block `b`, as `line_step` says.
fn step_line(scene: &mut SceneDescription, b: Block, line: &Vec<char>) -> (r: Result<Block, ParseFailure>)
    ensures
        match line_step(old(scene)@, b@, line@) {
            Ok((s2, b2)) => r matches Ok(nb) && nb@ == b2 && final(scene)@ == s2,
            Err(f) => r matches Err(e) && e == f,
        },
{
    let t = trim_range(line, 0, line.len());
    assert(line@.subrange(0, line@.len() as int) == line@);
    if t.len() == 0 {
        return Ok(b);
    }
    let opens = t[0] == '[';
    match b {
        Block::Top => open_block_exec(line),
        Block::Camera(mut c) => {
            if opens {
                let nb = open_block_exec(line);
                if nb.is_ok() {
                    close_block_exec(scene, Block::Camera(c));
                }
                return nb;
            }
            match split_key_value(line) {
                None => Err(ParseFailure::MissingValue),
                Some((k, v)) => match parse_camera(&mut c, &k, v) {
                    Ok(()) => Ok(Block::Camera(c)),
                    Err(f) => Err(f),
                },
            }
        },
        Block::Sphere(second, mut s) => match split_key_value(line) {
            None => Err(ParseFailure::MissingValue),
            Some((k, v)) => match parse_sphere_object(&mut s, &k, v) {
                Err(f) => Err(f),
                Ok(()) => if second {
                    if s.pos.is_none() || s.radius.is_none() {
                        return Err(ParseFailure::MissingKey);
                    }
                    Ok(
                        Block::Material(
                            Pending::Sphere(s),
                            MaterialDescription {
                                kind: MaterialKind::Normal,
                                albedo: None,
                                roughness: None,
                                ior: None,
                                emission_color: None,
                                strength: None,
                            },
                        ),
                    )
                } else {
                    Ok(Block::Sphere(true, s))
                },
            },
        },
        Block::Mesh => match split_key_value(line) {
            None => Err(ParseFailure::MissingValue),
            Some((k, v)) => match parse_mesh_object(&k, v) {
                Err(f) => Err(f),
                Ok(file) => Ok(
                    Block::Material(
                        Pending::Mesh(file),
                        MaterialDescription {
                            kind: MaterialKind::Normal,
                            albedo: None,
                            roughness: None,
                            ior: None,
                            emission_color: None,
                            strength: None,
                        },
                    ),
                ),
            },
        },
        Block::Material(p, mut m) => {
            if opens {
                let nb = open_block_exec(line);
                if nb.is_ok() {
                    close_block_exec(scene, Block::Material(p, m));
                }
                return nb;
            }
            match split_key_value(line) {
                None => Err(ParseFailure::MissingValue),
                Some((k, v)) => match parse_material(&mut m, &k, v) {
                    Ok(()) => Ok(Block::Material(p, m)),
                    Err(f) => Err(f),
                },
            }
        },
    }
}

/// Reads the scene descriptor `text`, named `filename`: lines are trimmed and blank ones
/// skipped; `[camera]`, `[sphere]` and `[mesh]` open blocks of `key = value` lines; a
/// sphere's or a mesh's block is followed by the lines of its material. On failure the
/// error gives the file and the number of the line.
pub fn parse_scene(text: &Vec<char>, filename: &String) -> (r: Result<SceneDescription, ParsingError>)
    ensures
        match scene_of(text@) {
            Ok(m) => r matches Ok(d) && d@ == m,
            Err((j, f)) => r matches Err(e) && e.line == j + 1 && e.message == f && e.filename@
                == filename@ && e.text@ == failure_text(lines_of(text@)[j], f),
        },
{
    let lines = split_lines(text);
    let ghost ls = lines@.map_values(|l: Vec<char>| l@);
    let mut scene = SceneDescription { objects: Vec::new(), camera: None };
    let mut block = Block::Top;
    let mut i: usize = 0;
    assert(scene@.objects =~= Seq::<ObjectModel>::empty());
    while i < lines.len()
        invariant
            i <= lines.len(),
            ls == lines@.map_values(|l: Vec<char>| l@),
            ls == lines_of(text@),
            parse_from(ls, i as int, scene@, block@) == scene_of(text@),
        decreases lines.len() - i,
    {
        assert(ls[i as int] == lines[i as int]@);
        match step_line(&mut scene, block, &lines[i]) {
            Ok(nb) => {
                block = nb;
            },
            Err(f) => {
                let detail = offending_text(&lines[i], f);
                return Err(ParsingError { filename: filename.clone(), line: i + 1, message: f, text: detail });
            },
        }
        i = i + 1;
    }
    match block {
        Block::Sphere(..) | Block::Mesh => {
            return Err(
                ParsingError {
                    filename: filename.clone(),
                    line: lines.len(),
                    message: ParseFailure::UnexpectedEndOfFile,
                    text: Vec::new(),
                },
            );
        },
        _ => {},
    }
    close_block_exec(&mut scene, block);
    Ok(scene)
}

/// Why a parsed scene cannot be rendered.
#[derive(Clone, Copy, Debug, PartialEq, Eq, Structural)]
pub enum ConfigFailure {
    /// The scene has no objects to build a hierarchy over.
    NoObjects,
    /// The scene has no camera.
    NoCamera,
}

/// Whether the scene can be rendered: it needs at least one object and a camera.
pub fn check_configuration(scene: &SceneDescription) -> (r: Result<(), ConfigFailure>)
    ensures
        r == (if scene@.objects.len() == 0 {
            Err(ConfigFailure::NoObjects)
        } else if scene@.camera is None {
            Err(ConfigFailure::NoCamera)
        } else {
            Ok::<(), ConfigFailure>(())
        }),
{
    if scene.objects.len() == 0 {
        Err(ConfigFailure::NoObjects)
    } else if scene.camera.is_none() {
        Err(ConfigFailure::NoCamera)
    } else {
        Ok(())
    }
}

} // verus!
