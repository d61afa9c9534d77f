use light::descriptor::{check_configuration, parse_scene, ConfigFailure, MaterialKind, ObjectDescription};
use light::parsing_error::ParseFailure;

fn chars(s: &str) -> Vec<char> {
    s.chars().collect()
}

fn text(v: &Option<Vec<char>>) -> Option<String> {
    v.as_ref().map(|c| c.iter().collect())
}

fn fails_with(src: &str, line: usize, failure: ParseFailure) -> String {
    match parse_scene(&chars(src), &"scene.txt".to_string()) {
        Err(e) => {
            assert_eq!(e.filename, "scene.txt");
            assert_eq!(e.line, line);
            assert_eq!(e.message, failure);
            e.text.iter().collect()
        }
        Ok(_) => panic!("expected a parse error"),
    }
}

const SCENE: &str = "[camera]
width = 100
height = 50
position = 0; 0; 0
target = 0; 0; -1
fov = 90

[sphere]
pos = 0; 0; -1
radius = 0.5
material_type = diffuse_material
albedo = 0.5; 0.5; 0.5
[sphere]
pos = 0; -100.5; 0
radius = 100
material_type = metallic_material
albedo = 0.8; 0.8; 0
roughness = 0.3
[mesh]
mesh_file = model.obj
material_type = emissive_material
emission_color = 0.8; 0.3; 0.2
strength = 15
";

#[test]
fn reads_camera_spheres_and_mesh() {
    let scene = parse_scene(&chars(SCENE), &"scene.txt".to_string()).expect("valid scene");
    let cam = scene.camera.expect("camera given");
    assert_eq!(cam.width, 100);
    assert_eq!(cam.height, 50);
    assert_eq!(text(&cam.position), Some("0; 0; 0".to_string()));
    assert_eq!(text(&cam.target), Some("0; 0; -1".to_string()));
    assert_eq!(text(&cam.fov), Some("90".to_string()));
    assert_eq!(scene.objects.len(), 3);
    match &scene.objects[0] {
        ObjectDescription::Sphere { sphere, material } => {
            assert_eq!(text(&sphere.pos), Some("0; 0; -1".to_string()));
            assert_eq!(text(&sphere.radius), Some("0.5".to_string()));
            assert_eq!(material.kind, MaterialKind::Diffuse);
            assert_eq!(text(&material.albedo), Some("0.5; 0.5; 0.5".to_string()));
        }
        _ => panic!("first object is a sphere"),
    }
    match &scene.objects[1] {
        ObjectDescription::Sphere { material, .. } => {
            assert_eq!(material.kind, MaterialKind::Metallic);
            assert_eq!(text(&material.roughness), Some("0.3".to_string()));
        }
        _ => panic!("second object is a sphere"),
    }
    match &scene.objects[2] {
        ObjectDescription::Mesh { mesh_file, material } => {
            assert_eq!(mesh_file.iter().collect::<String>(), "model.obj");
            assert_eq!(material.kind, MaterialKind::Emissive);
            assert_eq!(text(&material.strength), Some("15".to_string()));
            assert_eq!(text(&material.emission_color), Some("0.8; 0.3; 0.2".to_string()));
        }
        _ => panic!("third object is a mesh"),
    }
}

#[test]
fn camera_defaults_and_missing_camera() {
    let scene = parse_scene(&chars("[camera]\n"), &"s".to_string()).unwrap();
    let cam = scene.camera.unwrap();
    assert_eq!((cam.width, cam.height), (400, 225));
    assert!(cam.position.is_none() && cam.fov.is_none());
    let empty = parse_scene(&chars("\n   \n"), &"s".to_string()).unwrap();
    assert!(empty.camera.is_none());
    assert!(empty.objects.is_empty());
}

#[test]
fn sphere_without_material_is_normal_shaded() {
    let scene = parse_scene(&chars("[sphere]\nradius = 2\npos = 1; 2; 3\n"), &"s".to_string()).unwrap();
    match &scene.objects[0] {
        ObjectDescription::Sphere { sphere, material } => {
            assert_eq!(material.kind, MaterialKind::Normal);
            assert_eq!(text(&sphere.radius), Some("2".to_string()));
        }
        _ => panic!("a sphere"),
    }
}

#[test]
fn material_type_resets_properties() {
    let src = "[sphere]\npos = 0; 0; 0\nradius = 1\nmaterial_type = dielectric_material\nior = 1.5\nmaterial_type = diffuse_material\n";
    let scene = parse_scene(&chars(src), &"s".to_string()).unwrap();
    match &scene.objects[0] {
        ObjectDescription::Sphere { material, .. } => {
            assert_eq!(material.kind, MaterialKind::Diffuse);
            assert!(material.ior.is_none());
        }
        _ => panic!("a sphere"),
    }
}

#[test]
fn error_unknown_line() {
    fails_with("\nhello\n", 2, ParseFailure::UnknownLine('h'));
    fails_with("  # note\n", 1, ParseFailure::UnknownLine('#'));
}

#[test]
fn error_header_shapes() {
    fails_with("[", 1, ParseFailure::UnterminatedHeader);
    fails_with("[sphere", 1, ParseFailure::InvalidHeaderEnd);
    assert_eq!(fails_with("  [cube]", 1, ParseFailure::UnknownObjectType), "cube");
    assert_eq!(fails_with("[", 1, ParseFailure::UnterminatedHeader), "");
}

#[test]
fn error_missing_value_and_end_of_file() {
    fails_with("[sphere]\nradius 1\n", 2, ParseFailure::MissingValue);
    fails_with("[sphere]\nradius = 1\n", 2, ParseFailure::UnexpectedEndOfFile);
    fails_with("[mesh]", 1, ParseFailure::UnexpectedEndOfFile);
}

#[test]
fn error_material_keys() {
    let t = fails_with("[mesh]\nmesh_file = a.obj\nmaterial_type = plastic\n", 3, ParseFailure::UnknownMaterialType);
    assert_eq!(t, "plastic");
    let t = fails_with("[mesh]\nmesh_file = a.obj\nmaterial_type = emissive_material\nalbedo = 1; 1; 1\n", 4, ParseFailure::NotAProperty);
    assert_eq!(t, "albedo");
    assert_eq!(fails_with("[mesh]\nmesh_file = a.obj\nshininess = 3\n", 3, ParseFailure::UnknownKey), "shininess");
    assert_eq!(fails_with("[mesh]\nfile = a.obj\n", 2, ParseFailure::UnknownKey), "file");
}

#[test]
fn error_camera_integer() {
    fails_with("[camera]\nwidth = wide\n", 2, ParseFailure::InvalidInteger);
    fails_with("[camera]\nheight = 99999999999\n", 2, ParseFailure::InvalidInteger);
    fails_with("[camera]\nzoom = 2\n", 2, ParseFailure::UnknownKey);
}

#[test]
fn sphere_block_requires_pos_and_radius() {
    fails_with("[sphere]\nradius = 1\nradius = 2\n", 3, ParseFailure::MissingKey);
    fails_with("[sphere]\npos = 0; 0; 0\npos = 1; 1; 1\n", 3, ParseFailure::MissingKey);
    assert!(parse_scene(&chars("[sphere]\npos = 0; 0; 0\n\nradius = 2\n"), &"s".to_string()).is_ok());
}

#[test]
fn configuration_needs_objects_and_camera() {
    let full = parse_scene(&chars(SCENE), &"s".to_string()).unwrap();
    assert_eq!(check_configuration(&full), Ok(()));
    let no_objects = parse_scene(&chars("[camera]\n"), &"s".to_string()).unwrap();
    assert_eq!(check_configuration(&no_objects), Err(ConfigFailure::NoObjects));
    let no_camera = parse_scene(&chars("[sphere]\npos = 0; 0; 0\nradius = 1\n"), &"s".to_string()).unwrap();
    assert_eq!(check_configuration(&no_camera), Err(ConfigFailure::NoCamera));
    let empty = parse_scene(&chars(""), &"s".to_string()).unwrap();
    assert_eq!(check_configuration(&empty), Err(ConfigFailure::NoObjects));
}
