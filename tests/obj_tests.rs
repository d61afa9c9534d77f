use light::obj::{parse_obj, Corner, ObjFailure};

fn chars(s: &str) -> Vec<char> {
    s.chars().collect()
}

fn field_text(f: &light::obj::Fields) -> Vec<String> {
    f.items.iter().map(|t| t.iter().collect()).collect()
}

const CUBE_CORNER: &str = "# a corner
v 0 0 0
v 1 0 0
v 0 1 0
vt 0 0
vt 1 0
vt 0 1
vn 0 0 1
s off
f 1/1 2/2 3/3
s 1
f 1/1/1 2/2/1 3/3/1
f 3//1 2//1 1//1
o ignored line
";

#[test]
fn reads_vertices_uvs_normals_and_faces() {
    let mesh = parse_obj(&chars(CUBE_CORNER)).expect("valid mesh");
    assert_eq!(mesh.vertices.len(), 3);
    assert_eq!(field_text(&mesh.vertices[1]), vec!["1", "0", "0"]);
    assert_eq!(mesh.uvs.len(), 3);
    assert_eq!(mesh.normals.len(), 1);
    assert_eq!(mesh.faces.len(), 3);
    let f0 = mesh.faces[0];
    assert!(!f0.smooth);
    assert_eq!(f0.a, Corner { vertex: 0, uv: Some(0), normal: None });
    let f1 = mesh.faces[1];
    assert!(f1.smooth);
    assert_eq!(f1.c, Corner { vertex: 2, uv: Some(2), normal: Some(0) });
    let f2 = mesh.faces[2];
    assert_eq!(f2.a, Corner { vertex: 2, uv: None, normal: Some(0) });
    assert!(mesh.smooth);
}

#[test]
fn obj_errors_name_the_line() {
    let e = parse_obj(&chars("v 1 2\n")).unwrap_err();
    assert_eq!((e.line, e.failure), (1, ObjFailure::MissingField));
    let e = parse_obj(&chars("v 1 2 3\nf 1 1\n")).unwrap_err();
    assert_eq!((e.line, e.failure), (2, ObjFailure::MissingField));
    let e = parse_obj(&chars("v 1 2 3\nf 1 1 x\n")).unwrap_err();
    assert_eq!((e.line, e.failure), (2, ObjFailure::InvalidIndex));
    let e = parse_obj(&chars("v 1 2 3\nvt 0 0\nf 1/1 1/1 2/1\n")).unwrap_err();
    assert_eq!((e.line, e.failure), (3, ObjFailure::IndexOutOfRange));
    let e = parse_obj(&chars("v 1 2 3\nvt 0 0\nf 1/1 0/1 1/1\n")).unwrap_err();
    assert_eq!((e.line, e.failure), (3, ObjFailure::IndexOutOfRange));
    let e = parse_obj(&chars("v 1 2 3\nvt 0 0\nf 1/1 a/1 1/1\n")).unwrap_err();
    assert_eq!((e.line, e.failure), (3, ObjFailure::InvalidIndex));
    let e = parse_obj(&chars("s\n")).unwrap_err();
    assert_eq!((e.line, e.failure), (1, ObjFailure::MissingField));
}

#[test]
fn empty_mesh_text() {
    let mesh = parse_obj(&chars("")).unwrap();
    assert!(mesh.vertices.is_empty() && mesh.faces.is_empty() && !mesh.smooth);
}

#[test]
fn face_corners_may_give_only_a_vertex() {
    let mesh = parse_obj(&chars("v 0 0 0\nv 1 0 0\nv 0 1 0\nf 1 2 3\nf 1 1 1\n")).unwrap();
    assert_eq!(mesh.faces.len(), 2);
    assert_eq!(mesh.faces[0].a, Corner { vertex: 0, uv: None, normal: None });
    assert_eq!(mesh.faces[0].c, Corner { vertex: 2, uv: None, normal: None });
    assert!(!mesh.faces[0].smooth);
}

#[test]
fn smooth_corner_without_normal_takes_face_normal() {
    let src = "v 0 0 0\nv 1 0 0\nv 0 1 0\nvt 0 0\nvn 0 0 1\ns 1\nf 1 2/1 3//1\n";
    let mesh = parse_obj(&chars(src)).unwrap();
    let f = mesh.faces[0];
    assert!(f.smooth);
    assert_eq!(f.a, Corner { vertex: 0, uv: None, normal: None });
    assert_eq!(f.b, Corner { vertex: 1, uv: Some(0), normal: None });
    assert_eq!(f.c, Corner { vertex: 2, uv: None, normal: Some(0) });
}
