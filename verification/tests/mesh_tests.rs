use rasterizer::mesh::{load, parse_face, MeshError, STRIDE};
use rasterizer::vectors::{Vec2, Vec3, Vec4};

fn tokens(line: &str) -> Vec<Vec<u8>> {
    line.split(' ').map(|t| t.as_bytes().to_vec()).collect()
}

#[test]
fn face_groups_indices_by_attribute() {
    let mut indices = vec![42];
    assert_eq!(parse_face(&tokens("f 1/2/3 4/5/6 7/8/9"), &mut indices), Ok(()));
    assert_eq!(indices, vec![42, 1, 4, 7, 2, 5, 8, 3, 6, 9]);
}

#[test]
fn face_fills_absent_attributes_with_zero() {
    let mut indices = Vec::new();
    assert_eq!(parse_face(&tokens("f 1 2 3"), &mut indices), Ok(()));
    assert_eq!(indices, vec![1, 2, 3, 0, 0, 0, 0, 0, 0]);
    let mut indices = Vec::new();
    assert_eq!(parse_face(&tokens("f 1/2 3/4 5/6"), &mut indices), Ok(()));
    assert_eq!(indices, vec![1, 3, 5, 2, 4, 6, 0, 0, 0]);
    let mut indices = Vec::new();
    assert_eq!(parse_face(&tokens("f 1/2/3 4 5/6 7 8"), &mut indices), Ok(()));
    assert_eq!(indices, vec![1, 4, 5, 2, 0, 6, 3, 0, 0]);
}

#[test]
fn face_errors_leave_indices_alone() {
    for (line, err) in [
        ("f 1 2", MeshError::MissingField),
        ("f", MeshError::MissingField),
        ("f 1//3 2 3", MeshError::BadIndex),
        ("f 1/2/3/4 2 3", MeshError::BadIndex),
        ("f 1 0 3", MeshError::BadIndex),
        ("f 1 2 x", MeshError::BadIndex),
        ("f 1  2 3", MeshError::BadIndex),
        ("f 1 -2 3", MeshError::BadIndex),
    ] {
        let mut indices = vec![7, 8];
        assert_eq!(parse_face(&tokens(line), &mut indices), Err(err), "{}", line);
        assert_eq!(indices, vec![7, 8]);
    }
}

#[test]
fn load_reads_every_kind_of_line() {
    let text = b"# a mesh\nv 0.5 -0.25 1\nv 1 2 3 4\nvn  0 0 1\nvt  0.25 0.75 0.000\n\ng head\nf 1/1/1 2/1/1 1/1/1\n";
    let mesh = load(text).unwrap();
    assert_eq!(
        mesh.vertices,
        vec![
            Vec4 { x: 500_000, y: -250_000, z: 1_000_000, w: 1_000_000 },
            Vec4 { x: 1_000_000, y: 2_000_000, z: 3_000_000, w: 1_000_000 },
        ]
    );
    assert_eq!(mesh.normals, vec![Vec3 { x: 0, y: 0, z: 1_000_000 }]);
    assert_eq!(mesh.tex_coords, vec![Vec2 { x: 250_000, y: 750_000 }]);
    assert_eq!(mesh.indices, vec![1, 2, 1, 1, 1, 1, 1, 1, 1]);
    assert_eq!(mesh.stride, 9);
    assert_eq!(STRIDE, 9);
}

#[test]
fn load_accepts_carriage_returns_and_empty_text() {
    let mesh = load(b"v 1 2 3\r\nf 1 1 1\r\n").unwrap();
    assert_eq!(mesh.vertices.len(), 1);
    assert_eq!(mesh.indices, vec![1, 1, 1, 0, 0, 0, 0, 0, 0]);
    let empty = load(b"").unwrap();
    assert!(empty.vertices.is_empty() && empty.indices.is_empty());
    assert_eq!(empty.stride, 9);
}

#[test]
fn load_skips_the_token_after_vn_and_vt() {
    assert_eq!(load(b"vn 0 0 1").err(), Some(MeshError::MissingField));
    assert_eq!(load(b"vn x 0 0 1").unwrap().normals, vec![Vec3 { x: 0, y: 0, z: 1_000_000 }]);
    assert_eq!(load(b"vt 0.5 0.5").err(), Some(MeshError::MissingField));
    assert_eq!(load(b"vt  0.5 0.25").unwrap().tex_coords, vec![Vec2 { x: 500_000, y: 250_000 }]);
}

#[test]
fn load_reports_the_first_error() {
    assert_eq!(load(b"v 1 2").err(), Some(MeshError::MissingField));
    assert_eq!(load(b"v 1 x 3").err(), Some(MeshError::BadNumber));
    assert_eq!(load(b"v 1 x").err(), Some(MeshError::BadNumber));
    assert_eq!(load(b"v 1  3").err(), Some(MeshError::BadNumber));
    assert_eq!(load(b"v 1 2 1e13").err(), Some(MeshError::TooLarge));
    assert_eq!(load(b"v 1 2 9223372036855").err(), Some(MeshError::TooLarge));
    assert_eq!(load(b"v 1 2 3\nf 1 2\nv x").err(), Some(MeshError::MissingField));
    assert_eq!(load(b"v 1 2 3\nf 1 a 1").err(), Some(MeshError::BadIndex));
    assert_eq!(load(b"v 1e 2 3").err(), Some(MeshError::BadNumber));
    assert_eq!(load(b"v inf 2 3").err(), Some(MeshError::BadNumber));
}

#[test]
fn faces_resolve_indices_counted_from_one() {
    let text = b"v 0 0 0\nv 1 0 0\nv 0 1 0\nvt  0 0\nvt  1 0\nvn  0 0 1\nf 1/1/1 2/2/1 3/1/1\nf 3 2 1\nf 1/1/1 2/2/1 4/3/2\n";
    let mesh = load(text).unwrap();
    assert_eq!(mesh.faces(), 3);
    let (a, b, c) = mesh.positions(0).unwrap();
    assert_eq!((a.x, b.x, c.y), (0, 1_000_000, 1_000_000));
    let (t0, t1, t2) = mesh.texture(0).unwrap();
    assert_eq!((t0, t1, t2), (Vec2 { x: 0, y: 0 }, Vec2 { x: 1_000_000, y: 0 }, Vec2 { x: 0, y: 0 }));
    let (n0, _, n2) = mesh.vertex_normals(0).unwrap();
    assert_eq!(n0, Vec3 { x: 0, y: 0, z: 1_000_000 });
    assert_eq!(n2, n0);
    // a face of positions only
    assert_eq!(mesh.positions(1).unwrap().0, Vec4 { x: 0, y: 1_000_000, z: 0, w: 1_000_000 });
    assert_eq!(mesh.texture(1), None);
    assert_eq!(mesh.vertex_normals(1), None);
    // indices beyond the attributes
    assert_eq!(mesh.positions(2), None);
    assert_eq!(mesh.texture(2), None);
    assert_eq!(mesh.vertex_normals(2), None);
    // no such face
    assert_eq!(mesh.positions(3), None);
    assert_eq!(mesh.texture(usize::MAX), None);
}

#[test]
fn load_reads_large_numbers_and_exponents() {
    let mesh = load(b"v 1 2 1000\nv 1e-3 -2.5E2 3e0\nvn  1e-3 0 1\nvt  5e-1 25e-2 0\n").unwrap();
    assert_eq!(
        mesh.vertices,
        vec![
            Vec4 { x: 1_000_000, y: 2_000_000, z: 1_000_000_000, w: 1_000_000 },
            Vec4 { x: 1_000, y: -250_000_000, z: 3_000_000, w: 1_000_000 },
        ]
    );
    assert_eq!(mesh.normals, vec![Vec3 { x: 1_000, y: 0, z: 1_000_000 }]);
    assert_eq!(mesh.tex_coords, vec![Vec2 { x: 500_000, y: 250_000 }]);
    let far = load(b"v 9223372036854.775807 -9223372036854.775807 0").unwrap();
    assert_eq!(far.vertices[0], Vec4 { x: i64::MAX, y: -i64::MAX, z: 0, w: 1_000_000 });
}
