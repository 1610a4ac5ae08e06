use softrender::{parse_obj, Corner, ObjError, ObjMesh, Span};

fn word<'a>(text: &'a str, s: Span) -> &'a str {
    &text[s.start..s.end]
}

fn parse(text: &str) -> Result<ObjMesh, ObjError> {
    parse_obj(text.as_bytes())
}

const TRIANGLE: &str = "v 0 0 0\nv 1 0 0\nv 0 1 0\nvt 0 0\nvt 1 1\nvn 0 0 1\nf 1/1/1 2/2/1 3/1/1\n";

#[test]
fn triangle_file() {
    let mesh = parse(TRIANGLE).unwrap();
    assert_eq!(mesh.positions.len(), 3);
    assert_eq!(mesh.uvs.len(), 2);
    assert_eq!(mesh.normals.len(), 1);
    let (x, y, z) = mesh.positions[1];
    assert_eq!((word(TRIANGLE, x), word(TRIANGLE, y), word(TRIANGLE, z)), ("1", "0", "0"));
    let (u, v) = mesh.uvs[1];
    assert_eq!((word(TRIANGLE, u), word(TRIANGLE, v)), ("1", "1"));
    assert_eq!(
        mesh.corners,
        vec![
            Corner { position: 0, uv: 0, normal: 0 },
            Corner { position: 1, uv: 1, normal: 0 },
            Corner { position: 2, uv: 0, normal: 0 },
        ]
    );
}

#[test]
fn quad_becomes_two_triangles() {
    let text = "v 0 0 0\nv 1 0 0\nv 1 1 0\nv 0 1 0\nvt 0 0\nvn 0 0 1\nf 1/1/1 2/1/1 3/1/1 4/1/1\n";
    let mesh = parse(text).unwrap();
    let positions: Vec<usize> = mesh.corners.iter().map(|c| c.position).collect();
    assert_eq!(positions, vec![0, 1, 2, 0, 2, 3]);
}

#[test]
fn faces_of_other_sizes_are_skipped() {
    let text = "v 0 0 0\nvt 0 0\nvn 0 0 1\nf 1/1/1 1/1/1\nf 1/1/1 1/1/1 1/1/1 1/1/1 1/1/1\nf x y\n";
    let mesh = parse(text).unwrap();
    assert!(mesh.corners.is_empty());
}

#[test]
fn unknown_lines_comments_and_blank_lines_are_skipped() {
    let text = "# a comment\n\n   \no thing\nusemtl stuff\ns off\nv 1 2 3 4\n";
    let mesh = parse(text).unwrap();
    assert_eq!(mesh.positions.len(), 1);
    assert!(mesh.uvs.is_empty() && mesh.normals.is_empty() && mesh.corners.is_empty());
}

#[test]
fn words_split_on_any_ascii_white_space() {
    let text = "v\t0.5  -1\x0c2\r\n  vt 1 0\x0b\r\nvn 0 0 1\nf\t1/1/1   1/1/1 1/1/1\r\n";
    let mesh = parse(text).unwrap();
    let (x, y, z) = mesh.positions[0];
    assert_eq!((word(text, x), word(text, y), word(text, z)), ("0.5", "-1", "2"));
    assert_eq!(mesh.uvs.len(), 1);
    assert_eq!(mesh.corners.len(), 3);
}

#[test]
fn missing_coordinates_are_reported_with_their_line() {
    assert_eq!(parse("v 1 2\n").err(), Some(ObjError { line: 0 }));
    assert_eq!(parse("v 1 2 3\nvt 1\n").err(), Some(ObjError { line: 1 }));
    assert_eq!(parse("v 1 2 3\n\nvn 1 2\n").err(), Some(ObjError { line: 2 }));
}

#[test]
fn corner_indices_must_exist_when_the_face_is_read() {
    // the face uses position 2 before it is declared
    let text = "v 0 0 0\nvt 0 0\nvn 0 0 1\nf 1/1/1 2/1/1 1/1/1\nv 1 1 1\n";
    assert_eq!(parse(text).err(), Some(ObjError { line: 3 }));
    // uv and normal are checked as well
    assert_eq!(parse("v 0 0 0\nvt 0 0\nvn 0 0 1\nf 1/2/1 1/1/1 1/1/1\n").err(), Some(ObjError { line: 3 }));
    assert_eq!(parse("v 0 0 0\nvt 0 0\nvn 0 0 1\nf 1/1/1 1/1/1 1/1/2\n").err(), Some(ObjError { line: 3 }));
}

#[test]
fn corner_words_must_be_numbers_of_at_least_one() {
    let head = "v 0 0 0\nvt 0 0\nvn 0 0 1\n";
    for bad in ["0/1/1", "1//1", "1/1", "x/1/1", "-1/1/1", "1/1/1/", "1/1/1/a", "+/1/1", "18446744073709551617/1/1"] {
        let text = format!("{}f {} 1/1/1 1/1/1\n", head, bad);
        assert_eq!(parse(&text).err(), Some(ObjError { line: 3 }), "{}", bad);
    }
    for good in ["+1/1/1", "01/1/1", "1/1/1/7"] {
        let text = format!("{}f {} 1/1/1 1/1/1\n", head, good);
        assert!(parse(&text).is_ok(), "{}", good);
    }
}

#[test]
fn empty_text_is_an_empty_mesh() {
    let mesh = parse("").unwrap();
    assert!(mesh.positions.is_empty() && mesh.corners.is_empty());
}

#[test]
fn words_split_on_unicode_white_space_too() {
    let text = "v\u{a0}1\u{3000}2\u{2003}3\u{85}\nvt é\u{2028}ü\n";
    let mesh = parse(text).unwrap();
    let (x, y, z) = mesh.positions[0];
    assert_eq!((word(text, x), word(text, y), word(text, z)), ("1", "2", "3"));
    let (u, v) = mesh.uvs[0];
    assert_eq!((word(text, u), word(text, v)), ("é", "ü"));
    // the same split as str::split_whitespace
    let expected: Vec<&str> = text.lines().next().unwrap().split_whitespace().collect();
    assert_eq!(expected, vec!["v", "1", "2", "3"]);
}
