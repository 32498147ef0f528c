use lector_obj::lex::{is_number, parse_face_vertex, parse_i32, resolve_idx, split_tokens, triangulate_fan};
use lector_obj::obj::{parse_obj, Mesh, ParseError, ParseErrorKind};

const SQUARE: &str = "v 0 0 0\nv 1 0 0\nv 1 1 0\nv 0 1 0\n";

fn corners(m: &Mesh) -> Vec<u32> {
    m.indices.iter().map(|c| c.0).collect()
}

#[test]
fn negative_index_matches_positive() {
    assert_eq!(resolve_idx(-1, 3), Some(2));
    assert_eq!(resolve_idx(3, 3), Some(2));
    assert_eq!(resolve_idx(-3, 3), resolve_idx(1, 3));
    assert_eq!(resolve_idx(-4, 3), None);
    assert_eq!(resolve_idx(4, 3), None);
    assert_eq!(resolve_idx(1, 0), None);
}

#[test]
fn zero_index_resolves_to_nothing() {
    assert_eq!(resolve_idx(0, 3), None);
}

#[test]
fn negative_face_reference_in_file() {
    let m = parse_obj("v 0 0 0\nv 1 0 0\nv 0 1 0\nf -3 -2 -1\n").unwrap();
    assert_eq!(corners(&m), vec![0, 1, 2]);
}

#[test]
fn quad_splits_into_two_triangles() {
    let text = format!("{SQUARE}f 1 2 3 4\n");
    let m = parse_obj(&text).unwrap();
    assert_eq!(corners(&m), vec![0, 1, 2, 0, 2, 3]);
    assert_eq!(triangulate_fan(&[1, 2, 3, 4]), vec![[1, 2, 3], [1, 3, 4]]);
}

#[test]
fn fan_of_short_polygons_is_empty() {
    assert!(triangulate_fan::<u8>(&[]).is_empty());
    assert!(triangulate_fan(&[7u8, 8]).is_empty());
    assert_eq!(triangulate_fan(&[5u8, 6, 7]), vec![[5, 6, 7]]);
    assert_eq!(triangulate_fan(&[0u8, 1, 2, 3, 4]), vec![[0, 1, 2], [0, 2, 3], [0, 3, 4]]);
}

#[test]
fn face_with_two_corners_is_rejected() {
    let r = parse_obj("v 0 0 0\nv 1 0 0\nf 1 2\n");
    assert_eq!(r.err(), Some(ParseError { line: 3, kind: ParseErrorKind::TooFewFaceVertices }));
}

#[test]
fn face_with_zero_index_is_rejected() {
    let r = parse_obj("v 0 0 0\nv 1 0 0\nv 0 1 0\nf 0 1 2\n");
    assert_eq!(r.err(), Some(ParseError { line: 4, kind: ParseErrorKind::BadFaceIndex }));
}

#[test]
fn face_index_past_the_end_is_rejected() {
    let r = parse_obj("v 0 0 0\nv 1 0 0\nv 0 1 0\nf 1 2 4\n");
    assert_eq!(r.err(), Some(ParseError { line: 4, kind: ParseErrorKind::BadFaceIndex }));
}

#[test]
fn minimal_file_gives_one_triangle() {
    let m = parse_obj("v 0 0 0\nv 1 0 0\nv 0 1 0\nf 1 2 3\n").unwrap();
    assert_eq!(m.positions.len(), 3);
    assert_eq!(m.indices.len(), 3);
    assert_eq!(m.indices, vec![(0, None, None), (1, None, None), (2, None, None)]);
    assert_eq!(m.positions[1].0, b"1".to_vec());
}

#[test]
fn index_count_is_a_multiple_of_three() {
    let text = format!("{SQUARE}f 1 2 3\nf 1 2 3 4\nf 4 3 2 1\n# pentagon below\nv 2 2 2\nf 1 2 3 4 5\n");
    let m = parse_obj(&text).unwrap();
    assert_eq!(m.indices.len() % 3, 0);
    assert_eq!(m.indices.len(), 3 + 6 + 6 + 9);
}

#[test]
fn comments_blank_lines_and_other_tags_are_skipped() {
    let text = "# header\n\n   \no thing\ng group\ns 1\nusemtl red\n  # indented comment\nv 1 2 3\r\nvt 0.5 0.25\nvn 0 0 1\n";
    let m = parse_obj(text).unwrap();
    assert_eq!(m.positions.len(), 1);
    assert_eq!(m.texcoords.len(), 1);
    assert_eq!(m.normals.len(), 1);
    assert_eq!(m.positions[0].2, b"3".to_vec());
    assert_eq!(m.texcoords[0].1, b"0.25".to_vec());
    assert!(m.indices.is_empty());
}

#[test]
fn empty_text_gives_empty_mesh() {
    let m = parse_obj("").unwrap();
    assert!(m.positions.is_empty() && m.indices.is_empty());
}

#[test]
fn face_corner_forms() {
    let text = "v 0 0 0\nv 1 0 0\nv 0 1 0\nvt 0 0\nvt 1 0\nvn 0 0 1\nf 1/1 2/2/1 3//1\n";
    let m = parse_obj(text).unwrap();
    assert_eq!(m.indices, vec![(0, Some(0), None), (1, Some(1), Some(0)), (2, None, Some(0))]);
}

#[test]
fn texcoord_reference_out_of_range_is_rejected() {
    let r = parse_obj("v 0 0 0\nv 1 0 0\nv 0 1 0\nf 1/1 2 3\n");
    assert_eq!(r.err(), Some(ParseError { line: 4, kind: ParseErrorKind::BadFaceIndex }));
}

#[test]
fn malformed_directives_are_rejected() {
    let e = |t: &str| parse_obj(t).err().map(|e| e.kind);
    assert_eq!(e("v 1 2\n"), Some(ParseErrorKind::BadPosition));
    assert_eq!(e("v 1 2 x\n"), Some(ParseErrorKind::BadPosition));
    assert_eq!(e("vt 1\n"), Some(ParseErrorKind::BadTexcoord));
    assert_eq!(e("vn 1 2 3..\n"), Some(ParseErrorKind::BadNormal));
    assert_eq!(e("v 0 0 0\nv 1 0 0\nv 0 1 0\nf 1 x 3\n"), Some(ParseErrorKind::BadFaceIndex));
    assert_eq!(parse_obj("\n\nv 1\n").err().map(|e| e.line), Some(3));
}

#[test]
fn integer_literals() {
    assert_eq!(parse_i32(b"42"), Some(42));
    assert_eq!(parse_i32(b"+7"), Some(7));
    assert_eq!(parse_i32(b"-2147483648"), Some(i32::MIN));
    assert_eq!(parse_i32(b"2147483647"), Some(i32::MAX));
    assert_eq!(parse_i32(b"2147483648"), None);
    assert_eq!(parse_i32(b""), None);
    assert_eq!(parse_i32(b"-"), None);
    assert_eq!(parse_i32(b"1a"), None);
}

#[test]
fn float_literals() {
    for ok in ["0", "-1.5", "+.5", "5.", "1e10", "2.5E-3", "inf", "-Infinity", "NaN"] {
        assert!(is_number(ok.as_bytes()), "{ok}");
    }
    for bad in ["", ".", "-", "e5", "1e", "1e+", "1.2.3", "infx", "0x10", "1,5"] {
        assert!(!is_number(bad.as_bytes()), "{bad}");
    }
}

#[test]
fn face_vertex_references() {
    assert_eq!(parse_face_vertex("2", 3, 0, 0), Some((1, None, None)));
    assert_eq!(parse_face_vertex("-1//2", 3, 0, 2), Some((2, None, Some(1))));
    assert_eq!(parse_face_vertex("1/2/3", 1, 2, 3), Some((0, Some(1), Some(2))));
    assert_eq!(parse_face_vertex("/1", 3, 3, 3), None);
    assert_eq!(parse_face_vertex("1/5", 3, 3, 3), None);
}

#[test]
fn tokens_split_on_whitespace() {
    let toks = split_tokens(b"  f\t1/2  3 \r");
    assert_eq!(toks, vec![&b"f"[..], &b"1/2"[..], &b"3"[..]]);
    assert!(split_tokens(b" \t ").is_empty());
}
