use softrender::{parse_obj, ObjMesh, UnifiedGeometryBuffer, Vertex};

type V = Vertex<u32, u32, u32>;

const TRIANGLE: &str = "v 0 0 0\nv 1 0 0\nv 0 1 0\nvt 0 0\nvn 0 0 1\nf 1/1/1 2/1/1 3/1/1\n";
const QUAD: &str = "v 0 0 0\nv 1 0 0\nv 1 1 0\nv 0 1 0\nvt 0 0\nvt 1 1\nvn 0 0 1\nf 1/1/1 2/2/1 3/1/1 4/2/1\n";

fn mesh(text: &str) -> ObjMesh {
    parse_obj(text.as_bytes()).unwrap()
}

/// Loads a mesh whose attribute i is the number 100 * kind + i.
fn load(ugb: &mut UnifiedGeometryBuffer<V>, text: &str, texture_id: usize) -> usize {
    let m = mesh(text);
    let positions: Vec<u32> = (0..m.positions.len() as u32).map(|i| 100 + i).collect();
    let uvs: Vec<u32> = (0..m.uvs.len() as u32).map(|i| 200 + i).collect();
    let normals: Vec<u32> = (0..m.normals.len() as u32).map(|i| 300 + i).collect();
    ugb.load_textured_model_obj(&m, &positions, &uvs, &normals, texture_id)
}

#[test]
fn loading_appends_models_with_increasing_ids() {
    let mut ugb: UnifiedGeometryBuffer<V> = UnifiedGeometryBuffer::new();
    let a = load(&mut ugb, TRIANGLE, 3);
    let b = load(&mut ugb, QUAD, 4);
    assert_eq!((a, b), (0, 1));
    assert_eq!(ugb.models_loaded, 2);
    assert_eq!(ugb.vertices.len(), 9);
    assert_eq!(ugb.indices, vec![0, 1, 2, 0, 1, 2, 3, 4, 5]);
    let qa = ugb.models[1];
    assert_eq!((qa.id, qa.base_vertex, qa.index_start, qa.index_count, qa.texture_id), (1, 3, 3, 6, 4));
    // quad corners: positions 1 2 3 1 3 4, uvs 1 2 1 1 1 2
    let pos: Vec<u32> = ugb.vertices[3..].iter().map(|v| v.pos).collect();
    let uv: Vec<u32> = ugb.vertices[3..].iter().map(|v| v.uv).collect();
    assert_eq!(pos, vec![100, 101, 102, 100, 102, 103]);
    assert_eq!(uv, vec![200, 201, 200, 200, 200, 201]);
    assert!(ugb.vertices.iter().all(|v| v.normal == 300 && v.color.to_u32() == 0xffff_ffff));
}

#[test]
fn load_model_obj_uses_texture_zero() {
    let mut ugb: UnifiedGeometryBuffer<V> = UnifiedGeometryBuffer::new();
    let m = mesh(TRIANGLE);
    let id = ugb.load_model_obj(&m, &[1, 2, 3], &[4], &[5]);
    assert_eq!(id, 0);
    assert_eq!(ugb.models[0].texture_id, 0);
}

#[test]
fn lookup_by_id() {
    let mut ugb: UnifiedGeometryBuffer<V> = UnifiedGeometryBuffer::new();
    for _ in 0..5 {
        load(&mut ugb, TRIANGLE, 0);
    }
    for id in 0..5 {
        assert_eq!(ugb.get_model_index(id), Some(id));
        assert_eq!(ugb.get_model(id).map(|m| m.id), Some(id));
    }
    assert_eq!(ugb.get_model_index(5), None);
    assert!(ugb.get_model(7).is_none());
}

#[test]
fn lookup_in_empty_buffer_finds_nothing() {
    let mut ugb: UnifiedGeometryBuffer<V> = UnifiedGeometryBuffer::new();
    assert_eq!(ugb.get_model_index(0), None);
    assert!(ugb.get_model(0).is_none());
}

#[test]
fn removing_a_model_keeps_the_others() {
    let mut ugb: UnifiedGeometryBuffer<V> = UnifiedGeometryBuffer::new();
    load(&mut ugb, TRIANGLE, 0);
    load(&mut ugb, QUAD, 1);
    load(&mut ugb, TRIANGLE, 2);
    assert!(ugb.remove_model(1));
    assert_eq!(ugb.models.len(), 2);
    assert_eq!(ugb.get_model_index(1), None);
    assert_eq!(ugb.get_model_index(2), Some(1));
    let last = ugb.models[1];
    assert_eq!((last.id, last.base_vertex, last.index_start, last.index_count, last.texture_id), (2, 3, 3, 3, 2));
    assert_eq!(ugb.vertices.len(), 6);
    assert_eq!(ugb.indices, vec![0, 1, 2, 0, 1, 2]);
    // the next model gets a fresh id
    assert_eq!(load(&mut ugb, TRIANGLE, 0), 3);
}

#[test]
fn removing_the_first_and_last_models() {
    let mut ugb: UnifiedGeometryBuffer<V> = UnifiedGeometryBuffer::new();
    load(&mut ugb, QUAD, 0);
    load(&mut ugb, TRIANGLE, 1);
    assert!(ugb.remove_model(0));
    assert_eq!(ugb.models[0].base_vertex, 0);
    assert_eq!(ugb.models[0].index_start, 0);
    assert_eq!(ugb.vertices.len(), 3);
    assert!(ugb.remove_model(1));
    assert!(ugb.models.is_empty() && ugb.vertices.is_empty() && ugb.indices.is_empty());
}

#[test]
fn removing_an_unknown_model_changes_nothing() {
    let mut ugb: UnifiedGeometryBuffer<V> = UnifiedGeometryBuffer::new();
    assert!(!ugb.remove_model(0));
    load(&mut ugb, TRIANGLE, 0);
    assert!(!ugb.remove_model(4));
    assert!(ugb.remove_model(0));
    assert!(!ugb.remove_model(0));
    assert_eq!(ugb.models_loaded, 1);
}

#[test]
fn triangle_corners_are_absolute_vertex_positions() {
    let mut ugb: UnifiedGeometryBuffer<V> = UnifiedGeometryBuffer::new();
    load(&mut ugb, TRIANGLE, 0);
    load(&mut ugb, QUAD, 0);
    assert_eq!(ugb.triangle_vertices(0, 0), (0, 1, 2));
    assert_eq!(ugb.triangle_vertices(1, 0), (3, 4, 5));
    assert_eq!(ugb.triangle_vertices(1, 1), (6, 7, 8));
}

#[test]
fn removing_the_model_just_loaded_restores_the_buffer() {
    let mut ugb: UnifiedGeometryBuffer<V> = UnifiedGeometryBuffer::new();
    load(&mut ugb, QUAD, 1);
    load(&mut ugb, TRIANGLE, 2);
    let vertices_before: Vec<(u32, u32, u32)> = ugb.vertices.iter().map(|v| (v.pos, v.uv, v.normal)).collect();
    let indices_before = ugb.indices.clone();
    let models_before: Vec<(usize, usize, usize, usize, usize)> =
        ugb.models.iter().map(|m| (m.id, m.base_vertex, m.index_start, m.index_count, m.texture_id)).collect();
    let id = load(&mut ugb, QUAD, 3);
    assert!(ugb.remove_model(id));
    let vertices_after: Vec<(u32, u32, u32)> = ugb.vertices.iter().map(|v| (v.pos, v.uv, v.normal)).collect();
    let models_after: Vec<(usize, usize, usize, usize, usize)> =
        ugb.models.iter().map(|m| (m.id, m.base_vertex, m.index_start, m.index_count, m.texture_id)).collect();
    assert_eq!(vertices_after, vertices_before);
    assert_eq!(ugb.indices, indices_before);
    assert_eq!(models_after, models_before);
}

#[test]
fn default_buffer_is_empty() {
    let mut ugb: UnifiedGeometryBuffer<V> = Default::default();
    assert!(ugb.vertices.is_empty() && ugb.indices.is_empty() && ugb.models.is_empty());
    assert_eq!(ugb.models_loaded, 0);
    assert_eq!(load(&mut ugb, TRIANGLE, 0), 0);
}
