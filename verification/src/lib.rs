//! The data layer of a small software rasterizer, verified: packed colours, a texture
//! store, a geometry buffer that holds every model's vertices and indices one after
//! the other, an OBJ mesh reader, and the integer decisions the rasterizer takes
//! (face culling, a triangle's pixel box, depth-pyramid tiles, camera keys).
mod color;
mod game;
mod geometry;
mod instancing;
mod obj;
mod texture_manager;

pub use color::{le_word, white, Color};
pub use game::{camera_action, spec_camera_action, Axis, CameraAction, PlaneGame, Step};
pub use geometry::{
    corner_vertices, lemma_added_model_is_unique, lemma_ids_distinct, lemma_ids_not_reused,
    lemma_remove_undoes_load, lemma_removed_model_is_gone, sequential_indices,
    ModelContent, ModelInfo, UnifiedGeometryBuffer, Vertex,
};
pub use instancing::{
    corners_reach_screen, is_clamped_tile, is_corner_box, is_drawn, last_tile,
    lemma_front_back_complementary, lemma_last_tile, lemma_pyramid_tiles_hold_corners,
    lemma_pyramid_tiles_in_grid, lemma_triangle_pixels_is_corner_box,
    lemma_triangle_pixels_on_screen, max_of, min_of, pyramid_tiles, spec_is_drawn,
    spec_pyramid_tiles, spec_triangle_pixels, triangle_pixels, CullingEnum, Facing,
    PixelBounds, RenderConfig, TileBounds,
};
pub use obj::{
    all_digits, apply_lines, corner_of, decimal_value, face_line, is_digit, is_space,
    keyword_f, keyword_v, keyword_vn, keyword_vt, lemma_corner_parts, lemma_obj_records, line_effect, line_words,
    obj_lines, obj_mesh, pair_record, pair_records, triple_record, triple_records,
    parse_obj, parsed_usize, part_index, pieces, pieces_from, space_len, span_bytes,
    spans_within, words, words_from, Corner, ObjError, ObjMesh, ObjMeshView, Span,
};
pub use texture_manager::{
    be_bytes, be_texel, color_of_bytes, decodes_in_machine_order, in_machine_order,
    is_vertical_mirror, lemma_append_keeps_textures, lemma_equal_words_equal_texels,
    lemma_le_texel_packs_back, lemma_memory_texel, memory_bytes, memory_texel,
    lemma_read_appended_texture, lemma_read_mirrored_texture, lemma_read_u32_texture,
    le_bytes, le_texel, TextureManager,
};
