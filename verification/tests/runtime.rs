//! The evaluator: opcode semantics, the log formatter, and whole-stream
//! reads.

use litscript::color::Color;
use litscript::error::LitError;
use litscript::game::Game;
use litscript::material::ImgMaterial;
use litscript::script::{GameData, ParserState};
use litscript::types::BytecodeObject;

/// An encoded string literal: tag, length byte, then the UTF-8 bytes.
fn enc_str(s: &str) -> Vec<u8> {
    let mut v = vec![4u8, s.len() as u8];
    v.extend_from_slice(s.as_bytes());
    v
}

#[test]
fn gamedef_sets_the_name() {
    let mut bytes = vec![0u8, 1];
    bytes.extend_from_slice(&enc_str("Pond"));
    let g = GameData::read(&bytes).expect("stream should load");
    assert_eq!(g.name(), "Pond");
}

#[test]
fn a_fresh_game_is_unnamed() {
    let g = GameData::read(&Vec::new()).expect("an empty stream loads");
    assert_eq!(g.name(), "Unnamed");
    assert!(g.log().is_empty());
}

#[test]
fn terminator_stops_evaluation() {
    let mut bytes = vec![0u8, 0];
    bytes.extend_from_slice(&[0, 1]);
    bytes.extend_from_slice(&enc_str("Never"));
    let g = GameData::read(&bytes).expect("terminated stream loads");
    assert_eq!(g.name(), "Unnamed");
}

#[test]
fn unrecognized_opcode_aborts_the_load() {
    let bytes = vec![0u8, 9];
    let r = GameData::read(&bytes);
    assert!(matches!(r, Err(LitError::BytecodeRead16(9))));
}

#[test]
fn truncated_opcode_aborts_the_load() {
    let bytes = vec![0u8];
    assert!(matches!(GameData::read(&bytes), Err(LitError::UnexpectedEof)));
}

#[test]
fn log_interleaves_format_and_tuple() {
    // log "x={} y={}" (1, 2)
    let mut bytes = vec![0u8, 3];
    bytes.extend_from_slice(&enc_str("x={} y={}"));
    bytes.extend_from_slice(&[5, 2, 1, 1, 1, 2]);
    let g = GameData::read(&bytes).expect("stream should load");
    assert_eq!(g.log().len(), 1);
    assert_eq!(g.log()[0], "x=1 y=2");
}

#[test]
fn log_renders_negative_and_string_elements() {
    let mut bytes = vec![0u8, 3];
    bytes.extend_from_slice(&enc_str("{}/{}"));
    let mut tuple = vec![5u8, 2, 2, 255, 206];
    tuple.extend_from_slice(&enc_str("up"));
    bytes.extend_from_slice(&tuple);
    let g = GameData::read(&bytes).expect("stream should load");
    assert_eq!(g.log()[0], "-50/up");
}

#[test]
fn def_binds_and_gamedef_resolves_through_it() {
    // def (id 7) "Drip"; gamedef @7
    let mut bytes = vec![0u8, 2, 0, 0, 0, 7];
    bytes.extend_from_slice(&enc_str("Drip"));
    bytes.extend_from_slice(&[0, 1, 6, 0, 0, 0, 7]);
    let g = GameData::read(&bytes).expect("stream should load");
    assert_eq!(g.name(), "Drip");
}

#[test]
fn gamedef_of_unbound_variable_fails() {
    let bytes = vec![0u8, 1, 6, 0, 0, 0, 9];
    assert!(matches!(GameData::read(&bytes), Err(LitError::VariableNotFound(9))));
}

#[test]
fn gamedef_of_a_number_is_a_type_error() {
    let bytes = vec![0u8, 1, 1, 5];
    assert!(matches!(GameData::read(&bytes), Err(LitError::IncorrectDataType(_, _))));
}

#[test]
fn circular_invocation_is_reported() {
    // def 1 = @2; def 2 = @1; gamedef @1
    let bytes = vec![
        0u8, 2, 0, 0, 0, 1, 6, 0, 0, 0, 2,
        0, 2, 0, 0, 0, 2, 6, 0, 0, 0, 1,
        0, 1, 6, 0, 0, 0, 1,
    ];
    assert!(matches!(GameData::read(&bytes), Err(LitError::CircularReference(_))));
}

/// create_tex (id 1) 2 3, background (10, 20, 30).
fn create_tex_2x3() -> Vec<u8> {
    vec![0u8, 4, 0, 0, 0, 1, 1, 2, 1, 3, 5, 3, 1, 10, 1, 20, 1, 30]
}

#[test]
fn create_tex_builds_a_loadable_resource() {
    let g = &mut GameData::read(&create_tex_2x3()).expect("stream should load");
    let tex = g.get_resource(0).expect("resource 0 exists");
    assert_eq!(tex.width, 2);
    assert_eq!(tex.height, 3);
}

#[test]
fn game_drives_the_frame_boundary() {
    let data = GameData::read(&create_tex_2x3()).expect("stream should load");
    let mut game = Game::new(data);
    let tex = game.get_resource(0).expect("resource 0 exists");
    assert_eq!(tex.width, 2);
    // one frame boundary: the resource survives its grace window
    game.clean();
    game.swap_generation();
    // a second boundary after a frame without a load evicts the cached
    // texture; the material is still there, so it rebuilds on demand
    game.clean();
    game.swap_generation();
    let tex = game.get_resource(0).expect("resource 0 rebuilds from its material");
    assert_eq!(tex.height, 3);
}

#[test]
fn create_tex_with_negative_width_is_a_conversion_error() {
    let bytes = vec![0u8, 4, 0, 0, 0, 1, 2, 255, 255, 1, 3, 5, 3, 1, 10, 1, 20, 1, 30];
    assert!(matches!(GameData::read(&bytes), Err(LitError::Conversion)));
}

#[test]
fn color_with_wrong_arity_is_rejected() {
    let bytes = vec![0u8, 4, 0, 0, 0, 1, 1, 2, 1, 3, 5, 2, 1, 10, 1, 20];
    assert!(matches!(GameData::read(&bytes), Err(LitError::ImproperColorArity(2))));
}

#[test]
fn draw_pixel_uses_a_registered_color_override() {
    let mut bytes = create_tex_2x3();
    // color_id @1 index 7 -> (1, 2, 3)
    bytes.extend_from_slice(&[0, 5, 6, 0, 0, 0, 1, 1, 7, 5, 3, 1, 1, 1, 2, 1, 3]);
    // draw_pixel @1 at (0, 0) with color index 7 (override found: no literal color follows)
    bytes.extend_from_slice(&[0, 6, 6, 0, 0, 0, 1, 1, 0, 1, 0, 1, 7]);
    let g = GameData::read(&bytes).expect("stream should load");
    assert_eq!(g.name(), "Unnamed");
}

#[test]
fn draw_rectangle_falls_back_to_a_literal_color() {
    let mut bytes = create_tex_2x3();
    // draw_rectangle @1 at (0, 0) size 2x2, unknown index 9, then literal color
    bytes.extend_from_slice(&[0, 7, 6, 0, 0, 0, 1, 1, 0, 1, 0, 1, 2, 1, 2, 1, 9]);
    bytes.extend_from_slice(&[5, 3, 1, 9, 1, 9, 1, 9]);
    let g = GameData::read(&bytes).expect("stream should load");
    assert_eq!(g.name(), "Unnamed");
}

#[test]
fn draw_on_a_non_material_is_a_type_error() {
    // def 1 = 5; draw_pixel @1 ...
    let mut bytes = vec![0u8, 2, 0, 0, 0, 1, 1, 5];
    bytes.extend_from_slice(&[0, 6, 6, 0, 0, 0, 1, 1, 0, 1, 0, 1, 9, 5, 3, 1, 1, 1, 1, 1, 1]);
    assert!(matches!(GameData::read(&bytes), Err(LitError::IncorrectDataType(_, _))));
}

#[test]
fn stringify_renders_tuples_and_materials() {
    let state = ParserState::new();
    let tup = BytecodeObject::Tuple(vec![
        BytecodeObject::Numeric8(1),
        BytecodeObject::Numeric16(-2),
    ]);
    assert_eq!(tup.stringify(&state).expect("tuples render"), "(1, -2)");
    let mat = BytecodeObject::ImgMaterial(ImgMaterial::new(4, 7, Color::new(0, 0, 0)));
    assert_eq!(mat.stringify(&state).expect("materials render"), "4x7 Image");
}
