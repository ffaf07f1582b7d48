//! The dependency resolver and the generational resource dictionary.

use litscript::color::Color;
use litscript::dictionary::ResourceDictionary;
use litscript::draw::{DrawBuffer, DrawInstruction};
use litscript::error::LitError;
use litscript::material::ImgMaterial;
use litscript::resource::{ImgTexture, MaterialType};
use litscript::script::{Dependancy, ParserState};
use litscript::types::BytecodeObject;

fn material(side: i16) -> BytecodeObject {
    BytecodeObject::ImgMaterial(ImgMaterial::new(side, side, Color::new(0, 0, 0)))
}

fn dep(id: u32) -> Dependancy {
    Dependancy { kind: MaterialType::ImgMaterial, id }
}

#[test]
fn dependencies_resolve_before_dependents() {
    // A (id 1, 1x1) depends on B (id 2, 2x2) depends on C (id 3, 3x3)
    let mut state = ParserState::new();
    state.register_variable(1, material(1));
    state.register_variable(2, material(2));
    state.register_variable(3, material(3));
    state.add_dependencies(1, vec![dep(2)]);
    state.add_dependencies(2, vec![dep(3)]);
    state.add_pending_material(1);
    let mut dict = state.into_resource_dict().expect("acyclic chain resolves");
    // resource ids were assigned in the order C, B, A
    assert_eq!(dict.load_res(0).expect("id 0 exists").width, 3);
    assert_eq!(dict.load_res(1).expect("id 1 exists").width, 2);
    assert_eq!(dict.load_res(2).expect("id 2 exists").width, 1);
}

#[test]
fn a_dependency_cycle_is_reported_as_an_error() {
    // A (id 1) depends on B (id 2) depends on A
    let mut state = ParserState::new();
    state.register_variable(1, material(1));
    state.register_variable(2, material(2));
    state.add_dependencies(1, vec![dep(2)]);
    state.add_dependencies(2, vec![dep(1)]);
    state.add_pending_material(1);
    let r = state.into_resource_dict();
    assert!(matches!(r, Err(LitError::DependencyCycle(_))));
}

#[test]
fn a_pending_id_without_a_variable_is_missing() {
    let mut state = ParserState::new();
    state.add_pending_material(5);
    let r = state.into_resource_dict();
    assert!(matches!(r, Err(LitError::VariableNotFound(5))));
}

#[test]
fn a_consumed_material_cannot_be_resolved_twice() {
    let mut state = ParserState::new();
    state.register_variable(1, material(1));
    state.add_pending_material(1);
    state.add_pending_material(1);
    let r = state.into_resource_dict();
    assert!(matches!(r, Err(LitError::VariableNotFound(1))));
}

fn dict_with_one_material() -> ResourceDictionary {
    let mut dict = ResourceDictionary::new();
    let id = dict.add_mat(ImgMaterial::new(4, 4, Color::transparent()));
    assert_eq!(id, 0);
    dict
}

#[test]
fn load_builds_once_and_caches() {
    let mut dict = dict_with_one_material();
    assert!(dict.get_res(0).is_none());
    let t1 = dict.load_res(0).expect("material 0 exists");
    assert_eq!(t1, ImgTexture { width: 4, height: 4 });
    assert!(dict.get_res(0).is_some());
    let t2 = dict.load_res(0).expect("still loadable");
    assert_eq!(t1, t2);
}

#[test]
fn loading_a_missing_material_fails() {
    let mut dict = ResourceDictionary::new();
    assert!(matches!(dict.load_res(3), Err(LitError::MissingMaterial(3))));
}

#[test]
fn generational_grace_window_then_eviction() {
    let mut dict = dict_with_one_material();
    // frame N: the resource is loaded
    dict.load_res(0).expect("material 0 exists");
    // frame N's boundary: sweep, then swap generations
    dict.clean();
    dict.swap_generation();
    // grace window: still retrievable without a rebuild
    assert!(dict.get_res(0).is_some());
    // frame N+1 never loads it; its boundary evicts it
    dict.clean();
    dict.swap_generation();
    assert!(dict.get_res(0).is_none());
}

#[test]
fn a_resource_loaded_every_frame_is_never_evicted() {
    let mut dict = dict_with_one_material();
    dict.load_res(0).expect("material 0 exists");
    dict.clean();
    dict.swap_generation();
    dict.load_res(0).expect("still present");
    dict.clean();
    dict.swap_generation();
    assert!(dict.get_res(0).is_some());
}

#[test]
fn add_res_hands_out_increasing_ids() {
    let mut dict = ResourceDictionary::new();
    assert_eq!(dict.add_res(ImgTexture { width: 1, height: 1 }), 0);
    assert_eq!(dict.add_res(ImgTexture { width: 2, height: 2 }), 1);
    assert_eq!(dict.get_res(1), Some(&ImgTexture { width: 2, height: 2 }));
}

#[test]
fn color_overrides_are_per_object_and_index() {
    let mut state = ParserState::new();
    state.register_color_id(1, 0, Color::new(9, 9, 9));
    state.register_color_id(1, 1, Color::transparent());
    assert_eq!(state.get_color(1, 0), Ok(Color::new(9, 9, 9)));
    assert_eq!(state.get_color(1, 1), Ok(Color::transparent()));
    assert_eq!(state.get_color(1, 2), Err(LitError::ColorIdNotFound(1, 2)));
    assert_eq!(state.get_color(2, 0), Err(LitError::ColorIdObjectNotFound(2)));
}

#[test]
fn from_arr_follows_the_channel_rules() {
    assert_eq!(Color::from_arr(&vec![1, 2, 3]), Ok(Color::new(1, 2, 3)));
    assert_eq!(Color::from_arr(&vec![1, 2, 3, 0]), Ok(Color::transparent()));
    assert_eq!(Color::from_arr(&vec![1, 2, 3, 200]), Ok(Color::new(1, 2, 3)));
    assert_eq!(Color::from_arr(&vec![300, -7, 999, 0]), Ok(Color::transparent()));
    assert_eq!(Color::from_arr(&vec![1, 2]), Err(LitError::ImproperColorArity(2)));
    assert_eq!(Color::from_arr(&vec![1, 2, 300]), Err(LitError::Conversion));
    assert_eq!(Color::from_arr(&vec![-1, 2, 3]), Err(LitError::Conversion));
}

#[test]
fn rasterize_applies_the_most_recent_instruction() {
    let mut b = DrawBuffer::new(3, 2, Color::new(0, 0, 0));
    b.draw_rectangle(0, 0, 2, 2, Color::new(1, 1, 1));
    b.draw_pixel(1, 0, Color::new(2, 2, 2));
    let grid = b.rasterize();
    assert_eq!(grid.len(), 2);
    assert_eq!(grid[0].len(), 3);
    assert_eq!(grid[0][0], Color::new(1, 1, 1));
    assert_eq!(grid[0][1], Color::new(2, 2, 2));
    assert_eq!(grid[0][2], Color::new(0, 0, 0));
    assert_eq!(grid[1][1], Color::new(1, 1, 1));
}

#[test]
fn an_instruction_flattens_to_its_twelve_buffer_integers() {
    let d = DrawInstruction::Rectangle { x: 1, y: 2, w: 3, h: 4, color: Color::new(5, 6, 7) };
    assert_eq!(d.as_int_set(), [2, 0, 0, 0, 1, 2, 3, 4, 5, 6, 7, 1]);
    let p = DrawInstruction::Pixel { x: -1, y: -2, color: Color::transparent() };
    assert_eq!(p.as_int_set(), [1, 0, 0, 0, -1, -2, 0, 0, 0, 0, 0, 0]);
}

#[test]
fn prepare_builds_the_buffer_once_most_recent_first() {
    let mut m = ImgMaterial::new(2, 2, Color::new(0, 0, 0));
    m.draw_pixel(0, 0, Color::new(1, 1, 1)).expect("draws always succeed");
    m.draw_pixel(1, 1, Color::new(2, 2, 2)).expect("draws always succeed");
    assert!(m.buffer().is_none());
    m.prepare().expect("prepare always succeeds");
    let buf = m.buffer().expect("prepared").clone();
    assert_eq!(buf.len(), 24);
    // the most recent draw comes first
    assert_eq!(&buf[..12], &[1, 0, 0, 0, 1, 1, 0, 0, 2, 2, 2, 1]);
    assert_eq!(&buf[12..], &[1, 0, 0, 0, 0, 0, 0, 0, 1, 1, 1, 1]);
    // preparing again keeps the buffer as it is
    m.draw_pixel(0, 1, Color::new(3, 3, 3)).expect("draws always succeed");
    m.prepare().expect("prepare always succeeds");
    assert_eq!(m.buffer().expect("still prepared").len(), 24);
}
