use rusty_render::camera_stack::{authoritative_camera, camera_stack_order, CameraSlot};

fn cam(order: i32) -> CameraSlot {
    CameraSlot { entity_active: true, camera_active: true, render_order: order }
}

#[test]
fn edit_mode_is_a_single_base_pass() {
    // Edit mode ignores the scene cameras entirely: the base camera is the only pass.
    let cams = vec![cam(0)];
    let stack = camera_stack_order(&cams, false);
    assert_eq!(stack.len(), 0);
}

#[test]
fn play_mode_sorts_by_render_order_and_layers_lens() {
    // Authored out of order; the viewmodel (order 1) must come after the world (order 0).
    let names = ["View", "World"];
    let cams = vec![cam(1), cam(0)];
    let stack = camera_stack_order(&cams, true);
    assert_eq!(stack.len(), 2);
    // Sorted ascending: world first, viewmodel composites on top.
    assert_eq!(names[stack[0]], "World");
    assert_eq!(names[stack[1]], "View");
}

#[test]
fn inactive_cameras_are_skipped_with_base_fallback() {
    let mut off = cam(0);
    off.camera_active = false;
    let stack = camera_stack_order(&vec![off], true);
    // No active scene camera -> fall back to the single base pass.
    assert_eq!(stack.len(), 0);
}

#[test]
fn equal_render_orders_keep_authoring_order() {
    let mut dead = cam(-5);
    dead.entity_active = false;
    let cams = vec![cam(2), cam(1), dead, cam(1), cam(-3)];
    assert_eq!(camera_stack_order(&cams, true), vec![4, 1, 3, 0]);
}

#[test]
fn authoritative_lens_is_first_of_lowest_order() {
    let mut dead = cam(-5);
    dead.camera_active = false;
    let cams = vec![cam(2), cam(1), dead, cam(1), cam(3)];
    assert_eq!(authoritative_camera(&cams), Some(1));
    assert_eq!(authoritative_camera(&vec![dead]), None);
    // Two cameras tied at order 0: the first one decides the lens.
    assert_eq!(authoritative_camera(&vec![cam(0), cam(0)]), Some(0));
}

#[test]
fn authoritative_camera_is_the_head_of_the_stack() {
    let cams = vec![cam(4), cam(-1), cam(7), cam(-1)];
    let stack = camera_stack_order(&cams, true);
    assert_eq!(authoritative_camera(&cams), Some(stack[0]));
    assert_eq!(authoritative_camera(&vec![cam(i32::MAX)]), Some(0));
}
