use titan_voxel_engine::assets::has_png_signature;
use titan_voxel_engine::camera::{CameraController, InputEvent, Key};
use titan_voxel_engine::texture::{layer_extent, placeholder_colors};

#[test]
fn png_signature_is_recognised() {
    let png = [0x89u8, 0x50, 0x4E, 0x47, 0x0D, 0x0A, 0x1A, 0x0A, 0, 0, 0, 13];
    assert!(has_png_signature(&png));
    assert!(has_png_signature(&png[..8]));
    assert!(!has_png_signature(&png[..7]));
    assert!(!has_png_signature(b"<!DOCTYPE html><html>"));
    assert!(!has_png_signature(&[]));
}

#[test]
fn placeholder_colors_per_layer() {
    let c = placeholder_colors(5);
    assert_eq!(
        c,
        vec![
            [100, 70, 50, 255],
            [80, 140, 60, 255],
            [120, 120, 120, 255],
            [80, 80, 80, 255],
            [80, 80, 80, 255],
        ]
    );
    assert_eq!(placeholder_colors(2).len(), 2);
    assert!(placeholder_colors(0).is_empty());
}

#[test]
fn layer_extent_checks_sizes() {
    assert_eq!(layer_extent(&vec![]), Some((0, 0)));
    assert_eq!(layer_extent(&vec![(16, 16), (16, 16), (16, 16)]), Some((16, 16)));
    assert_eq!(layer_extent(&vec![(16, 16), (16, 8)]), None);
    assert_eq!(layer_extent(&vec![(16, 16), (32, 16), (16, 16)]), None);
}

#[test]
fn controller_tracks_movement_keys() {
    let mut c = CameraController::new();
    assert!(c.process_events(&InputEvent::Keyboard { key: Key::KeyW, pressed: true }));
    assert!(c.is_forward_pressed);
    assert!(c.process_events(&InputEvent::Keyboard { key: Key::ShiftLeft, pressed: true }));
    assert!(c.is_down_pressed);
    assert!(c.process_events(&InputEvent::Keyboard { key: Key::KeyW, pressed: false }));
    assert!(!c.is_forward_pressed);
    assert!(c.is_down_pressed);
    let before = c;
    assert!(!c.process_events(&InputEvent::Keyboard { key: Key::Other, pressed: true }));
    assert!(!c.process_events(&InputEvent::Other));
    assert_eq!(c, before);
    for (key, check) in [
        (Key::KeyA, 0),
        (Key::KeyS, 1),
        (Key::KeyD, 2),
        (Key::Space, 3),
    ] {
        let mut c = CameraController::new();
        assert!(c.process_events(&InputEvent::Keyboard { key, pressed: true }));
        let flags = [c.is_left_pressed, c.is_backward_pressed, c.is_right_pressed, c.is_up_pressed];
        for (k, f) in flags.iter().enumerate() {
            assert_eq!(*f, k == check);
        }
        assert!(!c.is_forward_pressed && !c.is_down_pressed);
    }
}
