use tinyrs::camera::{Action, Camera, Input, FARTHEST, NEAREST};

#[test]
fn camera_starts_at_three_units() {
    assert_eq!(Camera::new().distance(), 12);
    assert_eq!(NEAREST, 8);
    assert_eq!(FARTHEST, 20);
}

#[test]
fn quit_and_escape_stop_the_loop() {
    let mut camera = Camera::new();
    assert_eq!(camera.react(Input::Quit), Action::Stop);
    assert_eq!(camera.react(Input::Escape), Action::Stop);
    assert_eq!(camera.react(Input::Other), Action::Continue);
    assert_eq!(camera.react(Input::Scroll(0)), Action::Continue);
    assert_eq!(camera.distance(), 12);
}

#[test]
fn wheel_moves_the_camera_one_step_whatever_its_turn() {
    let mut camera = Camera::new();
    assert_eq!(camera.react(Input::Scroll(1)), Action::Continue);
    assert_eq!(camera.distance(), 13);
    camera.react(Input::Scroll(40));
    assert_eq!(camera.distance(), 14);
    camera.react(Input::Scroll(i32::MIN));
    assert_eq!(camera.distance(), 13);
    camera.react(Input::Scroll(-1));
    assert_eq!(camera.distance(), 12);
}

#[test]
fn camera_stays_in_its_range() {
    let mut camera = Camera::new();
    for _ in 0..30 {
        camera.react(Input::Scroll(1));
    }
    assert_eq!(camera.distance(), 20);
    camera.react(Input::Scroll(-1));
    assert_eq!(camera.distance(), 19);
    for _ in 0..30 {
        camera.react(Input::Scroll(-3));
    }
    assert_eq!(camera.distance(), 8);
    camera.react(Input::Scroll(i32::MAX));
    assert_eq!(camera.distance(), 9);
}
