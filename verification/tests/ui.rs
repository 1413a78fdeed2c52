use iris::ui::{
    most_samples, Button, GlRenderer, GlStep, Key, Layer, Ui, UiAction, UiEvent,
};

fn press(key: Key) -> UiEvent {
    UiEvent::Keyboard { key, pressed: true, repeat: false }
}

fn release(key: Key) -> UiEvent {
    UiEvent::Keyboard { key, pressed: false, repeat: false }
}

fn click(button: Button) -> UiEvent {
    UiEvent::MouseInput { button, pressed: true }
}

#[test]
fn click_grabs_and_right_control_releases() {
    let mut ui = Ui::new(1);
    assert_eq!(ui.run(click(Button::Right)), UiAction::Nothing);
    assert_eq!(ui.run(UiEvent::MouseMotion), UiAction::Nothing);
    assert_eq!(ui.run(UiEvent::MouseWheel), UiAction::Nothing);
    assert_eq!(ui.run(click(Button::Left)), UiAction::Grab);
    assert_eq!(ui.run(UiEvent::MouseMotion), UiAction::CountMotion);
    assert_eq!(ui.run(UiEvent::MouseWheel), UiAction::CountWheel);
    let repeated = UiEvent::Keyboard { key: Key::ControlRight, pressed: true, repeat: true };
    assert_eq!(ui.run(repeated), UiAction::Nothing);
    assert!(ui.mouse_grabbed);
    assert_eq!(ui.run(press(Key::ControlRight)), UiAction::Release);
    assert!(!ui.mouse_grabbed && ui.rctrl_held);
    assert_eq!(ui.run(release(Key::ControlRight)), UiAction::Nothing);
    assert!(!ui.rctrl_held);
}

#[test]
fn losing_the_focus_releases_the_mouse() {
    let mut ui = Ui::new(1);
    assert_eq!(ui.run(UiEvent::FocusLost), UiAction::Nothing);
    ui.run(click(Button::Left));
    assert_eq!(ui.run(UiEvent::FocusLost), UiAction::Release);
    assert_eq!(ui.run(UiEvent::MouseMotion), UiAction::Nothing);
}

#[test]
fn right_control_and_print_screen_take_a_screenshot() {
    let mut ui = Ui::new(1);
    assert_eq!(ui.run(press(Key::PrintScreen)), UiAction::PushKey { pressed: true });
    ui.run(press(Key::ControlRight));
    assert_eq!(ui.run(press(Key::PrintScreen)), UiAction::Screenshot);
    assert_eq!(ui.run(release(Key::PrintScreen)), UiAction::PushKey { pressed: false });
    assert_eq!(ui.run(press(Key::Other)), UiAction::PushKey { pressed: true });
}

#[test]
fn buttons_make_a_byte() {
    let mut ui = Ui::new(1);
    ui.run(click(Button::Left));
    assert_eq!(ui.flush_mouse_delta(0, 0, 0, false), Some((0, 0, 0, 0)));
    assert_eq!(ui.run(click(Button::Left)), UiAction::FlushMouse);
    assert_eq!(ui.run(click(Button::Middle)), UiAction::FlushMouse);
    assert_eq!(ui.run(click(Button::Other)), UiAction::Nothing);
    assert_eq!(ui.flush_mouse_delta(1, -2, 3, true), Some((5, 1, -2, 3)));
    ui.run(click(Button::Right));
    ui.run(UiEvent::MouseInput { button: Button::Left, pressed: false });
    assert_eq!(ui.flush_mouse_delta(0, 0, 0, false), Some((6, 0, 0, 0)));
    assert_eq!(ui.flush_mouse_delta(0, 0, 0, true), None);
}

#[test]
fn window_events() {
    let mut ui = Ui::new(2);
    assert_eq!(ui.run(UiEvent::CloseRequested), UiAction::Exit);
    assert_eq!(ui.run(UiEvent::Resized { width: 0, height: 5 }), UiAction::Nothing);
    assert_eq!(
        ui.run(UiEvent::Resized { width: 4, height: 5 }),
        UiAction::StoreSize { width: 4, height: 5 }
    );
    assert_eq!(ui.window_size(20), (2048, 1576));
}

#[test]
fn most_samples_takes_the_first_of_equals() {
    assert_eq!(most_samples(&vec![0]), 0);
    assert_eq!(most_samples(&vec![0, 4, 8, 8, 2]), 2);
}

#[test]
fn program_falls_back_on_the_other_shader() {
    let ready = GlStep::CompileVertex.next(true, "").next(true, "").next(true, "");
    assert!(matches!(ready, GlStep::Ready));
    let detached = GlStep::CompileFetch.next(true, "").next(false, "no");
    assert!(matches!(detached, GlStep::CompileSample { detach: true }));
    let plain = GlStep::CompileFetch.next(false, "no");
    assert!(matches!(plain, GlStep::CompileSample { detach: false }));
    assert!(matches!(plain.next(true, "").next(true, ""), GlStep::Ready));
}

#[test]
fn program_failures_name_the_log() {
    assert!(matches!(
        GlStep::CompileVertex.next(false, "bad"),
        GlStep::Failed(e) if e == "Vertex shader compilation failed: bad"
    ));
    assert!(matches!(
        GlStep::CompileSample { detach: false }.next(false, "bad"),
        GlStep::Failed(e) if e == "Fragment shader compilation failed: bad"
    ));
    assert!(matches!(GlStep::LinkSample.next(false, "bad"), GlStep::Failed(e) if e == "Program linking failed: bad"));
}

#[test]
fn picture_is_laid_out_above_the_status_bar() {
    let mut r = GlRenderer::new(2, 20);
    assert!(r.present(0, 768, None, false).is_none());
    let p = r.present(1024, 768, None, false).unwrap();
    assert!(p.new_quads && p.resize.is_none());
    assert_eq!(p.window_height, 1576);
    assert_eq!(p.passes.len(), 2);
    assert_eq!((p.passes[0].layer, p.passes[0].y_base, p.passes[0].blend), (Layer::Picture, 40, false));
    assert_eq!((p.passes[1].layer, p.passes[1].y_base, p.passes[1].height), (Layer::StatusBar, 0, 20));
    let p = r.present(1024, 768, Some((2048, 1600)), true).unwrap();
    assert!(!p.new_quads);
    assert_eq!((p.resize, p.window_height), (Some((2048, 1600)), 1600));
    assert_eq!((p.passes[1].layer, p.passes[1].y_base, p.passes[1].blend), (Layer::Overlay, 40, true));
    r.stop();
    assert!(r.present(1024, 768, None, false).unwrap().new_quads);
    assert_eq!(r.resize(1280, 1024), (2560, 2088));
}
