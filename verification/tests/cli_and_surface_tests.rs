use spottedcat::cli::{command_from_args, parse_compare_args, parse_install_skill_args, SkillArgs, SpotCommand};
use spottedcat::events::{modifiers_changed, KeyboardState, TouchState};
use spottedcat::input::TouchPhase;
use spottedcat::gamepad::{GamepadId, GamepadIds};
use spottedcat::keycode::{Keycode, Modifiers};
use spottedcat::surface::{
    parse_present_mode, pick_alpha_mode, pick_present_mode, pick_surface_format, AlphaMode, PresentMode,
    SurfaceFormatKind,
};

fn args(v: &[&str]) -> Vec<String> {
    v.iter().map(|s| s.to_string()).collect()
}

#[test]
fn install_skill_arguments() {
    assert_eq!(parse_install_skill_args(&args(&[])), Ok(SkillArgs::CurrentDir));
    assert_eq!(
        parse_install_skill_args(&args(&["--project", "game"])),
        Ok(SkillArgs::Project("game".to_string()))
    );
    assert_eq!(parse_install_skill_args(&args(&["-h"])), Ok(SkillArgs::Help));
    assert_eq!(
        parse_install_skill_args(&args(&["--project"])),
        Err("--project requires a directory".to_string())
    );
    assert_eq!(
        parse_install_skill_args(&args(&["--project", "a", "--project", "b"])),
        Err("--project may only be supplied once".to_string())
    );
    assert_eq!(
        parse_install_skill_args(&args(&["--force"])),
        Err("unknown argument: --force".to_string())
    );
    assert_eq!(
        parse_install_skill_args(&args(&["--project", "a", "--help"])),
        Ok(SkillArgs::Help)
    );
}

#[test]
fn spot_commands() {
    assert_eq!(command_from_args(&args(&[])), Ok(SpotCommand::Help));
    assert_eq!(command_from_args(&args(&["--help"])), Ok(SpotCommand::Help));
    assert_eq!(
        command_from_args(&args(&["install-skill", "--project", "p"])),
        Ok(SpotCommand::InstallSkill(SkillArgs::Project("p".to_string())))
    );
    assert_eq!(
        command_from_args(&args(&["install-skill", "x"])),
        Err("unknown argument: x".to_string())
    );
    assert_eq!(command_from_args(&args(&["build"])), Err("unknown command: build".to_string()));
}

#[test]
fn present_mode_settings() {
    assert_eq!(parse_present_mode("  Mailbox\n"), Some(PresentMode::Mailbox));
    assert_eq!(parse_present_mode("AUTO"), Some(PresentMode::AutoVsync));
    assert_eq!(parse_present_mode("auto_no_vsync"), Some(PresentMode::AutoNoVsync));
    assert_eq!(parse_present_mode("vsync"), None);
    assert_eq!(parse_present_mode(""), None);
}

#[test]
fn present_mode_choice() {
    let supported = [PresentMode::Fifo, PresentMode::Immediate];
    assert_eq!(pick_present_mode(Some(PresentMode::Immediate), &supported), PresentMode::Immediate);
    assert_eq!(pick_present_mode(Some(PresentMode::Mailbox), &supported), PresentMode::Fifo);
    assert_eq!(pick_present_mode(None, &[PresentMode::FifoRelaxed]), PresentMode::FifoRelaxed);
    assert_eq!(
        pick_present_mode(None, &[PresentMode::Immediate, PresentMode::Mailbox]),
        PresentMode::Mailbox
    );
}

#[test]
fn alpha_mode_choice() {
    let all = [AlphaMode::Inherit, AlphaMode::Opaque, AlphaMode::PreMultiplied, AlphaMode::PostMultiplied];
    assert_eq!(pick_alpha_mode(&all, false, false), AlphaMode::Opaque);
    assert_eq!(pick_alpha_mode(&all, true, false), AlphaMode::PostMultiplied);
    assert_eq!(pick_alpha_mode(&all, true, true), AlphaMode::Inherit);
    assert_eq!(pick_alpha_mode(&[AlphaMode::Auto], false, false), AlphaMode::Auto);
}

#[test]
fn surface_format_choice() {
    type F = SurfaceFormatKind;
    assert_eq!(pick_surface_format(&[F::Other, F::Bgra8Unorm, F::Bgra8UnormSrgb]), 2);
    assert_eq!(pick_surface_format(&[F::Rgba8Unorm, F::Rgba8UnormSrgb, F::Rgba8UnormSrgb]), 1);
    assert_eq!(pick_surface_format(&[F::Other, F::Other]), 0);
}

#[test]
fn gamepad_ids_are_stable() {
    let mut ids = GamepadIds::new();
    assert_eq!(ids.ensure_id(42), GamepadId(0));
    assert_eq!(ids.ensure_id(7), GamepadId(1));
    assert_eq!(ids.ensure_id(42), GamepadId(0));
    assert_eq!(ids.ensure_id(9), GamepadId(2));
}

#[test]
fn keyboard_state_edges() {
    let mut k = KeyboardState::new();
    k.handle_key(Keycode::A, true);
    k.handle_key(Keycode::A, true);
    assert!(k.is_key_pressed(Keycode::A) && k.is_key_just_pressed(Keycode::A));
    k.clear_frame_state();
    assert!(k.is_key_pressed(Keycode::A) && !k.is_key_just_pressed(Keycode::A));
    k.handle_key(Keycode::B, false);
    assert!(!k.is_key_just_released(Keycode::B));
    k.handle_key(Keycode::A, false);
    assert!(!k.is_key_pressed(Keycode::A) && k.is_key_just_released(Keycode::A));
}

#[test]
fn modifiers_follow_left_keys() {
    let m = Modifiers { shift: true, ctrl: false, alt: true, super_key: false };
    let r = modifiers_changed(m, true, false, true);
    assert_eq!(r, Modifiers { shift: true, ctrl: true, alt: false, super_key: true });
}

#[test]
fn touch_state_tracks_frame_events() {
    let mut t = TouchState::new();
    let p = (1.5f64.to_bits(), 2.0f64.to_bits());
    let q = (3.0f64.to_bits(), 4.0f64.to_bits());
    t.handle_touch(1, TouchPhase::Started, p, None);
    t.handle_touch(1, TouchPhase::Moved, q, Some(0.5f64.to_bits()));
    t.handle_touch(2, TouchPhase::Moved, q, None);
    let r = t.touch(1).unwrap();
    assert_eq!((r.position, r.start_position, r.force), (q, p, Some(0.5f64.to_bits())));
    assert_eq!(t.frame_flags(1), (true, true, false));
    assert!(t.touch(2).is_none());
    assert_eq!(t.frame_flags(2), (false, false, false));
    t.clear_frame_state();
    t.handle_touch(1, TouchPhase::Cancelled, q, None);
    assert!(t.touch(1).is_none());
    assert_eq!(t.frame_flags(1), (false, false, true));
}

#[test]
fn compare_tool_arguments() {
    let s = |v: &[&str]| v.iter().map(|a| a.to_string()).collect::<Vec<String>>();
    let ok = parse_compare_args(&s(&["base", "cur", "--tolerance", "5", "--tolerance", "7.5"])).unwrap();
    assert_eq!(ok.baseline, "base");
    assert_eq!(ok.current, "cur");
    assert_eq!(ok.tolerances, s(&["5", "7.5"]));
    assert_eq!(
        parse_compare_args(&s(&["base"])),
        Err((vec![], "usage: spot-perf-compare BASELINE_DIR CURRENT_DIR [--tolerance PERCENT]".to_string()))
    );
    assert_eq!(
        parse_compare_args(&s(&["a", "b", "--tolerance", "x", "--tolerance"])),
        Err((s(&["x"]), "--tolerance requires a percentage".to_string()))
    );
    assert_eq!(
        parse_compare_args(&s(&["a", "b", "--fast"])),
        Err((vec![], "unknown argument: --fast".to_string()))
    );
    assert_eq!(parse_compare_args(&s(&["a", "b"])).unwrap().tolerances, Vec::<String>::new());
}
