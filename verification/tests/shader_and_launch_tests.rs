use spottedcat::image_shader::{ImageShaderBindings, ImageShaderBlendMode, ImageShaderDesc, ImageShaderInput};
use spottedcat::launch::WindowConfig;

#[test]
fn image_shader_desc_clamps_extra_texture_count() {
    let desc = ImageShaderDesc::from_wgsl("shader").with_extra_textures(true);
    assert!(desc.uses_extra_textures);
}

#[test]
fn image_shader_desc_defaults_match_full_wgsl_registration() {
    let desc = ImageShaderDesc::from_wgsl("shader");
    assert!(!desc.uses_extra_textures);
    assert!(!desc.internal_prelude);
    assert_eq!(desc.blend_mode, ImageShaderBlendMode::Alpha);
}

#[test]
fn image_shader_desc_slots_ignore_out_of_range() {
    let desc = ImageShaderDesc::from_wgsl("shader")
        .with_history_slot(2)
        .with_screen_slot(4)
        .with_texture_alias(1, "t_noise")
        .with_texture_alias(7, "ignored")
        .with_internal_prelude(true)
        .with_blend_mode(ImageShaderBlendMode::Add);
    assert_eq!(desc.history_slot, Some(2));
    assert_eq!(desc.screen_slot, None);
    assert_eq!(desc.extra_texture_names[1].as_deref(), Some("t_noise"));
    assert!(desc.extra_texture_names.iter().enumerate().all(|(i, n)| i == 1 || n.is_none()));
    assert!(desc.internal_prelude);
    assert_eq!(desc.blend_mode, ImageShaderBlendMode::Add);
    assert_eq!(desc.source, "shader");
    assert_eq!(ImageShaderBlendMode::default(), ImageShaderBlendMode::Alpha);
}

#[test]
fn image_shader_bindings_by_slot_and_semantics() {
    let b = ImageShaderBindings::new()
        .with_screen_at_slot(0)
        .with_history_at_slot(3)
        .with_history_at_slot(9)
        .with_screen();
    assert_eq!(b.slot_input(0), ImageShaderInput::Screen);
    assert_eq!(b.slot_input(1), ImageShaderInput::Unbound);
    assert_eq!(b.slot_input(3), ImageShaderInput::History);
    assert!(b.wants_screen());
    assert!(!b.wants_history());
    assert!(b.with_history().wants_history());
}

#[test]
fn default_update_rate_is_sixty_hz() {
    let config = WindowConfig::default();
    assert_eq!(config.update_hz, 60);
    assert!((config.fixed_update_step().as_secs_f64() - 1.0 / 60.0).abs() < 1e-9);
}

#[test]
fn update_rate_controls_fixed_step() {
    let config = WindowConfig {
        update_hz: 120,
        ..Default::default()
    };
    assert!((config.fixed_update_step().as_secs_f64() - 1.0 / 120.0).abs() < 1e-9);
}

#[test]
fn fixed_step_rounds_to_nearest_nanosecond() {
    let config = WindowConfig { update_hz: 60, ..Default::default() };
    assert_eq!(config.fixed_update_step_nanos(), 16_666_667);
    let config = WindowConfig { update_hz: 3, ..Default::default() };
    assert_eq!(config.fixed_update_step_nanos(), 333_333_333);
    let config = WindowConfig { update_hz: 1, ..Default::default() };
    assert_eq!(config.fixed_update_step().as_nanos(), 1_000_000_000);
}

#[test]
fn default_window_is_800_by_600() {
    let config = WindowConfig::default();
    assert_eq!(f32::from_bits(config.width.to_bits()), 800.0);
    assert_eq!(f32::from_bits(config.height.to_bits()), 600.0);
    assert_eq!(config.title, "spot");
    assert!(config.resizable && !config.fullscreen && !config.transparent);
}
