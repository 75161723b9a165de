use spottedcat::shader_hooks::{inject_shader_hooks, shader_hooks_valid};

const TEMPLATE: &str = "A\n// USER_VS_HOOK\nB\n// USER_FS_HOOK\nC";

#[test]
fn both_hooks_go_after_their_markers() {
    let user = "fn user_vs_hook() { pos = pos * 2.0; }\nfn user_fs_hook() {\n  color = vec4(1.0);\n}\n";
    assert!(shader_hooks_valid(user));
    assert_eq!(
        inject_shader_hooks(TEMPLATE, user),
        "A\n// USER_VS_HOOK\npos = pos * 2.0;\nB\n// USER_FS_HOOK\ncolor = vec4(1.0);\nC"
    );
}

#[test]
fn text_tint_hook_only_fills_the_fragment_marker() {
    let user = r#"
            fn user_fs_hook() {
                let tint = user_globals[0];
                color = vec4<f32>(color.rgb * tint.rgb, color.a * tint.a);
            }
        "#;
    assert!(shader_hooks_valid(user));
    assert_eq!(
        inject_shader_hooks(TEMPLATE, user),
        "A\n// USER_VS_HOOK\nB\n// USER_FS_HOOK\nlet tint = user_globals[0];\n                color = vec4<f32>(color.rgb * tint.rgb, color.a * tint.a);\nC"
    );
}

#[test]
fn missing_hooks_empty_bodies_and_missing_markers_change_nothing() {
    assert_eq!(inject_shader_hooks(TEMPLATE, "fn helper() { }"), TEMPLATE);
    assert_eq!(inject_shader_hooks(TEMPLATE, "fn user_fs_hook() {   }"), TEMPLATE);
    assert_eq!(inject_shader_hooks("no markers here", "fn user_vs_hook() { x = 1; }"), "no markers here");
}

#[test]
fn hook_is_inserted_after_the_last_marker() {
    let template = "// USER_FS_HOOK\nmid\n// USER_FS_HOOK\nend";
    assert_eq!(
        inject_shader_hooks(template, "fn user_fs_hook() { y = 2; }"),
        "// USER_FS_HOOK\nmid\n// USER_FS_HOOK\ny = 2;\nend"
    );
}

#[test]
fn a_hook_whose_body_would_end_before_it_starts_is_rejected() {
    assert!(!shader_hooks_valid("} fn user_fs_hook"));
    assert!(shader_hooks_valid(""));
}
