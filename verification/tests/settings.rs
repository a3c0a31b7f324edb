use skshader::settings::{c_string_field, CompilerSettings, SkShaderCSettings};

fn field_text(field: &[u8]) -> &[u8] {
    let end = field.iter().position(|b| *b == 0).unwrap();
    &field[..end]
}

fn user_settings(optimize_level: u32) -> SkShaderCSettings {
    SkShaderCSettings {
        debug: true,
        row_major: false,
        silent_info: true,
        silent_err: false,
        silent_warn: true,
        optimize_level,
    }
}

#[test]
fn new_copies_the_user_options() {
    let s = CompilerSettings::new(user_settings(2));
    assert!(s.shaderc.debug);
    assert!(!s.shaderc.row_major);
    assert!(s.shaderc.silent_info);
    assert!(!s.shaderc.silent_err);
    assert!(s.shaderc.silent_warn);
    assert_eq!(s.shaderc.optimize, 2);
}

#[test]
fn new_fixes_the_rest() {
    let s = CompilerSettings::new(user_settings(0));
    assert!(!s.replace_ext && !s.output_header && !s.output_zipped && !s.output_raw_shaders && !s.only_if_changed);
    assert!(s.out_folder.is_none());
    assert_eq!(field_text(&s.shaderc.vs_entrypoint), b"vs");
    assert_eq!(field_text(&s.shaderc.ps_entrypoint), b"ps");
    assert_eq!(field_text(&s.shaderc.cs_entrypoint), b"cs");
    assert_eq!(field_text(&s.shaderc.shader_model), b"5_0");
    assert_eq!(field_text(&s.shaderc.shader_model_str), b"");
    assert!(s.shaderc.folder.iter().all(|b| *b == 0));
    assert!(s.shaderc.vs_entrypoint[2..].iter().all(|b| *b == 0));
    assert!(!s.shaderc.vs_entry_require && !s.shaderc.ps_entry_require && !s.shaderc.cs_entry_require);
    assert_eq!(s.shaderc.gl_version, 432);
    assert!(s.shaderc.include_folders.is_empty());
    assert_eq!(s.shaderc.include_folder_ct, 0);
    assert_eq!(s.shaderc.target_langs, [true; 5]);
}

#[test]
fn optimize_level_wraps_into_i32() {
    assert_eq!(CompilerSettings::new(user_settings(u32::MAX)).shaderc.optimize, -1);
    assert_eq!(CompilerSettings::new(user_settings(0x8000_0000)).shaderc.optimize, i32::MIN);
}

#[test]
fn c_string_field_pads_with_zeros() {
    let f: [u8; 8] = c_string_field::<8>(b"abc");
    assert_eq!(f, [b'a', b'b', b'c', 0, 0, 0, 0, 0]);
    let g: [u8; 1] = c_string_field::<1>(b"");
    assert_eq!(g, [0]);
    let h: [u8; 4] = c_string_field::<4>(b"xyz");
    assert_eq!(h, [b'x', b'y', b'z', 0]);
    assert_eq!(field_text(&f), b"abc");
}
