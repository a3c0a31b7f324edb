use skshader::source::{checked_compile_input, expand_include, prepare_compile_input, replace_bytes, PrepareError, STEREOKIT_HSLSI, STEREOKIT_INCLUDE};

#[test]
fn replace_bytes_replaces_each_occurrence() {
    assert_eq!(replace_bytes(b"a-b-c", b"-", b"+="), b"a+=b+=c".to_vec());
    assert_eq!(replace_bytes(b"", b"x", b"y"), Vec::<u8>::new());
    assert_eq!(replace_bytes(b"xx", b"xx", b""), Vec::<u8>::new());
    assert_eq!(replace_bytes(b"abc", b"abcd", b"z"), b"abc".to_vec());
}

#[test]
fn replace_bytes_resumes_after_an_occurrence() {
    // left to right, without overlaps, as str::replace does
    assert_eq!(replace_bytes(b"aaa", b"aa", b"b"), b"ba".to_vec());
    assert_eq!(replace_bytes(b"aaaa", b"aa", b"a"), b"aa".to_vec());
    assert_eq!("aaa".replace("aa", "b").into_bytes(), replace_bytes(b"aaa", b"aa", b"b"));
}

#[test]
fn include_directive_is_expanded() {
    let source = "#include \"stereokit.hlsli\"\nfloat4 x;";
    let input = prepare_compile_input("a.hlsl", source);
    let expected = source.replace(STEREOKIT_INCLUDE, STEREOKIT_HSLSI);
    let mut expected = expected.into_bytes();
    expected.push(0);
    assert_eq!(input.contents, expected);
    assert!(input.contents.starts_with(b"///////////////////////////////////////////\n\ncbuffer StereoKitBuffer"));
}

#[test]
fn every_include_directive_is_expanded() {
    let source = "#include \"stereokit.hlsli\" #include \"stereokit.hlsli\"";
    let input = prepare_compile_input("a.hlsl", source);
    let mut expected = format!("{} {}", STEREOKIT_HSLSI, STEREOKIT_HSLSI).into_bytes();
    expected.push(0);
    assert_eq!(input.contents, expected);
}

#[test]
fn source_without_directive_is_unchanged() {
    let input = prepare_compile_input("shader.hlsl", "float4 ps() : SV_TARGET { return 1; }");
    assert_eq!(input.file_name, b"shader.hlsl\0".to_vec());
    assert_eq!(input.contents, b"float4 ps() : SV_TARGET { return 1; }\0".to_vec());
}

#[test]
fn other_includes_are_kept() {
    let input = prepare_compile_input("a", "#include \"other.hlsli\"");
    assert_eq!(input.contents, b"#include \"other.hlsli\"\0".to_vec());
}

#[test]
fn nul_in_file_name_is_refused_first() {
    assert_eq!(checked_compile_input("a\0b", "x\0y").err(), Some(PrepareError::FileNameHasNul));
    assert_eq!(checked_compile_input("a\0b", "xy").err(), Some(PrepareError::FileNameHasNul));
}

#[test]
fn nul_in_contents_is_refused() {
    assert_eq!(checked_compile_input("a.hlsl", "x\0y").err(), Some(PrepareError::ContentsHasNul));
}

#[test]
fn empty_source_is_accepted() {
    let input = checked_compile_input("", "").unwrap();
    assert_eq!(input.file_name, vec![0u8]);
    assert_eq!(input.contents, vec![0u8]);
}

#[test]
fn checked_input_agrees_with_prepared_input() {
    let source = "#include \"stereokit.hlsli\"\nfloat4 y;";
    let checked = checked_compile_input("b.hlsl", source).unwrap();
    let prepared = prepare_compile_input("b.hlsl", source);
    assert_eq!(checked.file_name, prepared.file_name);
    assert_eq!(checked.contents, prepared.contents);
    let mut expanded = expand_include(source);
    expanded.push(0);
    assert_eq!(prepared.contents, expanded);
}
