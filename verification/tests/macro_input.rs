use skshader::macro_input::{
    checked_include_shader_request, include_shader_request, inline_shader_settings, shader_macro_literals,
    MacroToken, ShaderMacroError,
};

fn lit(text: &str) -> MacroToken {
    MacroToken::Literal(text.to_string())
}

fn request(tokens: Vec<MacroToken>) -> Result<(String, String), ShaderMacroError> {
    checked_include_shader_request(&tokens).map(|s| (s.name, s.contents))
}

#[test]
fn inline_form_gives_name_and_source() {
    assert_eq!(
        request(vec![lit("\"a.hlsl\""), MacroToken::Other, lit("\"float4 x;\"")]),
        Ok(("a.hlsl".to_string(), "float4 x;".to_string()))
    );
}

#[test]
fn literal_values_are_unescaped() {
    assert_eq!(
        request(vec![lit("\"a\\tb\""), MacroToken::Other, lit("\"line\\nnext \\\"q\\\"\"")]),
        Ok(("a\tb".to_string(), "line\nnext \"q\"".to_string()))
    );
    assert_eq!(
        request(vec![lit("r\"n\""), MacroToken::Other, lit("r#\"say \"hi\"\"#")]),
        Ok(("n".to_string(), "say \"hi\"".to_string()))
    );
}

#[test]
fn separator_is_not_read() {
    assert_eq!(
        request(vec![lit("\"a\""), lit("\"b\""), lit("\"c\"")]),
        Ok(("a".to_string(), "c".to_string()))
    );
}

#[test]
fn file_form_is_unsupported() {
    assert_eq!(request(vec![lit("\"a.hlsl\"")]), Err(ShaderMacroError::FileInputUnsupported));
}

#[test]
fn other_counts_are_refused() {
    assert_eq!(request(vec![]), Err(ShaderMacroError::WrongArgumentCount));
    assert_eq!(request(vec![lit("\"a\""), MacroToken::Other]), Err(ShaderMacroError::WrongArgumentCount));
    assert_eq!(
        request(vec![lit("\"a\""), MacroToken::Other, lit("\"b\""), MacroToken::Other]),
        Err(ShaderMacroError::WrongArgumentCount)
    );
}

#[test]
fn non_literals_are_refused_name_first() {
    assert_eq!(request(vec![MacroToken::Other, MacroToken::Other, MacroToken::Other]), Err(ShaderMacroError::NameNotLiteral));
    assert_eq!(request(vec![MacroToken::Other, MacroToken::Other, lit("\"b\"")]), Err(ShaderMacroError::NameNotLiteral));
    assert_eq!(request(vec![lit("\"a\""), MacroToken::Other, MacroToken::Other]), Err(ShaderMacroError::ContentsNotLiteral));
}

#[test]
fn non_string_literals_are_refused_source_first() {
    assert_eq!(request(vec![lit("1"), MacroToken::Other, lit("2")]), Err(ShaderMacroError::ContentsNotString));
    assert_eq!(request(vec![lit("1"), MacroToken::Other, lit("\"b\"")]), Err(ShaderMacroError::NameNotString));
    assert_eq!(request(vec![lit("\"a\""), MacroToken::Other, lit("b\"x\"")]), Err(ShaderMacroError::ContentsNotString));
}

#[test]
fn literals_are_picked_by_position() {
    let tokens = vec![lit("\"a\""), MacroToken::Other, lit("\"b\"")];
    assert_eq!(shader_macro_literals(&tokens), ("\"a\"".to_string(), "\"b\"".to_string()));
}

#[test]
fn valid_request_gives_the_literal_values() {
    let tokens = vec![lit("\"n\\\\m\""), MacroToken::Other, lit("\"c\\u{41}\"")];
    let shader = include_shader_request(&tokens);
    assert_eq!((shader.name.as_str(), shader.contents.as_str()), ("n\\m", "cA"));
}

#[test]
fn inline_settings_optimise_at_level_three() {
    let s = inline_shader_settings();
    assert!(!s.debug && !s.row_major && !s.silent_info && !s.silent_err && !s.silent_warn);
    assert_eq!(s.optimize_level, 3);
}
