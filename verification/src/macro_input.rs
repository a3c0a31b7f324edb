//! The input of the `include_shader!` macro: which form it takes, and the
//! shader name and source that an inline invocation carries.

use vstd::prelude::*;
use crate::settings::SkShaderCSettings;

verus! {

/// A token of the macro's input, as far as the macro reads it.
pub enum MacroToken {
    /// A literal, by the text it is written with.
    Literal(String),
    /// Any other token.
    Other,
}

/// Why an invocation of the macro is refused.
#[derive(Debug, PartialEq, Eq, Structural)]
pub enum ShaderMacroError {
    /// The one-argument form, which names a shader file, is not implemented.
    FileInputUnsupported,
    /// The input is neither one token nor three.
    WrongArgumentCount,
    /// The shader name is not a literal.
    NameNotLiteral,
    /// The shader source is not a literal.
    ContentsNotLiteral,
    /// The shader source is not a string literal.
    ContentsNotString,
    /// The shader name is not a string literal.
    NameNotString,
}

/// An inline shader: its name and its source.
pub struct InlineShader {
    pub name: String,
    pub contents: String,
}

/// The literal texts of the name and of the source of an inline invocation,
/// which is three tokens: name, separator, source. The separator is not read.
pub open spec fn macro_literals(tokens: Seq<MacroToken>) -> Result<(Seq<char>, Seq<char>), ShaderMacroError> {
    if tokens.len() == 1 {
        Err(ShaderMacroError::FileInputUnsupported)
    } else if tokens.len() != 3 {
        Err(ShaderMacroError::WrongArgumentCount)
    } else {
        match (tokens[0], tokens[2]) {
            (MacroToken::Literal(name), MacroToken::Literal(contents)) => Ok((name@, contents@)),
            (MacroToken::Literal(_), _) => Err(ShaderMacroError::ContentsNotLiteral),
            _ => Err(ShaderMacroError::NameNotLiteral),
        }
    }
}

/// The input is an inline invocation: three tokens, the first and the last
/// being literals.
pub open spec fn inline_invocation(tokens: Seq<MacroToken>) -> bool {
    &&& tokens.len() == 3
    &&& tokens[0] is Literal
    &&& tokens[2] is Literal
}

/// Picks the literal texts of the name and the source out of an inline
/// invocation, as `macro_literals` says.
pub fn shader_macro_literals(tokens: &Vec<MacroToken>) -> (r: (String, String))
    requires
        inline_invocation(tokens@),
    ensures
        macro_literals(tokens@) == Ok::<(Seq<char>, Seq<char>), ShaderMacroError>((r.0@, r.1@)),
{
    match (&tokens[0], &tokens[2]) {
        (MacroToken::Literal(name), MacroToken::Literal(contents)) => (name.clone(), contents.clone()),
        _ => {
            assert(false);
            (String::new(), String::new())
        },
    }
}

/// The value of the Rust string literal written as `text`; `None` where
/// `text` is not one string literal.
pub uninterp spec fn string_literal_value(text: Seq<char>) -> Option<Seq<char>>;

/// Calls `syn::parse_str::<syn::LitStr>` on `text` and `syn::LitStr::value`
/// on what it parsed. Claimed: the result is the value that
/// `string_literal_value` names for `text`, `None` where the parse fails.
#[verifier::external_body]
fn lit_str_value(text: &str) -> (r: Option<String>)
    ensures
        match r {
            Some(v) => string_literal_value(text@) == Some(v@),
            None => string_literal_value(text@) is None,
        },
{
    match syn::parse_str::<syn::LitStr>(text) {
        Ok(lit) => Some(lit.value()),
        Err(_) => None,
    }
}

/// The input is an inline invocation whose name and source are both string literals.
pub open spec fn valid_request(tokens: Seq<MacroToken>) -> bool {
    match macro_literals(tokens) {
        Ok((name_text, contents_text)) => {
            &&& string_literal_value(name_text) is Some
            &&& string_literal_value(contents_text) is Some
        },
        Err(_) => false,
    }
}

/// The inline shader that a valid invocation of the macro carries: the values
/// of its name and source literals.
pub fn include_shader_request(tokens: &Vec<MacroToken>) -> (shader: InlineShader)
    requires
        valid_request(tokens@),
    ensures
        macro_literals(tokens@) matches Ok((name_text, contents_text))
            && string_literal_value(name_text) == Some(shader.name@)
            && string_literal_value(contents_text) == Some(shader.contents@),
{
    let (name_text, contents_text) = shader_macro_literals(tokens);
    let contents = lit_str_value(contents_text.as_str());
    let name = lit_str_value(name_text.as_str());
    InlineShader { name: name.unwrap(), contents: contents.unwrap() }
}

/// Checks the macro's input, in the order in which the macro reads it, and
/// gives the inline shader that a valid invocation carries.
pub fn checked_include_shader_request(tokens: &Vec<MacroToken>) -> (r: Result<InlineShader, ShaderMacroError>)
    ensures
        match macro_literals(tokens@) {
            Err(e) => r == Err::<InlineShader, ShaderMacroError>(e),
            Ok((name_text, contents_text)) => match (string_literal_value(contents_text), string_literal_value(name_text)) {
                (None, _) => r == Err::<InlineShader, ShaderMacroError>(ShaderMacroError::ContentsNotString),
                (Some(_), None) => r == Err::<InlineShader, ShaderMacroError>(ShaderMacroError::NameNotString),
                (Some(contents), Some(name)) => (r matches Ok(shader) && shader.name@ == name && shader.contents@ == contents),
            },
        },
{
    if tokens.len() == 1 {
        return Err(ShaderMacroError::FileInputUnsupported);
    }
    if tokens.len() != 3 {
        return Err(ShaderMacroError::WrongArgumentCount);
    }
    match (&tokens[0], &tokens[2]) {
        (MacroToken::Literal(_), MacroToken::Literal(_)) => {},
        (MacroToken::Literal(_), _) => return Err(ShaderMacroError::ContentsNotLiteral),
        _ => return Err(ShaderMacroError::NameNotLiteral),
    }
    let (name_text, contents_text) = shader_macro_literals(tokens);
    let contents = match lit_str_value(contents_text.as_str()) {
        Some(contents) => contents,
        None => return Err(ShaderMacroError::ContentsNotString),
    };
    let name = match lit_str_value(name_text.as_str()) {
        Some(name) => name,
        None => return Err(ShaderMacroError::NameNotString),
    };
    Ok(InlineShader { name, contents })
}

/// The compiler options of inline shaders: no debug information, column-major
/// matrices, every message shown, optimisation level 3.
pub fn inline_shader_settings() -> (s: SkShaderCSettings)
    ensures
        !s.debug,
        !s.row_major,
        !s.silent_info,
        !s.silent_err,
        !s.silent_warn,
        s.optimize_level == 3,
{
    SkShaderCSettings {
        debug: false,
        row_major: false,
        silent_info: false,
        silent_err: false,
        silent_warn: false,
        optimize_level: 3,
    }
}

/// In an inline invocation the name is the first token's text and the source
/// the third token's, whatever the texts are, and the middle token is not read.
pub proof fn lemma_name_first_source_last(name: String, contents: String, separator: MacroToken, other: MacroToken)
    ensures
        macro_literals(seq![MacroToken::Literal(name), separator, MacroToken::Literal(contents)])
            == Ok::<(Seq<char>, Seq<char>), ShaderMacroError>((name@, contents@)),
        macro_literals(seq![MacroToken::Literal(name), separator, MacroToken::Literal(contents)])
            == macro_literals(seq![MacroToken::Literal(name), other, MacroToken::Literal(contents)]),
{
}

/// An invocation that is not three tokens is refused for its length alone:
/// one token as the unsupported file form, any other count as a wrong count.
pub proof fn lemma_token_count_refusals(tokens: Seq<MacroToken>)
    ensures
        tokens.len() == 1 ==> macro_literals(tokens) == Err::<(Seq<char>, Seq<char>), ShaderMacroError>(ShaderMacroError::FileInputUnsupported),
        tokens.len() != 1 && tokens.len() != 3 ==> macro_literals(tokens) == Err::<(Seq<char>, Seq<char>), ShaderMacroError>(ShaderMacroError::WrongArgumentCount),
{
}

} // verus!
