//! Shader compilation front end for StereoKit shaders: the compiler settings
//! handed to the native shader compiler, the preparation of shader sources,
//! the on-disk cache decisions of the `include_shader!` macro and the reading
//! of the macro's input.

pub mod settings;
pub mod source;
pub mod cache;
pub mod macro_input;
