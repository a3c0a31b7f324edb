//! Settings of the native shader compiler, held as plain values.
#![allow(non_camel_case_types)]

use vstd::prelude::*;

verus! {

/// The options a user of the compiler chooses.
pub struct SkShaderCSettings {
    pub debug: bool,
    pub row_major: bool,
    pub silent_info: bool,
    pub silent_err: bool,
    pub silent_warn: bool,
    pub optimize_level: u32,
}

/// The settings of the shader compiler proper. Each fixed-size text field
/// holds a NUL-terminated byte string padded with zeros.
pub struct sksc_settings_t {
    pub debug: bool,
    pub row_major: bool,
    pub silent_info: bool,
    pub silent_err: bool,
    pub silent_warn: bool,
    pub optimize: i32,
    pub folder: [u8; 512],
    pub vs_entrypoint: [u8; 64],
    pub vs_entry_require: bool,
    pub ps_entrypoint: [u8; 64],
    pub ps_entry_require: bool,
    pub cs_entrypoint: [u8; 64],
    pub cs_entry_require: bool,
    pub shader_model: [u8; 64],
    pub shader_model_str: [u8; 16],
    pub gl_version: i32,
    /// The include folders; the native structure has no folders when this is empty.
    pub include_folders: Vec<Vec<u8>>,
    pub include_folder_ct: i32,
    pub target_langs: [bool; 5],
}

/// The settings of a whole compilation.
pub struct compiler_settings_t {
    pub replace_ext: bool,
    pub output_header: bool,
    pub output_zipped: bool,
    pub output_raw_shaders: bool,
    pub only_if_changed: bool,
    /// The output folder; `None` stands for no folder (a null pointer natively).
    pub out_folder: Option<Vec<u8>>,
    pub shaderc: sksc_settings_t,
}

pub type CompilerSettings = compiler_settings_t;

/// `s` written into a field of `n` bytes: its bytes, then zeros up to `n`.
pub open spec fn c_field(s: Seq<u8>, n: nat) -> Seq<u8> {
    s + Seq::new((n - s.len()) as nat, |i: int| 0u8)
}

/// Writes `s` as a NUL-terminated string into a zero-filled array of `N` bytes.
pub fn c_string_field<const N: usize>(s: &[u8]) -> (field: [u8; N])
    requires
        s@.len() < N,
        forall|i: int| 0 <= i < s@.len() ==> s@[i] != 0u8,
    ensures
        field@ == c_field(s@, N as nat),
{
    let mut field: [u8; N] = [0u8; N];
    let mut i: usize = 0;
    while i < s.len()
        invariant
            i <= s@.len(),
            s@.len() < N,
            field@.len() == N,
            forall|j: int| 0 <= j < i ==> field@[j] == s@[j],
            forall|j: int| i <= j < N ==> field@[j] == 0u8,
        decreases s@.len() - i,
    {
        field[i] = s[i];
        i = i + 1;
    }
    assert(field@ =~= c_field(s@, N as nat));
    field
}

/// The zero-terminated entry point and model names the compiler is given.
pub open spec fn vs_name() -> Seq<u8> { seq![118u8, 115u8] }

pub open spec fn ps_name() -> Seq<u8> { seq![112u8, 115u8] }

pub open spec fn cs_name() -> Seq<u8> { seq![99u8, 115u8] }

pub open spec fn shader_model_name() -> Seq<u8> { seq![53u8, 95u8, 48u8] }

impl CompilerSettings {
    /// The settings of a compilation with the user's options: no output
    /// files or folders, entry points `vs`, `ps` and `cs`, shader model
    /// `5_0`, GL version 432, every target language on. The optimisation
    /// level is taken as an `i32`, wrapping as a cast does.
    pub fn new(sk_shader_c_settings: SkShaderCSettings) -> (r: Self)
        ensures
            !r.replace_ext,
            !r.output_header,
            !r.output_zipped,
            !r.output_raw_shaders,
            !r.only_if_changed,
            r.out_folder is None,
            r.shaderc.debug == sk_shader_c_settings.debug,
            r.shaderc.row_major == sk_shader_c_settings.row_major,
            r.shaderc.silent_info == sk_shader_c_settings.silent_info,
            r.shaderc.silent_err == sk_shader_c_settings.silent_err,
            r.shaderc.silent_warn == sk_shader_c_settings.silent_warn,
            r.shaderc.optimize == sk_shader_c_settings.optimize_level as i32,
            r.shaderc.folder@ == c_field(Seq::empty(), 512),
            r.shaderc.vs_entrypoint@ == c_field(vs_name(), 64),
            !r.shaderc.vs_entry_require,
            r.shaderc.ps_entrypoint@ == c_field(ps_name(), 64),
            !r.shaderc.ps_entry_require,
            r.shaderc.cs_entrypoint@ == c_field(cs_name(), 64),
            !r.shaderc.cs_entry_require,
            r.shaderc.shader_model@ == c_field(shader_model_name(), 64),
            r.shaderc.shader_model_str@ == c_field(Seq::empty(), 16),
            r.shaderc.gl_version == 432,
            r.shaderc.include_folders@.len() == 0,
            r.shaderc.include_folder_ct == 0,
            r.shaderc.target_langs@ == seq![true, true, true, true, true],
    {
        let vs: [u8; 2] = [118u8, 115u8];
        let ps: [u8; 2] = [112u8, 115u8];
        let cs: [u8; 2] = [99u8, 115u8];
        let model: [u8; 3] = [53u8, 95u8, 48u8];
        let empty: [u8; 0] = [];
        assert(vs@ == vs_name());
        assert(ps@ == ps_name());
        assert(cs@ == cs_name());
        assert(model@ == shader_model_name());
        assert(empty@ == Seq::<u8>::empty());
        let r = compiler_settings_t {
            replace_ext: false,
            output_header: false,
            output_zipped: false,
            output_raw_shaders: false,
            only_if_changed: false,
            out_folder: None,
            shaderc: sksc_settings_t {
                debug: sk_shader_c_settings.debug,
                row_major: sk_shader_c_settings.row_major,
                silent_info: sk_shader_c_settings.silent_info,
                silent_err: sk_shader_c_settings.silent_err,
                silent_warn: sk_shader_c_settings.silent_warn,
                optimize: sk_shader_c_settings.optimize_level as i32,
                folder: c_string_field::<512>(&empty),
                vs_entrypoint: c_string_field::<64>(&vs),
                vs_entry_require: false,
                ps_entrypoint: c_string_field::<64>(&ps),
                ps_entry_require: false,
                cs_entrypoint: c_string_field::<64>(&cs),
                cs_entry_require: false,
                shader_model: c_string_field::<64>(&model),
                shader_model_str: c_string_field::<16>(&empty),
                gl_version: 432,
                include_folders: Vec::new(),
                include_folder_ct: 0,
                target_langs: [true, true, true, true, true],
            },
        };
        r
    }
}

/// The string that a reader of a NUL-terminated field sees: the bytes before
/// the first NUL.
pub open spec fn c_string_value(field: Seq<u8>) -> Seq<u8>
    decreases field.len(),
{
    if field.len() == 0 || field[0] == 0u8 {
        Seq::empty()
    } else {
        seq![field[0]] + c_string_value(field.drop_first())
    }
}

/// A string written into a field reads back as itself.
pub proof fn lemma_c_field_reads_back(s: Seq<u8>, n: nat)
    requires
        s.len() < n,
        forall|i: int| 0 <= i < s.len() ==> s[i] != 0u8,
    ensures
        c_string_value(c_field(s, n)) == s,
    decreases s.len(),
{
    if s.len() == 0 {
        assert(c_field(s, n)[0] == 0u8);
    } else {
        lemma_c_field_reads_back(s.drop_first(), (n - 1) as nat);
        assert(c_field(s, n).drop_first() =~= c_field(s.drop_first(), (n - 1) as nat));
        assert(s =~= seq![s[0]] + s.drop_first());
    }
}

/// A test type of the bindings, with no behaviour of its own.
pub struct Test1 {
    a: u32,
}

} // verus!
