use skshader::cache::{checked_shader_cache_key, get_name_set, next_cache_action, shader_source_hash, CacheAction, CacheEvent, NameSet};
use skshader::macro_input::{checked_include_shader_request, inline_shader_settings, MacroToken};
use skshader::settings::CompilerSettings;
use skshader::source::{checked_compile_input, STEREOKIT_HSLSI};

const HI_SHADER: &str = r#"
 #include "stereokit.hlsli"

//--name = sk/default

//--color:color = 1,1,1,1
//--tex_scale   = 1
//--diffuse     = white

float4       color;
float        tex_scale;
Texture2D    diffuse   : register(t0);
SamplerState diffuse_s : register(s0);

struct vsIn {
	float4 pos  : SV_Position;
	float3 norm : NORMAL0;
	float2 uv   : TEXCOORD0;
	float4 col  : COLOR0;
};
struct psIn {
	float4 pos   : SV_Position;
	float2 uv    : TEXCOORD0;
	float4 color : COLOR0;
	uint view_id : SV_RenderTargetArrayIndex;
};

psIn vs(vsIn input, uint id : SV_InstanceID) {
	psIn o;
	o.view_id = id % sk_view_count;
	id        = id / sk_view_count;

	float4 world = mul(input.pos, sk_inst[id].world);
	o.pos        = mul(world,     sk_viewproj[o.view_id]);

	float3 normal = normalize(mul(input.norm, (float3x3)sk_inst[id].world));

	o.uv         = input.uv * tex_scale;
	o.color      = color * input.col * sk_inst[id].color;
	o.color.rgb *= Lighting(normal);
	return o;
}

float4 ps(psIn input) : SV_TARGET {
	float4 col = diffuse.Sample(diffuse_s, input.uv);
	return col * input.color;
}
"#;

fn contains(haystack: &[u8], needle: &[u8]) -> bool {
    haystack.windows(needle.len()).any(|w| w == needle)
}

/// The inline shader of the program, taken through the library up to the
/// native compiler: the macro input is read, the source is prepared, the
/// settings are made and the cache is consulted.
#[test]
fn test() {
    let tokens = vec![
        MacroToken::Literal("\"hi.hlsl\"".to_string()),
        MacroToken::Other,
        MacroToken::Literal(format!("r#\"{}\"#", HI_SHADER)),
    ];
    let shader = checked_include_shader_request(&tokens).unwrap();
    assert_eq!(shader.name, "hi.hlsl");
    assert_eq!(shader.contents, HI_SHADER);

    let mut slot = None;
    assert_eq!(checked_shader_cache_key(get_name_set(&mut slot), &shader.name, &shader.contents), Ok(shader_source_hash(&shader.contents)));

    let input = checked_compile_input(&shader.name, &shader.contents).unwrap();
    assert_eq!(input.file_name, b"hi.hlsl\0".to_vec());
    assert_eq!(*input.contents.last().unwrap(), 0u8);
    assert!(!contains(&input.contents, b"#include \"stereokit.hlsli\""));
    assert!(contains(&input.contents, STEREOKIT_HSLSI.as_bytes()));
    assert!(contains(&input.contents, b"psIn vs(vsIn input, uint id : SV_InstanceID)"));

    let settings = CompilerSettings::new(inline_shader_settings());
    assert_eq!(settings.shaderc.optimize, 3);

    let hash = shader_source_hash(&shader.contents);
    assert_eq!(next_cache_action(&CacheEvent::BinaryExists(false), hash), CacheAction::Compile { write_hash_first: false });
    let _ = NameSet::new();
}
