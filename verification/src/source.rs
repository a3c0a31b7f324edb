//! Preparation of a shader source for the native compiler: the StereoKit
//! include directive is expanded in place, and both the file name and the
//! source become NUL-terminated byte strings.

use vstd::prelude::*;
use vstd::string::StringSliceAdditionalSpecFns;
use vstd::utf8::encode_scalar;
use vstd::utf8::encode_utf8;

verus! {

/// The include directive that stands for the StereoKit shader header.
pub const STEREOKIT_INCLUDE: &'static str = "#include \"stereokit.hlsli\"";

/// The StereoKit shader header that replaces each include directive.
pub const STEREOKIT_HSLSI: &'static str =
r#"///////////////////////////////////////////

cbuffer StereoKitBuffer : register(b1) {
	float4x4 sk_view       [2];
	float4x4 sk_proj       [2];
	float4x4 sk_proj_inv   [2];
	float4x4 sk_viewproj   [2];
	float4   sk_lighting_sh[9];
	float4   sk_camera_pos [2];
	float4   sk_camera_dir [2];
	float4   sk_fingertip  [2];
	float4   sk_cubemap_i;
	float    sk_time;
	uint     sk_view_count;
};
struct Inst {
	float4x4 world;
	float4   color;
};
cbuffer TransformBuffer : register(b2) {
	Inst sk_inst[819]; // 819 is UINT16_MAX / sizeof(Inst)
};
TextureCube  sk_cubemap   : register(t11);
SamplerState sk_cubemap_s : register(s11);

///////////////////////////////////////////

// A spherical harmonics lighting lookup!
// Some calculations have been offloaded to 'sh_to_fast'
// in StereoKitC
float3 Lighting(float3 normal) {
	// Band 0
	float3 result = sk_lighting_sh[0].xyz;

	// Band 1
	result += sk_lighting_sh[1].xyz * normal.y;
	result += sk_lighting_sh[2].xyz * normal.z;
	result += sk_lighting_sh[3].xyz * normal.x;

	// Band 2
	float3 n  = normal.xyz * normal.yzx;
	float3 n2 = normal * normal;
	result += sk_lighting_sh[4].xyz * n.x;
	result += sk_lighting_sh[5].xyz * n.y;
	result += sk_lighting_sh[6].xyz * (3.0f * n2.z - 1.0f);
	result += sk_lighting_sh[7].xyz * n.z;
	result += sk_lighting_sh[8].xyz * (n2.x - n2.y);
	return result;
}

///////////////////////////////////////////

struct FingerDist {
	float from_finger;
	float on_plane;
};

FingerDist FingerDistanceInfo(float3 world_pos, float3 world_norm) {
	FingerDist result;
	result.from_finger = 10000;
	result.on_plane    = 10000;

	for	(int i=0;i<2;i++) {
		float3 to_finger = sk_fingertip[i].xyz - world_pos;
		float  d         = dot(world_norm, to_finger);
		float3 on_plane  = sk_fingertip[i].xyz - d*world_norm;

		// Also make distances behind the plane negative
		float finger_dist = length(to_finger);
		if (abs(result.from_finger) > finger_dist)
			result.from_finger = finger_dist * sign(d);

		result.on_plane = min(result.on_plane, length(world_pos - on_plane));
	}

	return result;
}

///////////////////////////////////////////

float2 FingerGlowEx(float3 world_pos, float3 world_norm) {
	float dist = 1;
	float ring = 0;
	for (int i = 0; i < 2; i++) {
		float3 to_finger = sk_fingertip[i].xyz - world_pos;
		float  d = dot(world_norm, to_finger);
		float3 on_plane = sk_fingertip[i].xyz - d * world_norm;

		float dist_from_finger = length(to_finger);
		float dist_on_plane = length(world_pos - on_plane);
		ring = max(ring, saturate(1 - abs(d * 0.5 - dist_on_plane) * 600));
		dist = min(dist, dist_from_finger);
	}

	return float2(dist, ring);
}

///////////////////////////////////////////

float FingerGlow(float3 world_pos, float3 world_norm) {
	float2 glow = FingerGlowEx(world_pos, world_norm);
	glow.x = pow(saturate(1 - glow.x / 0.12), 2);
	return (glow.x * 0.2) + (glow.y * glow.x);
}"#;

/// `p` occurs in `s` at index `i`.
pub open spec fn occurs_at(s: Seq<u8>, p: Seq<u8>, i: int) -> bool {
    0 <= i && i + p.len() <= s.len() && s.subrange(i, i + p.len()) == p
}

/// `s` with every occurrence of `p` replaced by `r`, searching from the left
/// and resuming after each replaced occurrence.
pub open spec fn replace_all(s: Seq<u8>, p: Seq<u8>, r: Seq<u8>) -> Seq<u8>
    decreases s.len(),
{
    if p.len() == 0 || s.len() < p.len() {
        s
    } else if s.take(p.len() as int) == p {
        r + replace_all(s.skip(p.len() as int), p, r)
    } else {
        seq![s[0]] + replace_all(s.skip(1), p, r)
    }
}

/// Whether `p` occurs in `s` at index `i`.
fn matches_at(s: &[u8], p: &[u8], i: usize) -> (b: bool)
    requires
        i <= s@.len(),
    ensures
        b == occurs_at(s@, p@, i as int),
{
    if s.len() - i < p.len() {
        return false;
    }
    let mut k: usize = 0;
    while k < p.len()
        invariant
            i + p@.len() <= s@.len(),
            s@.len() == s.len(),
            k <= p@.len(),
            forall|j: int| 0 <= j < k ==> s@[i + j] == p@[j],
        decreases p@.len() - k,
    {
        if s[i + k] != p[k] {
            assert(s@.subrange(i as int, i + p@.len())[k as int] != p@[k as int]);
            return false;
        }
        k = k + 1;
    }
    assert(s@.subrange(i as int, i + p@.len()) =~= p@);
    true
}

/// Replaces every occurrence of `p` in `s` by `r`, as `replace_all` says.
pub fn replace_bytes(s: &[u8], p: &[u8], r: &[u8]) -> (out: Vec<u8>)
    requires
        p@.len() > 0,
    ensures
        out@ == replace_all(s@, p@, r@),
{
    let mut out: Vec<u8> = Vec::new();
    let mut i: usize = 0;
    assert(s@.skip(0) =~= s@);
    while i < s.len()
        invariant
            i <= s@.len(),
            p@.len() > 0,
            out@ + replace_all(s@.skip(i as int), p@, r@) == replace_all(s@, p@, r@),
        decreases s@.len() - i,
    {
        let ghost rest = s@.skip(i as int);
        if matches_at(s, p, i) {
            assert(rest.take(p@.len() as int) =~= s@.subrange(i as int, i + p@.len()));
            assert(rest.skip(p@.len() as int) =~= s@.skip(i + p@.len()));
            let mut k: usize = 0;
            let ghost out0 = out@;
            while k < r.len()
                invariant
                    k <= r@.len(),
                    out@ == out0 + r@.take(k as int),
                decreases r@.len() - k,
            {
                out.push(r[k]);
                k = k + 1;
                assert(out@ =~= out0 + r@.take(k as int));
            }
            assert(r@.take(r@.len() as int) =~= r@);
            assert(out@ + replace_all(s@.skip(i + p@.len()), p@, r@) =~= out0 + replace_all(rest, p@, r@));
            i = i + p.len();
        } else {
            let ghost out0 = out@;
            out.push(s[i]);
            proof {
                assert(rest.skip(1) =~= s@.skip(i + 1));
                if rest.len() >= p@.len() {
                    assert(rest.take(p@.len() as int) =~= s@.subrange(i as int, i + p@.len()));
                } else {
                    // the tail is too short to hold `p`: it is kept as it is
                    assert(rest =~= seq![s@[i as int]] + rest.skip(1));
                }
                assert(out@ + replace_all(s@.skip(i + 1), p@, r@) =~= out0 + replace_all(rest, p@, r@));
            }
            i = i + 1;
        }
    }
    assert(s@.skip(i as int) =~= Seq::<u8>::empty());
    assert(out@ =~= out@ + replace_all(s@.skip(i as int), p@, r@));
    out
}

/// The directive's bytes are not empty, so the search for it makes progress.
proof fn lemma_include_directive_nonempty()
    ensures
        STEREOKIT_INCLUDE.spec_bytes().len() > 0,
{
    reveal_strlit("#include \"stereokit.hlsli\"");
    assert(STEREOKIT_INCLUDE@.len() > 0);
    assert(STEREOKIT_INCLUDE.spec_bytes() == encode_scalar(STEREOKIT_INCLUDE@[0] as u32)
        + encode_utf8(STEREOKIT_INCLUDE@.drop_first()));
}

/// A shader source after the include directive has been expanded.
pub open spec fn expanded_source(contents: Seq<u8>) -> Seq<u8> {
    replace_all(contents, STEREOKIT_INCLUDE.spec_bytes(), STEREOKIT_HSLSI.spec_bytes())
}

/// `s` holds a NUL byte.
pub open spec fn has_nul(s: Seq<u8>) -> bool {
    exists|i: int| 0 <= i < s.len() && s[i] == 0u8
}

/// What the native compiler is handed: two NUL-terminated byte strings.
pub struct CompileInput {
    pub file_name: Vec<u8>,
    pub contents: Vec<u8>,
}

/// Why a shader cannot be handed to the native compiler.
#[derive(Debug, PartialEq, Eq, Structural)]
pub enum PrepareError {
    /// The file name holds a NUL byte.
    FileNameHasNul,
    /// The expanded source holds a NUL byte.
    ContentsHasNul,
}

fn find_nul(s: &[u8]) -> (b: bool)
    ensures
        b == has_nul(s@),
{
    let mut i: usize = 0;
    while i < s.len()
        invariant
            i <= s@.len(),
            forall|j: int| 0 <= j < i ==> s@[j] != 0u8,
        decreases s@.len() - i,
    {
        if s[i] == 0 {
            return true;
        }
        i = i + 1;
    }
    false
}

fn nul_terminated(s: &[u8]) -> (v: Vec<u8>)
    ensures
        v@ == s@.push(0u8),
{
    let mut v: Vec<u8> = Vec::new();
    let mut i: usize = 0;
    while i < s.len()
        invariant
            i <= s@.len(),
            v@ == s@.take(i as int),
        decreases s@.len() - i,
    {
        v.push(s[i]);
        i = i + 1;
        assert(v@ =~= s@.take(i as int));
    }
    assert(s@.take(i as int) =~= s@);
    v.push(0u8);
    v
}

/// `contents` with every StereoKit include directive expanded.
pub fn expand_include(contents: &str) -> (v: Vec<u8>)
    ensures
        v@ == expanded_source(contents.spec_bytes()),
{
    proof {
        lemma_include_directive_nonempty();
    }
    replace_bytes(contents.as_bytes(), STEREOKIT_INCLUDE.as_bytes(), STEREOKIT_HSLSI.as_bytes())
}

/// Expands the StereoKit include directive in `contents` and turns the file
/// name and the expanded source into NUL-terminated byte strings. Neither may
/// hold a NUL byte of its own.
pub fn prepare_compile_input(file_name: &str, contents: &str) -> (input: CompileInput)
    requires
        !has_nul(file_name.spec_bytes()),
        !has_nul(expanded_source(contents.spec_bytes())),
    ensures
        input.file_name@ == file_name.spec_bytes().push(0u8),
        input.contents@ == expanded_source(contents.spec_bytes()).push(0u8),
{
    let expanded = expand_include(contents);
    CompileInput { file_name: nul_terminated(file_name.as_bytes()), contents: nul_terminated(expanded.as_slice()) }
}

/// Checks the file name, then the expanded source, for a NUL byte, and
/// prepares the compiler's input where neither holds one.
pub fn checked_compile_input(file_name: &str, contents: &str) -> (r: Result<CompileInput, PrepareError>)
    ensures
        match r {
            Ok(input) => {
                &&& !has_nul(file_name.spec_bytes())
                &&& !has_nul(expanded_source(contents.spec_bytes()))
                &&& input.file_name@ == file_name.spec_bytes().push(0u8)
                &&& input.contents@ == expanded_source(contents.spec_bytes()).push(0u8)
            },
            Err(PrepareError::FileNameHasNul) => has_nul(file_name.spec_bytes()),
            Err(PrepareError::ContentsHasNul) => {
                &&& !has_nul(file_name.spec_bytes())
                &&& has_nul(expanded_source(contents.spec_bytes()))
            },
        },
{
    if find_nul(file_name.as_bytes()) {
        return Err(PrepareError::FileNameHasNul);
    }
    let expanded = expand_include(contents);
    if find_nul(expanded.as_slice()) {
        return Err(PrepareError::ContentsHasNul);
    }
    Ok(prepare_compile_input(file_name, contents))
}

/// Text in which `p` does not occur comes out of the replacement unchanged.
pub proof fn lemma_replace_all_without_occurrence(s: Seq<u8>, p: Seq<u8>, r: Seq<u8>)
    requires
        p.len() > 0,
        forall|i: int| !occurs_at(s, p, i),
    ensures
        replace_all(s, p, r) == s,
    decreases s.len(),
{
    if s.len() >= p.len() {
        assert(s.take(p.len() as int) =~= s.subrange(0, p.len() as int));
        assert(!occurs_at(s, p, 0));
        let t = s.skip(1);
        assert forall|i: int| !occurs_at(t, p, i) by {
            if occurs_at(t, p, i) {
                assert(t.subrange(i, i + p.len()) =~= s.subrange(i + 1, i + 1 + p.len()));
                assert(occurs_at(s, p, i + 1));
            }
        }
        lemma_replace_all_without_occurrence(t, p, r);
        assert(s =~= seq![s[0]] + t);
    }
}

/// A source without the StereoKit include directive reaches the compiler unchanged.
pub proof fn lemma_source_without_directive_unchanged(contents: Seq<u8>)
    requires
        forall|i: int| !occurs_at(contents, STEREOKIT_INCLUDE.spec_bytes(), i),
    ensures
        expanded_source(contents) == contents,
{
    lemma_include_directive_nonempty();
    lemma_replace_all_without_occurrence(contents, STEREOKIT_INCLUDE.spec_bytes(), STEREOKIT_HSLSI.spec_bytes());
}

/// Text before which no occurrence of `p` starts is kept as it is, and the
/// replacement goes on in what follows it.
pub proof fn lemma_replace_all_keeps_prefix(a: Seq<u8>, t: Seq<u8>, p: Seq<u8>, r: Seq<u8>)
    requires
        p.len() > 0,
        forall|i: int| 0 <= i < a.len() ==> !occurs_at(a + t, p, i),
    ensures
        replace_all(a + t, p, r) == a + replace_all(t, p, r),
    decreases a.len(),
{
    let s = a + t;
    if a.len() == 0 {
        assert(s =~= t);
    } else if s.len() < p.len() {
        assert(a + t =~= s);
    } else {
        assert(s.take(p.len() as int) =~= s.subrange(0, p.len() as int));
        assert(!occurs_at(s, p, 0));
        let a1 = a.skip(1);
        assert(s.skip(1) =~= a1 + t);
        assert forall|i: int| 0 <= i < a1.len() implies !occurs_at(a1 + t, p, i) by {
            if occurs_at(a1 + t, p, i) {
                assert((a1 + t).subrange(i, i + p.len()) =~= s.subrange(i + 1, i + 1 + p.len()));
                assert(occurs_at(s, p, i + 1));
            }
        }
        lemma_replace_all_keeps_prefix(a1, t, p, r);
        assert(a =~= seq![a[0]] + a1);
        assert(seq![s[0]] + (a1 + replace_all(t, p, r)) =~= a + replace_all(t, p, r));
    }
}

/// An occurrence of `p` at the start is replaced by `r`, and the replacement
/// goes on after it.
pub proof fn lemma_replace_all_at_start(p: Seq<u8>, t: Seq<u8>, r: Seq<u8>)
    requires
        p.len() > 0,
    ensures
        replace_all(p + t, p, r) == r + replace_all(t, p, r),
{
    let s = p + t;
    assert(s.take(p.len() as int) =~= p);
    assert(s.skip(p.len() as int) =~= t);
}

/// Where `p` occurs in `a + p + b` only as the middle part, the result is
/// `a + r + b`: every occurrence is replaced, whatever precedes it.
pub proof fn lemma_replace_all_single_occurrence(a: Seq<u8>, b: Seq<u8>, p: Seq<u8>, r: Seq<u8>)
    requires
        p.len() > 0,
        forall|i: int| occurs_at(a + p + b, p, i) ==> i == a.len(),
    ensures
        replace_all(a + p + b, p, r) == a + r + b,
{
    let t = p + b;
    assert(a + p + b =~= a + t);
    assert forall|i: int| 0 <= i < a.len() implies !occurs_at(a + t, p, i) by {}
    lemma_replace_all_keeps_prefix(a, t, p, r);
    lemma_replace_all_at_start(p, b, r);
    assert forall|i: int| !occurs_at(b, p, i) by {
        if occurs_at(b, p, i) {
            assert((a + p + b).subrange(a.len() + p.len() + i, a.len() + p.len() + i + p.len())
                =~= b.subrange(i, i + p.len()));
            assert(occurs_at(a + p + b, p, a.len() + p.len() + i));
        }
    }
    lemma_replace_all_without_occurrence(b, p, r);
    assert(a + (r + b) =~= a + r + b);
}

/// A source that holds the StereoKit include directive once, and nowhere
/// else (also not across its edges), reaches the compiler with the header in
/// the directive's place and everything around it unchanged.
pub proof fn lemma_directive_replaced_by_header(a: Seq<u8>, b: Seq<u8>)
    requires
        forall|i: int| occurs_at(a + STEREOKIT_INCLUDE.spec_bytes() + b, STEREOKIT_INCLUDE.spec_bytes(), i) ==> i == a.len(),
    ensures
        expanded_source(a + STEREOKIT_INCLUDE.spec_bytes() + b) == a + STEREOKIT_HSLSI.spec_bytes() + b,
{
    lemma_include_directive_nonempty();
    lemma_replace_all_single_occurrence(a, b, STEREOKIT_INCLUDE.spec_bytes(), STEREOKIT_HSLSI.spec_bytes());
}

/// A directive at the start of a source is replaced by the header, and the
/// rest of the source is expanded on its own.
pub proof fn lemma_leading_directive_expanded(b: Seq<u8>)
    ensures
        expanded_source(STEREOKIT_INCLUDE.spec_bytes() + b) == STEREOKIT_HSLSI.spec_bytes() + expanded_source(b),
{
    lemma_include_directive_nonempty();
    lemma_replace_all_at_start(STEREOKIT_INCLUDE.spec_bytes(), b, STEREOKIT_HSLSI.spec_bytes());
}

/// A prefix in which no directive starts is handed on unchanged, and the
/// source after it is expanded on its own.
pub proof fn lemma_directive_free_prefix_kept(a: Seq<u8>, b: Seq<u8>)
    requires
        forall|i: int| 0 <= i < a.len() ==> !occurs_at(a + b, STEREOKIT_INCLUDE.spec_bytes(), i),
    ensures
        expanded_source(a + b) == a + expanded_source(b),
{
    lemma_include_directive_nonempty();
    lemma_replace_all_keeps_prefix(a, b, STEREOKIT_INCLUDE.spec_bytes(), STEREOKIT_HSLSI.spec_bytes());
}

} // verus!
