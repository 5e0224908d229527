//! The text of whole effects in each target language.

use vstd::prelude::*;

use crate::sksl::ast::{FnDecl, Param, SkslType};
use crate::sksl::check::{find_fn, find_function};
use crate::sksl::emit::{Dialect, function_text, function_to_text};
use crate::sksl::model::{FnModel, fns_model, params_model};
use crate::sksl::nesting::{check_functions, check_word, fns_fit, is_word};
use crate::text::{chars_of, push_chars, same_text};
use crate::uniforms::{
    Child, ChildSlot, Uniform, UniformSlot, UniformType, child_slots, uniform_slots,
};

verus! {

/// The name of a uniform type.
pub open spec fn uniform_type_text(d: Dialect, ty: UniformType) -> Seq<char> {
    match d {
        Dialect::Glsl => match ty {
            UniformType::Float => "float"@,
            UniformType::Float2 => "vec2"@,
            UniformType::Float3 => "vec3"@,
            UniformType::Float4 => "vec4"@,
            UniformType::Float2x2 => "mat2"@,
            UniformType::Float3x3 => "mat3"@,
            UniformType::Float4x4 => "mat4"@,
            UniformType::Int => "int"@,
            UniformType::Int2 => "ivec2"@,
            UniformType::Int3 => "ivec3"@,
            UniformType::Int4 => "ivec4"@,
        },
        Dialect::Wgsl => match ty {
            UniformType::Float => "f32"@,
            UniformType::Float2 => "vec2<f32>"@,
            UniformType::Float3 => "vec3<f32>"@,
            UniformType::Float4 => "vec4<f32>"@,
            UniformType::Float2x2 => "mat2x2<f32>"@,
            UniformType::Float3x3 => "mat3x3<f32>"@,
            UniformType::Float4x4 => "mat4x4<f32>"@,
            UniformType::Int => "i32"@,
            UniformType::Int2 => "vec2<i32>"@,
            UniformType::Int3 => "vec3<i32>"@,
            UniformType::Int4 => "vec4<i32>"@,
        },
        Dialect::Msl => match ty {
            UniformType::Float => "float"@,
            UniformType::Float2 => "float2"@,
            UniformType::Float3 => "float3"@,
            UniformType::Float4 => "float4"@,
            UniformType::Float2x2 => "float2x2"@,
            UniformType::Float3x3 => "float3x3"@,
            UniformType::Float4x4 => "float4x4"@,
            UniformType::Int => "int"@,
            UniformType::Int2 => "int2"@,
            UniformType::Int3 => "int3"@,
            UniformType::Int4 => "int4"@,
        },
    }
}

/// The GLSL name of a uniform type.
fn type_to_glsl(ty: UniformType) -> (s: &'static str)
    ensures
        s@ == uniform_type_text(Dialect::Glsl, ty),
{
    match ty {
        UniformType::Float => "float",
        UniformType::Float2 => "vec2",
        UniformType::Float3 => "vec3",
        UniformType::Float4 => "vec4",
        UniformType::Float2x2 => "mat2",
        UniformType::Float3x3 => "mat3",
        UniformType::Float4x4 => "mat4",
        UniformType::Int => "int",
        UniformType::Int2 => "ivec2",
        UniformType::Int3 => "ivec3",
        UniformType::Int4 => "ivec4",
    }
}

/// The WGSL name of a uniform type.
fn type_to_wgsl(ty: UniformType) -> (s: &'static str)
    ensures
        s@ == uniform_type_text(Dialect::Wgsl, ty),
{
    match ty {
        UniformType::Float => "f32",
        UniformType::Float2 => "vec2<f32>",
        UniformType::Float3 => "vec3<f32>",
        UniformType::Float4 => "vec4<f32>",
        UniformType::Float2x2 => "mat2x2<f32>",
        UniformType::Float3x3 => "mat3x3<f32>",
        UniformType::Float4x4 => "mat4x4<f32>",
        UniformType::Int => "i32",
        UniformType::Int2 => "vec2<i32>",
        UniformType::Int3 => "vec3<i32>",
        UniformType::Int4 => "vec4<i32>",
    }
}

/// The Metal name of a uniform type.
fn type_to_msl(ty: UniformType) -> (s: &'static str)
    ensures
        s@ == uniform_type_text(Dialect::Msl, ty),
{
    match ty {
        UniformType::Float => "float",
        UniformType::Float2 => "float2",
        UniformType::Float3 => "float3",
        UniformType::Float4 => "float4",
        UniformType::Float2x2 => "float2x2",
        UniformType::Float3x3 => "float3x3",
        UniformType::Float4x4 => "float4x4",
        UniformType::Int => "int",
        UniformType::Int2 => "int2",
        UniformType::Int3 => "int3",
        UniformType::Int4 => "int4",
    }
}

/// The declaration of a uniform, with its newline.
pub open spec fn uniform_line(d: Dialect, u: UniformSlot) -> Seq<char> {
    match d {
        Dialect::Glsl => "uniform "@ + uniform_type_text(d, u.ty) + " "@ + u.name + ";\n"@,
        Dialect::Wgsl => "    "@ + u.name + ": "@ + uniform_type_text(d, u.ty) + ",\n"@,
        Dialect::Msl => "    "@ + uniform_type_text(d, u.ty) + " "@ + u.name + ";\n"@,
    }
}

/// The declarations of the first `n` uniforms.
pub open spec fn uniform_lines(d: Dialect, us: Seq<UniformSlot>, n: nat) -> Seq<char>
    decreases n,
{
    if n == 0 || n > us.len() {
        Seq::empty()
    } else {
        uniform_lines(d, us, (n - 1) as nat) + uniform_line(d, us[n - 1])
    }
}

/// The first `n` functions, each followed by an empty line.
pub open spec fn function_texts(d: Dialect, fs: Seq<FnModel>, n: nat) -> Seq<char>
    decreases n,
{
    if n == 0 || n > fs.len() {
        Seq::empty()
    } else {
        function_texts(d, fs, (n - 1) as nat) + function_text(d, fs[n - 1]) + "\n"@
    }
}

/// An effect as GLSL, in its embedded or its desktop version.
pub open spec fn glsl_text(us: Seq<UniformSlot>, fs: Seq<FnModel>, es: bool) -> Seq<char> {
    let version = if es {
        "#version 300 es\n"@ + "precision highp float;\n"@
    } else {
        "#version 450\n"@
    };
    let head = version + "\n"@ + uniform_lines(Dialect::Glsl, us, us.len());
    let parted = if us.len() > 0 {
        head + "\n"@
    } else {
        head
    };
    parted + function_texts(Dialect::Glsl, fs, fs.len())
}

/// An effect as WGSL.
pub open spec fn wgsl_text(us: Seq<UniformSlot>, fs: Seq<FnModel>) -> Seq<char> {
    let head = if us.len() > 0 {
        "struct Uniforms {\n"@ + uniform_lines(Dialect::Wgsl, us, us.len()) + "};\n\n"@
            + "@group(0) @binding(0) var<uniform> uniforms: Uniforms;\n\n"@
    } else {
        ""@
    };
    head + function_texts(Dialect::Wgsl, fs, fs.len())
}

/// An effect as Metal source.
pub open spec fn msl_text(us: Seq<UniformSlot>, fs: Seq<FnModel>) -> Seq<char> {
    let head = "#include <metal_stdlib>\n"@ + "using namespace metal;\n\n"@;
    let parted = if us.len() > 0 {
        head + "struct Uniforms {\n"@ + uniform_lines(Dialect::Msl, us, us.len()) + "};\n\n"@
    } else {
        head
    };
    parted + function_texts(Dialect::Msl, fs, fs.len())
}

/// Emits the declaration of a uniform.
fn uniform_to_line(d: Dialect, u: &Uniform) -> (s: String)
    ensures
        s@ == uniform_line(d, u@),
{
    match d {
        Dialect::Glsl => {
            let mut s: String = String::from_str("uniform ");
            s.append(type_to_glsl(u.ty));
            s.append(" ");
            s.append(u.name.as_str());
            s.append(";\n");
            s
        },
        Dialect::Wgsl => {
            let mut s: String = String::from_str("    ");
            s.append(u.name.as_str());
            s.append(": ");
            s.append(type_to_wgsl(u.ty));
            s.append(",\n");
            s
        },
        Dialect::Msl => {
            let mut s: String = String::from_str("    ");
            s.append(type_to_msl(u.ty));
            s.append(" ");
            s.append(u.name.as_str());
            s.append(";\n");
            s
        },
    }
}

/// Emits the declarations of uniforms.
fn uniforms_to_lines(d: Dialect, us: &Vec<Uniform>) -> (s: String)
    ensures
        s@ == uniform_lines(d, uniform_slots(us@), us@.len()),
{
    let mut s: String = String::new();
    let mut i: usize = 0;
    while i < us.len()
        invariant
            i <= us@.len(),
            s@ == uniform_lines(d, uniform_slots(us@), i as nat),
        decreases us@.len() - i,
    {
        s.append(uniform_to_line(d, &us[i]).as_str());
        i = i + 1;
    }
    s
}

/// Emits functions, each followed by an empty line.
fn functions_to_text(d: Dialect, fs: &Vec<FnDecl>) -> (s: String)
    ensures
        s@ == function_texts(d, fns_model(fs@), fs@.len()),
{
    let mut s: String = String::new();
    let mut i: usize = 0;
    while i < fs.len()
        invariant
            i <= fs@.len(),
            s@ == function_texts(d, fns_model(fs@), i as nat),
        decreases fs@.len() - i,
    {
        s.append(function_to_text(d, &fs[i]).as_str());
        s.append("\n");
        i = i + 1;
    }
    s
}

/// Emits an effect as GLSL.
pub fn to_glsl(us: &Vec<Uniform>, fs: &Vec<FnDecl>, es: bool) -> (s: String)
    ensures
        s@ == glsl_text(uniform_slots(us@), fns_model(fs@), es),
{
    let mut s: String = if es {
        let mut v: String = String::from_str("#version 300 es\n");
        v.append("precision highp float;\n");
        v
    } else {
        String::from_str("#version 450\n")
    };
    s.append("\n");
    s.append(uniforms_to_lines(Dialect::Glsl, us).as_str());
    if us.len() > 0 {
        s.append("\n");
    }
    s.append(functions_to_text(Dialect::Glsl, fs).as_str());
    s
}

/// Emits an effect as WGSL.
pub fn to_wgsl(us: &Vec<Uniform>, fs: &Vec<FnDecl>) -> (s: String)
    ensures
        s@ == wgsl_text(uniform_slots(us@), fns_model(fs@)),
{
    let mut s: String = if us.len() > 0 {
        let mut v: String = String::from_str("struct Uniforms {\n");
        v.append(uniforms_to_lines(Dialect::Wgsl, us).as_str());
        v.append("};\n\n");
        v.append("@group(0) @binding(0) var<uniform> uniforms: Uniforms;\n\n");
        v
    } else {
        String::from_str("")
    };
    s.append(functions_to_text(Dialect::Wgsl, fs).as_str());
    s
}

/// Emits an effect as Metal source.
pub fn to_msl(us: &Vec<Uniform>, fs: &Vec<FnDecl>) -> (s: String)
    ensures
        s@ == msl_text(uniform_slots(us@), fns_model(fs@)),
{
    let mut s: String = String::from_str("#include <metal_stdlib>\n");
    s.append("using namespace metal;\n\n");
    if us.len() > 0 {
        s.append("struct Uniforms {\n");
        s.append(uniforms_to_lines(Dialect::Msl, us).as_str());
        s.append("};\n\n");
    }
    s.append(functions_to_text(Dialect::Msl, fs).as_str());
    s
}

/// A byte that may stand in an identifier.
pub open spec fn ident_byte(b: u8) -> bool {
    (48 <= b && b <= 57) || (65 <= b && b <= 90) || (97 <= b && b <= 122) || b == 95
}

/// Whether a byte may stand in an identifier.
pub fn is_ident_byte(b: u8) -> (r: bool)
    ensures
        r == ident_byte(b),
{
    (48 <= b && b <= 57) || (65 <= b && b <= 90) || (97 <= b && b <= 122) || b == 95
}

/// A character that may stand in an identifier.
pub open spec fn ident_char(c: char) -> bool {
    (c as u32) < 128 && ident_byte(c as u8)
}

/// Whether a character may stand in an identifier.
fn is_ident_char(c: char) -> (r: bool)
    ensures
        r == ident_char(c),
{
    (c as u32) < 128 && is_ident_byte(c as u8)
}

/// Whether the characters at `i` are the whole token `f16`.
pub open spec fn f16_at(s: Seq<char>, i: int) -> bool {
    &&& 0 <= i
    &&& i + 3 <= s.len()
    &&& s[i] == 'f'
    &&& s[i + 1] == '1'
    &&& s[i + 2] == '6'
    &&& (i == 0 || !ident_char(s[i - 1]))
    &&& (i + 3 >= s.len() || !ident_char(s[i + 3]))
}

/// A text with every token `f16` replaced by `f32`. All other characters stay.
pub open spec fn rewritten(s: Seq<char>) -> Seq<char> {
    Seq::new(
        s.len(),
        |i: int|
            if f16_at(s, i - 1) {
                '3'
            } else if f16_at(s, i - 2) {
                '2'
            } else {
                s[i]
            },
    )
}

/// Whether the characters at `i` are the whole token `f16`.
fn is_f16(s: &Vec<char>, i: usize) -> (r: bool)
    requires
        i <= s@.len(),
    ensures
        r == f16_at(s@, i as int),
{
    let n: usize = s.len();
    n - i >= 3 && s[i] == 'f' && s[i + 1] == '1' && s[i + 2] == '6' && (i == 0 || !is_ident_char(
        s[i - 1],
    )) && (n - i == 3 || !is_ident_char(s[i + 3]))
}

/// Replaces every token `f16` of a WGSL text by `f32`.
pub fn rewrite_f16_to_f32(src: &str) -> (out: String)
    ensures
        out@ == rewritten(src@),
{
    let chars: Vec<char> = chars_of(src);
    let n: usize = chars.len();
    let mut out: String = String::new();
    let mut i: usize = 0;
    assert(out@ =~= rewritten(src@).take(0));
    while i < n
        invariant
            chars@ == src@,
            n == src@.len(),
            i <= n,
            out@ == rewritten(src@).take(i as int),
        decreases n - i,
    {
        if i >= 1 && is_f16(&chars, i - 1) {
            out.push('3');
        } else if i >= 2 && is_f16(&chars, i - 2) {
            out.push('2');
        } else {
            out.push(chars[i]);
        }
        assert(out@ =~= rewritten(src@).take(i + 1));
        i = i + 1;
    }
    assert(rewritten(src@).take(n as int) =~= rewritten(src@));
    out
}

/// Whether a child has the given name.
pub open spec fn names_child(cs: Seq<ChildSlot>, name: Seq<char>) -> bool {
    exists|i: int| 0 <= i < cs.len() && (#[trigger] cs[i]).name == name
}

/// The uniforms that share no name with a child, among the first `n`.
pub open spec fn plain_uniforms(us: Seq<UniformSlot>, cs: Seq<ChildSlot>, n: nat) -> Seq<
    UniformSlot,
>
    decreases n,
{
    if n == 0 || n > us.len() {
        Seq::empty()
    } else {
        let before = plain_uniforms(us, cs, (n - 1) as nat);
        if names_child(cs, us[n - 1].name) {
            before
        } else {
            before.push(us[n - 1])
        }
    }
}

/// The statements that make the first `n` uniforms local variables.
pub open spec fn uniform_binds(us: Seq<UniformSlot>, n: nat) -> Seq<char>
    decreases n,
{
    if n == 0 || n > us.len() {
        Seq::empty()
    } else {
        uniform_binds(us, (n - 1) as nat) + "    let "@ + us[n - 1].name + " = uniforms."@ + us[n
            - 1].name + ";\n"@
    }
}

/// The position behind the first brace that ends a line, from `i` on.
pub open spec fn behind_brace(s: Seq<char>, i: int) -> Option<int>
    decreases s.len() - i,
{
    if i < 0 || i + 1 >= s.len() {
        None
    } else if s[i] == '{' && s[i + 1] == '\n' {
        Some(i + 2)
    } else {
        behind_brace(s, i + 1)
    }
}

/// A function text with statements inserted at the start of its body.
pub open spec fn with_binds(t: Seq<char>, binds: Seq<char>) -> Seq<char> {
    if binds.len() == 0 {
        t
    } else {
        match behind_brace(t, 0) {
            Some(k) => t.take(k) + binds + t.skip(k),
            None => t,
        }
    }
}

/// A function as `naga` gets it.
pub open spec fn naga_function(f: FnModel, binds: Seq<char>) -> Seq<char> {
    with_binds(rewritten(function_text(Dialect::Wgsl, f)), binds)
}

/// The first `n` functions as `naga` gets them.
pub open spec fn naga_functions(fs: Seq<FnModel>, binds: Seq<char>, n: nat) -> Seq<char>
    decreases n,
{
    if n == 0 || n > fs.len() {
        Seq::empty()
    } else {
        naga_functions(fs, binds, (n - 1) as nat) + naga_function(fs[n - 1], binds) + "\n"@
    }
}

/// The argument that the entry point passes for a parameter of `main`.
pub open spec fn call_argument(ty: SkslType) -> Seq<char> {
    match ty {
        SkslType::Vec2 | SkslType::Half2 => "_pos"@,
        SkslType::Vec4 | SkslType::Half4 => "vec4<f32>(0.0, 0.0, 0.0, 1.0)"@,
        SkslType::Int => "0"@,
        SkslType::Bool => "false"@,
        _ => "0.0"@,
    }
}

/// The arguments for the first `n` parameters of `main`.
pub open spec fn call_arguments(ps: Seq<(SkslType, Seq<char>)>, n: nat) -> Seq<char>
    decreases n,
{
    if n == 0 || n > ps.len() {
        Seq::empty()
    } else if n == 1 {
        call_argument(ps[0].0)
    } else {
        call_arguments(ps, (n - 1) as nat) + ", "@ + call_argument(ps[n - 1].0)
    }
}

/// The entry point that calls `main`.
pub open spec fn entry_point(main: FnModel) -> Seq<char> {
    let head = "@fragment\n"@
        + "fn _naga_main(@location(0) _pos: vec2<f32>) -> @location(0) vec4<f32> {\n"@;
    let args = call_arguments(main.params, main.params.len());
    let body = if main.return_type is Half4 {
        head + "    return vec4<f32>(main("@ + args + "));\n"@
    } else {
        head + "    return main("@ + args + ");\n"@
    };
    body + "}\n"@
}

/// An effect as WGSL that `naga` accepts: without `f16`, with the uniforms bound
/// to local variables, and with an entry point.
pub open spec fn naga_text(us: Seq<UniformSlot>, cs: Seq<ChildSlot>, fs: Seq<FnModel>) -> Seq<char> {
    let plain = plain_uniforms(us, cs, us.len());
    let head = if plain.len() > 0 {
        "struct Uniforms {\n"@ + uniform_lines(Dialect::Wgsl, plain, plain.len()) + "}\n\n"@
            + "@group(0) @binding(0) var<uniform> uniforms: Uniforms;\n\n"@
    } else {
        ""@
    };
    let body = head + naga_functions(fs, uniform_binds(plain, plain.len()), fs.len());
    match find_fn(fs, "main"@) {
        Some(main) => body + entry_point(main),
        None => body,
    }
}

/// How deep the statements and expressions of a program nest at most if it is
/// handed over to `naga`: half of what the parser there allows, because it and
/// the passes behind it use the stack for each level.
pub const MAX_NESTING: u32 = 100;

/// How many functions a program has at most if it is handed over to `naga`,
/// which follows calls from function to function on the stack.
pub const MAX_FUNCTIONS: usize = 1000;

/// How many characters a text has at most if it is handed over to `naga`, where
/// places and numbers of things have 32 bits.
pub const MAX_TEXT: usize = 0x100_0000;

/// Whether the names of all uniforms are words.
pub open spec fn uniforms_fit(us: Seq<UniformSlot>) -> bool {
    forall|i: int| 0 <= i < us.len() ==> is_word((#[trigger] us[i]).name)
}

/// Whether an effect can be handed over to `naga`: its names are words, it is
/// neither nested too deep nor too large, and what `naga` would compute of it
/// ahead holds nothing that it cannot compute. If the effect has to be `exact`,
/// what it computes ahead does not depend on the machine either.
pub open spec fn is_moderate(
    us: Seq<UniformSlot>,
    cs: Seq<ChildSlot>,
    fs: Seq<FnModel>,
    exact: bool,
) -> bool {
    &&& fs.len() <= MAX_FUNCTIONS
    &&& uniforms_fit(us)
    &&& fns_fit(fs, MAX_NESTING as nat, exact)
    &&& naga_text(us, cs, fs).len() <= MAX_TEXT
}

/// Whether the names of all uniforms are words.
fn check_uniforms(us: &Vec<Uniform>) -> (r: bool)
    ensures
        r == uniforms_fit(uniform_slots(us@)),
{
    let ghost slots = uniform_slots(us@);
    let mut i: usize = 0;
    while i < us.len()
        invariant
            slots == uniform_slots(us@),
            i <= us@.len(),
            forall|j: int| 0 <= j < i ==> is_word((#[trigger] slots[j]).name),
        decreases us@.len() - i,
    {
        assert(slots[i as int] == us@[i as int]@);
        if !check_word(us[i].name.as_str()) {
            return false;
        }
        i = i + 1;
    }
    true
}

/// Whether an effect can be handed over to `naga`, given its text for that.
pub fn check_moderate(us: &Vec<Uniform>, cs: &Vec<Child>, fs: &Vec<FnDecl>, text: &str) -> (r: bool)
    requires
        text@ == naga_text(uniform_slots(us@), child_slots(cs@), fns_model(fs@)),
    ensures
        r == is_moderate(uniform_slots(us@), child_slots(cs@), fns_model(fs@), false),
{
    let chars: Vec<char> = chars_of(text);
    fs.len() <= MAX_FUNCTIONS && check_uniforms(us) && check_functions(fs, MAX_NESTING)
        && chars.len() <= MAX_TEXT
}

/// Whether a child has the given name.
fn has_child(cs: &Vec<Child>, name: &str) -> (r: bool)
    ensures
        r == names_child(child_slots(cs@), name@),
{
    let mut i: usize = 0;
    while i < cs.len()
        invariant
            i <= cs@.len(),
            forall|j: int| 0 <= j < i ==> (#[trigger] child_slots(cs@)[j]).name != name@,
        decreases cs@.len() - i,
    {
        if same_text(cs[i].name.as_str(), name) {
            assert(child_slots(cs@)[i as int].name == name@);
            return true;
        }
        i = i + 1;
    }
    false
}

/// Inserts statements at the start of a function's body.
fn insert_binds(t: &str, binds: &str) -> (s: String)
    ensures
        s@ == with_binds(t@, binds@),
{
    let chars: Vec<char> = chars_of(t);
    let b: Vec<char> = chars_of(binds);
    let mut s: String = String::new();
    if b.len() > 0 {
        let n: usize = chars.len();
        let mut i: usize = 0;
        while i < n && i + 1 < n
            invariant
                n == chars@.len(),
                chars@ == t@,
                i <= n,
                behind_brace(t@, 0) == behind_brace(t@, i as int),
                s@ == Seq::<char>::empty(),
                binds@.len() > 0,
            decreases n - i,
        {
            if chars[i] == '{' && chars[i + 1] == '\n' {
                push_chars(&mut s, chars.as_slice(), 0, i + 2);
                s.append(binds);
                push_chars(&mut s, chars.as_slice(), i + 2, n);
                assert(s@ =~= t@.take(i + 2) + binds@ + t@.skip(i + 2));
                return s;
            }
            i = i + 1;
        }
    }
    s.append(t);
    assert(s@ =~= t@);
    s
}

/// Emits the call arguments for the parameters of `main`.
fn call_arguments_text(ps: &Vec<Param>) -> (s: String)
    ensures
        s@ == call_arguments(params_model(ps@), ps@.len()),
{
    let mut s: String = String::new();
    let mut i: usize = 0;
    while i < ps.len()
        invariant
            i <= ps@.len(),
            s@ == call_arguments(params_model(ps@), i as nat),
        decreases ps@.len() - i,
    {
        if i > 0 {
            s.append(", ");
        }
        let arg: &'static str = match ps[i].ty {
            SkslType::Vec2 | SkslType::Half2 => "_pos",
            SkslType::Vec4 | SkslType::Half4 => "vec4<f32>(0.0, 0.0, 0.0, 1.0)",
            SkslType::Int => "0",
            SkslType::Bool => "false",
            _ => "0.0",
        };
        s.append(arg);
        assert(s@ =~= call_arguments(params_model(ps@), (i + 1) as nat));
        i = i + 1;
    }
    s
}

/// Emits an effect as WGSL that `naga` accepts.
pub fn to_wgsl_for_naga(us: &Vec<Uniform>, cs: &Vec<Child>, fs: &Vec<FnDecl>) -> (s: String)
    ensures
        s@ == naga_text(uniform_slots(us@), child_slots(cs@), fns_model(fs@)),
{
    let ghost uv = uniform_slots(us@);
    let ghost cv = child_slots(cs@);
    let ghost fv = fns_model(fs@);
    let mut lines: String = String::new();
    let mut binds: String = String::new();
    let mut count: usize = 0;
    let mut i: usize = 0;
    while i < us.len()
        invariant
            uv == uniform_slots(us@),
            cv == child_slots(cs@),
            i <= us@.len(),
            count <= i,
            count == plain_uniforms(uv, cv, i as nat).len(),
            lines@ == uniform_lines(
                Dialect::Wgsl,
                plain_uniforms(uv, cv, i as nat),
                plain_uniforms(uv, cv, i as nat).len(),
            ),
            binds@ == uniform_binds(
                plain_uniforms(uv, cv, i as nat),
                plain_uniforms(uv, cv, i as nat).len(),
            ),
        decreases us@.len() - i,
    {
        let u: &Uniform = &us[i];
        assert(uv[i as int] == u@);
        if !has_child(cs, u.name.as_str()) {
            let ghost before = plain_uniforms(uv, cv, i as nat);
            lines.append(uniform_to_line(Dialect::Wgsl, u).as_str());
            binds.append("    let ");
            binds.append(u.name.as_str());
            binds.append(" = uniforms.");
            binds.append(u.name.as_str());
            binds.append(";\n");
            count = count + 1;
            proof {
                let after = before.push(u@);
                assert(plain_uniforms(uv, cv, (i + 1) as nat) == after);
                lemma_lines_prefix(Dialect::Wgsl, before, u@, before.len());
            }
        }
        i = i + 1;
    }
    let mut s: String = if count > 0 {
        let mut v: String = String::from_str("struct Uniforms {\n");
        v.append(lines.as_str());
        v.append("}\n\n");
        v.append("@group(0) @binding(0) var<uniform> uniforms: Uniforms;\n\n");
        v
    } else {
        String::from_str("")
    };
    let mut body: String = String::new();
    let mut k: usize = 0;
    while k < fs.len()
        invariant
            fv == fns_model(fs@),
            k <= fs@.len(),
            body@ == naga_functions(fv, binds@, k as nat),
        decreases fs@.len() - k,
    {
        let f: String = function_to_text(Dialect::Wgsl, &fs[k]);
        let plain: String = rewrite_f16_to_f32(f.as_str());
        body.append(insert_binds(plain.as_str(), binds.as_str()).as_str());
        body.append("\n");
        k = k + 1;
    }
    s.append(body.as_str());
    match find_function(fs, "main") {
        Some(m) => {
            let main: &FnDecl = &fs[m];
            let mut e: String = String::from_str("@fragment\n");
            e.append("fn _naga_main(@location(0) _pos: vec2<f32>) -> @location(0) vec4<f32> {\n");
            let args: String = call_arguments_text(&main.params);
            match main.return_type {
                SkslType::Half4 => {
                    e.append("    return vec4<f32>(main(");
                    e.append(args.as_str());
                    e.append("));\n");
                },
                _ => {
                    e.append("    return main(");
                    e.append(args.as_str());
                    e.append(");\n");
                },
            }
            e.append("}\n");
            s.append(e.as_str());
        },
        None => {},
    }
    s
}

/// The lines and bindings of the first uniforms do not depend on later ones.
proof fn lemma_lines_prefix(d: Dialect, us: Seq<UniformSlot>, x: UniformSlot, n: nat)
    requires
        n <= us.len(),
    ensures
        uniform_lines(d, us.push(x), n) == uniform_lines(d, us, n),
        uniform_binds(us.push(x), n) == uniform_binds(us, n),
    decreases n,
{
    if n > 0 {
        lemma_lines_prefix(d, us, x, (n - 1) as nat);
        assert(us.push(x)[n - 1] == us[n - 1]);
    }
}

/// Only tokens `f16` change, and none is left.
pub proof fn only_f16_tokens_change(s: Seq<char>, i: int)
    requires
        0 <= i < s.len(),
    ensures
        rewritten(s).len() == s.len(),
        f16_at(s, i) ==> rewritten(s).subrange(i, i + 3) == "f32"@,
        !f16_at(s, i) && !f16_at(s, i - 1) && !f16_at(s, i - 2) ==> rewritten(s)[i] == s[i],
        !f16_at(rewritten(s), i),
{
    reveal_strlit("f32");
    if f16_at(s, i) {
        assert(rewritten(s).subrange(i, i + 3) =~= "f32"@);
    }
    if f16_at(rewritten(s), i) {
        let r = rewritten(s);
        assert(r[i] == s[i] && r[i + 1] == s[i + 1] && r[i + 2] == s[i + 2]);
        if i > 0 {
            assert(r[i - 1] == s[i - 1] || ident_char(r[i - 1]));
        }
        if i + 3 < s.len() {
            assert(r[i + 3] == s[i + 3] || ident_char(r[i + 3]));
        }
        assert(f16_at(s, i));
        assert(r[i + 1] == '3');
    }
}

} // verus!
