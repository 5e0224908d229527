//! Runtime effects: programs in SkSL that are compiled when they are needed.

use std::sync::Arc;

use vstd::prelude::*;

use crate::effect_text::{
    check_moderate, glsl_text, is_moderate, msl_text, naga_text, to_glsl, to_msl,
    to_wgsl, to_wgsl_for_naga, wgsl_text,
};
use crate::shader::ShaderRef;
use crate::sksl::ast::{FnDecl, SkslProgram, SkslType};
use crate::sksl::check::{find_fn, find_function, program_fault, validate_program};
use crate::sksl::grammar::program;
use crate::sksl::lex::{lex, lexed};
use crate::sksl::model::{FnModel, ProgramModel};
use crate::sksl::parse::parse_program;
use crate::sksl::preprocess::{pre_start, preprocess, preprocessed};
use crate::spirv::{
    SPIRV_MAGIC, SpirvStage, copy_words, encode_words, hex_words, naga_refusal, run_naga,
};
use crate::text::{chars_of, nat_text, push_nat, same_text};
use crate::uniforms::{
    Child, ChildSlot, Uniform, UniformData, UniformSlot, bytes_before, child_slots, children_of,
    collect_children, laid_out, layout_uniforms, uniform_slots,
};

verus! {

/// What can go wrong with a runtime effect.
#[derive(Debug)]
pub enum RuntimeEffectError {
    /// The source is not SkSL.
    ParseError(String),
    /// The effect cannot be compiled.
    CompileError(String),
    /// A uniform is missing.
    MissingUniform(String),
    /// A value has the wrong type.
    TypeMismatch(String),
    /// The number of children is wrong.
    InvalidChildCount {
        /// Number of children that the effect declares.
        expected: usize,
        /// Number of children supplied.
        got: usize,
    },
    /// There is no function `main`.
    MissingMain,
    /// The function `main` has the wrong signature.
    InvalidEntryPoint {
        /// The signature it should have.
        expected: String,
    },
    /// A semantic check failed.
    ValidationFailed(String),
}

/// What can go wrong with a runtime effect, as a mathematical value.
#[allow(inconsistent_fields)]
pub enum EffectFailure {
    /// The source is not SkSL.
    ParseError(Seq<char>),
    /// The effect cannot be compiled.
    CompileError(Seq<char>),
    /// A uniform is missing.
    MissingUniform(Seq<char>),
    /// A value has the wrong type.
    TypeMismatch(Seq<char>),
    /// The number of children is wrong.
    InvalidChildCount(int, int),
    /// There is no function `main`.
    MissingMain,
    /// The function `main` has the wrong signature.
    InvalidEntryPoint(Seq<char>),
    /// A semantic check failed.
    ValidationFailed(Seq<char>),
}

impl View for RuntimeEffectError {
    type V = EffectFailure;

    open spec fn view(&self) -> EffectFailure {
        match *self {
            RuntimeEffectError::ParseError(s) => EffectFailure::ParseError(s@),
            RuntimeEffectError::CompileError(s) => EffectFailure::CompileError(s@),
            RuntimeEffectError::MissingUniform(s) => EffectFailure::MissingUniform(s@),
            RuntimeEffectError::TypeMismatch(s) => EffectFailure::TypeMismatch(s@),
            RuntimeEffectError::InvalidChildCount { expected, got } =>
                EffectFailure::InvalidChildCount(expected as int, got as int),
            RuntimeEffectError::MissingMain => EffectFailure::MissingMain,
            RuntimeEffectError::InvalidEntryPoint { expected } =>
                EffectFailure::InvalidEntryPoint(expected@),
            RuntimeEffectError::ValidationFailed(s) => EffectFailure::ValidationFailed(s@),
        }
    }
}

impl EffectFailure {
    /// The message for the failure.
    pub open spec fn text(self) -> Seq<char> {
        match self {
            EffectFailure::ParseError(s) => "Parse error: "@ + s,
            EffectFailure::CompileError(s) => "Compile error: "@ + s,
            EffectFailure::MissingUniform(s) => "Missing uniform: "@ + s,
            EffectFailure::TypeMismatch(s) => "Type mismatch: "@ + s,
            EffectFailure::InvalidChildCount(expected, got) => "Invalid child count: expected "@
                + nat_text(expected as nat) + ", got "@ + nat_text(got as nat),
            EffectFailure::MissingMain => "Missing main function"@,
            EffectFailure::InvalidEntryPoint(s) => "Invalid entry point signature: expected "@ + s,
            EffectFailure::ValidationFailed(s) => "Semantic validation failed: "@ + s,
        }
    }
}

/// Joins two texts.
fn joined(a: &str, b: &str) -> (s: String)
    ensures
        s@ == a@ + b@,
{
    let mut s: String = String::from_str(a);
    s.append(b);
    s
}

impl RuntimeEffectError {
    /// The message for the error.
    pub fn message(&self) -> (s: String)
        ensures
            s@ == self@.text(),
    {
        match self {
            RuntimeEffectError::ParseError(t) => joined("Parse error: ", t.as_str()),
            RuntimeEffectError::CompileError(t) => joined("Compile error: ", t.as_str()),
            RuntimeEffectError::MissingUniform(t) => joined("Missing uniform: ", t.as_str()),
            RuntimeEffectError::TypeMismatch(t) => joined("Type mismatch: ", t.as_str()),
            RuntimeEffectError::InvalidChildCount { expected, got } => {
                let mut s: String = String::from_str("Invalid child count: expected ");
                push_nat(&mut s, *expected as u64);
                s.append(", got ");
                push_nat(&mut s, *got as u64);
                s
            },
            RuntimeEffectError::MissingMain => String::from_str("Missing main function"),
            RuntimeEffectError::InvalidEntryPoint { expected } => joined(
                "Invalid entry point signature: expected ",
                expected.as_str(),
            ),
            RuntimeEffectError::ValidationFailed(t) => joined(
                "Semantic validation failed: ",
                t.as_str(),
            ),
        }
    }
}

/// What an effect is for.
#[derive(Debug, Clone, Copy, PartialEq, Eq, Structural)]
pub enum EffectKind {
    /// A shader: a color for every coordinate.
    Shader,
    /// A color filter: a color for every color.
    ColorFilter,
    /// A blender: a color for every pair of colors.
    Blender,
}

/// A target of compilation.
#[derive(Debug, Clone, Copy, PartialEq, Eq, Structural)]
pub enum ShaderTarget {
    /// GLSL ES 3.0.
    GlslEs300,
    /// GLSL 4.5.
    Glsl450,
    /// SPIR-V.
    SpirV,
    /// Metal Shading Language.
    Msl,
    /// WebGPU Shading Language.
    Wgsl,
}

/// The signature of `main` for a kind of effect.
pub open spec fn expected_entry(kind: EffectKind) -> Seq<char> {
    match kind {
        EffectKind::Shader => "main(vec2) -> vec4"@,
        EffectKind::ColorFilter => "main(vec4) -> vec4"@,
        EffectKind::Blender => "main(vec4, vec4) -> vec4"@,
    }
}

/// Whether a function has the signature of `main` for a kind of effect.
pub open spec fn entry_fits(main: FnModel, kind: EffectKind) -> bool {
    &&& main.return_type.is_four()
    &&& match kind {
        EffectKind::Shader => main.params.len() == 1 && main.params[0].0.is_two(),
        EffectKind::ColorFilter => main.params.len() == 1 && main.params[0].0.is_four(),
        EffectKind::Blender => main.params.len() == 2 && main.params[0].0.is_four()
            && main.params[1].0.is_four(),
    }
}

/// What is wrong with the entry point of a program.
pub open spec fn entry_failure(p: ProgramModel, kind: EffectKind) -> Option<EffectFailure> {
    match find_fn(p.functions, "main"@) {
        None => Some(EffectFailure::MissingMain),
        Some(main) => if entry_fits(main, kind) {
            None
        } else {
            Some(EffectFailure::InvalidEntryPoint(expected_entry(kind)))
        },
    }
}

/// Whether a type is a four-component vector.
fn type_is_four(ty: &SkslType) -> (r: bool)
    ensures
        r == ty.is_four(),
{
    match ty {
        SkslType::Vec4 | SkslType::Half4 => true,
        _ => false,
    }
}

/// Whether a type is a two-component vector.
fn type_is_two(ty: &SkslType) -> (r: bool)
    ensures
        r == ty.is_two(),
{
    match ty {
        SkslType::Vec2 | SkslType::Half2 => true,
        _ => false,
    }
}

/// Checks the entry point of a program.
pub fn validate_entry_point(p: &SkslProgram, kind: EffectKind) -> (r: Result<
    (),
    RuntimeEffectError,
>)
    ensures
        match r {
            Ok(_) => entry_failure(p@, kind) is None,
            Err(e) => entry_failure(p@, kind) == Some(e@),
        },
{
    let main: &FnDecl = match find_function(&p.functions, "main") {
        Some(i) => &p.functions[i],
        None => {
            return Err(RuntimeEffectError::MissingMain);
        },
    };
    let fits: bool = match kind {
        EffectKind::Shader => main.params.len() == 1 && type_is_two(&main.params[0].ty),
        EffectKind::ColorFilter => main.params.len() == 1 && type_is_four(&main.params[0].ty),
        EffectKind::Blender => main.params.len() == 2 && type_is_four(&main.params[0].ty)
            && type_is_four(&main.params[1].ty),
    };
    if fits && type_is_four(&main.return_type) {
        return Ok(());
    }
    let expected: String = match kind {
        EffectKind::Shader => String::from_str("main(vec2) -> vec4"),
        EffectKind::ColorFilter => String::from_str("main(vec4) -> vec4"),
        EffectKind::Blender => String::from_str("main(vec4, vec4) -> vec4"),
    };
    Err(RuntimeEffectError::InvalidEntryPoint { expected })
}

/// The program that a source makes, or what is wrong with it. The source is
/// preprocessed, split into tokens and parsed; then the entry point and the
/// semantics are checked; last, the uniform data must be addressable.
pub open spec fn compiled(source: Seq<char>, kind: EffectKind) -> Result<
    ProgramModel,
    EffectFailure,
> {
    match lexed(preprocessed(source, 0, pre_start()), 0) {
        Err(at) => Err(
            EffectFailure::ParseError("unexpected character at "@ + nat_text(at as nat)),
        ),
        Ok(tokens) => match program(tokens) {
            Err(at) => Err(EffectFailure::ParseError("unexpected token at "@ + nat_text(at as nat))),
            Ok(p) => match entry_failure(p, kind) {
                Some(f) => Err(f),
                None => match program_fault(p, p.functions.len()) {
                    Some(f) => Err(EffectFailure::ValidationFailed(f.fault.text() + f.name)),
                    None => if bytes_before(p.uniforms, p.uniforms.len()) > usize::MAX {
                        Err(EffectFailure::CompileError("uniform data too large"@))
                    } else {
                        Ok(p)
                    },
                },
            },
        },
    }
}

/// The outcome that `compiled` describes.
pub open spec fn is_compiled(
    r: Result<RuntimeEffect, RuntimeEffectError>,
    source: Seq<char>,
    kind: EffectKind,
) -> bool {
    match r {
        Ok(e) => compiled(source, kind) == Ok::<ProgramModel, EffectFailure>(e@.program)
            && e@.source == source,
        Err(e) => compiled(source, kind) == Err::<ProgramModel, EffectFailure>(e@),
    }
}

/// A compiled effect as a mathematical value.
pub struct EffectModel {
    /// The source text.
    pub source: Seq<char>,
    /// The program it makes.
    pub program: ProgramModel,
}

impl EffectModel {
    /// The data uniforms.
    pub open spec fn uniforms(self) -> Seq<UniformSlot> {
        laid_out(self.program.uniforms, self.program.uniforms.len())
    }

    /// The children.
    pub open spec fn children(self) -> Seq<ChildSlot> {
        children_of(self.program.uniforms, self.program.uniforms.len())
    }

    /// The size of the uniform data.
    pub open spec fn uniform_size(self) -> int {
        bytes_before(self.program.uniforms, self.program.uniforms.len())
    }

    /// The effect as GLSL.
    pub open spec fn glsl(self, es: bool) -> Seq<char> {
        glsl_text(self.uniforms(), self.program.functions, es)
    }

    /// The effect as WGSL.
    pub open spec fn wgsl(self) -> Seq<char> {
        wgsl_text(self.uniforms(), self.program.functions)
    }

    /// The effect as Metal source.
    pub open spec fn msl(self) -> Seq<char> {
        msl_text(self.uniforms(), self.program.functions)
    }

    /// The effect as the WGSL that SPIR-V is made from.
    pub open spec fn naga_source(self) -> Seq<char> {
        naga_text(self.uniforms(), self.children(), self.program.functions)
    }

    /// Whether some source compiles to the effect.
    pub open spec fn is_genuine(self) -> bool {
        exists|kind: EffectKind| #[trigger]
            compiled(self.source, kind) == Ok::<ProgramModel, EffectFailure>(self.program)
    }

    /// Whether the effect can be handed over to be made SPIR-V: its names are
    /// words, it is neither nested too deep nor too large, and it has no
    /// constants that are too intricate to be computed ahead.
    pub open spec fn is_moderate(self) -> bool {
        is_moderate(self.uniforms(), self.children(), self.program.functions, false)
    }

    /// Whether, besides, no constant of the effect depends on the machine.
    pub open spec fn is_exact(self) -> bool {
        is_moderate(self.uniforms(), self.children(), self.program.functions, true)
    }

    /// The effect in a target language that is text. There is none for SPIR-V,
    /// which is binary.
    pub open spec fn in_target(self, target: ShaderTarget) -> Option<Seq<char>> {
        match target {
            ShaderTarget::GlslEs300 => Some(self.glsl(true)),
            ShaderTarget::Glsl450 => Some(self.glsl(false)),
            ShaderTarget::Wgsl => Some(self.wgsl()),
            ShaderTarget::Msl => Some(self.msl()),
            ShaderTarget::SpirV => None,
        }
    }

    /// Whether a failure may come of the attempt to make SPIR-V: some step
    /// failed on the WGSL of the effect. The failure is certain where the effect
    /// cannot be handed over, and where it depends on the WGSL alone.
    pub open spec fn refuses_spirv(self, e: EffectFailure) -> bool {
        if !self.is_moderate() {
            e == spirv_failure(SpirvStage::Parse, too_large(), self.naga_source())
        } else if self.is_exact() {
            match naga_refusal(self.naga_source()) {
                Some(x) => e == spirv_failure(x.0, x.1, self.naga_source()),
                None => false,
            }
        } else {
            exists|stage: SpirvStage, message: Seq<char>|
                e == #[trigger] spirv_failure(stage, message, self.naga_source())
        }
    }

    /// Whether SPIR-V may come of the attempt to make it.
    pub open spec fn admits_spirv(self) -> bool {
        self.is_moderate() && (self.is_exact() ==> naga_refusal(self.naga_source()) is None)
    }
}

/// What is said of an effect that cannot be handed over to be made SPIR-V.
pub open spec fn too_large() -> Seq<char> {
    "the program is too large, nests too deep or has too intricate constants"@
}

/// Whether a text is that of an effect that can be handed over to `naga`.
pub open spec fn is_effect_text(t: Seq<char>) -> bool {
    exists|m: EffectModel| #[trigger] m.naga_source() == t && m.is_genuine() && m.is_moderate()
}

/// Whether, besides, no constant of the effect depends on the machine.
pub open spec fn is_exact_text(t: Seq<char>) -> bool {
    exists|m: EffectModel| #[trigger] m.naga_source() == t && m.is_genuine() && m.is_exact()
}

/// Whether words start like a SPIR-V module.
pub open spec fn is_spirv(words: Seq<u32>) -> bool {
    words.len() >= 5 && words[0] == SPIRV_MAGIC
}

/// The failure for a step of SPIR-V generation. A parse failure shows the text.
pub open spec fn spirv_failure(
    stage: SpirvStage,
    message: Seq<char>,
    wgsl: Seq<char>,
) -> EffectFailure {
    match stage {
        SpirvStage::Parse => EffectFailure::CompileError(
            "naga WGSL parse failed: "@ + message + "\n---\n"@ + wgsl,
        ),
        SpirvStage::Validate => EffectFailure::CompileError("naga validation failed: "@ + message),
        SpirvStage::Emit => EffectFailure::CompileError("naga SPIR-V emit: "@ + message),
    }
}

/// The error for a step of SPIR-V generation that failed.
pub fn spirv_error(stage: SpirvStage, message: &str, wgsl: &str) -> (e: RuntimeEffectError)
    ensures
        e@ == spirv_failure(stage, message@, wgsl@),
{
    match stage {
        SpirvStage::Parse => {
            let mut s: String = String::from_str("naga WGSL parse failed: ");
            s.append(message);
            s.append("\n---\n");
            s.append(wgsl);
            RuntimeEffectError::CompileError(s)
        },
        SpirvStage::Validate => RuntimeEffectError::CompileError(
            joined("naga validation failed: ", message),
        ),
        SpirvStage::Emit => RuntimeEffectError::CompileError(joined("naga SPIR-V emit: ", message)),
    }
}

/// What comes of an attempt to make SPIR-V of a WGSL text: the words, or the
/// error for the step that failed.
pub fn spirv_result(outcome: Result<Vec<u32>, (SpirvStage, String)>, wgsl: &str) -> (r: Result<
    Vec<u32>,
    RuntimeEffectError,
>)
    ensures
        match outcome {
            Ok(words) => r is Ok && r->Ok_0@ == words@,
            Err(e) => r is Err && r->Err_0@ == spirv_failure(e.0, e.1@, wgsl@),
        },
{
    match outcome {
        Ok(words) => Ok(words),
        Err(e) => Err(spirv_error(e.0, e.1.as_str(), wgsl)),
    }
}

/// A compiled effect. Each target language is emitted at most once.
#[derive(Debug)]
pub struct RuntimeEffect {
    source: String,
    program: SkslProgram,
    uniforms: Vec<Uniform>,
    children: Vec<Child>,
    uniform_size: usize,
    glsl_es_cache: Option<String>,
    glsl_cache: Option<String>,
    wgsl_cache: Option<String>,
    msl_cache: Option<String>,
    spv_cache: Option<Vec<u32>>,
}

impl View for RuntimeEffect {
    type V = EffectModel;

    closed spec fn view(&self) -> EffectModel {
        EffectModel { source: self.source@, program: self.program@ }
    }
}

/// Whether a cached text is the given one.
spec fn caches(cache: Option<String>, text: Seq<char>) -> bool {
    match cache {
        None => true,
        Some(s) => s@ == text,
    }
}

impl RuntimeEffect {
    /// The uniforms, the children and every cached text belong to the program.
    #[verifier::type_invariant]
    spec fn wf(self) -> bool {
        &&& self@.is_genuine()
        &&& uniform_slots(self.uniforms@) == self@.uniforms()
        &&& child_slots(self.children@) == self@.children()
        &&& self.uniform_size == self@.uniform_size()
        &&& caches(self.glsl_es_cache, self@.glsl(true))
        &&& caches(self.glsl_cache, self@.glsl(false))
        &&& caches(self.wgsl_cache, self@.wgsl())
        &&& caches(self.msl_cache, self@.msl())
        &&& match self.spv_cache {
            None => true,
            Some(words) => self@.admits_spirv() && is_spirv(words@),
        }
    }

    /// The SPIR-V words that were made and are kept.
    pub closed spec fn spirv_words(&self) -> Option<Seq<u32>> {
        match self.spv_cache {
            None => None,
            Some(words) => Some(words@),
        }
    }

    /// Compiles a shader effect.
    pub fn make_for_shader(source: &str) -> (r: Result<RuntimeEffect, RuntimeEffectError>)
        ensures
            is_compiled(r, source@, EffectKind::Shader),
            r matches Ok(e) ==> e.spirv_words() is None,
    {
        RuntimeEffect::compile(source, EffectKind::Shader)
    }

    /// Compiles a color filter effect.
    pub fn make_for_color_filter(source: &str) -> (r: Result<RuntimeEffect, RuntimeEffectError>)
        ensures
            is_compiled(r, source@, EffectKind::ColorFilter),
            r matches Ok(e) ==> e.spirv_words() is None,
    {
        RuntimeEffect::compile(source, EffectKind::ColorFilter)
    }

    /// Compiles a blender effect.
    pub fn make_for_blender(source: &str) -> (r: Result<RuntimeEffect, RuntimeEffectError>)
        ensures
            is_compiled(r, source@, EffectKind::Blender),
            r matches Ok(e) ==> e.spirv_words() is None,
    {
        RuntimeEffect::compile(source, EffectKind::Blender)
    }

    /// Compiles an effect.
    pub fn compile(source: &str, kind: EffectKind) -> (r: Result<
        RuntimeEffect,
        RuntimeEffectError,
    >)
        ensures
            is_compiled(r, source@, kind),
            r matches Ok(e) ==> e.spirv_words() is None,
    {
        let chars: Vec<char> = chars_of(source);
        let plain: String = preprocess(chars.as_slice());
        let plain_chars: Vec<char> = chars_of(plain.as_str());
        let tokens = match lex(plain_chars.as_slice()) {
            Ok(t) => t,
            Err(at) => {
                let mut s: String = String::from_str("unexpected character at ");
                push_nat(&mut s, at as u64);
                return Err(RuntimeEffectError::ParseError(s));
            },
        };
        let program: SkslProgram = match parse_program(&tokens) {
            Ok(p) => p,
            Err(at) => {
                let mut s: String = String::from_str("unexpected token at ");
                push_nat(&mut s, at as u64);
                return Err(RuntimeEffectError::ParseError(s));
            },
        };
        match validate_entry_point(&program, kind) {
            Ok(_) => {},
            Err(e) => {
                return Err(e);
            },
        }
        match validate_program(&program) {
            Ok(_) => {},
            Err(e) => {
                return Err(
                    RuntimeEffectError::ValidationFailed(
                        joined(e.fault.describe(), e.name.as_str()),
                    ),
                );
            },
        }
        let (uniforms, uniform_size): (Vec<Uniform>, usize) = match layout_uniforms(&program) {
            Some(x) => x,
            None => {
                return Err(
                    RuntimeEffectError::CompileError(String::from_str("uniform data too large")),
                );
            },
        };
        let children: Vec<Child> = collect_children(&program);
        Ok(
            RuntimeEffect {
                source: String::from_str(source),
                program,
                uniforms,
                children,
                uniform_size,
                glsl_es_cache: None,
                glsl_cache: None,
                wgsl_cache: None,
                msl_cache: None,
                spv_cache: None,
            },
        )
    }

    /// The source text.
    pub fn source(&self) -> (s: &str)
        ensures
            s@ == self@.source,
    {
        self.source.as_str()
    }

    /// The parsed program.
    pub fn program(&self) -> (p: &SkslProgram)
        ensures
            p@ == self@.program,
    {
        &self.program
    }

    /// The data uniforms in declaration order.
    pub fn uniforms(&self) -> (r: &[Uniform])
        ensures
            uniform_slots(r@) == self@.uniforms(),
    {
        proof {
            use_type_invariant(self);
        }
        self.uniforms.as_slice()
    }

    /// The children in declaration order.
    pub fn children(&self) -> (r: &[Child])
        ensures
            child_slots(r@) == self@.children(),
    {
        proof {
            use_type_invariant(self);
        }
        self.children.as_slice()
    }

    /// The size of the uniform data in bytes.
    pub fn uniform_size(&self) -> (n: usize)
        ensures
            n == self@.uniform_size(),
    {
        proof {
            use_type_invariant(self);
        }
        self.uniform_size
    }

    /// The first data uniform of the given name.
    pub fn find_uniform(&self, name: &str) -> (r: Option<&Uniform>)
        ensures
            match r {
                Some(u) => exists|i: int|
                    0 <= i < self@.uniforms().len() && #[trigger] self@.uniforms()[i] == u@
                        && u@.name == name@ && forall|j: int|
                        0 <= j < i ==> (#[trigger] self@.uniforms()[j]).name != name@,
                None => forall|i: int|
                    0 <= i < self@.uniforms().len() ==> (#[trigger] self@.uniforms()[i]).name
                        != name@,
            },
    {
        proof {
            use_type_invariant(self);
        }
        let mut i: usize = 0;
        while i < self.uniforms.len()
            invariant
                uniform_slots(self.uniforms@) == self@.uniforms(),
                i <= self.uniforms@.len(),
                forall|j: int| 0 <= j < i ==> (#[trigger] self@.uniforms()[j]).name != name@,
            decreases self.uniforms@.len() - i,
        {
            assert(self@.uniforms()[i as int] == self.uniforms@[i as int]@);
            if same_text(self.uniforms[i].name.as_str(), name) {
                return Some(&self.uniforms[i]);
            }
            i = i + 1;
        }
        None
    }

    /// The first child of the given name.
    pub fn find_child(&self, name: &str) -> (r: Option<&Child>)
        ensures
            match r {
                Some(c) => exists|i: int|
                    0 <= i < self@.children().len() && #[trigger] self@.children()[i] == c@
                        && c@.name == name@ && forall|j: int|
                        0 <= j < i ==> (#[trigger] self@.children()[j]).name != name@,
                None => forall|i: int|
                    0 <= i < self@.children().len() ==> (#[trigger] self@.children()[i]).name
                        != name@,
            },
    {
        proof {
            use_type_invariant(self);
        }
        let mut i: usize = 0;
        while i < self.children.len()
            invariant
                child_slots(self.children@) == self@.children(),
                i <= self.children@.len(),
                forall|j: int| 0 <= j < i ==> (#[trigger] self@.children()[j]).name != name@,
            decreases self.children@.len() - i,
        {
            assert(self@.children()[i as int] == self.children@[i as int]@);
            if same_text(self.children[i].name.as_str(), name) {
                return Some(&self.children[i]);
            }
            i = i + 1;
        }
        None
    }

    /// Compiles to a target language. SPIR-V is given as hexadecimal words.
    pub fn compile_to(&mut self, target: ShaderTarget) -> (r: Result<String, RuntimeEffectError>)
        ensures
            final(self)@ == old(self)@,
            match old(self)@.in_target(target) {
                Some(text) => r is Ok && r->Ok_0@ == text && final(self).spirv_words() == old(
                    self,
                ).spirv_words(),
                None => match r {
                    Ok(s) => match final(self).spirv_words() {
                        Some(words) => is_spirv(words) && s@ == hex_words(words, words.len()) && old(
                            self,
                        )@.admits_spirv(),
                        None => false,
                    },
                    Err(e) => final(self).spirv_words() is None && old(self)@.refuses_spirv(e@),
                },
            },
            old(self).spirv_words() is Some ==> r is Ok && final(self).spirv_words() == old(
                self,
            ).spirv_words(),
    {
        proof {
            use_type_invariant(&*self);
        }
        match target {
            ShaderTarget::GlslEs300 => {
                match &self.glsl_es_cache {
                    Some(s) => {
                        return Ok(s.clone());
                    },
                    None => {},
                }
                let s: String = to_glsl(&self.uniforms, &self.program.functions, true);
                self.glsl_es_cache = Some(s.clone());
                Ok(s)
            },
            ShaderTarget::Glsl450 => {
                match &self.glsl_cache {
                    Some(s) => {
                        return Ok(s.clone());
                    },
                    None => {},
                }
                let s: String = to_glsl(&self.uniforms, &self.program.functions, false);
                self.glsl_cache = Some(s.clone());
                Ok(s)
            },
            ShaderTarget::Wgsl => {
                match &self.wgsl_cache {
                    Some(s) => {
                        return Ok(s.clone());
                    },
                    None => {},
                }
                let s: String = to_wgsl(&self.uniforms, &self.program.functions);
                self.wgsl_cache = Some(s.clone());
                Ok(s)
            },
            ShaderTarget::Msl => {
                match &self.msl_cache {
                    Some(s) => {
                        return Ok(s.clone());
                    },
                    None => {},
                }
                let s: String = to_msl(&self.uniforms, &self.program.functions);
                self.msl_cache = Some(s.clone());
                Ok(s)
            },
            ShaderTarget::SpirV => match self.compile_to_spirv() {
                Ok(words) => Ok(encode_words(words.as_slice())),
                Err(e) => Err(e),
            },
        }
    }

    /// Compiles to SPIR-V words. Words that were made once are kept and given
    /// again. Otherwise the WGSL of the effect is handed to `naga`, unless the
    /// effect is not moderate enough for that.
    pub fn compile_to_spirv(&mut self) -> (r: Result<Vec<u32>, RuntimeEffectError>)
        ensures
            final(self)@ == old(self)@,
            match r {
                Ok(words) => is_spirv(words@) && old(self)@.admits_spirv()
                    && final(self).spirv_words() == Some(words@),
                Err(e) => final(self).spirv_words() is None && old(self)@.refuses_spirv(e@),
            },
            old(self).spirv_words() is Some ==> r is Ok && Some(r->Ok_0@) == old(
                self,
            ).spirv_words(),
    {
        proof {
            use_type_invariant(&*self);
        }
        match &self.spv_cache {
            Some(words) => {
                return Ok(copy_words(words));
            },
            None => {},
        }
        let wgsl: String = to_wgsl_for_naga(
            &self.uniforms,
            &self.children,
            &self.program.functions,
        );
        if !check_moderate(&self.uniforms, &self.children, &self.program.functions, wgsl.as_str()) {
            return Err(
                spirv_error(
                    SpirvStage::Parse,
                    "the program is too large, nests too deep or has too intricate constants",
                    wgsl.as_str(),
                ),
            );
        }
        assert(is_effect_text(wgsl@));
        match spirv_result(run_naga(wgsl.as_str()), wgsl.as_str()) {
            Ok(words) => {
                self.spv_cache = Some(copy_words(&words));
                Ok(words)
            },
            Err(e) => Err(e),
        }
    }
}

/// A color filter made of an effect and its uniform data.
#[derive(Debug)]
pub struct RuntimeColorFilter {
    effect: Arc<RuntimeEffect>,
    uniforms: UniformData,
}

impl RuntimeColorFilter {
    /// The effect as a mathematical value.
    pub closed spec fn effect_model(&self) -> EffectModel {
        self.effect@
    }

    /// The bytes of the uniforms.
    pub closed spec fn uniform_bytes(&self) -> Seq<u8> {
        self.uniforms@
    }

    /// The effect.
    pub fn effect(&self) -> (r: &RuntimeEffect)
        ensures
            r@ == self.effect_model(),
    {
        &self.effect
    }

    /// The uniform data.
    pub fn uniforms(&self) -> (r: &UniformData)
        ensures
            r@ == self.uniform_bytes(),
    {
        &self.uniforms
    }
}

/// A shader made of an effect, its uniform data and its children.
#[derive(Debug)]
pub struct RuntimeShader {
    effect: Arc<RuntimeEffect>,
    uniforms: UniformData,
    children: Vec<ShaderRef>,
}

impl RuntimeShader {
    /// The effect as a mathematical value.
    pub closed spec fn effect_model(&self) -> EffectModel {
        self.effect@
    }

    /// The bytes of the uniforms.
    pub closed spec fn uniform_bytes(&self) -> Seq<u8> {
        self.uniforms@
    }

    /// The children in order.
    pub closed spec fn child_shaders(&self) -> Seq<ShaderRef> {
        self.children@
    }

    /// The effect.
    pub fn effect(&self) -> (r: &RuntimeEffect)
        ensures
            r@ == self.effect_model(),
    {
        &self.effect
    }

    /// The uniform data.
    pub fn uniforms(&self) -> (r: &UniformData)
        ensures
            r@ == self.uniform_bytes(),
    {
        &self.uniforms
    }

    /// The children.
    pub fn children(&self) -> (r: &Vec<ShaderRef>)
        ensures
            r@ == self.child_shaders(),
    {
        &self.children
    }
}

impl RuntimeEffect {
    /// Makes a shader of an effect, its uniform data and its children. Fails
    /// if there are not exactly as many children as the effect declares.
    pub fn make_shader(self: &Arc<Self>, uniforms: &UniformData, children: &[ShaderRef]) -> (r:
        Result<RuntimeShader, RuntimeEffectError>)
        ensures
            match r {
                Ok(x) => children@.len() == self@.children().len() && x.effect_model() == self@
                    && x.uniform_bytes() == uniforms@ && x.child_shaders() == children@,
                Err(e) => children@.len() != self@.children().len() && e@
                    == EffectFailure::InvalidChildCount(
                    self@.children().len() as int,
                    children@.len() as int,
                ),
            },
    {
        proof {
            use_type_invariant(&**self);
            assert(child_slots(self.children@).len() == self.children@.len());
        }
        if children.len() != self.children.len() {
            return Err(
                RuntimeEffectError::InvalidChildCount {
                    expected: self.children.len(),
                    got: children.len(),
                },
            );
        }
        let mut copies: Vec<ShaderRef> = Vec::new();
        let mut i: usize = 0;
        while i < children.len()
            invariant
                i <= children@.len(),
                copies@ == children@.take(i as int),
            decreases children@.len() - i,
        {
            copies.push(Arc::clone(&children[i]));
            assert(copies@ =~= children@.take(i + 1));
            i = i + 1;
        }
        assert(children@.take(i as int) =~= children@);
        Ok(
            RuntimeShader {
                effect: Arc::clone(self),
                uniforms: uniforms.duplicate(),
                children: copies,
            },
        )
    }

    /// Makes a color filter of an effect and its uniform data.
    pub fn make_color_filter(self: &Arc<Self>, uniforms: &UniformData) -> (r: Result<
        RuntimeColorFilter,
        RuntimeEffectError,
    >)
        ensures
            r is Ok,
            r->Ok_0.effect_model() == self@,
            r->Ok_0.uniform_bytes() == uniforms@,
    {
        Ok(RuntimeColorFilter { effect: Arc::clone(self), uniforms: uniforms.duplicate() })
    }
}

impl UniformData {
    /// Data of the size that an effect needs, all zero.
    pub fn from_effect(effect: &RuntimeEffect) -> (r: UniformData)
        ensures
            r@ == Seq::new(effect@.uniform_size() as nat, |i: int| 0u8),
    {
        UniformData::new(effect.uniform_size())
    }
}

/// The source and the kind decide everything: effects of the same source and
/// kind have the same uniforms and children and compile to the same texts.
pub proof fn source_decides_the_effect(
    source: Seq<char>,
    kind: EffectKind,
    a: EffectModel,
    b: EffectModel,
)
    requires
        compiled(source, kind) == Ok::<ProgramModel, EffectFailure>(a.program),
        compiled(source, kind) == Ok::<ProgramModel, EffectFailure>(b.program),
        a.source == source,
        b.source == source,
    ensures
        a == b,
        a.uniforms() == b.uniforms(),
        a.children() == b.children(),
        forall|target: ShaderTarget| a.in_target(target) == b.in_target(target),
        a.naga_source() == b.naga_source(),
{
}

} // verus!
