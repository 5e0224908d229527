//! SPIR-V generation through the `naga` shader compiler.

use vstd::prelude::*;

use crate::runtime_effect::{is_effect_text, is_exact_text};
use crate::text::{hex_text, push_hex};

verus! {

/// The step at which SPIR-V generation failed.
#[derive(Debug, Clone, Copy, PartialEq, Eq, Structural)]
pub enum SpirvStage {
    /// The WGSL text does not parse.
    Parse,
    /// The parsed module is not valid.
    Validate,
    /// The module cannot be expressed in SPIR-V.
    Emit,
}

/// The word that every SPIR-V module starts with.
pub const SPIRV_MAGIC: u32 = 0x0723_0203;

/// What `naga` objects to in a WGSL text that is made of an effect and that it
/// takes the same way on every machine: the step that failed and its message.
pub uninterp spec fn naga_refusal(wgsl: Seq<char>) -> Option<(SpirvStage, Seq<char>)>;

/// Compiles WGSL to SPIR-V with `naga::front::wgsl::parse_str`,
/// `naga::valid::Validator::validate` (all flags, all capabilities) and
/// `naga::back::spv::write_vec` (default options); what passes between them is
/// no plain value.
///
/// Claimed: the words, if any, start with the five-word module header, whose
/// first word is the SPIR-V magic number. Whether there are words, and which
/// step fails with which message, depends on the text alone: the steps walk the
/// declarations in the order of the text, and look things up in hash tables
/// without walking them. This is claimed only of exact texts. In others `naga`
/// computes values of functions such as `sin` ahead, and a rounding can make
/// the difference.
///
/// The texts of effects name no external texture, on which the writer panics.
/// They hold no constant operation on matrices and no constant choice between
/// vectors that are made of vectors, on which the computation ahead panics, and
/// their nesting, their functions and their length are bounded, because each
/// level and each call takes stack. Left unsaid is what the other words are: the
/// writer walks a hash table of local variables, in an order that depends on the
/// width of the machine's words.
#[verifier::external_body]
pub(crate) fn run_naga(wgsl: &str) -> (r: Result<Vec<u32>, (SpirvStage, String)>)
    requires
        is_effect_text(wgsl@),
    ensures
        r matches Ok(words) ==> words@.len() >= 5 && words@[0] == SPIRV_MAGIC,
        is_exact_text(wgsl@) ==> match r {
            Ok(_) => naga_refusal(wgsl@) is None,
            Err(e) => naga_refusal(wgsl@) == Some((e.0, e.1@)),
        },
{
    let module = naga::front::wgsl::parse_str(wgsl)
        .map_err(|e| (SpirvStage::Parse, e.message().to_string()))?;
    let flags = naga::valid::ValidationFlags::all();
    let mut validator = naga::valid::Validator::new(flags, naga::valid::Capabilities::all());
    let info = validator
        .validate(&module)
        .map_err(|e| (SpirvStage::Validate, e.to_string()))?;
    let options = naga::back::spv::Options::default();
    naga::back::spv::write_vec(&module, &info, &options, None)
        .map_err(|e| (SpirvStage::Emit, e.to_string()))
}

/// The first `n` words as eight hexadecimal digits each, eight to a line.
pub open spec fn hex_words(words: Seq<u32>, n: nat) -> Seq<char>
    decreases n,
{
    if n == 0 || n > words.len() {
        Seq::empty()
    } else {
        let before = hex_words(words, (n - 1) as nat);
        let parted = if n == 1 {
            before
        } else if (n - 1) % 8 == 0 {
            before + "\n"@
        } else {
            before + " "@
        };
        parted + hex_text(words[n - 1] as nat, 8)
    }
}

/// Writes words as hexadecimal text.
pub fn encode_words(words: &[u32]) -> (s: String)
    ensures
        s@ == hex_words(words@, words@.len()),
{
    let mut s: String = String::new();
    let mut i: usize = 0;
    while i < words.len()
        invariant
            i <= words@.len(),
            s@ == hex_words(words@, i as nat),
        decreases words@.len() - i,
    {
        if i > 0 && i % 8 == 0 {
            s.append("\n");
        } else if i > 0 {
            s.append(" ");
        }
        push_hex(&mut s, words[i], 8);
        i = i + 1;
    }
    s
}

/// A copy of a list of words.
pub fn copy_words(words: &Vec<u32>) -> (r: Vec<u32>)
    ensures
        r@ == words@,
{
    let mut r: Vec<u32> = Vec::new();
    let mut i: usize = 0;
    while i < words.len()
        invariant
            i <= words@.len(),
            r@ == words@.take(i as int),
        decreases words@.len() - i,
    {
        r.push(words[i]);
        assert(r@ =~= words@.take(i + 1));
        i = i + 1;
    }
    assert(r@ =~= words@);
    r
}

/// The text of words that start with the magic number starts with its digits.
pub proof fn hex_starts_with_magic(words: Seq<u32>, n: nat)
    requires
        1 <= n <= words.len(),
        words[0] == SPIRV_MAGIC,
    ensures
        hex_words(words, n).len() >= 8,
        hex_words(words, n).take(8) == "07230203"@,
    decreases n,
{
    reveal_strlit("07230203");
    if n == 1 {
        reveal_with_fuel(hex_text, 9);
        reveal_with_fuel(hex_words, 2);
        let t = hex_words(words, 1);
        assert(t =~= hex_text(SPIRV_MAGIC as nat, 8));
        assert(t.len() == 8);
        assert(t.take(8) =~= "07230203"@);
    } else {
        hex_starts_with_magic(words, (n - 1) as nat);
        assert(hex_words(words, n).take(8) =~= hex_words(words, (n - 1) as nat).take(8));
    }
}

} // verus!
