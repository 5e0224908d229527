//! Uniforms of runtime effects: their types, their layout and their data.

use vstd::prelude::*;

use crate::bytes::{le_bytes, lemma_word_of_bytes, read_word, word_at, write_word};
use crate::float_bits::{float_of_int, int_to_bits};
use crate::interp::{Value, make_vector, mat_from_elems, matrix, vector};
use crate::sksl::ast::{SkslProgram, SkslType, UniformDecl};
use crate::sksl::model::{UniformModel, uniform_model};

verus! {

/// The type of a data uniform.
#[derive(Debug, Clone, Copy, PartialEq, Eq, Structural)]
pub enum UniformType {
    /// Float scalar.
    Float,
    /// 2-component float vector.
    Float2,
    /// 3-component float vector.
    Float3,
    /// 4-component float vector.
    Float4,
    /// 2x2 float matrix.
    Float2x2,
    /// 3x3 float matrix.
    Float3x3,
    /// 4x4 float matrix.
    Float4x4,
    /// Integer scalar.
    Int,
    /// 2-component integer vector.
    Int2,
    /// 3-component integer vector.
    Int3,
    /// 4-component integer vector.
    Int4,
}

impl UniformType {
    /// The number of scalars.
    pub open spec fn slots(self) -> int {
        match self {
            UniformType::Float | UniformType::Int => 1,
            UniformType::Float2 | UniformType::Int2 => 2,
            UniformType::Float3 | UniformType::Int3 => 3,
            UniformType::Float4 | UniformType::Int4 | UniformType::Float2x2 => 4,
            UniformType::Float3x3 => 9,
            UniformType::Float4x4 => 16,
        }
    }

    /// The size in bytes: four for each scalar, without padding.
    pub open spec fn size(self) -> int {
        4 * self.slots()
    }

    /// Whether the scalars are floats.
    pub open spec fn holds_floats(self) -> bool {
        !(self is Int || self is Int2 || self is Int3 || self is Int4)
    }

    /// The type of the data uniform that a declared type makes. Types without
    /// a uniform type of their own take a float.
    pub open spec fn of(ty: SkslType) -> UniformType {
        match ty {
            SkslType::Vec2 | SkslType::Half2 => UniformType::Float2,
            SkslType::Vec3 | SkslType::Half3 => UniformType::Float3,
            SkslType::Vec4 | SkslType::Half4 => UniformType::Float4,
            SkslType::Mat2 => UniformType::Float2x2,
            SkslType::Mat3 => UniformType::Float3x3,
            SkslType::Mat4 => UniformType::Float4x4,
            SkslType::Int => UniformType::Int,
            _ => UniformType::Float,
        }
    }

    /// The size in bytes.
    pub fn size_bytes(&self) -> (n: usize)
        ensures
            n == self.size(),
            4 <= n <= 64,
    {
        match self {
            UniformType::Float | UniformType::Int => 4,
            UniformType::Float2 | UniformType::Int2 => 8,
            UniformType::Float3 | UniformType::Int3 => 12,
            UniformType::Float4 | UniformType::Int4 | UniformType::Float2x2 => 16,
            UniformType::Float3x3 => 36,
            UniformType::Float4x4 => 64,
        }
    }

    /// The number of scalars.
    pub fn slot_count(&self) -> (n: usize)
        ensures
            n == self.slots(),
    {
        match self {
            UniformType::Float | UniformType::Int => 1,
            UniformType::Float2 | UniformType::Int2 => 2,
            UniformType::Float3 | UniformType::Int3 => 3,
            UniformType::Float4 | UniformType::Int4 | UniformType::Float2x2 => 4,
            UniformType::Float3x3 => 9,
            UniformType::Float4x4 => 16,
        }
    }

    /// Whether the scalars are floats.
    pub fn is_float(&self) -> (r: bool)
        ensures
            r == self.holds_floats(),
    {
        match self {
            UniformType::Int | UniformType::Int2 | UniformType::Int3 | UniformType::Int4 => false,
            _ => true,
        }
    }
}

impl<'a> From<&'a SkslType> for UniformType {
    /// The type of the data uniform that a declared type makes.
    fn from(ty: &'a SkslType) -> (r: UniformType) {
        match ty {
            SkslType::Vec2 | SkslType::Half2 => UniformType::Float2,
            SkslType::Vec3 | SkslType::Half3 => UniformType::Float3,
            SkslType::Vec4 | SkslType::Half4 => UniformType::Float4,
            SkslType::Mat2 => UniformType::Float2x2,
            SkslType::Mat3 => UniformType::Float3x3,
            SkslType::Mat4 => UniformType::Float4x4,
            SkslType::Int => UniformType::Int,
            _ => UniformType::Float,
        }
    }
}

impl<'a> vstd::std_specs::convert::FromSpecImpl<&'a SkslType> for UniformType {
    open spec fn obeys_from_spec() -> bool {
        true
    }

    open spec fn from_spec(ty: &'a SkslType) -> UniformType {
        UniformType::of(*ty)
    }
}

/// A data uniform.
#[derive(Debug)]
pub struct Uniform {
    /// Uniform name.
    pub name: String,
    /// Uniform type.
    pub ty: UniformType,
    /// Byte offset in the uniform data.
    pub offset: usize,
    /// Number of elements; one for a uniform that is no array.
    pub count: usize,
}

/// The type of a child.
#[derive(Debug, Clone, Copy, PartialEq, Eq, Structural)]
pub enum ChildType {
    /// Shader child.
    Shader,
    /// Color filter child.
    ColorFilter,
    /// Blender child.
    Blender,
}

/// A child of an effect.
#[derive(Debug)]
pub struct Child {
    /// Child name.
    pub name: String,
    /// Child type.
    pub ty: ChildType,
    /// Index among the children.
    pub index: usize,
}

/// A data uniform as a mathematical value.
pub struct UniformSlot {
    /// Uniform name.
    pub name: Seq<char>,
    /// Uniform type.
    pub ty: UniformType,
    /// Byte offset.
    pub offset: int,
    /// Number of elements.
    pub count: int,
}

/// A child as a mathematical value.
pub struct ChildSlot {
    /// Child name.
    pub name: Seq<char>,
    /// Child type.
    pub ty: ChildType,
    /// Index among the children.
    pub index: int,
}

impl View for Uniform {
    type V = UniformSlot;

    open spec fn view(&self) -> UniformSlot {
        UniformSlot {
            name: self.name@,
            ty: self.ty,
            offset: self.offset as int,
            count: self.count as int,
        }
    }
}

impl View for Child {
    type V = ChildSlot;

    open spec fn view(&self) -> ChildSlot {
        ChildSlot { name: self.name@, ty: self.ty, index: self.index as int }
    }
}

/// The views of uniforms.
pub open spec fn uniform_slots(us: Seq<Uniform>) -> Seq<UniformSlot> {
    Seq::new(us.len(), |i: int| us[i]@)
}

/// The views of children.
pub open spec fn child_slots(cs: Seq<Child>) -> Seq<ChildSlot> {
    Seq::new(cs.len(), |i: int| cs[i]@)
}

/// The number of elements of a declared uniform.
pub open spec fn element_count(u: UniformModel) -> int {
    match u.array_size {
        None => 1,
        Some(n) => n,
    }
}

/// The bytes that a declared uniform takes. A child takes none.
pub open spec fn bytes_of(u: UniformModel) -> int {
    if u.ty.is_child() {
        0
    } else {
        UniformType::of(u.ty).size() * element_count(u)
    }
}

/// The bytes that the first `n` declared uniforms take.
pub open spec fn bytes_before(us: Seq<UniformModel>, n: nat) -> int
    decreases n,
{
    if n == 0 || n > us.len() {
        0
    } else {
        bytes_before(us, (n - 1) as nat) + bytes_of(us[n - 1])
    }
}

/// The data uniforms among the first `n` declared ones. Each follows the one
/// before it without a gap; children are left out.
pub open spec fn laid_out(us: Seq<UniformModel>, n: nat) -> Seq<UniformSlot>
    decreases n,
{
    if n == 0 || n > us.len() {
        Seq::empty()
    } else {
        let u = us[n - 1];
        let before = laid_out(us, (n - 1) as nat);
        if u.ty.is_child() {
            before
        } else {
            before.push(
                UniformSlot {
                    name: u.name,
                    ty: UniformType::of(u.ty),
                    offset: bytes_before(us, (n - 1) as nat),
                    count: element_count(u),
                },
            )
        }
    }
}

/// The type of child that a declared type makes.
pub open spec fn child_type(ty: SkslType) -> Option<ChildType> {
    match ty {
        SkslType::Shader => Some(ChildType::Shader),
        SkslType::ColorFilter => Some(ChildType::ColorFilter),
        SkslType::Blender => Some(ChildType::Blender),
        _ => None,
    }
}

/// The children among the first `n` declared uniforms, numbered in order.
pub open spec fn children_of(us: Seq<UniformModel>, n: nat) -> Seq<ChildSlot>
    decreases n,
{
    if n == 0 || n > us.len() {
        Seq::empty()
    } else {
        let u = us[n - 1];
        let before = children_of(us, (n - 1) as nat);
        match child_type(u.ty) {
            None => before,
            Some(ty) => before.push(ChildSlot { name: u.name, ty, index: before.len() as int }),
        }
    }
}

/// The type of child that a declared type makes.
fn child_type_of(ty: &SkslType) -> (r: Option<ChildType>)
    ensures
        r == child_type(*ty),
        r is Some == ty.is_child(),
{
    match ty {
        SkslType::Shader => Some(ChildType::Shader),
        SkslType::ColorFilter => Some(ChildType::ColorFilter),
        SkslType::Blender => Some(ChildType::Blender),
        _ => None,
    }
}

/// Lays out the data uniforms of a program, with their total size. `None` is a
/// total that no address can reach.
pub fn layout_uniforms(p: &SkslProgram) -> (r: Option<(Vec<Uniform>, usize)>)
    ensures
        match r {
            Some(x) => uniform_slots(x.0@) == laid_out(p@.uniforms, p@.uniforms.len()) && x.1
                == bytes_before(p@.uniforms, p@.uniforms.len()),
            None => bytes_before(p@.uniforms, p@.uniforms.len()) > usize::MAX,
        },
{
    let ghost us = p@.uniforms;
    let mut out: Vec<Uniform> = Vec::new();
    let mut offset: usize = 0;
    let mut i: usize = 0;
    assert(uniform_slots(out@) =~= Seq::empty());
    while i < p.uniforms.len()
        invariant
            us == p@.uniforms,
            us.len() == p.uniforms@.len(),
            i <= us.len(),
            uniform_slots(out@) == laid_out(us, i as nat),
            offset == bytes_before(us, i as nat),
        decreases us.len() - i,
    {
        let u: &UniformDecl = &p.uniforms[i];
        assert(us[i as int] == uniform_model(*u));
        if child_type_of(&u.ty).is_none() {
            let ty: UniformType = UniformType::from(&u.ty);
            let count: usize = match u.array_size {
                None => 1,
                Some(n) => n,
            };
            let ghost before = out@;
            out.push(Uniform { name: u.name.clone(), ty, offset, count });
            assert(uniform_slots(out@) =~= uniform_slots(before).push(out@.last()@));
            let size: usize = match ty.size_bytes().checked_mul(count) {
                Some(s) => s,
                None => {
                    proof {
                        lemma_bytes_mono(us, (i + 1) as nat, us.len());
                    }
                    return None;
                },
            };
            offset = match offset.checked_add(size) {
                Some(s) => s,
                None => {
                    proof {
                        lemma_bytes_mono(us, (i + 1) as nat, us.len());
                    }
                    return None;
                },
            };
        }
        i = i + 1;
    }
    Some((out, offset))
}

/// Further uniforms never take bytes away.
proof fn lemma_bytes_mono(us: Seq<UniformModel>, a: nat, b: nat)
    requires
        a <= b <= us.len(),
        forall|i: int| 0 <= i < us.len() ==> element_count(#[trigger] us[i]) >= 0,
    ensures
        0 <= bytes_before(us, a) <= bytes_before(us, b),
    decreases b,
{
    if b > 0 {
        let u = us[b - 1];
        assert(bytes_of(u) >= 0) by (nonlinear_arith)
            requires
                bytes_of(u) == 0 || bytes_of(u) == UniformType::of(u.ty).size() * element_count(u),
                UniformType::of(u.ty).size() >= 0,
                element_count(u) >= 0,
        ;
        if a < b {
            lemma_bytes_mono(us, a, (b - 1) as nat);
        } else {
            lemma_bytes_mono(us, (b - 1) as nat, (b - 1) as nat);
        }
    }
}

/// Lists the children of a program.
pub fn collect_children(p: &SkslProgram) -> (out: Vec<Child>)
    ensures
        child_slots(out@) == children_of(p@.uniforms, p@.uniforms.len()),
{
    let ghost us = p@.uniforms;
    let mut out: Vec<Child> = Vec::new();
    let mut i: usize = 0;
    assert(child_slots(out@) =~= Seq::empty());
    while i < p.uniforms.len()
        invariant
            us == p@.uniforms,
            us.len() == p.uniforms@.len(),
            i <= us.len(),
            child_slots(out@) == children_of(us, i as nat),
        decreases us.len() - i,
    {
        let u: &UniformDecl = &p.uniforms[i];
        assert(us[i as int] == uniform_model(*u));
        match child_type_of(&u.ty) {
            Some(ty) => {
                let ghost before = out@;
                let index: usize = out.len();
                out.push(Child { name: u.name.clone(), ty, index });
                assert(child_slots(out@) =~= child_slots(before).push(out@.last()@));
            },
            None => {},
        }
        i = i + 1;
    }
    out
}

/// The end of a data uniform.
pub open spec fn slot_end(s: UniformSlot) -> int {
    s.offset + s.ty.size() * s.count
}

/// Uniforms pack tightly: the first starts at zero, each starts where the one
/// before it ends, and the total size is where the last one ends.
pub proof fn uniforms_pack_tightly(us: Seq<UniformModel>, n: nat)
    requires
        n <= us.len(),
    ensures
        forall|k: int|
            0 <= k < laid_out(us, n).len() ==> (#[trigger] laid_out(us, n)[k]).offset == (if k
                == 0 {
                0
            } else {
                slot_end(laid_out(us, n)[k - 1])
            }),
        bytes_before(us, n) == (if laid_out(us, n).len() == 0 {
            0
        } else {
            slot_end(laid_out(us, n).last())
        }),
    decreases n,
{
    if n > 0 {
        uniforms_pack_tightly(us, (n - 1) as nat);
        let before = laid_out(us, (n - 1) as nat);
        let after = laid_out(us, n);
        assert forall|k: int| 0 <= k < after.len() implies (#[trigger] after[k]).offset == (if k
            == 0 {
            0
        } else {
            slot_end(after[k - 1])
        }) by {
            if k < before.len() {
                assert(after[k] == before[k]);
                if k > 0 {
                    assert(after[k - 1] == before[k - 1]);
                }
            }
        }
    }
}

/// Children are not uniforms: every declaration is one or the other, and the
/// children are numbered from zero in order.
pub proof fn children_are_not_uniforms(us: Seq<UniformModel>, n: nat)
    requires
        n <= us.len(),
    ensures
        laid_out(us, n).len() + children_of(us, n).len() == n,
        forall|k: int|
            0 <= k < children_of(us, n).len() ==> (#[trigger] children_of(us, n)[k]).index == k,
    decreases n,
{
    if n > 0 {
        children_are_not_uniforms(us, (n - 1) as nat);
    }
}

/// The bytes that an effect's uniforms are read from.
#[derive(Debug, Clone)]
pub struct UniformData {
    data: Vec<u8>,
}

/// The bytes after the word at `offset` has been written; a word that does not
/// fit is dropped.
pub open spec fn with_word(data: Seq<u8>, offset: int, x: u32) -> Seq<u8> {
    if offset + 4 <= data.len() {
        data.take(offset) + le_bytes(x) + data.skip(offset + 4)
    } else {
        data
    }
}

/// The word at `offset`; zero where the bytes end before it.
pub open spec fn word_or_zero(data: Seq<u8>, offset: int) -> u32 {
    if offset + 4 <= data.len() {
        word_at(data, offset)
    } else {
        0
    }
}

/// Reads a word, or zero where the bytes end before it.
fn read_or_zero(data: &[u8], offset: usize) -> (x: u32)
    ensures
        x == word_or_zero(data@, offset as int),
{
    let len: usize = data.len();
    if offset <= len && len - offset >= 4 {
        read_word(data, offset)
    } else {
        0
    }
}

impl View for UniformData {
    type V = Seq<u8>;

    closed spec fn view(&self) -> Seq<u8> {
        self.data@
    }
}

impl Default for UniformData {
    /// No data.
    fn default() -> (r: UniformData)
        ensures
            r@ == Seq::<u8>::empty(),
    {
        UniformData { data: Vec::new() }
    }
}

impl UniformData {
    /// Data of the given size, all zero.
    pub fn new(size: usize) -> (r: UniformData)
        ensures
            r@ == Seq::new(size as nat, |i: int| 0u8),
    {
        let mut data: Vec<u8> = Vec::new();
        let mut i: usize = 0;
        while i < size
            invariant
                i <= size,
                data@ == Seq::new(i as nat, |k: int| 0u8),
            decreases size - i,
        {
            data.push(0);
            assert(data@ =~= Seq::new((i + 1) as nat, |k: int| 0u8));
            i = i + 1;
        }
        UniformData { data }
    }

    /// Writes a float.
    pub fn set_float(&mut self, offset: usize, value: u32)
        requires
            offset + 4 <= usize::MAX,
        ensures
            final(self)@ == with_word(old(self)@, offset as int, value),
    {
        if offset + 4 <= self.data.len() {
            write_word(&mut self.data, offset, value);
            proof {
                let after = self.data@;
                let part = after.subrange(offset as int, offset + 4);
                assert(part == le_bytes(value));
                assert forall|k: int| 0 <= k < after.len() implies after[k] == with_word(
                    old(self)@,
                    offset as int,
                    value,
                )[k] by {
                    if offset <= k < offset + 4 {
                        assert(part[k - offset] == after[k]);
                    }
                }
                assert(after =~= with_word(old(self)@, offset as int, value));
            }
        }
    }

    /// Writes two floats.
    pub fn set_float2(&mut self, offset: usize, x: u32, y: u32)
        requires
            offset + 8 <= usize::MAX,
        ensures
            final(self)@ == with_word(
                with_word(old(self)@, offset as int, x),
                offset + 4,
                y,
            ),
    {
        self.set_float(offset, x);
        self.set_float(offset + 4, y);
    }

    /// Writes three floats.
    pub fn set_float3(&mut self, offset: usize, x: u32, y: u32, z: u32)
        requires
            offset + 12 <= usize::MAX,
        ensures
            final(self)@ == with_word(
                with_word(with_word(old(self)@, offset as int, x), offset + 4, y),
                offset + 8,
                z,
            ),
    {
        self.set_float(offset, x);
        self.set_float(offset + 4, y);
        self.set_float(offset + 8, z);
    }

    /// Writes four floats.
    pub fn set_float4(&mut self, offset: usize, x: u32, y: u32, z: u32, w: u32)
        requires
            offset + 16 <= usize::MAX,
        ensures
            final(self)@ == with_word(
                with_word(
                    with_word(with_word(old(self)@, offset as int, x), offset + 4, y),
                    offset + 8,
                    z,
                ),
                offset + 12,
                w,
            ),
    {
        self.set_float(offset, x);
        self.set_float(offset + 4, y);
        self.set_float(offset + 8, z);
        self.set_float(offset + 12, w);
    }

    /// Writes a color as red, green, blue and alpha.
    pub fn set_color(&mut self, offset: usize, color: [u32; 4])
        requires
            offset + 16 <= usize::MAX,
        ensures
            final(self)@ == with_word(
                with_word(
                    with_word(
                        with_word(old(self)@, offset as int, color@[0]),
                        offset + 4,
                        color@[1],
                    ),
                    offset + 8,
                    color@[2],
                ),
                offset + 12,
                color@[3],
            ),
    {
        self.set_float4(offset, color[0], color[1], color[2], color[3]);
    }

    /// Writes an integer.
    pub fn set_int(&mut self, offset: usize, value: i32)
        requires
            offset + 4 <= usize::MAX,
        ensures
            final(self)@ == with_word(old(self)@, offset as int, value as u32),
    {
        self.set_float(offset, value as u32);
    }

    /// Reads a float; zero where the data end before it.
    pub fn get_float(&self, offset: usize) -> (x: u32)
        ensures
            x == word_or_zero(self@, offset as int),
    {
        read_or_zero(self.data.as_slice(), offset)
    }

    /// The bytes.
    pub fn data(&self) -> (r: &[u8])
        ensures
            r@ == self@,
    {
        self.data.as_slice()
    }

    /// A copy with the same bytes.
    pub fn duplicate(&self) -> (r: UniformData)
        ensures
            r@ == self@,
    {
        let mut data: Vec<u8> = Vec::new();
        let mut i: usize = 0;
        while i < self.data.len()
            invariant
                i <= self.data@.len(),
                data@ == self.data@.take(i as int),
            decreases self.data@.len() - i,
        {
            data.push(self.data[i]);
            assert(data@ =~= self.data@.take(i + 1));
            i = i + 1;
        }
        assert(data@ =~= self.data@);
        UniformData { data }
    }
}

/// A word that was written where it fits is what is read there.
pub proof fn read_gives_back_what_was_written(data: Seq<u8>, offset: int, x: u32)
    requires
        0 <= offset,
        offset + 4 <= data.len(),
    ensures
        word_or_zero(with_word(data, offset, x), offset) == x,
{
    let after = with_word(data, offset, x);
    assert(after.len() == data.len());
    assert(after.subrange(offset, offset + 4) =~= le_bytes(x));
    lemma_word_of_bytes(after, offset, x);
}

/// Writing a word changes no word that does not overlap it.
pub proof fn write_keeps_other_words(data: Seq<u8>, offset: int, x: u32, other: int)
    requires
        0 <= offset,
        0 <= other,
        other + 4 <= offset || offset + 4 <= other,
    ensures
        word_or_zero(with_word(data, offset, x), other) == word_or_zero(data, other),
{
    let after = with_word(data, offset, x);
    assert(after.len() == data.len());
    if other + 4 <= data.len() {
        assert(after[other] == data[other]);
        assert(after[other + 1] == data[other + 1]);
        assert(after[other + 2] == data[other + 2]);
        assert(after[other + 3] == data[other + 3]);
    }
}

/// The words at `offset` and behind it, one for each scalar of a type.
pub open spec fn words_from(data: Seq<u8>, offset: int, n: int) -> Seq<u32> {
    Seq::new(n as nat, |i: int| word_or_zero(data, offset + 4 * i))
}

/// The words taken as integers and converted to floats.
pub open spec fn floats_of_ints(words: Seq<u32>) -> Seq<u32> {
    Seq::new(words.len(), |i: int| float_of_int((words[i] as i32) as int))
}

/// What a uniform's bytes decode to. Integer vectors become float vectors.
pub open spec fn decoded(ty: UniformType, data: Seq<u8>, offset: int) -> Value {
    let words = words_from(data, offset, ty.slots());
    match ty {
        UniformType::Float | UniformType::Float2 | UniformType::Float3 | UniformType::Float4 =>
            vector(words),
        UniformType::Float2x2 => matrix(2, words),
        UniformType::Float3x3 => matrix(3, words),
        UniformType::Float4x4 => matrix(4, words),
        UniformType::Int => Value::Int(words[0] as i32),
        UniformType::Int2 | UniformType::Int3 | UniformType::Int4 => vector(floats_of_ints(words)),
    }
}

/// Decodes a uniform from its bytes. Bytes behind the end read as zero.
pub fn decode_uniform(uniform: &Uniform, data: &[u8]) -> (v: Value)
    ensures
        v == decoded(uniform.ty, data@, uniform.offset as int),
{
    let o: usize = uniform.offset;
    let n: usize = uniform.ty.slot_count();
    let ints: bool = match uniform.ty {
        UniformType::Int2 | UniformType::Int3 | UniformType::Int4 => true,
        _ => false,
    };
    let ghost words = words_from(data@, o as int, n as int);
    let mut m: Vec<u32> = Vec::new();
    let mut i: usize = 0;
    while i < n
        invariant
            i <= n <= 16,
            n == uniform.ty.slots(),
            o == uniform.offset,
            words == words_from(data@, o as int, n as int),
            m@.len() == i,
            forall|k: int|
                0 <= k < i ==> #[trigger] m@[k] == (if ints {
                    float_of_int((words[k] as i32) as int)
                } else {
                    words[k]
                }),
        decreases n - i,
    {
        let len: usize = data.len();
        let x: u32 = if o <= len && len - o >= 4 * i + 4 {
            read_word(data, o + 4 * i)
        } else {
            0
        };
        assert(x == words[i as int]);
        m.push(
            if ints {
                int_to_bits(x as i32)
            } else {
                x
            },
        );
        i = i + 1;
    }
    assert(ints ==> m@ =~= floats_of_ints(words));
    assert(!ints ==> m@ =~= words);
    match uniform.ty {
        UniformType::Float => Value::Float(m[0]),
        UniformType::Int => Value::Int(m[0] as i32),
        UniformType::Float2x2 => mat_from_elems(2, &m),
        UniformType::Float3x3 => mat_from_elems(3, &m),
        UniformType::Float4x4 => mat_from_elems(4, &m),
        _ => make_vector(&m),
    }
}

} // verus!
