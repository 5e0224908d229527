//! Running effects in software.

use vstd::prelude::*;

use crate::arith::{FloatOp, Machine, Unit};
use crate::eval::{Frames, Globals, Interp, call_by_name};
use crate::geometry::{Color4f, Point};
use crate::interp::{Value, declared, vector};
use crate::runtime_effect::{EffectModel, RuntimeColorFilter, RuntimeEffect, RuntimeShader};
use crate::sampling::{Paints, color_of};
use crate::shader::Shader;
use crate::text::same_text;
use crate::uniforms::{
    Child, ChildSlot, UniformData, UniformSlot, child_slots, decode_uniform, decoded, uniform_slots,
};

verus! {

/// Whether some child has a name.
pub open spec fn names_child(cs: Seq<ChildSlot>, name: Seq<char>) -> bool {
    exists|i: int| 0 <= i < cs.len() && (#[trigger] cs[i]).name == name
}

/// The variables of the first `n` uniforms; one that has the name of a child
/// is left out.
pub open spec fn uniform_vars(
    us: Seq<UniformSlot>,
    cs: Seq<ChildSlot>,
    data: Seq<u8>,
    n: nat,
) -> Frames
    decreases n,
{
    if n == 0 || n > us.len() {
        seq![Map::empty()]
    } else {
        let before = uniform_vars(us, cs, data, (n - 1) as nat);
        let u = us[n - 1];
        if names_child(cs, u.name) {
            before
        } else {
            declared(before, u.name, decoded(u.ty, data, u.offset))
        }
    }
}

/// The names and numbers of children.
pub open spec fn child_numbers(cs: Seq<ChildSlot>) -> Seq<(Seq<char>, usize)> {
    Seq::new(cs.len(), |i: int| (cs[i].name, cs[i].index as usize))
}

/// What surrounds an effect that runs with the given uniform data and number
/// of children.
pub open spec fn effect_globals(m: EffectModel, data: Seq<u8>, bound: int, unit: Unit) -> Globals {
    Globals {
        unit,
        uniforms: uniform_vars(m.uniforms(), m.children(), data, m.uniforms().len()),
        functions: m.program.functions,
        children: child_numbers(m.children()),
        bound,
    }
}

/// The color that the entry point makes of its argument, if it has an outcome.
pub open spec fn entry_color(g: Globals, arg: Value, fuel: nat) -> Option<Seq<u32>> {
    match call_by_name(g, "main"@, seq![arg], seq![Map::empty()], fuel) {
        Some((v, _)) => Some(v.as_vector(4)),
        None => None,
    }
}

/// Whether some child has a name.
fn has_child(cs: &[Child], name: &str) -> (r: bool)
    ensures
        r == names_child(child_slots(cs@), name@),
{
    let ghost slots = child_slots(cs@);
    let mut i: usize = 0;
    while i < cs.len()
        invariant
            slots == child_slots(cs@),
            i <= cs@.len(),
            forall|k: int| 0 <= k < i ==> (#[trigger] slots[k]).name != name@,
        decreases cs@.len() - i,
    {
        assert(slots[i as int] == cs@[i as int]@);
        if same_text(cs[i].name.as_str(), name) {
            return true;
        }
        i = i + 1;
    }
    false
}

impl RuntimeEffect {
    /// The effect's program, ready to run with the given uniform data and
    /// number of children.
    pub fn build_interp<
        'a,
        A: Fn(FloatOp, u32, u32, u32) -> u32,
        L: Fn(&str) -> u32,
        S: Fn(usize, u32, u32) -> [u32; 4],
    >(
        &'a self,
        data: &UniformData,
        bound: usize,
        machine: Machine<A, L, S>,
    ) -> (r: Interp<'a, A, L, S>)
        ensures
            r.world.globals() == effect_globals(self@, data@, bound as int, machine.unit()),
            r.world.machine == machine,
            r.scopes@ == seq![Map::<Seq<char>, Value>::empty()],
    {
        let mut interp = Interp::new(&self.program().functions, machine);
        let us = self.uniforms();
        let cs = self.children();
        let ghost slots = uniform_slots(us@);
        let ghost names = child_slots(cs@);
        let mut i: usize = 0;
        while i < us.len()
            invariant
                slots == uniform_slots(us@),
                names == child_slots(cs@),
                i <= us@.len() == slots.len(),
                interp.world.globals() == (Globals {
                    unit: machine.unit(),
                    uniforms: uniform_vars(slots, names, data@, i as nat),
                    functions: self@.program.functions,
                    children: Seq::empty(),
                    bound: 0,
                }),
                interp.world.machine == machine,
                interp.scopes@ == seq![Map::<Seq<char>, Value>::empty()],
            decreases us@.len() - i,
        {
            assert(slots[i as int] == us@[i as int]@);
            if !has_child(cs, us[i].name.as_str()) {
                let v = decode_uniform(&us[i], data.data());
                interp.set_uniform(us[i].name.as_str(), v);
            }
            i = i + 1;
        }
        let ghost vars = uniform_vars(slots, names, data@, slots.len());
        let ghost numbers = child_numbers(names);
        let mut k: usize = 0;
        assert(numbers.take(0) =~= Seq::empty());
        while k < cs.len()
            invariant
                names == child_slots(cs@),
                numbers == child_numbers(names),
                k <= cs@.len() == numbers.len(),
                interp.world.globals() == (Globals {
                    unit: machine.unit(),
                    uniforms: vars,
                    functions: self@.program.functions,
                    children: numbers.take(k as int),
                    bound: 0,
                }),
                interp.world.machine == machine,
                interp.scopes@ == seq![Map::<Seq<char>, Value>::empty()],
            decreases cs@.len() - k,
        {
            assert(names[k as int] == cs@[k as int]@);
            interp.name_child(cs[k].name.as_str(), cs[k].index);
            assert(numbers.take(k + 1) =~= numbers.take(k as int).push(numbers[k as int]));
            k = k + 1;
        }
        assert(numbers.take(k as int) =~= numbers);
        interp.bind_children(bound);
        interp
    }

    /// The color that the entry point makes of its argument. Calls nest at
    /// most `depth` deep.
    fn run_entry<
        A: Fn(FloatOp, u32, u32, u32) -> u32,
        L: Fn(&str) -> u32,
        S: Fn(usize, u32, u32) -> [u32; 4],
    >(
        &self,
        data: &UniformData,
        bound: usize,
        machine: Machine<A, L, S>,
        arg: Value,
        depth: usize,
    ) -> (r: Option<[u32; 4]>)
        requires
            machine.steady(),
        ensures
            match entry_color(
                effect_globals(self@, data@, bound as int, machine.unit()),
                arg,
                depth as nat,
            ) {
                Some(c) => r is Some && r->0@ == c,
                None => r is None,
            },
    {
        let mut interp = self.build_interp(data, bound, machine);
        let mut args: Vec<Value> = Vec::new();
        args.push(arg);
        assert(args@ =~= seq![arg]);
        match interp.run_function("main", &args, depth) {
            Some(v) => Some(v.as_vec4()),
            None => None,
        }
    }
}

impl RuntimeShader {
    /// The premultiplied color at a point, in software. Calls nest at most
    /// `depth` deep; there is no color where they would nest deeper, or where
    /// an integer operation overflows.
    pub fn color_at<
        A: Fn(FloatOp, u32, u32, u32) -> u32,
        L: Fn(&str) -> u32,
        S: Fn(usize, u32, u32) -> [u32; 4],
    >(&self, x: u32, y: u32, machine: Machine<A, L, S>, depth: usize) -> (r: Option<[u32; 4]>)
        requires
            machine.steady(),
        ensures
            match entry_color(
                effect_globals(
                    self.effect_model(),
                    self.uniform_bytes(),
                    self.child_shaders().len() as int,
                    machine.unit(),
                ),
                vector(seq![x, y]),
                depth as nat,
            ) {
                Some(c) => r is Some && r->0@ == c,
                None => r is None,
            },
    {
        let at: [u32; 2] = [x, y];
        assert(at =~= vector(seq![x, y])->Vec2_0);
        self.effect().run_entry(
            self.uniforms(),
            self.children().len(),
            machine,
            Value::Vec2(at),
            depth,
        )
    }
}

impl RuntimeColorFilter {
    /// The filtered color, in software. Calls nest at most `depth` deep; there
    /// is no color where they would nest deeper, or where an integer operation
    /// overflows.
    pub fn filter_color<
        A: Fn(FloatOp, u32, u32, u32) -> u32,
        L: Fn(&str) -> u32,
        S: Fn(usize, u32, u32) -> [u32; 4],
    >(&self, color: [u32; 4], machine: Machine<A, L, S>, depth: usize) -> (r: Option<[u32; 4]>)
        requires
            machine.steady(),
        ensures
            match entry_color(
                effect_globals(self.effect_model(), self.uniform_bytes(), 0, machine.unit()),
                Value::Vec4(color),
                depth as nat,
            ) {
                Some(c) => r is Some && r->0@ == c,
                None => r is None,
            },
    {
        self.effect().run_entry(self.uniforms(), 0, machine, Value::Vec4(color), depth)
    }
}

/// What a program finds around it when a shader runs it for a painter: the
/// painter's arithmetic, and the shader's children as the painter samples them.
pub open spec fn effect_unit(
    q: Paints,
    literal: spec_fn(Seq<char>) -> u32,
    s: RuntimeShader,
) -> Unit {
    Unit {
        arith: q.ops,
        literal,
        sample: |i: usize, x: u32, y: u32|
            {
                let c = color_of(q, *s.child_shaders()[i as int], Point { x, y });
                [c.r, c.g, c.b, c.a]
            },
    }
}

/// The color that a shader's program makes of a point, if it has an outcome.
pub open spec fn effect_color(
    q: Paints,
    literal: spec_fn(Seq<char>) -> u32,
    s: RuntimeShader,
    p: Point,
    depth: nat,
) -> Option<Color4f> {
    match entry_color(
        effect_globals(
            s.effect_model(),
            s.uniform_bytes(),
            s.child_shaders().len() as int,
            effect_unit(q, literal, s),
        ),
        vector(seq![p.x, p.y]),
        depth,
    ) {
        Some(c) => Some(Color4f { r: c[0], g: c[1], b: c[2], a: c[3] }),
        None => None,
    }
}

/// Whether a painter runs programs: wherever a program has an outcome, the
/// painter answers with it.
pub open spec fn runs_effects(
    q: Paints,
    literal: spec_fn(Seq<char>) -> u32,
    depth: nat,
) -> bool {
    forall|s: RuntimeShader, p: Point|
        effect_color(q, literal, s, p, depth) is Some ==> Some(#[trigger] (q.run)(s, p))
            == effect_color(q, literal, s, p, depth)
}

/// A painter that runs programs samples a runtime shader as its program says,
/// with its children sampled the same way; and what `color_at` answers on a
/// machine that finds the same around it is that color.
pub proof fn sampling_runs_programs(
    q: Paints,
    literal: spec_fn(Seq<char>) -> u32,
    s: RuntimeShader,
    p: Point,
    depth: nat,
    answer: Option<[u32; 4]>,
)
    requires
        runs_effects(q, literal, depth),
        match entry_color(
            effect_globals(
                s.effect_model(),
                s.uniform_bytes(),
                s.child_shaders().len() as int,
                effect_unit(q, literal, s),
            ),
            vector(seq![p.x, p.y]),
            depth,
        ) {
            Some(c) => answer is Some && answer->0@ == c,
            None => answer is None,
        },
    ensures
        answer matches Some(c) ==> color_of(q, Shader::Runtime(s), p) == (Color4f {
            r: c@[0],
            g: c@[1],
            b: c@[2],
            a: c@[3],
        }),
{
    assert(color_of(q, Shader::Runtime(s), p) == (q.run)(s, p));
}

} // verus!
