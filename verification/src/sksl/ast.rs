//! Syntax trees of SkSL programs.

use vstd::prelude::*;

verus! {

/// A type of the language.
#[derive(Debug, Clone, Copy, PartialEq, Eq, Structural)]
pub enum SkslType {
    /// No value.
    Void,
    /// Boolean.
    Bool,
    /// 32-bit signed integer.
    Int,
    /// Full-precision float.
    Float,
    /// Reduced-precision float.
    Half,
    /// Two floats.
    Vec2,
    /// Three floats.
    Vec3,
    /// Four floats.
    Vec4,
    /// Two reduced-precision floats.
    Half2,
    /// Three reduced-precision floats.
    Half3,
    /// Four reduced-precision floats.
    Half4,
    /// 2x2 matrix.
    Mat2,
    /// 3x3 matrix.
    Mat3,
    /// 4x4 matrix.
    Mat4,
    /// Child shader.
    Shader,
    /// Child color filter.
    ColorFilter,
    /// Child blender.
    Blender,
}

/// A binary operator.
#[derive(Debug, Clone, Copy, PartialEq, Eq, Structural)]
pub enum BinaryOp {
    /// `+`
    Add,
    /// `-`
    Sub,
    /// `*`
    Mul,
    /// `/`
    Div,
    /// `%`
    Mod,
    /// `==`
    Eq,
    /// `!=`
    NotEq,
    /// `<`
    Lt,
    /// `<=`
    LtEq,
    /// `>`
    Gt,
    /// `>=`
    GtEq,
    /// `&&`
    And,
    /// `||`
    Or,
    /// `&`
    BitAnd,
    /// `|`
    BitOr,
    /// `^`
    BitXor,
    /// `<<`
    Shl,
    /// `>>`
    Shr,
}

/// A unary operator.
#[derive(Debug, Clone, Copy, PartialEq, Eq, Structural)]
pub enum UnaryOp {
    /// `-`
    Neg,
    /// `!`
    Not,
    /// `~`
    BitNot,
}

/// An expression.
#[allow(inconsistent_fields)]
#[derive(Debug)]
pub enum Expr {
    /// Integer literal.
    IntLit(i32),
    /// Float literal: the number that the source writes, in full, as positional
    /// decimal text. There is no exponent and no superfluous zero, and a point
    /// only before a fraction. The number is not rounded to what a float can
    /// hold; whoever reads the text does that.
    FloatLit(String),
    /// Boolean literal.
    BoolLit(bool),
    /// Variable reference.
    Var(String),
    /// Binary operation.
    Binary {
        /// Left operand.
        left: Box<Expr>,
        /// Operator.
        op: BinaryOp,
        /// Right operand.
        right: Box<Expr>,
    },
    /// Unary operation.
    Unary {
        /// Operator.
        op: UnaryOp,
        /// Operand.
        expr: Box<Expr>,
    },
    /// Function call.
    Call {
        /// Function name.
        name: String,
        /// Arguments.
        args: Vec<Expr>,
    },
    /// Method call, such as `child.eval(coord)`.
    MethodCall {
        /// The value the method belongs to.
        receiver: Box<Expr>,
        /// Method name.
        method: String,
        /// Arguments.
        args: Vec<Expr>,
    },
    /// Construction of a value of a built-in type.
    Constructor {
        /// The type built.
        ty: SkslType,
        /// Arguments.
        args: Vec<Expr>,
    },
    /// Field or swizzle access.
    Field {
        /// Base value.
        expr: Box<Expr>,
        /// Field or swizzle name.
        field: String,
    },
    /// Element access.
    Index {
        /// Base value.
        expr: Box<Expr>,
        /// Element index.
        index: Box<Expr>,
    },
    /// `cond ? a : b`
    Ternary {
        /// Condition.
        cond: Box<Expr>,
        /// Value when the condition holds.
        then_expr: Box<Expr>,
        /// Value otherwise.
        else_expr: Box<Expr>,
    },
    /// `target = value`
    Assign {
        /// Assigned place.
        target: Box<Expr>,
        /// Assigned value.
        value: Box<Expr>,
    },
    /// `target op= value`
    CompoundAssign {
        /// Assigned place.
        target: Box<Expr>,
        /// Operator.
        op: BinaryOp,
        /// Right operand.
        value: Box<Expr>,
    },
    /// `x++` or `x--`
    PostIncDec {
        /// Changed place.
        expr: Box<Expr>,
        /// Whether it is incremented.
        inc: bool,
    },
    /// `++x` or `--x`
    PreIncDec {
        /// Changed place.
        expr: Box<Expr>,
        /// Whether it is incremented.
        inc: bool,
    },
}

/// A statement.
#[allow(inconsistent_fields)]
#[derive(Debug)]
pub enum Stmt {
    /// Expression statement.
    Expr(Expr),
    /// Variable declaration.
    VarDecl {
        /// Declared type.
        ty: SkslType,
        /// Variable name.
        name: String,
        /// Initial value.
        init: Option<Expr>,
    },
    /// Block of statements.
    Block(Vec<Stmt>),
    /// Conditional.
    If {
        /// Condition.
        cond: Expr,
        /// Statement run when the condition holds.
        then_branch: Box<Stmt>,
        /// Statement run otherwise.
        else_branch: Option<Box<Stmt>>,
    },
    /// `for` loop.
    For {
        /// Initial statement.
        init: Option<Box<Stmt>>,
        /// Loop condition.
        cond: Option<Expr>,
        /// Expression evaluated after each round.
        update: Option<Expr>,
        /// Loop body.
        body: Box<Stmt>,
    },
    /// `while` loop.
    While {
        /// Loop condition.
        cond: Expr,
        /// Loop body.
        body: Box<Stmt>,
    },
    /// `do ... while` loop.
    DoWhile {
        /// Loop body.
        body: Box<Stmt>,
        /// Loop condition.
        cond: Expr,
    },
    /// `return`
    Return(Option<Expr>),
    /// `break`
    Break,
    /// `continue`
    Continue,
    /// `discard`
    Discard,
}

/// A function parameter.
#[derive(Debug)]
pub struct Param {
    /// Parameter type.
    pub ty: SkslType,
    /// Parameter name.
    pub name: String,
}

/// A function declaration.
#[derive(Debug)]
pub struct FnDecl {
    /// Function name.
    pub name: String,
    /// Return type.
    pub return_type: SkslType,
    /// Parameters.
    pub params: Vec<Param>,
    /// Body.
    pub body: Stmt,
}

/// A uniform declaration.
#[derive(Debug)]
pub struct UniformDecl {
    /// Uniform type.
    pub ty: SkslType,
    /// Uniform name.
    pub name: String,
    /// Number of elements of an array uniform.
    pub array_size: Option<usize>,
}

/// A whole program.
#[derive(Debug)]
pub struct SkslProgram {
    /// Uniforms in declaration order.
    pub uniforms: Vec<UniformDecl>,
    /// Functions in declaration order.
    pub functions: Vec<FnDecl>,
}

impl SkslType {
    /// The type's GLSL name.
    pub open spec fn glsl_text(self) -> Seq<char> {
        match self {
            SkslType::Void => "void"@,
            SkslType::Bool => "bool"@,
            SkslType::Int => "int"@,
            SkslType::Float | SkslType::Half => "float"@,
            SkslType::Vec2 | SkslType::Half2 => "vec2"@,
            SkslType::Vec3 | SkslType::Half3 => "vec3"@,
            SkslType::Vec4 | SkslType::Half4 => "vec4"@,
            SkslType::Mat2 => "mat2"@,
            SkslType::Mat3 => "mat3"@,
            SkslType::Mat4 => "mat4"@,
            SkslType::Shader | SkslType::ColorFilter | SkslType::Blender => "sampler2D"@,
        }
    }

    /// The type's GLSL name.
    pub fn glsl_name(&self) -> (s: &'static str)
        ensures
            s@ == self.glsl_text(),
    {
        match self {
            SkslType::Void => "void",
            SkslType::Bool => "bool",
            SkslType::Int => "int",
            SkslType::Float | SkslType::Half => "float",
            SkslType::Vec2 | SkslType::Half2 => "vec2",
            SkslType::Vec3 | SkslType::Half3 => "vec3",
            SkslType::Vec4 | SkslType::Half4 => "vec4",
            SkslType::Mat2 => "mat2",
            SkslType::Mat3 => "mat3",
            SkslType::Mat4 => "mat4",
            SkslType::Shader | SkslType::ColorFilter | SkslType::Blender => "sampler2D",
        }
    }

    /// The type's WGSL name.
    pub open spec fn wgsl_text(self) -> Seq<char> {
        match self {
            SkslType::Void => "void"@,
            SkslType::Bool => "bool"@,
            SkslType::Int => "i32"@,
            SkslType::Float => "f32"@,
            SkslType::Half => "f16"@,
            SkslType::Vec2 => "vec2<f32>"@,
            SkslType::Vec3 => "vec3<f32>"@,
            SkslType::Vec4 => "vec4<f32>"@,
            SkslType::Half2 => "vec2<f16>"@,
            SkslType::Half3 => "vec3<f16>"@,
            SkslType::Half4 => "vec4<f16>"@,
            SkslType::Mat2 => "mat2x2<f32>"@,
            SkslType::Mat3 => "mat3x3<f32>"@,
            SkslType::Mat4 => "mat4x4<f32>"@,
            SkslType::Shader | SkslType::ColorFilter | SkslType::Blender => "texture_2d<f32>"@,
        }
    }

    /// The type's WGSL name.
    pub fn wgsl_name(&self) -> (s: &'static str)
        ensures
            s@ == self.wgsl_text(),
    {
        match self {
            SkslType::Void => "void",
            SkslType::Bool => "bool",
            SkslType::Int => "i32",
            SkslType::Float => "f32",
            SkslType::Half => "f16",
            SkslType::Vec2 => "vec2<f32>",
            SkslType::Vec3 => "vec3<f32>",
            SkslType::Vec4 => "vec4<f32>",
            SkslType::Half2 => "vec2<f16>",
            SkslType::Half3 => "vec3<f16>",
            SkslType::Half4 => "vec4<f16>",
            SkslType::Mat2 => "mat2x2<f32>",
            SkslType::Mat3 => "mat3x3<f32>",
            SkslType::Mat4 => "mat4x4<f32>",
            SkslType::Shader | SkslType::ColorFilter | SkslType::Blender => "texture_2d<f32>",
        }
    }

    /// The type's Metal name; reduced precision is emitted as full precision.
    pub open spec fn msl_text(self) -> Seq<char> {
        match self {
            SkslType::Vec3 | SkslType::Half3 => "float3"@,
            SkslType::Vec2 | SkslType::Half2 => "float2"@,
            SkslType::Float | SkslType::Half => "float"@,
            SkslType::Int => "int"@,
            SkslType::Bool => "bool"@,
            SkslType::Mat2 => "float2x2"@,
            SkslType::Mat3 => "float3x3"@,
            SkslType::Mat4 => "float4x4"@,
            SkslType::Void => "void"@,
            _ => "float4"@,
        }
    }

    /// The type's Metal name.
    pub fn msl_name(&self) -> (s: &'static str)
        ensures
            s@ == self.msl_text(),
    {
        match self {
            SkslType::Vec3 | SkslType::Half3 => "float3",
            SkslType::Vec2 | SkslType::Half2 => "float2",
            SkslType::Float | SkslType::Half => "float",
            SkslType::Int => "int",
            SkslType::Bool => "bool",
            SkslType::Mat2 => "float2x2",
            SkslType::Mat3 => "float3x3",
            SkslType::Mat4 => "float4x4",
            SkslType::Void => "void",
            _ => "float4",
        }
    }

    /// Whether a uniform of this type is a child rather than data.
    pub open spec fn is_child(self) -> bool {
        self is Shader || self is ColorFilter || self is Blender
    }

    /// Whether the type is a four-component vector.
    pub open spec fn is_four(self) -> bool {
        self is Vec4 || self is Half4
    }

    /// Whether the type is a two-component vector.
    pub open spec fn is_two(self) -> bool {
        self is Vec2 || self is Half2
    }
}

impl BinaryOp {
    /// The operator's spelling, the same in every target language.
    pub open spec fn text(self) -> Seq<char> {
        match self {
            BinaryOp::Add => "+"@,
            BinaryOp::Sub => "-"@,
            BinaryOp::Mul => "*"@,
            BinaryOp::Div => "/"@,
            BinaryOp::Mod => "%"@,
            BinaryOp::Eq => "=="@,
            BinaryOp::NotEq => "!="@,
            BinaryOp::Lt => "<"@,
            BinaryOp::LtEq => "<="@,
            BinaryOp::Gt => ">"@,
            BinaryOp::GtEq => ">="@,
            BinaryOp::And => "&&"@,
            BinaryOp::Or => "||"@,
            BinaryOp::BitAnd => "&"@,
            BinaryOp::BitOr => "|"@,
            BinaryOp::BitXor => "^"@,
            BinaryOp::Shl => "<<"@,
            BinaryOp::Shr => ">>"@,
        }
    }

    /// The operator's spelling.
    pub fn glsl_str(&self) -> (s: &'static str)
        ensures
            s@ == self.text(),
    {
        match self {
            BinaryOp::Add => "+",
            BinaryOp::Sub => "-",
            BinaryOp::Mul => "*",
            BinaryOp::Div => "/",
            BinaryOp::Mod => "%",
            BinaryOp::Eq => "==",
            BinaryOp::NotEq => "!=",
            BinaryOp::Lt => "<",
            BinaryOp::LtEq => "<=",
            BinaryOp::Gt => ">",
            BinaryOp::GtEq => ">=",
            BinaryOp::And => "&&",
            BinaryOp::Or => "||",
            BinaryOp::BitAnd => "&",
            BinaryOp::BitOr => "|",
            BinaryOp::BitXor => "^",
            BinaryOp::Shl => "<<",
            BinaryOp::Shr => ">>",
        }
    }
}

impl UnaryOp {
    /// The operator's spelling, the same in every target language.
    pub open spec fn text(self) -> Seq<char> {
        match self {
            UnaryOp::Neg => "-"@,
            UnaryOp::Not => "!"@,
            UnaryOp::BitNot => "~"@,
        }
    }

    /// The operator's spelling.
    pub fn glsl_str(&self) -> (s: &'static str)
        ensures
            s@ == self.text(),
    {
        match self {
            UnaryOp::Neg => "-",
            UnaryOp::Not => "!",
            UnaryOp::BitNot => "~",
        }
    }
}

} // verus!
