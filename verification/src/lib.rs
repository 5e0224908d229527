//! Verified core of a 2D graphics library: runtime shader effects, paint
//! serialization, mask and image filters, paths, glyph caching and meshes.
//!
//! Floating-point quantities never appear here as numbers. Wherever a value of
//! the graphics pipeline is a 32-bit float it is carried as its bit pattern in
//! a `u32`; arithmetic on such values is handed in as a `FloatUnit`, and
//! contracts are formulas over its answers.

pub mod arith;
pub mod blend_mode;
pub mod blur;
pub mod builtin_laws;
pub mod builtins;
pub mod bytes;
pub mod color_filter;
pub mod curve_laws;
pub mod curves;
pub mod distance;
pub mod effect_run;
pub mod effect_text;
pub mod eval;
pub mod eval_laws;
pub mod exact;
pub mod field_laws;
pub mod filter;
pub mod filter_codec;
pub mod filter_laws;
pub mod filter_run;
pub mod float_bits;
pub mod geometry;
pub mod glyph_cache;
pub mod image_filter_codec;
pub mod image_filters;
pub mod interp;
pub mod linearize;
pub mod lists;
pub mod mesh;
pub mod noise;
pub mod outline;
pub mod path;
pub mod path_boolean;
pub mod path_class;
pub mod path_convexity;
pub mod path_direction;
pub mod path_edges;
pub mod path_measure;
pub mod path_ops;
pub mod path_shape;
pub mod path_tessellator;
pub mod plane;
pub mod program_laws;
pub mod raster;
pub mod runtime_effect;
pub mod sampling;
pub mod sdf;
pub mod sdf_field;
pub mod shader;
pub mod shader_codec;
pub mod shader_codes;
pub mod shaders;
pub mod shading_laws;
pub mod shape_laws;
pub mod simple_polygon;
pub mod sksl;
pub mod spirv;
pub mod stroke;
pub mod stroke_laws;
pub mod tessellation;
pub mod text;
pub mod uniforms;
pub mod value_laws;
pub mod winding;
pub mod wire;
