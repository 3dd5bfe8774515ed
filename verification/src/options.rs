//! Conversion targets, modes, and options.

use vstd::prelude::*;

verus! {

/// The provider whose structured-output API the schema is compiled for.
#[derive(Clone, Copy, Debug, PartialEq, Eq, Structural)]
pub enum Target {
    OpenaiStrict,
    Claude,
    Gemini,
}

/// Whether strict-mode sealing and audits are enabled.
#[derive(Clone, Copy, Debug, PartialEq, Eq, Structural)]
pub enum Mode {
    Strict,
    Lenient,
}

/// Options driving the conversion pipeline.
#[derive(Clone, Debug)]
pub struct ConvertOptions {
    /// The provider to compile for.
    pub target: Target,
    /// Strict enables sealing and post-pipeline advisories.
    pub mode: Mode,
    /// Hard limit on traversal depth; exceeding it fails the pass.
    pub max_depth: usize,
    /// Bound on reference-inlining fan-out.
    pub max_inline_expansion: usize,
    /// Whether local references are inlined.
    pub inline_refs: bool,
    /// Whether enums are reordered to put the default value first.
    pub enum_default_first: bool,
}

impl Default for ConvertOptions {
    /// Lenient conversion for the strict OpenAI target with generous bounds.
    fn default() -> (r: ConvertOptions)
        ensures
            r.target == Target::OpenaiStrict,
            r.mode == Mode::Lenient,
            r.max_depth == 64,
            r.max_inline_expansion == 10,
            r.inline_refs == true,
            r.enum_default_first == true,
    {
        ConvertOptions {
            target: Target::OpenaiStrict,
            mode: Mode::Lenient,
            max_depth: 64,
            max_inline_expansion: 10,
            inline_refs: true,
            enum_default_first: true,
        }
    }
}

} // verus!
