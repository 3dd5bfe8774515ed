//! The per-target capability matrix.
//!
//! Classifies every JSON Schema keyword, per provider target, into
//! supported, dropped, or rewritten.  This single table drives the
//! constraint pruning pass.

use vstd::prelude::*;

use crate::json::str_eq;
use crate::options::Target;

verus! {

/// How a target treats one keyword.
#[derive(Clone, Copy, Debug, PartialEq, Eq, Structural)]
pub enum Capability {
    /// The keyword is passed through unchanged.
    Supported,
    /// The keyword is removed and recorded as a dropped constraint.
    Drop,
    /// The keyword is replaced by a supported equivalent.
    Rewrite,
}

/// Numeric, string-length, and array-size bounds: only Gemini keeps them.
pub open spec fn is_bounds_kw(kw: Seq<char>) -> bool {
    ||| kw == "minimum"@
    ||| kw == "maximum"@
    ||| kw == "exclusiveMinimum"@
    ||| kw == "exclusiveMaximum"@
    ||| kw == "multipleOf"@
    ||| kw == "minLength"@
    ||| kw == "maxLength"@
    ||| kw == "minItems"@
    ||| kw == "maxItems"@
    ||| kw == "uniqueItems"@
}

/// Negation and conditional application: no target keeps them.
pub open spec fn is_conditional_kw(kw: Seq<char>) -> bool {
    ||| kw == "not"@
    ||| kw == "if"@
    ||| kw == "then"@
    ||| kw == "else"@
}

/// The capability matrix as a function of target and keyword.
pub open spec fn spec_capability(t: Target, kw: Seq<char>) -> Capability {
    if kw == "const"@ {
        if t == Target::Gemini {
            Capability::Supported
        } else {
            Capability::Rewrite
        }
    } else if is_bounds_kw(kw) {
        if t == Target::Gemini {
            Capability::Supported
        } else {
            Capability::Drop
        }
    } else if kw == "pattern"@ {
        if t == Target::OpenaiStrict {
            Capability::Supported
        } else {
            Capability::Drop
        }
    } else if kw == "format"@ {
        if t == Target::Gemini {
            Capability::Supported
        } else {
            Capability::Drop
        }
    } else if is_conditional_kw(kw) {
        Capability::Drop
    } else if kw == "default"@ {
        Capability::Drop
    } else if kw == "$ref"@ {
        if t == Target::Gemini {
            Capability::Drop
        } else {
            Capability::Supported
        }
    } else {
        Capability::Supported
    }
}

/// Looks a keyword up in the capability matrix.
pub fn capability(t: Target, kw: &str) -> (c: Capability)
    ensures
        c == spec_capability(t, kw@),
{
    if str_eq(kw, "const") {
        if t == Target::Gemini {
            Capability::Supported
        } else {
            Capability::Rewrite
        }
    } else if str_eq(kw, "minimum") || str_eq(kw, "maximum") || str_eq(kw, "exclusiveMinimum")
        || str_eq(kw, "exclusiveMaximum") || str_eq(kw, "multipleOf") || str_eq(kw, "minLength")
        || str_eq(kw, "maxLength") || str_eq(kw, "minItems") || str_eq(kw, "maxItems") || str_eq(
        kw,
        "uniqueItems",
    ) {
        if t == Target::Gemini {
            Capability::Supported
        } else {
            Capability::Drop
        }
    } else if str_eq(kw, "pattern") {
        if t == Target::OpenaiStrict {
            Capability::Supported
        } else {
            Capability::Drop
        }
    } else if str_eq(kw, "format") {
        if t == Target::Gemini {
            Capability::Supported
        } else {
            Capability::Drop
        }
    } else if str_eq(kw, "not") || str_eq(kw, "if") || str_eq(kw, "then") || str_eq(kw, "else") {
        Capability::Drop
    } else if str_eq(kw, "default") {
        Capability::Drop
    } else if str_eq(kw, "$ref") {
        if t == Target::Gemini {
            Capability::Drop
        } else {
            Capability::Supported
        }
    } else {
        Capability::Supported
    }
}

} // verus!
