//! Recognition of formatting-control directives.
//!
//! A directive is an HTML-comment-style block whose trimmed text spells one
//! of five markers.  Recognition is a pure classification: no state.

use vstd::prelude::*;

verus! {

use crate::text::trimmed;

/// The five formatting-control directives.
#[derive(Clone, Copy, PartialEq, Eq, Structural, Debug)]
pub enum Directive {
    /// Disable canonical formatting for the rest of the document.
    DisableFile,
    /// Skip canonical formatting for exactly the next top-level block.
    DisableNextLine,
    /// Skip canonical formatting until the next heading of level at most two.
    DisableNextSection,
    /// Turn canonical formatting off until re-enabled.
    Disable,
    /// Turn canonical formatting back on.
    Enable,
}

/// The directive spelled by `s`, if any: the trimmed text must equal one of
/// the five marker comments exactly.
pub open spec fn directive_of(s: Seq<char>) -> Option<Directive> {
    if trimmed(s) == "<!-- format:disable-file -->"@ {
        Some(Directive::DisableFile)
    } else if trimmed(s) == "<!-- format:disable-next-line -->"@ {
        Some(Directive::DisableNextLine)
    } else if trimmed(s) == "<!-- format:disable-next-section -->"@ {
        Some(Directive::DisableNextSection)
    } else if trimmed(s) == "<!-- format:disable -->"@ {
        Some(Directive::Disable)
    } else if trimmed(s) == "<!-- format:enable -->"@ {
        Some(Directive::Enable)
    } else {
        None
    }
}

impl Directive {
    /// Classify a literal block text as a directive, or not.
    pub fn parse(literal: &[char]) -> (r: Option<Directive>)
        ensures
            r == directive_of(literal@),
    {
        let t = crate::text::trim_blanks(literal);
        if crate::text::eq_str(t.as_slice(), "<!-- format:disable-file -->") {
            Some(Directive::DisableFile)
        } else if crate::text::eq_str(t.as_slice(), "<!-- format:disable-next-line -->") {
            Some(Directive::DisableNextLine)
        } else if crate::text::eq_str(t.as_slice(), "<!-- format:disable-next-section -->") {
            Some(Directive::DisableNextSection)
        } else if crate::text::eq_str(t.as_slice(), "<!-- format:disable -->") {
            Some(Directive::Disable)
        } else if crate::text::eq_str(t.as_slice(), "<!-- format:enable -->") {
            Some(Directive::Enable)
        } else {
            None
        }
    }
}

/// What one non-directive block does to the directive state: whether it is
/// passed through verbatim, and the flags afterwards.  Any of the three
/// scopes forces passthrough; a one-shot skip is consumed by the block; a
/// section scope ends at a heading of level at most two, which is itself
/// rendered normally.
pub open spec fn spec_decide_block(
    disabled: bool,
    skip_next: bool,
    skip_section: bool,
    heading_le2: bool,
) -> (bool, bool, bool, bool) {
    if disabled || skip_next || skip_section {
        if skip_section && heading_le2 {
            (false, disabled, false, false)
        } else {
            (true, disabled, false, skip_section)
        }
    } else {
        (false, disabled, skip_next, skip_section)
    }
}

/// What a directive does to the three flags (`DisableFile` short-circuits
/// the whole remaining document instead and never reaches this point).
pub open spec fn spec_apply_directive(
    d: Directive,
    disabled: bool,
    skip_next: bool,
    skip_section: bool,
) -> (bool, bool, bool) {
    match d {
        Directive::Disable => (true, skip_next, skip_section),
        Directive::Enable => (false, skip_next, skip_section),
        Directive::DisableNextLine => (disabled, true, skip_section),
        Directive::DisableNextSection => (disabled, skip_next, true),
        Directive::DisableFile => (disabled, skip_next, skip_section),
    }
}

/// Decide one block's fate from the directive flags.
pub fn decide_block(disabled: bool, skip_next: bool, skip_section: bool, heading_le2: bool) -> (r:
    (bool, bool, bool, bool))
    ensures
        r == spec_decide_block(disabled, skip_next, skip_section, heading_le2),
{
    if disabled || skip_next || skip_section {
        if skip_section && heading_le2 {
            (false, disabled, false, false)
        } else {
            (true, disabled, false, skip_section)
        }
    } else {
        (false, disabled, skip_next, skip_section)
    }
}

/// Apply a directive to the flags.
pub fn apply_directive(d: Directive, disabled: bool, skip_next: bool, skip_section: bool) -> (r: (
    bool,
    bool,
    bool,
))
    ensures
        r == spec_apply_directive(d, disabled, skip_next, skip_section),
{
    match d {
        Directive::Disable => (true, skip_next, skip_section),
        Directive::Enable => (false, skip_next, skip_section),
        Directive::DisableNextLine => (disabled, true, skip_section),
        Directive::DisableNextSection => (disabled, skip_next, true),
        Directive::DisableFile => (disabled, skip_next, skip_section),
    }
}

} // verus!
