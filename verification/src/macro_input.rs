//! The arguments of the font macro, each given as `key = value`, in any
//! order: `path`, `half_width` and `full_width` are required; `height` is
//! accepted and optional.
use vstd::prelude::*;

use crate::font_source::{has_literal_at, source_chars};

verus! {

/// An argument of the font macro.
#[derive(Debug, Clone, Copy, PartialEq, Eq, Hash, Structural)]
pub enum MacroArgument {
    Path,
    HalfWidth,
    FullWidth,
    Height,
}

/// The key that names `argument`.
pub open spec fn argument_key(argument: MacroArgument) -> Seq<char> {
    match argument {
        MacroArgument::Path => "path"@,
        MacroArgument::HalfWidth => "half_width"@,
        MacroArgument::FullWidth => "full_width"@,
        MacroArgument::Height => "height"@,
    }
}

/// The argument that `key` names, if any.
pub open spec fn spec_classify_macro_key(key: Seq<char>) -> Option<MacroArgument> {
    if key == argument_key(MacroArgument::Path) {
        Some(MacroArgument::Path)
    } else if key == argument_key(MacroArgument::HalfWidth) {
        Some(MacroArgument::HalfWidth)
    } else if key == argument_key(MacroArgument::FullWidth) {
        Some(MacroArgument::FullWidth)
    } else if key == argument_key(MacroArgument::Height) {
        Some(MacroArgument::Height)
    } else {
        None
    }
}

/// The key that names `argument`.
pub fn argument_key_str(argument: MacroArgument) -> (r: &'static str)
    ensures
        r@ == argument_key(argument),
{
    match argument {
        MacroArgument::Path => "path",
        MacroArgument::HalfWidth => "half_width",
        MacroArgument::FullWidth => "full_width",
        MacroArgument::Height => "height",
    }
}

/// Whether `key` is exactly the text `word`.
fn key_is(key: &[char], word: &str) -> (r: bool)
    ensures
        r == (key@ == word@),
{
    let n = word.unicode_len();
    if key.len() != n {
        return false;
    }
    let r = has_literal_at(key, 0, word);
    proof {
        if r {
            assert(key@.subrange(0, n as int) =~= key@);
        } else if key@ == word@ {
            assert(key@.subrange(0, n as int) =~= key@);
        }
    }
    r
}

/// The argument that `key` names, or `None` for an unknown key.
pub fn classify_macro_key(key: &str) -> (r: Option<MacroArgument>)
    ensures
        r == spec_classify_macro_key(key@),
{
    let chars = source_chars(key);
    let k = chars.as_slice();
    if key_is(k, argument_key_str(MacroArgument::Path)) {
        Some(MacroArgument::Path)
    } else if key_is(k, argument_key_str(MacroArgument::HalfWidth)) {
        Some(MacroArgument::HalfWidth)
    } else if key_is(k, argument_key_str(MacroArgument::FullWidth)) {
        Some(MacroArgument::FullWidth)
    } else if key_is(k, argument_key_str(MacroArgument::Height)) {
        Some(MacroArgument::Height)
    } else {
        None
    }
}

/// The first required argument, in the order `path`, `half_width`,
/// `full_width`, that was not given.
pub open spec fn spec_first_missing_argument(path: bool, half_width: bool, full_width: bool) -> Option<MacroArgument> {
    if !path {
        Some(MacroArgument::Path)
    } else if !half_width {
        Some(MacroArgument::HalfWidth)
    } else if !full_width {
        Some(MacroArgument::FullWidth)
    } else {
        None
    }
}

/// Reports the first required argument that was not given, or `None` when
/// all were.
pub fn first_missing_argument(path: bool, half_width: bool, full_width: bool) -> (r: Option<MacroArgument>)
    ensures
        r == spec_first_missing_argument(path, half_width, full_width),
{
    if !path {
        Some(MacroArgument::Path)
    } else if !half_width {
        Some(MacroArgument::HalfWidth)
    } else if !full_width {
        Some(MacroArgument::FullWidth)
    } else {
        None
    }
}

} // verus!
