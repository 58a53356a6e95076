//! Colours for diagnostics, from the `colored` crate.
//!
//! Whether a coloured text carries colour codes when it is written out
//! depends on variables of the process and on whether the output is a
//! terminal, so nothing is claimed here of what the written text holds.

use vstd::prelude::*;

verus! {

/// A text with a colour and a style, of the `colored` crate.
#[verifier::external_type_specification]
#[verifier::external_body]
pub struct ExColoredString(colored::ColoredString);

/// `Colorize::red` of the `colored` crate. Nothing is claimed of the result.
#[verifier::external_body]
pub(crate) fn red(text: &str) -> colored::ColoredString {
    colored::Colorize::red(text)
}

/// `Colorize::yellow` of the `colored` crate. Nothing is claimed of the
/// result.
#[verifier::external_body]
pub(crate) fn yellow(text: &str) -> colored::ColoredString {
    colored::Colorize::yellow(text)
}

/// `Colorize::green` of the `colored` crate. Nothing is claimed of the
/// result.
#[verifier::external_body]
pub(crate) fn green(text: &str) -> colored::ColoredString {
    colored::Colorize::green(text)
}

/// `Colorize::bold` of the `colored` crate. Nothing is claimed of the result.
#[verifier::external_body]
pub(crate) fn bold(text: colored::ColoredString) -> colored::ColoredString {
    colored::Colorize::bold(text)
}

/// `ToString::to_string` of the standard library on a coloured text: the
/// text as `colored` displays it. Nothing is claimed of the result.
#[verifier::external_body]
pub(crate) fn written(text: &colored::ColoredString) -> String {
    std::string::ToString::to_string(text)
}

} // verus!
