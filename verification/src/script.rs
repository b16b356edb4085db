//! The Unicode script of a character, as far as word segmentation needs it.

use vstd::prelude::*;
use unicode_script::UnicodeScript;
use crate::text::str_eq;

verus! {

/// The four-letter ISO 15924 code of the Unicode script of `c` (a fixed
/// property of the character).
pub uninterp spec fn char_script_code(c: char) -> Seq<char>;

/// `UnicodeScript::script` of `unicode-script`, taken by its
/// `Script::short_name`: the four-letter ISO 15924 code of the script of `c`.
/// The contract claims only that the code is a function of the character.
#[verifier::external_body]
pub(crate) fn script_code(c: char) -> (r: &'static str)
    ensures
        r@ == char_script_code(c),
{
    c.script().short_name()
}

/// A character that belongs to a word of a CJK run: its script is Han
/// (`Hani`), Tangut (`Tang`) or Yi (`Yiii`).
pub open spec fn is_cjk(c: char) -> bool {
    let s = char_script_code(c);
    s == "Hani"@ || s == "Tang"@ || s == "Yiii"@
}

/// Whether `ch` is Han, Tangut or Yi.
pub fn is_cjk_word_char(ch: char) -> (r: bool)
    ensures
        r == is_cjk(ch),
{
    let s = script_code(ch);
    str_eq(s, "Hani") || str_eq(s, "Tang") || str_eq(s, "Yiii")
}

} // verus!
