//! Terminal predicates: the capabilities a `Rule::Terminal` applies to a
//! single token. A predicate maps a character to `Some(output)` (match) or
//! `None` (mismatch). Character classification is delegated to the
//! `unicode_general_category` crate behind trusted wrappers.

use vstd::prelude::*;

use unicode_general_category::GeneralCategory;

verus! {

#[verifier::external_type_specification]
#[verifier::external_body]
pub struct ExGeneralCategory(GeneralCategory);

/// What `unicode_general_category::get_general_category` decides for a
/// character and a category: the classification depends on the character and
/// the category alone.
pub uninterp spec fn cat_matches(c: char, g: GeneralCategory) -> bool;

/// Whether a character falls in the Unicode general category Nd
/// (decimal number), as `unicode_general_category` classifies it.
pub uninterp spec fn is_decimal_digit(c: char) -> bool;

/// Relies on `unicode_general_category::get_general_category`: the general
/// category of a character is a pure function of the character, computed
/// from constant tables.
#[verifier::external_body]
fn char_in_category(c: char, g: GeneralCategory) -> (r: bool)
    ensures
        r == cat_matches(c, g),
{
    unicode_general_category::get_general_category(c) == g
}

/// Relies on `unicode_general_category::get_general_category`: a character is
/// a decimal digit exactly when its general category is
/// `GeneralCategory::DecimalNumber`.
#[verifier::external_body]
fn char_is_decimal_digit(c: char) -> (r: bool)
    ensures
        r == is_decimal_digit(c),
{
    unicode_general_category::get_general_category(c) == GeneralCategory::DecimalNumber
}

/// A terminal predicate over characters.
pub enum Pred {
    /// Matches exactly the given character.
    Char(char),
    /// Matches any character of the given Unicode general category.
    Cat(GeneralCategory),
    /// Matches any decimal digit (Unicode general category Nd).
    Digit,
}

/// The mathematical content of a `Pred`.
pub enum PredS {
    Char(char),
    Cat(GeneralCategory),
    Digit,
}

impl View for Pred {
    type V = PredS;

    open spec fn view(&self) -> PredS {
        match *self {
            Pred::Char(a) => PredS::Char(a),
            Pred::Cat(g) => PredS::Cat(g),
            Pred::Digit => PredS::Digit,
        }
    }
}

/// What a predicate returns for a character: the matched character itself,
/// or nothing.
pub open spec fn pred_matches(p: PredS, c: char) -> Option<char> {
    match p {
        PredS::Char(a) => if c == a {
            Some(c)
        } else {
            None
        },
        PredS::Cat(g) => if cat_matches(c, g) {
            Some(c)
        } else {
            None
        },
        PredS::Digit => if is_decimal_digit(c) {
            Some(c)
        } else {
            None
        },
    }
}

impl Pred {
    /// Applies the predicate to one token.
    pub fn apply(&self, c: char) -> (r: Option<char>)
        ensures
            r == pred_matches(self@, c),
    {
        match *self {
            Pred::Char(a) => if c == a {
                Some(c)
            } else {
                None
            },
            Pred::Cat(g) => if char_in_category(c, g) {
                Some(c)
            } else {
                None
            },
            Pred::Digit => if char_is_decimal_digit(c) {
                Some(c)
            } else {
                None
            },
        }
    }
}

/// The predicate that recognises exactly the character `a`.
pub fn innit(a: char) -> (p: Pred)
    ensures
        p@ == PredS::Char(a),
{
    Pred::Char(a)
}

/// The predicate that recognises any character of general category `a`.
pub fn is_cat(a: GeneralCategory) -> (p: Pred)
    ensures
        p@ == PredS::Cat(a),
{
    Pred::Cat(a)
}

/// The predicate that recognises any decimal digit.
pub fn is_digit() -> (p: Pred)
    ensures
        p@ == PredS::Digit,
{
    Pred::Digit
}

} // verus!
