//! Changes of case and number for names, for use as template filters. The
//! rules of each are those of the `heck` and `cruet` crates; this module
//! gives their results names and states nothing more of them.

use vstd::prelude::*;

verus! {

/// What `heck` makes of a text as snake case (`to_snake_case`).
pub uninterp spec fn snake_cased(value: Seq<char>) -> Seq<char>;

/// What `heck` makes of a text as lower camel case (`to_lower_camel_case`).
pub uninterp spec fn lower_camel_cased(value: Seq<char>) -> Seq<char>;

/// What `heck` makes of a text as kebab case (`to_kebab_case`).
pub uninterp spec fn kebab_cased(value: Seq<char>) -> Seq<char>;

/// What `heck` makes of a text as Pascal case (`to_pascal_case`).
pub uninterp spec fn pascal_cased(value: Seq<char>) -> Seq<char>;

/// What `cruet` gives as the plural of a text (`to_plural`).
pub uninterp spec fn pluralized(value: Seq<char>) -> Seq<char>;

/// Trusted: `heck::ToSnakeCase::to_snake_case` on a string slice returns a
/// text that depends on the given text alone.
#[verifier::external_body]
fn heck_snake(value: &str) -> (r: String)
    ensures
        r@ == snake_cased(value@),
{
    heck::ToSnakeCase::to_snake_case(value)
}

/// Trusted: `heck::ToLowerCamelCase::to_lower_camel_case` on a string slice
/// returns a text that depends on the given text alone.
#[verifier::external_body]
fn heck_lower_camel(value: &str) -> (r: String)
    ensures
        r@ == lower_camel_cased(value@),
{
    heck::ToLowerCamelCase::to_lower_camel_case(value)
}

/// Trusted: `heck::ToKebabCase::to_kebab_case` on a string slice returns a
/// text that depends on the given text alone.
#[verifier::external_body]
fn heck_kebab(value: &str) -> (r: String)
    ensures
        r@ == kebab_cased(value@),
{
    heck::ToKebabCase::to_kebab_case(value)
}

/// Trusted: `heck::ToPascalCase::to_pascal_case` on a string slice returns a
/// text that depends on the given text alone.
#[verifier::external_body]
fn heck_pascal(value: &str) -> (r: String)
    ensures
        r@ == pascal_cased(value@),
{
    heck::ToPascalCase::to_pascal_case(value)
}

/// Trusted: `cruet::string::pluralize::to_plural` returns a text that depends
/// on the given text alone.
#[verifier::external_body]
fn cruet_plural(value: &str) -> (r: String)
    ensures
        r@ == pluralized(value@),
{
    cruet::string::pluralize::to_plural(value)
}

/// The value in snake case: words in lower case, joined by underscores.
pub fn snake_case(value: String) -> (r: String)
    ensures
        r@ == snake_cased(value@),
{
    heck_snake(value.as_str())
}

/// The value in camel case with a lower-case first word.
pub fn camel_case(value: String) -> (r: String)
    ensures
        r@ == lower_camel_cased(value@),
{
    heck_lower_camel(value.as_str())
}

/// The value in kebab case: words in lower case, joined by hyphens.
pub fn kebab_case(value: String) -> (r: String)
    ensures
        r@ == kebab_cased(value@),
{
    heck_kebab(value.as_str())
}

/// The value in Pascal case: each word capitalised, nothing between them.
pub fn pascal_case(value: String) -> (r: String)
    ensures
        r@ == pascal_cased(value@),
{
    heck_pascal(value.as_str())
}

/// The value in camel case with a lower-case first word.
pub fn lower_camel_case(value: String) -> (r: String)
    ensures
        r@ == lower_camel_cased(value@),
{
    heck_lower_camel(value.as_str())
}

/// The plural of the value.
pub fn plural(value: String) -> (r: String)
    ensures
        r@ == pluralized(value@),
{
    cruet_plural(value.as_str())
}

} // verus!
