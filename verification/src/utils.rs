//! Naming helpers and the error of the schema compiler.

use crate::text::concat;
use vstd::prelude::*;

verus! {

/// What can go wrong while the schema is compiled.
#[derive(Debug)]
pub enum BuildError {
    /// A description file could not be read or an output not written.
    IOError(String),
    /// A text of the description cannot be read as what it must be.
    SynError(String),
    /// A name that the description refers to is not defined in it.
    HashMapExpectedSomeError(String),
}

/// The mathematical value of a [`BuildError`].
pub enum BuildErrorView {
    IOError(Seq<char>),
    SynError(Seq<char>),
    HashMapExpectedSomeError(Seq<char>),
}

impl View for BuildError {
    type V = BuildErrorView;

    open spec fn view(&self) -> BuildErrorView {
        match self {
            BuildError::IOError(m) => BuildErrorView::IOError(m@),
            BuildError::SynError(m) => BuildErrorView::SynError(m@),
            BuildError::HashMapExpectedSomeError(k) => BuildErrorView::HashMapExpectedSomeError(k@),
        }
    }
}

impl BuildError {
    /// The error's message.
    pub fn message(&self) -> (r: String)
        ensures
            r@ == match self@ {
                BuildErrorView::IOError(m) => "I/O error: "@ + m,
                BuildErrorView::SynError(m) => "Syn error: "@ + m,
                BuildErrorView::HashMapExpectedSomeError(k) => "Expected "@ + k
                    + " to exist, but found None"@,
            },
    {
        match self {
            BuildError::IOError(m) => concat("I/O error: ", m.as_str()),
            BuildError::SynError(m) => concat("Syn error: ", m.as_str()),
            BuildError::HashMapExpectedSomeError(k) => {
                let head = concat("Expected ", k.as_str());
                concat(head.as_str(), " to exist, but found None")
            },
        }
    }
}

/// The error for a name that is not defined.
pub fn missing(key: &str) -> (e: BuildError)
    ensures
        e@ == BuildErrorView::HashMapExpectedSomeError(key@),
{
    BuildError::HashMapExpectedSomeError(key.to_owned())
}

/// The error for a text that cannot be read.
pub fn unreadable(text: &str) -> (e: BuildError)
    ensures
        e@ == BuildErrorView::SynError(text@),
{
    BuildError::SynError(text.to_owned())
}

/// The snake case form of a name, as `heck` computes it.
pub uninterp spec fn snake_case(name: Seq<char>) -> Seq<char>;

/// The upper camel case form of a name, as `heck` computes it.
pub uninterp spec fn upper_camel_case(name: Seq<char>) -> Seq<char>;

/// `heck::ToSnakeCase::to_snake_case` on a string slice. The result is a
/// function of the characters of `name` alone; it is named, not spelled out.
#[verifier::external_body]
pub(crate) fn to_snake_case(name: &str) -> (r: String)
    ensures
        r@ == snake_case(name@),
{
    heck::ToSnakeCase::to_snake_case(name)
}

/// `heck::ToUpperCamelCase::to_upper_camel_case` on a string slice. The
/// result is a function of the characters of `name` alone; it is named, not
/// spelled out.
#[verifier::external_body]
pub(crate) fn to_upper_camel_case(name: &str) -> (r: String)
    ensures
        r@ == upper_camel_case(name@),
{
    heck::ToUpperCamelCase::to_upper_camel_case(name)
}

/// The words that cannot stand as a field name without the raw prefix.
pub open spec fn is_reserved_field_name(name: Seq<char>) -> bool {
    ||| name == "if"@
    ||| name == "else"@
    ||| name == "ref"@
    ||| name == "type"@
    ||| name == "macro"@
    ||| name == "loop"@
    ||| name == "mod"@
    ||| name == "override"@
    ||| name == "for"@
    ||| name == "in"@
    ||| name == "box"@
    ||| name == "final"@
    ||| name == "break"@
}

/// A field name made usable: a reserved word gets the prefix `r#`.
pub open spec fn escaped_field_name(name: Seq<char>) -> Seq<char> {
    if is_reserved_field_name(name) {
        "r#"@ + name
    } else {
        name
    }
}

/// The words that cannot stand as a type name without a leading `_`.
pub open spec fn is_reserved_type_name(name: Seq<char>) -> bool {
    name == "self"@ || name == "Self"@
}

/// A type name made usable: a reserved word gets a leading `_`.
pub open spec fn escaped_type_name(name: Seq<char>) -> Seq<char> {
    if is_reserved_type_name(name) {
        "_"@ + name
    } else {
        name
    }
}

pub open spec fn escaped_snake_case(name: Seq<char>) -> Seq<char> {
    escaped_field_name(snake_case(name))
}

pub open spec fn escaped_upper_camel_case(name: Seq<char>) -> Seq<char> {
    escaped_type_name(upper_camel_case(name))
}

/// Escapes a name that is already in snake case.
pub fn escape_field_name(name: String) -> (r: String)
    ensures
        r@ == escaped_field_name(name@),
{
    let n = name.as_str();
    if n.eq("if") || n.eq("else") || n.eq("ref") || n.eq("type") || n.eq("macro") || n.eq("loop")
        || n.eq("mod") || n.eq("override") || n.eq("for") || n.eq("in") || n.eq("box") || n.eq(
        "final",
    ) || n.eq("break") {
        concat("r#", n)
    } else {
        name
    }
}

/// Escapes a name that is already in upper camel case.
pub fn escape_type_name(name: String) -> (r: String)
    ensures
        r@ == escaped_type_name(name@),
{
    let n = name.as_str();
    if n.eq("self") || n.eq("Self") {
        concat("_", n)
    } else {
        name
    }
}

/// The snake case form of `name`, escaped where it is a reserved word.
pub fn escape_snake_case(name: &str) -> (r: String)
    ensures
        r@ == escaped_snake_case(name@),
{
    escape_field_name(to_snake_case(name))
}

/// The upper camel case form of `name`, escaped where it is a reserved word.
pub fn escape_upper_camel_case(name: &str) -> (r: String)
    ensures
        r@ == escaped_upper_camel_case(name@),
{
    escape_type_name(to_upper_camel_case(name))
}

} // verus!
