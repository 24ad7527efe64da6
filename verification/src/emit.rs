use vstd::prelude::*;

use std::io::Write;

verus! {

#[verifier::external_type_specification]
#[verifier::external_body]
pub struct ExBuilder(string_builder::Builder);

/// The text a builder holds: the characters its byte buffer decodes to.
pub uninterp spec fn builder_rep(b: string_builder::Builder) -> Seq<char>;

/// Relies on string_builder::Builder::default: a fresh builder holds an
/// empty buffer, so its text is empty.
#[verifier::external_body]
pub fn builder_new() -> (b: string_builder::Builder)
    ensures
        builder_rep(b) == Seq::<char>::empty(),
{
    string_builder::Builder::default()
}

/// Relies on string_builder::Builder::append for &str: it appends exactly
/// the string's bytes to the buffer, so the builder's text grows by the
/// string's characters.
#[verifier::external_body]
pub fn builder_append(b: &mut string_builder::Builder, s: &str)
    ensures
        builder_rep(*final(b)) == builder_rep(*old(b)) + s@,
{
    b.append(s)
}

/// Relies on string_builder::Builder::string: it returns the buffer as a
/// `String` when the buffer is valid text, which it always is when only
/// string slices were appended, and fails otherwise.
#[verifier::external_body]
pub fn builder_take_string(b: string_builder::Builder) -> (r: Option<String>)
    ensures
        r matches Some(s) ==> s@ == builder_rep(b),
{
    match b.string() {
        Ok(s) => Some(s),
        Err(_) => None,
    }
}

/// Relies on writeln to std::io::stdout: streams one line — the given
/// text and a line break — to standard output.  A failure to write is
/// ignored; nothing is promised of the stream.
#[verifier::external_body]
pub(crate) fn emit_line(s: &str) {
    let mut out = std::io::stdout();
    let _ = writeln!(out, "{}", s);
}

} // verus!
