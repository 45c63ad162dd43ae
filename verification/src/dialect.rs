//! The identifier rules of the SQL dialect: quoting accepts both
//! double-quote and backtick, and identifiers may begin with Unicode in the
//! Basic Multilingual Plane above U+007F, but never with a digit.
use vstd::prelude::*;

verus! {

/// Whether a character may open a delimited (quoted) identifier.
pub open spec fn spec_delimited_identifier_start(ch: char) -> bool {
    ch == '"' || ch == '`'
}

/// Whether a character may begin an identifier.
pub open spec fn spec_identifier_start(ch: char) -> bool {
    ||| ('a' <= ch && ch <= 'z')
    ||| ('A' <= ch && ch <= 'Z')
    ||| ch == '_'
    ||| ch == '$'
    ||| ('\u{0080}' <= ch && ch <= '\u{ffff}')
}

/// Whether a character may continue an identifier: anything that may begin
/// one, or a decimal digit.
pub open spec fn spec_identifier_part(ch: char) -> bool {
    spec_identifier_start(ch) || ('0' <= ch && ch <= '9')
}

/// The MySQL-flavored dialect with backtick quoting.
#[derive(Debug)]
pub struct MySqlDialectWithBackTicks {}

impl MySqlDialectWithBackTicks {
    pub fn is_delimited_identifier_start(&self, ch: char) -> (r: bool)
        ensures
            r == spec_delimited_identifier_start(ch),
    {
        ch == '"' || ch == '`'
    }

    pub fn is_identifier_start(&self, ch: char) -> (r: bool)
        ensures
            r == spec_identifier_start(ch),
    {
        (ch >= 'a' && ch <= 'z') || (ch >= 'A' && ch <= 'Z') || ch == '_' || ch == '$' || (ch
            >= '\u{0080}' && ch <= '\u{ffff}')
    }

    pub fn is_identifier_part(&self, ch: char) -> (r: bool)
        ensures
            r == spec_identifier_part(ch),
    {
        self.is_identifier_start(ch) || (ch >= '0' && ch <= '9')
    }
}

} // verus!
