//! What the `#[tool(...)]` attribute decides about the async function it
//! stands on: the tool's name and description, or the error it reports.
//!
//! The attribute's arguments are read as tokens, as the compiler hands
//! them over: `key = "value"` pairs for the keys `name` and
//! `description`, each optionally followed by a comma. The code that the
//! attribute generates around the function (a `Tool` impl that derives a
//! JSON Schema for the arguments and awaits the function) is not produced
//! here.
use vstd::prelude::*;
use vstd::string::StrSliceExecFns;
use vstd::string::StringExecFns;

use crate::error::joined;
use crate::text::{clone_opt_string, str_eq};

verus! {

/// One token of the attribute's arguments.
#[derive(Debug)]
pub enum AttrToken {
    /// An identifier that is not a Rust keyword.
    Ident(String),
    /// A Rust keyword (such as `type` or `fn`).
    Keyword(String),
    /// A punctuation character.
    Punct(char),
    /// A string literal, by its value (escapes resolved).
    Str(String),
    /// Any other token (another literal, a group), by its text.
    Other(String),
}

/// The attribute's arguments.
#[derive(Debug)]
pub struct ToolArgs {
    /// `name = "..."`: the tool's name, if given.
    pub name: Option<String>,
    /// `description = "..."`: the tool's description, if given.
    pub description: Option<String>,
}

/// The tool that the attribute makes of a function.
#[derive(Debug)]
pub struct ToolIdentity {
    /// The name the model calls the tool by.
    pub name: String,
    /// What the tool does, as the model is told.
    pub description: String,
}

/// What the attribute rejects.
#[derive(Debug)]
pub enum ToolAttrError {
    /// An argument does not start with an identifier.
    ExpectedIdent,
    /// An argument starts with this keyword, where an identifier belongs.
    KeywordKey(String),
    /// A key is not followed by `=`.
    ExpectedEq,
    /// A `=` is not followed by a string literal.
    ExpectedString,
    /// A key other than `name` or `description`.
    UnknownKey(String),
    /// The function is not `async`.
    NotAsync,
    /// No description, or an empty one.
    MissingDescription,
}

/// The characters of an optional string.
pub open spec fn opt_chars(o: Option<String>) -> Option<Seq<char>> {
    match o {
        Some(s) => Some(s@),
        None => None,
    }
}

/// Whether the token at `i` is the punctuation `c`.
pub open spec fn punct_at(ts: Seq<AttrToken>, i: int, c: char) -> bool {
    &&& 0 <= i < ts.len()
    &&& ts[i] matches AttrToken::Punct(p) && p == c
}

/// The arguments in `ts` from position `i` on, given the name and
/// description read before `i`: each argument is an identifier, `=` and a
/// string literal, optionally followed by a comma; a later value for a key
/// replaces an earlier one.
pub open spec fn parse_from(
    ts: Seq<AttrToken>,
    i: int,
    name: Option<Seq<char>>,
    description: Option<Seq<char>>,
) -> Result<(Option<Seq<char>>, Option<Seq<char>>), ToolAttrError>
    decreases ts.len() - i,
{
    if i < 0 || i >= ts.len() {
        Ok((name, description))
    } else {
        match ts[i] {
            AttrToken::Ident(key) => if !punct_at(ts, i + 1, '=') {
                Err(ToolAttrError::ExpectedEq)
            } else if i + 2 < ts.len() && ts[i + 2] is Str {
                let v = ts[i + 2]->Str_0@;
                let next = if punct_at(ts, i + 3, ',') {
                    i + 4
                } else {
                    i + 3
                };
                if key@ == "name"@ {
                    parse_from(ts, next, Some(v), description)
                } else if key@ == "description"@ {
                    parse_from(ts, next, name, Some(v))
                } else {
                    Err(ToolAttrError::UnknownKey(key))
                }
            } else {
                Err(ToolAttrError::ExpectedString)
            },
            AttrToken::Keyword(k) => Err(ToolAttrError::KeywordKey(k)),
            _ => Err(ToolAttrError::ExpectedIdent),
        }
    }
}

/// The arguments that the tokens `ts` spell.
pub open spec fn parse_args(ts: Seq<AttrToken>) -> Result<
    (Option<Seq<char>>, Option<Seq<char>>),
    ToolAttrError,
> {
    parse_from(ts, 0, None, None)
}

/// The tool that the attribute with tokens `ts` makes of the function
/// `fn_name`: the attribute must parse, the function must be `async`, and
/// the description must be given and not empty; the name defaults to the
/// function's.
pub open spec fn tool_spec(ts: Seq<AttrToken>, is_async: bool, fn_name: Seq<char>) -> Result<
    (Seq<char>, Seq<char>),
    ToolAttrError,
> {
    match parse_args(ts) {
        Err(e) => Err(e),
        Ok((name, description)) => if !is_async {
            Err(ToolAttrError::NotAsync)
        } else {
            let d = match description {
                Some(d) => d,
                None => Seq::empty(),
            };
            if d.len() == 0 {
                Err(ToolAttrError::MissingDescription)
            } else {
                Ok(
                    (
                        match name {
                            Some(n) => n,
                            None => fn_name,
                        },
                        d,
                    ),
                )
            }
        },
    }
}

/// Whether two errors are the same, keys by their characters.
pub open spec fn same_error(a: ToolAttrError, b: ToolAttrError) -> bool {
    match (a, b) {
        (ToolAttrError::UnknownKey(x), ToolAttrError::UnknownKey(y)) => x@ == y@,
        (ToolAttrError::KeywordKey(x), ToolAttrError::KeywordKey(y)) => x@ == y@,
        _ => a == b,
    }
}

/// The message of an error, as the attribute reports it.
pub open spec fn attr_error_message(e: ToolAttrError) -> Seq<char> {
    match e {
        ToolAttrError::ExpectedIdent => "expected identifier"@,
        ToolAttrError::KeywordKey(k) => "expected identifier, found keyword `"@ + k@ + "`"@,
        ToolAttrError::ExpectedEq => "expected `=`"@,
        ToolAttrError::ExpectedString => "expected string literal"@,
        ToolAttrError::UnknownKey(_) => "unknown #[tool] attribute (expected `name` or `description`)"@,
        ToolAttrError::NotAsync => "`#[tool]` requires the function to be `async`"@,
        ToolAttrError::MissingDescription => "`#[tool]` requires `description = \"...\"`"@,
    }
}

impl ToolAttrError {
    /// The message the attribute reports.
    pub fn message(&self) -> (m: String)
        ensures
            m@ == attr_error_message(*self),
    {
        match self {
            ToolAttrError::ExpectedIdent => String::from_str("expected identifier"),
            ToolAttrError::KeywordKey(k) => {
                let mut m = joined("expected identifier, found keyword `", k.as_str());
                m.append("`");
                m
            },
            ToolAttrError::ExpectedEq => String::from_str("expected `=`"),
            ToolAttrError::ExpectedString => String::from_str("expected string literal"),
            ToolAttrError::UnknownKey(_) => String::from_str(
                "unknown #[tool] attribute (expected `name` or `description`)",
            ),
            ToolAttrError::NotAsync => String::from_str(
                "`#[tool]` requires the function to be `async`",
            ),
            ToolAttrError::MissingDescription => String::from_str(
                "`#[tool]` requires `description = \"...\"`",
            ),
        }
    }
}

impl ToolArgs {
    /// Read the attribute's arguments: `key = "value"` pairs, each
    /// optionally followed by a comma, for the keys `name` and
    /// `description`. A later value for a key replaces an earlier one.
    pub fn parse(ts: &Vec<AttrToken>) -> (r: Result<ToolArgs, ToolAttrError>)
        ensures
            match (r, parse_args(ts@)) {
                (Ok(a), Ok((n, d))) => opt_chars(a.name) == n && opt_chars(a.description) == d,
                (Err(e), Err(f)) => same_error(e, f),
                _ => false,
            },
    {
        let mut name: Option<String> = None;
        let mut description: Option<String> = None;
        let mut i: usize = 0;
        while i < ts.len()
            invariant
                i <= ts@.len(),
                parse_args(ts@) == parse_from(ts@, i as int, opt_chars(name), opt_chars(
                    description,
                )),
            decreases ts.len() - i,
        {
            let key = match &ts[i] {
                AttrToken::Ident(k) => k,
                AttrToken::Keyword(k) => {
                    return Err(ToolAttrError::KeywordKey(k.clone()));
                },
                _ => {
                    return Err(ToolAttrError::ExpectedIdent);
                },
            };
            let eq = i + 1 < ts.len() && match &ts[i + 1] {
                AttrToken::Punct(c) => *c == '=',
                _ => false,
            };
            if !eq {
                return Err(ToolAttrError::ExpectedEq);
            }
            let value = if i + 2 < ts.len() {
                match &ts[i + 2] {
                    AttrToken::Str(v) => v,
                    _ => {
                        return Err(ToolAttrError::ExpectedString);
                    },
                }
            } else {
                return Err(ToolAttrError::ExpectedString);
            };
            let comma = i + 3 < ts.len() && match &ts[i + 3] {
                AttrToken::Punct(c) => *c == ',',
                _ => false,
            };
            let next = if comma {
                i + 4
            } else {
                i + 3
            };
            if str_eq(key.as_str(), "name") {
                name = Some(value.clone());
            } else if str_eq(key.as_str(), "description") {
                description = Some(value.clone());
            } else {
                return Err(ToolAttrError::UnknownKey(key.clone()));
            }
            i = next;
        }
        Ok(ToolArgs { name, description })
    }
}

/// What `#[tool(...)]` makes of the function `fn_name`, given the tokens of
/// its arguments and whether the function is `async`: the tool's name (the
/// `name` argument, else the function's) and its description, or the error
/// the attribute reports. The arguments are read first; then the function
/// must be `async`; then the description must be given and not empty.
pub fn tool(attr: &Vec<AttrToken>, is_async: bool, fn_name: &str) -> (r: Result<
    ToolIdentity,
    ToolAttrError,
>)
    ensures
        match (r, tool_spec(attr@, is_async, fn_name@)) {
            (Ok(t), Ok((n, d))) => t.name@ == n && t.description@ == d,
            (Err(e), Err(f)) => same_error(e, f),
            _ => false,
        },
{
    let args = match ToolArgs::parse(attr) {
        Ok(a) => a,
        Err(e) => {
            return Err(e);
        },
    };
    if !is_async {
        return Err(ToolAttrError::NotAsync);
    }
    let description = match clone_opt_string(&args.description) {
        Some(d) => d,
        None => String::new(),
    };
    if description.as_str().unicode_len() == 0 {
        return Err(ToolAttrError::MissingDescription);
    }
    let name = match clone_opt_string(&args.name) {
        Some(n) => n,
        None => String::from_str(fn_name),
    };
    Ok(ToolIdentity { name, description })
}

} // verus!
