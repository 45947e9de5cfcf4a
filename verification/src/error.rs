//! Typed error model for the harness.
//!
//! All harness functions return `Result<T, HarnessError>`. The engine
//! reports its failures as `KIND:message` strings, which
//! [`HarnessError::from_ffi`] decodes into these variants.
use vstd::prelude::*;
use vstd::string::StrSliceExecFns;
use vstd::string::StringExecFns;
use vstd::string::to_string_from_display_ensures;

use crate::text::str_eq;

verus! {

/// Every failure the harness reports.
#[derive(Debug, PartialEq, Eq)]
pub enum HarnessError {
    /// I/O failure (file missing, registry unreadable, etc.), by its message.
    Io(String),
    /// Underlying llama.cpp / harness-engine failure.
    Backend(String),
    /// User cancelled a stream mid-flight.
    Cancelled,
    /// The requested model is not loaded.
    NoSuchModel(String),
    /// The model ID is already loaded.
    AlreadyLoaded(String),
    /// Caller passed invalid arguments (bad schema, malformed spec).
    InvalidArg(String),
    /// A model is referenced that has not been loaded.
    ModelNotLoaded(String),
    /// No active model is set and the request required one.
    NoActiveModel,
    /// Harness-engine (FFI) failure.
    Engine(String),
    /// Tool execution failed (returned Err from the user function).
    ToolExecution {
        /// Tool name as registered.
        name: String,
        /// Error message returned from the tool.
        message: String,
    },
    /// Tool schema validation failed (missing fields, bad types).
    InvalidSchema {
        /// Tool name.
        name: String,
        /// Reason.
        message: String,
    },
    /// The model tried to call a tool that isn't registered.
    UnknownTool(String),
    /// The model's output failed to parse as a valid tool call or
    /// matched no recognizable pattern.
    MalformedToolCall(String),
    /// Tried to load too many models (over the configured cap).
    CapacityExceeded {
        /// Configured cap.
        max: usize,
    },
    /// Reached `max_tool_iterations` without the model emitting a final answer.
    IterationLimit {
        /// Configured limit.
        limit: usize,
    },
    /// Anything else.
    Other(String),
}

impl Clone for HarnessError {
    fn clone(&self) -> (r: HarnessError)
        ensures
            r == *self,
    {
        match self {
            HarnessError::Io(s) => HarnessError::Io(s.clone()),
            HarnessError::Backend(s) => HarnessError::Backend(s.clone()),
            HarnessError::Cancelled => HarnessError::Cancelled,
            HarnessError::NoSuchModel(s) => HarnessError::NoSuchModel(s.clone()),
            HarnessError::AlreadyLoaded(s) => HarnessError::AlreadyLoaded(s.clone()),
            HarnessError::InvalidArg(s) => HarnessError::InvalidArg(s.clone()),
            HarnessError::ModelNotLoaded(s) => HarnessError::ModelNotLoaded(s.clone()),
            HarnessError::NoActiveModel => HarnessError::NoActiveModel,
            HarnessError::Engine(s) => HarnessError::Engine(s.clone()),
            HarnessError::ToolExecution { name, message } => HarnessError::ToolExecution {
                name: name.clone(),
                message: message.clone(),
            },
            HarnessError::InvalidSchema { name, message } => HarnessError::InvalidSchema {
                name: name.clone(),
                message: message.clone(),
            },
            HarnessError::UnknownTool(s) => HarnessError::UnknownTool(s.clone()),
            HarnessError::MalformedToolCall(s) => HarnessError::MalformedToolCall(s.clone()),
            HarnessError::CapacityExceeded { max } => HarnessError::CapacityExceeded { max: *max },
            HarnessError::IterationLimit { limit } => HarnessError::IterationLimit {
                limit: *limit,
            },
            HarnessError::Other(s) => HarnessError::Other(s.clone()),
        }
    }
}

/// Crate-local Result alias.
pub type Result<T> = core::result::Result<T, HarnessError>;

/// Whether `s` holds `c` before position `n`.
pub open spec fn occurs_before(s: Seq<char>, c: char, n: int) -> bool {
    exists|i: int| 0 <= i < n && s[i] == c
}

/// `i` is the position of the first `c` in `s`.
pub open spec fn is_first_index(s: Seq<char>, c: char, i: int) -> bool {
    0 <= i < s.len() && s[i] == c && !occurs_before(s, c, i)
}

/// The kind and the message of an encoded engine error: the text before
/// and after the first `:`, or the kind `0` and the whole text when there
/// is no `:`.
pub open spec fn ffi_parts(encoded: Seq<char>) -> (Seq<char>, Seq<char>) {
    if occurs_before(encoded, ':', encoded.len() as int) {
        let i = choose|i: int| is_first_index(encoded, ':', i);
        (encoded.take(i), encoded.skip(i + 1))
    } else {
        ("0"@, encoded)
    }
}

/// The error that the engine's encoding `encoded` stands for.
pub open spec fn decodes_as(encoded: Seq<char>, e: HarnessError) -> bool {
    let kind = ffi_parts(encoded).0;
    let m = ffi_parts(encoded).1;
    if kind == "1"@ || kind == "2"@ {
        e matches HarnessError::InvalidArg(s) && s@ == m
    } else if kind == "3"@ {
        e matches HarnessError::Backend(s) && s@ == m
    } else if kind == "4"@ {
        e is Cancelled
    } else if kind == "5"@ {
        e matches HarnessError::Backend(s) && s@ == "model busy: "@ + m
    } else if kind == "6"@ {
        e matches HarnessError::NoSuchModel(s) && s@ == m
    } else if kind == "7"@ {
        e matches HarnessError::Backend(s) && s@ == "tokenization: "@ + m
    } else if kind == "8"@ {
        e matches HarnessError::InvalidSchema { name, message } && name@ == "<unknown>"@
            && message@ == m
    } else if kind == "9"@ {
        e matches HarnessError::Io(s) && s@ == m
    } else {
        e matches HarnessError::Other(s) && s@ == m
    }
}

/// The text of one decimal digit.
pub open spec fn digit_text(d: nat) -> Seq<char> {
    if d == 0 {
        "0"@
    } else if d == 1 {
        "1"@
    } else if d == 2 {
        "2"@
    } else if d == 3 {
        "3"@
    } else if d == 4 {
        "4"@
    } else if d == 5 {
        "5"@
    } else if d == 6 {
        "6"@
    } else if d == 7 {
        "7"@
    } else if d == 8 {
        "8"@
    } else {
        "9"@
    }
}

/// The decimal representation of `n`, without leading zeros.
pub open spec fn decimal(n: nat) -> Seq<char>
    decreases n,
{
    if n < 10 {
        digit_text(n)
    } else {
        decimal(n / 10) + digit_text(n % 10)
    }
}

fn digit_str(d: usize) -> (s: &'static str)
    requires
        d < 10,
    ensures
        s@ == digit_text(d as nat),
{
    if d == 0 {
        "0"
    } else if d == 1 {
        "1"
    } else if d == 2 {
        "2"
    } else if d == 3 {
        "3"
    } else if d == 4 {
        "4"
    } else if d == 5 {
        "5"
    } else if d == 6 {
        "6"
    } else if d == 7 {
        "7"
    } else if d == 8 {
        "8"
    } else {
        "9"
    }
}

/// Appends the decimal representation of `n` to `s`.
pub fn push_decimal(s: &mut String, n: usize)
    ensures
        final(s)@ == old(s)@ + decimal(n as nat),
    decreases n,
{
    if n >= 10 {
        push_decimal(s, n / 10);
    }
    s.append(digit_str(n % 10));
}

/// The human-readable message of an error.
pub open spec fn display_text(e: HarnessError) -> Seq<char> {
    match e {
        HarnessError::Io(s) => "io: "@ + s@,
        HarnessError::Backend(s) => "backend: "@ + s@,
        HarnessError::Cancelled => "cancelled"@,
        HarnessError::NoSuchModel(s) => "no such model: "@ + s@,
        HarnessError::AlreadyLoaded(s) => "model already loaded: "@ + s@,
        HarnessError::InvalidArg(s) => "invalid argument: "@ + s@,
        HarnessError::ModelNotLoaded(s) => "model not loaded: "@ + s@,
        HarnessError::NoActiveModel => "no active model"@,
        HarnessError::Engine(s) => "engine: "@ + s@,
        HarnessError::ToolExecution { name, message } => "tool '"@ + name@ + "' failed: "@
            + message@,
        HarnessError::InvalidSchema { name, message } => "invalid tool schema for '"@ + name@
            + "': "@ + message@,
        HarnessError::UnknownTool(s) => "unknown tool: "@ + s@,
        HarnessError::MalformedToolCall(s) => "malformed tool call: "@ + s@,
        HarnessError::CapacityExceeded { max } => "model capacity exceeded (max "@ + decimal(
            max as nat,
        ) + ")"@,
        HarnessError::IterationLimit { limit } => "tool iteration limit reached ("@ + decimal(
            limit as nat,
        ) + ") without final answer"@,
        HarnessError::Other(s) => "other: "@ + s@,
    }
}

/// `prefix` followed by `s`, as a new string.
pub fn joined(prefix: &str, s: &str) -> (r: String)
    ensures
        r@ == prefix@ + s@,
{
    let mut r = String::from_str(prefix);
    r.append(s);
    r
}

impl HarnessError {
    /// Decode a `KIND:message` string emitted by the engine.
    pub fn from_ffi(encoded: &str) -> (e: HarnessError)
        ensures
            decodes_as(encoded@, e),
    {
        let n = encoded.unicode_len();
        let mut i: usize = 0;
        let mut found = false;
        while i < n
            invariant_except_break
                !found,
            invariant
                n == encoded@.len(),
                i <= n,
                !occurs_before(encoded@, ':', i as int),
            ensures
                found ==> is_first_index(encoded@, ':', i as int),
                !found ==> i == n && !occurs_before(encoded@, ':', n as int),
            decreases n - i,
        {
            if encoded.get_char(i) == ':' {
                found = true;
                break;
            }
            i += 1;
        }
        let ghost parts = ffi_parts(encoded@);
        let (kind, message) = if found {
            proof {
                let c = choose|c: int| is_first_index(encoded@, ':', c);
                assert(is_first_index(encoded@, ':', i as int));
                if c < i {
                    assert(encoded@[c] == ':');
                    assert(occurs_before(encoded@, ':', i as int));
                } else if c > i {
                    assert(occurs_before(encoded@, ':', c));
                }
                assert(c == i);
            }
            (encoded.substring_char(0, i), encoded.substring_char(i + 1, n))
        } else {
            ("0", encoded)
        };
        assert(kind@ == parts.0);
        assert(message@ == parts.1);
        if str_eq(kind, "1") || str_eq(kind, "2") {
            HarnessError::InvalidArg(message.to_owned())
        } else if str_eq(kind, "3") {
            HarnessError::Backend(message.to_owned())
        } else if str_eq(kind, "4") {
            HarnessError::Cancelled
        } else if str_eq(kind, "5") {
            HarnessError::Backend(joined("model busy: ", message))
        } else if str_eq(kind, "6") {
            HarnessError::NoSuchModel(message.to_owned())
        } else if str_eq(kind, "7") {
            HarnessError::Backend(joined("tokenization: ", message))
        } else if str_eq(kind, "8") {
            HarnessError::InvalidSchema {
                name: String::from_str("<unknown>"),
                message: message.to_owned(),
            }
        } else if str_eq(kind, "9") {
            HarnessError::Io(message.to_owned())
        } else {
            HarnessError::Other(message.to_owned())
        }
    }

    /// The human-readable message of this error (what `Display` prints).
    pub fn to_string(&self) -> (r: String)
        ensures
            r@ == display_text(*self),
    {
        match self {
            HarnessError::Io(s) => joined("io: ", s.as_str()),
            HarnessError::Backend(s) => joined("backend: ", s.as_str()),
            HarnessError::Cancelled => String::from_str("cancelled"),
            HarnessError::NoSuchModel(s) => joined("no such model: ", s.as_str()),
            HarnessError::AlreadyLoaded(s) => joined("model already loaded: ", s.as_str()),
            HarnessError::InvalidArg(s) => joined("invalid argument: ", s.as_str()),
            HarnessError::ModelNotLoaded(s) => joined("model not loaded: ", s.as_str()),
            HarnessError::NoActiveModel => String::from_str("no active model"),
            HarnessError::Engine(s) => joined("engine: ", s.as_str()),
            HarnessError::ToolExecution { name, message } => {
                let mut r = joined("tool '", name.as_str());
                r.append("' failed: ");
                r.append(message.as_str());
                r
            },
            HarnessError::InvalidSchema { name, message } => {
                let mut r = joined("invalid tool schema for '", name.as_str());
                r.append("': ");
                r.append(message.as_str());
                r
            },
            HarnessError::UnknownTool(s) => joined("unknown tool: ", s.as_str()),
            HarnessError::MalformedToolCall(s) => joined("malformed tool call: ", s.as_str()),
            HarnessError::CapacityExceeded { max } => {
                let mut r = String::from_str("model capacity exceeded (max ");
                push_decimal(&mut r, *max);
                r.append(")");
                r
            },
            HarnessError::IterationLimit { limit } => {
                let mut r = String::from_str("tool iteration limit reached (");
                push_decimal(&mut r, *limit);
                r.append(") without final answer");
                r
            },
            HarnessError::Other(s) => joined("other: ", s.as_str()),
        }
    }
}

/// Display adapter for a [`HarnessError`], for callers that format errors
/// without naming the error type.
pub struct DisplayErr<'a>(pub &'a HarnessError);

impl<'a> DisplayErr<'a> {
    /// The message of the wrapped error.
    pub fn to_string(&self) -> (r: String)
        ensures
            r@ == display_text(*self.0),
    {
        self.0.to_string()
    }
}

/// An I/O error, as std reports it.
#[verifier::external_type_specification]
#[verifier::external_body]
pub struct ExIoError(std::io::Error);

/// A JSON error, as `serde_json` reports it.
#[verifier::external_type_specification]
#[verifier::external_body]
pub struct ExJsonError(serde_json::Error);

/// A TOML parse error, as `toml` reports it.
#[verifier::external_type_specification]
#[verifier::external_body]
pub struct ExTomlError(toml::de::Error);

/// Any error, as `anyhow` carries it.
#[verifier::external_type_specification]
#[verifier::external_body]
pub struct ExAnyError(anyhow::Error);

impl From<std::io::Error> for HarnessError {
    /// An I/O failure, by its message.
    fn from(e: std::io::Error) -> (r: HarnessError)
        ensures
            r matches HarnessError::Io(m) && to_string_from_display_ensures::<std::io::Error>(
                &e,
                m,
            ),
    {
        HarnessError::Io(e.to_string())
    }
}

impl vstd::std_specs::convert::FromSpecImpl<std::io::Error> for HarnessError {
    /// `from` states the variant and relates the message to the error's
    /// `Display`; no spec function gives that text as a value.
    open spec fn obeys_from_spec() -> bool {
        false
    }

    open spec fn from_spec(e: std::io::Error) -> HarnessError {
        arbitrary()
    }
}

impl From<serde_json::Error> for HarnessError {
    /// A JSON failure is an invalid argument: `json: ` and the error's message.
    fn from(e: serde_json::Error) -> (r: HarnessError)
        ensures
            r matches HarnessError::InvalidArg(m) && exists|t: String|
                #[trigger] to_string_from_display_ensures::<serde_json::Error>(&e, t) && m@
                    == "json: "@ + t@,
    {
        let t = e.to_string();
        HarnessError::InvalidArg(joined("json: ", t.as_str()))
    }
}

impl vstd::std_specs::convert::FromSpecImpl<serde_json::Error> for HarnessError {
    /// `from` states the variant and relates the message to the error's
    /// `Display`; no spec function gives that text as a value.
    open spec fn obeys_from_spec() -> bool {
        false
    }

    open spec fn from_spec(e: serde_json::Error) -> HarnessError {
        arbitrary()
    }
}

/// The message of a TOML parse error (its `Display`).
pub uninterp spec fn toml_error_text(e: toml::de::Error) -> Seq<char>;

/// `toml::de::Error`'s `Display`: the error's message, which the error's
/// own fields (its message, the input and the span) determine.
#[verifier::external_body]
fn toml_error_message(e: &toml::de::Error) -> (t: String)
    ensures
        t@ == toml_error_text(*e),
{
    e.to_string()
}

impl From<toml::de::Error> for HarnessError {
    /// A TOML failure is an invalid argument: `toml: ` and the error's message.
    fn from(e: toml::de::Error) -> (r: HarnessError)
        ensures
            r matches HarnessError::InvalidArg(m) && m@ == "toml: "@ + toml_error_text(e),
    {
        let t = toml_error_message(&e);
        HarnessError::InvalidArg(joined("toml: ", t.as_str()))
    }
}

impl vstd::std_specs::convert::FromSpecImpl<toml::de::Error> for HarnessError {
    /// `from` states the variant and the message over `toml_error_text`; a
    /// spec function cannot build the `String` that holds it.
    open spec fn obeys_from_spec() -> bool {
        false
    }

    open spec fn from_spec(e: toml::de::Error) -> HarnessError {
        arbitrary()
    }
}

impl From<anyhow::Error> for HarnessError {
    /// Any other failure, by its message.
    fn from(e: anyhow::Error) -> (r: HarnessError)
        ensures
            r matches HarnessError::Other(m) && to_string_from_display_ensures::<anyhow::Error>(
                &e,
                m,
            ),
    {
        HarnessError::Other(e.to_string())
    }
}

impl vstd::std_specs::convert::FromSpecImpl<anyhow::Error> for HarnessError {
    /// `from` states the variant and relates the message to the error's
    /// `Display`; no spec function gives that text as a value.
    open spec fn obeys_from_spec() -> bool {
        false
    }

    open spec fn from_spec(e: anyhow::Error) -> HarnessError {
        arbitrary()
    }
}

} // verus!
