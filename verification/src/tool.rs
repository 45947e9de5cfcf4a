//! Tool descriptors, the registry of tools the model may call, and the
//! parsing of tool calls out of a model's raw output.
//!
//! Tools are user-defined functions described by a name, a description and
//! a JSON Schema for their parameters. The model's output is either plain
//! text or tool calls in one of the formats that chat templates use:
//! `{"name": ..., "arguments": ...}` objects (Llama-3),
//! `<tool_call>{...}</tool_call>` blocks (Hermes/Qwen), or one JSON object
//! holding `name` and `arguments`.
use std::collections::HashMap;

use vstd::prelude::*;
use vstd::string::StrSliceExecFns;
use vstd::string::StringExecFns;
use vstd::pervasive::VecAdditionalExecFns;
use vstd::utf8::{
    char_is_scalar, encode_scalar, encode_utf8, encode_utf8_first_scalar, encode_utf8_valid_utf8,
    is_char_boundary, pop_first_scalar,
};

use crate::error::{joined, HarnessError};
use crate::json::{
    json_as_str, json_is_object, json_object_fields, json_object_members, json_pretty,
    json_pretty_text, json_text, json_value_is_object, json_value_str, json_value_text,
    member_views,
};
use crate::scan::{
    lemma_find_from_shift, lemma_object_end_window, lemma_skip_space_window, occurs_at, object_end,
    closes_at, find_from, find_text_from, is_whitespace, non_space_from, object_span,
    object_span_in, occurs_from, skip_space, skip_space_from, trim_end, trim_end_from,
};
use crate::text::{
    chars_of, first_where, keys_of, lemma_first_where, lemma_first_where_absent,
    lemma_first_where_found, sort_by_key, str_eq, strictly_sorted, string_views, Keyed,
};

verus! {

/// Execution context passed to a tool. Carries the current model id,
/// the original user request id (for tracing), and arbitrary metadata
/// the host wants to make available.
#[derive(Debug, Clone, Default)]
pub struct ToolContext {
    /// Model id used for the conversation that triggered this call.
    pub model_id: Option<String>,
    /// Optional trace id (ULID/UUID) for the entire chat request.
    pub request_id: Option<String>,
    /// Arbitrary host-supplied metadata.
    pub metadata: HashMap<String, String>,
}

/// Output returned by a tool. Either textual (rendered back into the
/// model as a `tool` message) or structured (also serialized to JSON
/// and rendered).
#[derive(Debug, Clone)]
pub struct ToolOutput {
    /// Tool-emitted text the model sees.
    pub text: String,
    /// Optional structured payload (logged, kept on the response, etc).
    pub data: Option<serde_json::Value>,
    /// True if the tool considers this output "final" (e.g. an error
    /// that should terminate the ReAct loop).
    pub is_terminal: bool,
}

impl ToolOutput {
    /// Construct a textual output.
    pub fn text(s: &str) -> (o: ToolOutput)
        ensures
            o.text@ == s@,
            o.data is None,
            !o.is_terminal,
    {
        ToolOutput { text: String::from_str(s), data: None, is_terminal: false }
    }

    /// Construct a structured output: the payload, rendered as indented
    /// JSON (empty text if it cannot be rendered).
    pub fn data(data: serde_json::Value) -> (o: ToolOutput)
        ensures
            o.text@ == (match json_pretty_text(data) {
                Some(t) => t,
                None => Seq::<char>::empty(),
            }),
            o.data == Some(data),
            !o.is_terminal,
    {
        let text = match json_pretty(&data) {
            Some(t) => t,
            None => String::new(),
        };
        ToolOutput { text, data: Some(data), is_terminal: false }
    }

    /// Mark this output as terminating (the harness stops iterating).
    pub fn terminal(self) -> (o: ToolOutput)
        ensures
            o.is_terminal,
            o.text == self.text,
            o.data == self.data,
    {
        let mut o = self;
        o.is_terminal = true;
        o
    }
}

/// Public-facing descriptor for a registered tool: name, description,
/// parameters JSON Schema.
#[derive(Debug)]
pub struct ToolDescriptor {
    /// Unique tool name (must match across registration and model output).
    pub name: String,
    /// Human-readable description.
    pub description: String,
    /// JSON Schema object describing accepted arguments.
    pub parameters: serde_json::Value,
}

impl Clone for ToolDescriptor {
    fn clone(&self) -> (r: ToolDescriptor)
        ensures
            r == *self,
    {
        ToolDescriptor {
            name: self.name.clone(),
            description: self.description.clone(),
            parameters: self.parameters.clone(),
        }
    }
}

impl<'a> Keyed for &'a ToolDescriptor {
    open spec fn key(&self) -> Seq<char> {
        self.name@
    }

    fn key_str(&self) -> (k: &str) {
        self.name.as_str()
    }
}

/// Filter applied per-request to choose which tools the model sees.
#[derive(Debug, Clone)]
pub enum ToolFilter {
    /// No tools visible to the model.
    NoTools,
    /// All registered tools visible.
    All,
    /// Only tools in this list (by name). Unknown names are silently dropped.
    Named(Vec<String>),
}

impl Default for ToolFilter {
    fn default() -> (f: ToolFilter)
        ensures
            f is All,
    {
        ToolFilter::All
    }
}

/// Whether `filter` lets the model see the tool called `name`.
pub open spec fn selects(filter: ToolFilter, name: Seq<char>) -> bool {
    match filter {
        ToolFilter::NoTools => false,
        ToolFilter::All => true,
        ToolFilter::Named(ns) => string_views(ns@).contains(name),
    }
}

/// The names of a sequence of tools, in order.
pub open spec fn tool_names(s: Seq<ToolDescriptor>) -> Seq<Seq<char>> {
    s.map_values(|d: ToolDescriptor| d.name@)
}

/// Whether the tool at a position is called `name`.
pub open spec fn tool_named(s: Seq<ToolDescriptor>, name: Seq<char>) -> spec_fn(int) -> bool {
    |i: int| s[i].name@ == name
}

/// The tool called `name`, if one is registered.
pub open spec fn find_tool(s: Seq<ToolDescriptor>, name: Seq<char>) -> Option<ToolDescriptor> {
    match first_where(s.len() as int, tool_named(s, name)) {
        Some(i) => Some(s[i]),
        None => None,
    }
}

/// The tools after registering `d`: it replaces the tool of its name, or
/// joins the others.
pub open spec fn with_tool(s: Seq<ToolDescriptor>, d: ToolDescriptor) -> Seq<ToolDescriptor> {
    match first_where(s.len() as int, tool_named(s, d.name@)) {
        Some(i) => s.update(i, d),
        None => s.push(d),
    }
}

/// The message of the error for a call whose arguments are not an object.
pub open spec fn malformed_arguments_message(name: Seq<char>, args_text: Seq<char>) -> Seq<char> {
    "tool '"@ + name + "' arguments must be a JSON object, got "@ + args_text
}

/// The verdict on a call of the registered tool `name` whose arguments are
/// a JSON object (`is_object`) and read `args_text`.
pub fn check_call_arguments(name: &str, is_object: bool, args_text: &str) -> (r: Result<
    (),
    HarnessError,
>)
    ensures
        is_object ==> r is Ok,
        !is_object ==> (r matches Err(HarnessError::MalformedToolCall(m)) && m@
            == malformed_arguments_message(name@, args_text@)),
{
    if is_object {
        Ok(())
    } else {
        let mut m = joined("tool '", name);
        m.append("' arguments must be a JSON object, got ");
        m.append(args_text);
        Err(HarnessError::MalformedToolCall(m))
    }
}

/// Registry storing the descriptors of all tools, by name.
#[derive(Debug)]
pub struct ToolRegistry {
    tools: Vec<ToolDescriptor>,
}

impl Clone for ToolRegistry {
    fn clone(&self) -> (r: ToolRegistry)
        ensures
            r@ == self@,
    {
        proof {
            use_type_invariant(self);
        }
        let mut tools: Vec<ToolDescriptor> = Vec::new();
        let mut i: usize = 0;
        while i < self.tools.len()
            invariant
                i <= self.tools@.len(),
                tools@ == self.tools@.take(i as int),
            decreases self.tools.len() - i,
        {
            tools.push(self.tools[i].clone());
            assert(tools@ =~= self.tools@.take(i + 1));
            i += 1;
        }
        assert(tools@ =~= self.tools@);
        ToolRegistry { tools }
    }
}

impl View for ToolRegistry {
    type V = Seq<ToolDescriptor>;

    closed spec fn view(&self) -> Seq<ToolDescriptor> {
        self.tools@
    }
}

impl Default for ToolRegistry {
    fn default() -> (r: ToolRegistry)
        ensures
            r@ == Seq::<ToolDescriptor>::empty(),
    {
        ToolRegistry::new()
    }
}

impl ToolRegistry {
    #[verifier::type_invariant]
    spec fn names_unique(self) -> bool {
        tool_names(self.tools@).no_duplicates()
    }

    /// Construct an empty registry.
    pub fn new() -> (r: ToolRegistry)
        ensures
            r@ == Seq::<ToolDescriptor>::empty(),
    {
        let r = ToolRegistry { tools: Vec::new() };
        assert(tool_names(r.tools@) =~= Seq::<Seq<char>>::empty());
        r
    }

    fn position_of(&self, name: &str) -> (r: Option<usize>)
        ensures
            match r {
                Some(i) => i < self@.len() && self@[i as int].name@ == name@ && first_where(
                    self@.len() as int,
                    tool_named(self@, name@),
                ) == Some(i as int),
                None => first_where(self@.len() as int, tool_named(self@, name@)) is None,
            },
    {
        let ghost p = tool_named(self@, name@);
        let mut i: usize = 0;
        while i < self.tools.len()
            invariant
                i <= self@.len(),
                p == tool_named(self@, name@),
                forall|j: int| 0 <= j < i ==> !#[trigger] p(j),
            decreases self.tools.len() - i,
        {
            if str_eq(self.tools[i].name.as_str(), name) {
                proof {
                    lemma_first_where_found(self@.len() as int, p, i as int);
                }
                return Some(i);
            }
            i += 1;
        }
        proof {
            lemma_first_where_absent(self@.len() as int, p);
        }
        None
    }

    /// Register a tool. Replaces any existing tool with the same name.
    pub fn register(&mut self, tool: ToolDescriptor)
        ensures
            final(self)@ == with_tool(old(self)@, tool),
            tool_names(final(self)@).no_duplicates(),
    {
        proof {
            use_type_invariant(&*self);
        }
        let ghost before = self@;
        let ghost v = tool.name@;
        let at = self.position_of(tool.name.as_str());
        proof {
            lemma_first_where(before.len() as int, tool_named(before, v));
        }
        let mut tools: Vec<ToolDescriptor> = Vec::new();
        std::mem::swap(&mut tools, &mut self.tools);
        match at {
            Some(i) => {
                let mut t = tool;
                tools.set_and_swap(i, &mut t);
                assert(tool_names(tools@) =~= tool_names(before));
            },
            None => {
                tools.push(tool);
                assert(tool_names(tools@) =~= tool_names(before).push(v));
                assert forall|k: int| 0 <= k < before.len() implies tool_names(before)[k] != v by {
                    assert(!tool_named(before, v)(k));
                }
            },
        }
        self.tools = tools;
    }

    /// Look up a tool by name.
    pub fn get(&self, name: &str) -> (r: Option<&ToolDescriptor>)
        ensures
            match r {
                Some(d) => find_tool(self@, name@) == Some(*d),
                None => find_tool(self@, name@) is None,
            },
    {
        match self.position_of(name) {
            Some(i) => Some(&self.tools[i]),
            None => None,
        }
    }

    /// Number of registered tools.
    pub fn len(&self) -> (n: usize)
        ensures
            n == self@.len(),
    {
        self.tools.len()
    }

    /// Whether the registry is empty.
    pub fn is_empty(&self) -> (b: bool)
        ensures
            b == (self@.len() == 0),
    {
        self.tools.len() == 0
    }

    /// Names of all registered tools, in ascending order.
    pub fn names(&self) -> (r: Vec<String>)
        ensures
            r.len() == self@.len(),
            strictly_sorted(string_views(r@)),
            forall|k: Seq<char>|
                string_views(r@).contains(k) <==> tool_names(self@).contains(k),
    {
        proof {
            use_type_invariant(self);
        }
        let mut refs: Vec<&ToolDescriptor> = Vec::new();
        let mut i: usize = 0;
        while i < self.tools.len()
            invariant
                i <= self@.len(),
                refs.len() == i,
                forall|j: int| 0 <= j < i ==> *(#[trigger] refs@[j]) == self@[j],
            decreases self.tools.len() - i,
        {
            refs.push(&self.tools[i]);
            i += 1;
        }
        assert(keys_of(refs@) =~= tool_names(self@));
        let sorted = sort_by_key(&refs);
        let mut r: Vec<String> = Vec::new();
        let mut m: usize = 0;
        while m < sorted.len()
            invariant
                m <= sorted@.len(),
                r.len() == m,
                string_views(r@) == keys_of(sorted@).take(m as int),
            decreases sorted.len() - m,
        {
            let ghost old_r = r@;
            r.push(sorted[m].name.clone());
            proof {
                assert(keys_of(sorted@)[m as int] == sorted@[m as int].name@);
                assert(string_views(r@) =~= string_views(old_r).push(
                    sorted@[m as int].name@,
                ));
                assert(keys_of(sorted@).take(m + 1) =~= keys_of(sorted@).take(m as int).push(
                    keys_of(sorted@)[m as int],
                ));
            }
            m += 1;
        }
        proof {
            assert(keys_of(sorted@).take(sorted.len() as int) =~= keys_of(sorted@));
            assert forall|k: Seq<char>| keys_of(sorted@).contains(k) <==> keys_of(refs@).contains(
                k,
            ) by {
                if keys_of(sorted@).contains(k) {
                    let a = choose|a: int| 0 <= a < keys_of(sorted@).len() && keys_of(sorted@)[a]
                        == k;
                    assert(refs@.contains(sorted@[a]));
                    let b = choose|b: int| 0 <= b < refs@.len() && refs@[b] == sorted@[a];
                    assert(keys_of(refs@)[b] == k);
                }
                if keys_of(refs@).contains(k) {
                    let b = choose|b: int| 0 <= b < keys_of(refs@).len() && keys_of(refs@)[b] == k;
                    assert(sorted@.contains(refs@[b]));
                    let a = choose|a: int| 0 <= a < sorted@.len() && sorted@[a] == refs@[b];
                    assert(keys_of(sorted@)[a] == k);
                }
            }
        }
        r
    }

    /// Descriptors for the tools that `filter` lets the model see, in
    /// ascending order of name.
    pub fn descriptors(&self, filter: &ToolFilter) -> (r: Vec<ToolDescriptor>)
        ensures
            strictly_sorted(tool_names(r@)),
            forall|i: int| 0 <= i < r@.len() ==> self@.contains(r@[i]) && selects(*filter, r@[i].name@),
            forall|j: int|
                0 <= j < self@.len() && selects(*filter, self@[j].name@) ==> r@.contains(self@[j]),
    {
        proof {
            use_type_invariant(self);
        }
        let mut refs: Vec<&ToolDescriptor> = Vec::new();
        let ghost mut from: Seq<int> = Seq::empty();
        let mut i: usize = 0;
        while i < self.tools.len()
            invariant
                i <= self@.len(),
                tool_names(self@).no_duplicates(),
                from.len() == refs.len(),
                forall|a: int| 0 <= a < refs@.len() ==> 0 <= #[trigger] from[a] < i && *refs@[a]
                    == self@[from[a]] && selects(*filter, self@[from[a]].name@),
                forall|a: int, b: int| 0 <= a < b < refs@.len() ==> #[trigger] from[a] < #[trigger] from[b],
                forall|j: int|
                    0 <= j < i && selects(*filter, self@[j].name@) ==> exists|a: int|
                        0 <= a < refs@.len() && #[trigger] from[a] == j,
            decreases self.tools.len() - i,
        {
            let d = &self.tools[i];
            let take = match filter {
                ToolFilter::NoTools => false,
                ToolFilter::All => true,
                ToolFilter::Named(ns) => contains_name(ns, d.name.as_str()),
            };
            let ghost old_from = from;
            if take {
                refs.push(d);
                proof {
                    from = from.push(i as int);
                    assert(from[from.len() - 1] == i);
                }
            }
            proof {
                assert forall|j: int|
                    0 <= j < i + 1 && selects(*filter, self@[j].name@) implies exists|a: int|
                    0 <= a < refs@.len() && #[trigger] from[a] == j by {
                    if j < i {
                        let a = choose|a: int| 0 <= a < old_from.len() && #[trigger] old_from[a] == j;
                        assert(from[a] == j);
                    } else {
                        assert(from[from.len() - 1] == j);
                    }
                }
            }
            i += 1;
        }
        proof {
            assert forall|a: int, b: int|
                0 <= a < keys_of(refs@).len() && 0 <= b < keys_of(refs@).len() && a != b implies keys_of(
                refs@,
            )[a] != keys_of(refs@)[b] by {
                assert(keys_of(refs@)[a] == tool_names(self@)[from[a]]);
                assert(keys_of(refs@)[b] == tool_names(self@)[from[b]]);
                if a < b {
                    assert(from[a] < from[b]);
                } else {
                    assert(from[b] < from[a]);
                }
            }
        }
        let sorted = sort_by_key(&refs);
        proof {
            assert forall|i: int| 0 <= i < sorted@.len() implies self@.contains(*sorted@[i])
                && selects(*filter, sorted@[i].name@) by {
                assert(sorted@.contains(sorted@[i]));
                assert(refs@.contains(sorted@[i]));
                let a = choose|a: int| 0 <= a < refs@.len() && refs@[a] == sorted@[i];
                assert(*refs@[a] == self@[from[a]]);
            }
            assert forall|j: int|
                0 <= j < self@.len() && selects(*filter, self@[j].name@) implies exists|i: int|
                0 <= i < sorted@.len() && *sorted@[i] == self@[j] by {
                let a = choose|a: int| 0 <= a < refs@.len() && #[trigger] from[a] == j;
                assert(refs@.contains(refs@[a]));
                assert(sorted@.contains(refs@[a]));
                let i = choose|i: int| 0 <= i < sorted@.len() && sorted@[i] == refs@[a];
                assert(*sorted@[i] == self@[j]);
            }
        }
        let mut r: Vec<ToolDescriptor> = Vec::new();
        let mut k: usize = 0;
        while k < sorted.len()
            invariant
                k <= sorted@.len(),
                r@.len() == k,
                forall|i: int| 0 <= i < k ==> r@[i] == *sorted@[i],
            decreases sorted.len() - k,
        {
            r.push(sorted[k].clone());
            k += 1;
        }
        proof {
            assert(tool_names(r@) =~= keys_of(sorted@));
            assert forall|j: int|
                0 <= j < self@.len() && selects(*filter, self@[j].name@) implies r@.contains(
                self@[j],
            ) by {
                let i = choose|i: int| 0 <= i < sorted@.len() && *sorted@[i] == self@[j];
                assert(r@[i] == self@[j]);
            }
        }
        r
    }

    /// Check a tool call before it runs: the tool must be registered, and
    /// its arguments must be a JSON object. Gives back the arguments when
    /// the call is valid.
    pub fn validate_call(&self, name: &str, args: &serde_json::Value) -> (r: Result<
        serde_json::Value,
        HarnessError,
    >)
        ensures
            find_tool(self@, name@) is None ==> (r matches Err(HarnessError::UnknownTool(n))
                && n@ == name@),
            find_tool(self@, name@) is Some && json_value_is_object(*args) ==> r == Ok::<
                serde_json::Value,
                HarnessError,
            >(*args),
            find_tool(self@, name@) is Some && !json_value_is_object(*args) ==> (r matches Err(
                HarnessError::MalformedToolCall(m),
            ) && m@ == malformed_arguments_message(name@, json_value_text(*args))),
    {
        if self.get(name).is_none() {
            return Err(HarnessError::UnknownTool(String::from_str(name)));
        }
        let is_object = json_is_object(args);
        if is_object {
            return Ok(args.clone());
        }
        let text = json_text(args);
        match check_call_arguments(name, false, text.as_str()) {
            Ok(()) => Ok(args.clone()),
            Err(e) => Err(e),
        }
    }
}

/// Whether the list holds a string equal to `name`.
fn contains_name(ns: &Vec<String>, name: &str) -> (b: bool)
    ensures
        b == string_views(ns@).contains(name@),
{
    let mut i: usize = 0;
    while i < ns.len()
        invariant
            i <= ns@.len(),
            forall|j: int| 0 <= j < i ==> (#[trigger] ns@[j])@ != name@,
        decreases ns.len() - i,
    {
        if str_eq(ns[i].as_str(), name) {
            assert(string_views(ns@)[i as int] == name@);
            return true;
        }
        i += 1;
    }
    proof {
        if string_views(ns@).contains(name@) {
            let j = choose|j: int|
                0 <= j < string_views(ns@).len() && string_views(ns@)[j]
                    == name@;
            assert(ns@[j]@ == name@);
        }
    }
    false
}

/// The text of `raw` without white space at either end, as `str::trim`
/// gives it.
pub open spec fn trimmed(raw: Seq<char>) -> Seq<char> {
    let q = skip_space(raw, 0, raw.len() as int);
    raw.subrange(q, trim_end(raw, q, raw.len() as int))
}

/// Whether the member at a position has the key `key`.
pub open spec fn field_named(fs: Seq<(Seq<char>, serde_json::Value)>, key: Seq<char>) -> spec_fn(
    int,
) -> bool {
    |i: int| fs[i].0 == key
}

/// The value of the member `key`, if the object has one.
pub open spec fn field_of(fs: Seq<(Seq<char>, serde_json::Value)>, key: Seq<char>) -> Option<
    serde_json::Value,
> {
    match first_where(fs.len() as int, field_named(fs, key)) {
        Some(i) => Some(fs[i].1),
        None => None,
    }
}

/// The call that an object with members `fs` stands for: the text of its
/// `name` member, which must be a JSON string, and the value of its
/// `arguments` member, which must be there.
pub open spec fn call_of(fs: Seq<(Seq<char>, serde_json::Value)>) -> Option<
    (Seq<char>, serde_json::Value),
> {
    match field_of(fs, "name"@) {
        Some(v) => match json_value_str(v) {
            Some(n) => match field_of(fs, "arguments"@) {
                Some(a) => Some((n, a)),
                None => None,
            },
            None => None,
        },
        None => None,
    }
}

/// The call whose object `from..to` of `cs` starts with (after white
/// space): its name, its arguments and the position just past the object.
pub open spec fn call_at(cs: Seq<char>, from: int, to: int) -> Option<
    (Seq<char>, serde_json::Value, int),
> {
    match object_span(cs, from, to) {
        Some((q, e)) => match json_object_fields(cs.subrange(q, e)) {
            Some(fs) => match call_of(fs) {
                Some((n, a)) => Some((n, a, e)),
                None => None,
            },
            None => None,
        },
        None => None,
    }
}

/// The Llama-3 calls from position `rest` on: each `{"name"` starts an
/// object; the scan stops at the first that is no call.
pub open spec fn llama_calls(cs: Seq<char>, rest: int) -> Seq<(Seq<char>, serde_json::Value)>
    decreases cs.len() - rest,
{
    match find_from(cs, rest, "{\"name\""@) {
        Some(start) => match call_at(cs, start, cs.len() as int) {
            Some((n, a, e)) => if rest < e <= cs.len() {
                seq![(n, a)] + llama_calls(cs, e)
            } else {
                seq![]
            },
            None => seq![],
        },
        None => seq![],
    }
}

/// The Hermes/Qwen calls from position `pos` on: each
/// `<tool_call>...</tool_call>` block that holds a call object gives one.
pub open spec fn hermes_calls(cs: Seq<char>, pos: int) -> Seq<(Seq<char>, serde_json::Value)>
    decreases cs.len() - pos,
{
    match find_from(cs, pos, "<tool_call>"@) {
        Some(start) => {
            let after = start + "<tool_call>"@.len();
            match find_from(cs, after, "</tool_call>"@) {
                Some(end_tag) => {
                    let next = end_tag + "</tool_call>"@.len();
                    let here = match call_at(cs, after, end_tag) {
                        Some((n, a, _)) => seq![(n, a)],
                        None => seq![],
                    };
                    if pos < next <= cs.len() {
                        here + hermes_calls(cs, next)
                    } else {
                        here
                    }
                },
                None => seq![],
            }
        },
        None => seq![],
    }
}

/// The call that the whole text (without surrounding white space) stands
/// for, if it is one call object.
pub open spec fn plain_call(cs: Seq<char>) -> Option<(Seq<char>, serde_json::Value)> {
    match json_object_fields(trimmed(cs)) {
        Some(fs) => call_of(fs),
        None => None,
    }
}

/// The tool calls in a model's output, each a name and its arguments: the
/// Llama-3 calls if there are any, else the Hermes/Qwen calls if there are
/// any, else the call that the whole text stands for, if any.
pub open spec fn tool_calls(cs: Seq<char>) -> Seq<(Seq<char>, serde_json::Value)> {
    if llama_calls(cs, 0).len() > 0 {
        llama_calls(cs, 0)
    } else if hermes_calls(cs, 0).len() > 0 {
        hermes_calls(cs, 0)
    } else {
        match plain_call(cs) {
            Some(c) => seq![c],
            None => seq![],
        }
    }
}

/// Parsed calls, with their names as characters.
pub open spec fn calls_view(v: Seq<(String, serde_json::Value)>) -> Seq<(Seq<char>, serde_json::Value)> {
    v.map_values(|c: (String, serde_json::Value)| (c.0@, c.1))
}

/// The number of bytes that the characters `cs` take in UTF-8.
pub open spec fn byte_len(cs: Seq<char>) -> nat {
    encode_utf8(cs).len()
}

/// Appending a character adds its UTF-8 width.
proof fn lemma_byte_len_push(cs: Seq<char>, c: char)
    ensures
        byte_len(cs.push(c)) == byte_len(cs) + encode_scalar(c as u32).len(),
    decreases cs.len(),
{
    if cs.len() == 0 {
        assert(cs.push(c).drop_first() =~= Seq::<char>::empty());
        assert(encode_utf8(Seq::<char>::empty()) =~= Seq::<u8>::empty());
    } else {
        assert(cs.push(c).drop_first() =~= cs.drop_first().push(c));
        lemma_byte_len_push(cs.drop_first(), c);
    }
}

/// A prefix takes no more bytes than the whole.
proof fn lemma_byte_len_prefix(cs: Seq<char>, e: int)
    requires
        0 <= e <= cs.len(),
    ensures
        byte_len(cs.take(e)) <= byte_len(cs),
    decreases cs.len() - e,
{
    if e < cs.len() {
        assert(cs.take(e + 1) =~= cs.take(e).push(cs[e]));
        lemma_byte_len_push(cs.take(e), cs[e]);
        lemma_byte_len_prefix(cs, e + 1);
    } else {
        assert(cs.take(e) =~= cs);
    }
}

/// The UTF-8 width of `c`.
fn char_width(c: char) -> (w: usize)
    ensures
        w == encode_scalar(c as u32).len(),
{
    let u = c as u32;
    proof {
        char_is_scalar(c);
    }
    if u < 0x80 {
        1
    } else if u < 0x800 {
        2
    } else if u < 0x10000 {
        3
    } else {
        4
    }
}

/// The number of bytes that the first `e` characters of `s` (whose
/// characters are `cs`) take.
fn byte_offset(s: &str, cs: &Vec<char>, e: usize) -> (k: usize)
    requires
        cs@ == s@,
        e <= cs@.len(),
    ensures
        k == byte_len(s@.take(e as int)),
{
    proof {
        lemma_byte_len_prefix(s@, e as int);
        assert(s@.take(0) =~= Seq::<char>::empty());
        assert(encode_utf8(Seq::<char>::empty()) =~= Seq::<u8>::empty());
    }
    let total = s.as_bytes().len();
    let mut k: usize = 0;
    let mut i: usize = 0;
    while i < e
        invariant
            cs@ == s@,
            e <= cs@.len(),
            i <= e,
            k == byte_len(s@.take(i as int)),
            total == byte_len(s@),
            byte_len(s@.take(e as int)) <= total,
        decreases e - i,
    {
        proof {
            assert(s@.take(i + 1) =~= s@.take(i as int).push(s@[i as int]));
            lemma_byte_len_push(s@.take(i as int), s@[i as int]);
            lemma_byte_len_prefix(s@.take(e as int), i + 1);
            assert(s@.take(e as int).take(i + 1) =~= s@.take(i + 1));
        }
        k = k + char_width(cs[i]);
        i += 1;
    }
    k
}

/// The position of the first member with key `key`.
fn find_member(ms: &Vec<(String, serde_json::Value)>, key: &str) -> (r: Option<usize>)
    ensures
        match r {
            Some(i) => i < ms@.len() && first_where(
                ms@.len() as int,
                field_named(member_views(ms@), key@),
            ) == Some(i as int),
            None => first_where(ms@.len() as int, field_named(member_views(ms@), key@)) is None,
        },
{
    let ghost p = field_named(member_views(ms@), key@);
    let mut i: usize = 0;
    while i < ms.len()
        invariant
            i <= ms@.len(),
            p == field_named(member_views(ms@), key@),
            forall|j: int| 0 <= j < i ==> !#[trigger] p(j),
        decreases ms.len() - i,
    {
        assert(member_views(ms@)[i as int].0 == ms@[i as int].0@);
        if str_eq(ms[i].0.as_str(), key) {
            proof {
                lemma_first_where_found(ms@.len() as int, p, i as int);
            }
            return Some(i);
        }
        i += 1;
    }
    proof {
        lemma_first_where_absent(ms@.len() as int, p);
    }
    None
}

/// The name and arguments of the call that the object `text` stands for.
fn call_of_object(text: &str) -> (r: Option<(String, serde_json::Value)>)
    ensures
        match r {
            Some((n, a)) => json_object_fields(text@) matches Some(fs) && call_of(fs) == Some(
                (n@, a),
            ),
            None => json_object_fields(text@) matches Some(fs) ==> call_of(fs) is None,
        },
{
    let ms = match json_object_members(text) {
        Some(ms) => ms,
        None => {
            return None;
        },
    };
    let ghost fs = member_views(ms@);
    let i = match find_member(&ms, "name") {
        Some(i) => i,
        None => {
            return None;
        },
    };
    assert(fs[i as int].1 == ms@[i as int].1);
    let name = match json_as_str(&ms[i].1) {
        Some(n) => n,
        None => {
            return None;
        },
    };
    match find_member(&ms, "arguments") {
        Some(j) => {
            assert(fs[j as int].1 == ms@[j as int].1);
            Some((name, ms[j].1.clone()))
        },
        None => None,
    }
}

/// The call whose object `from..to` of `raw` (whose characters are `cs`)
/// starts with, after white space: its name, its arguments and the
/// position just past the object.
fn extract_call_in(raw: &str, cs: &Vec<char>, from: usize, to: usize) -> (r: Option<
    (String, serde_json::Value, usize),
>)
    requires
        cs@ == raw@,
        from <= to <= cs@.len(),
    ensures
        match r {
            Some((n, a, e)) => from < e <= to && call_at(raw@, from as int, to as int) == Some(
                (n@, a, e as int),
            ),
            None => call_at(raw@, from as int, to as int) is None,
        },
{
    let (q, e) = match object_span_in(cs, from, to) {
        Some(span) => span,
        None => {
            return None;
        },
    };
    let text = raw.substring_char(q, e);
    match call_of_object(text) {
        Some((name, args)) => Some((name, args, e)),
        None => None,
    }
}

/// Extract `{"name": "...", "arguments": {...}}` from the start of `s`
/// (after white space). Returns the name, the arguments and the number of
/// bytes consumed, up to and including the object's closing brace.
pub fn extract_json_object_with_name(s: &str) -> (r: Option<(String, serde_json::Value, usize)>)
    ensures
        match r {
            Some((n, a, k)) => call_at(s@, 0, s@.len() as int) matches Some((cn, ca, e)) && cn
                == n@ && ca == a && k == byte_len(s@.take(e)),
            None => call_at(s@, 0, s@.len() as int) is None,
        },
{
    let cs = chars_of(s);
    match extract_call_in(s, &cs, 0, cs.len()) {
        Some((name, args, e)) => {
            let k = byte_offset(s, &cs, e);
            Some((name, args, k))
        },
        None => None,
    }
}

/// Parse the tool calls in a model's raw output, in order, each with its
/// name and arguments. Three formats are tried in turn, and the first that
/// yields calls wins:
///
/// 1. Llama-3: `{"name": ..., "arguments": ...}` objects anywhere in the text;
/// 2. Hermes/Qwen: `<tool_call>...</tool_call>` blocks that hold such an object;
/// 3. the whole text (without surrounding white space) as one such object.
///
/// Plain text gives no calls.
pub fn parse_tool_calls(raw: &str) -> (r: Vec<(String, serde_json::Value)>)
    ensures
        calls_view(r@) == tool_calls(raw@),
{
    let cs = chars_of(raw);
    let n = cs.len();
    let llama = chars_of("{\"name\"");
    let mut out: Vec<(String, serde_json::Value)> = Vec::new();
    let mut rest: usize = 0;
    loop
        invariant
            cs@ == raw@,
            n == cs@.len(),
            rest <= n,
            llama@ == "{\"name\""@,
            calls_view(out@) + llama_calls(raw@, rest as int) == llama_calls(raw@, 0),
        ensures
            calls_view(out@) == llama_calls(raw@, 0),
        decreases n - rest,
    {
        let start = match find_text_from(&cs, rest, &llama) {
            Some(i) => i,
            None => {
                assert(calls_view(out@) =~= calls_view(out@) + llama_calls(raw@, rest as int));
                break;
            },
        };
        match extract_call_in(raw, &cs, start, n) {
            Some((name, args, end)) => {
                let ghost before = calls_view(out@);
                let ghost call = (name@, args);
                out.push((name, args));
                proof {
                    assert(calls_view(out@) =~= before.push(call));
                    assert(llama_calls(raw@, rest as int) == seq![call] + llama_calls(
                        raw@,
                        end as int,
                    ));
                    assert(calls_view(out@) + llama_calls(raw@, end as int) =~= before
                        + llama_calls(raw@, rest as int));
                }
                rest = end;
            },
            None => {
                assert(calls_view(out@) =~= calls_view(out@) + llama_calls(raw@, rest as int));
                break;
            },
        }
    }
    if out.len() > 0 {
        return out;
    }
    let open = chars_of("<tool_call>");
    let close = chars_of("</tool_call>");
    assert(close@.len() > 0) by {
        reveal_strlit("</tool_call>");
    }
    let mut pos: usize = 0;
    assert(calls_view(out@) =~= Seq::<(Seq<char>, serde_json::Value)>::empty());
    loop
        invariant
            cs@ == raw@,
            n == cs@.len(),
            pos <= n,
            open@ == "<tool_call>"@,
            close@ == "</tool_call>"@,
            close@.len() > 0,
            calls_view(out@) + hermes_calls(raw@, pos as int) == hermes_calls(raw@, 0),
        ensures
            calls_view(out@) == hermes_calls(raw@, 0),
        decreases n - pos,
    {
        let start = match find_text_from(&cs, pos, &open) {
            Some(i) => i,
            None => {
                assert(calls_view(out@) =~= calls_view(out@) + hermes_calls(raw@, pos as int));
                break;
            },
        };
        let after = start + open.len();
        let end_tag = match find_text_from(&cs, after, &close) {
            Some(i) => i,
            None => {
                assert(calls_view(out@) =~= calls_view(out@) + hermes_calls(raw@, pos as int));
                break;
            },
        };
        let next = end_tag + close.len();
        let ghost before = calls_view(out@);
        let ghost here = match call_at(raw@, after as int, end_tag as int) {
            Some((nm, a, _)) => seq![(nm, a)],
            None => Seq::<(Seq<char>, serde_json::Value)>::empty(),
        };
        if let Some((name, args, _)) = extract_call_in(raw, &cs, after, end_tag) {
            out.push((name, args));
            assert(calls_view(out@) =~= before + here);
        } else {
            assert(calls_view(out@) =~= before + here);
        }
        proof {
            assert(hermes_calls(raw@, pos as int) == here + hermes_calls(raw@, next as int));
            assert(calls_view(out@) + hermes_calls(raw@, next as int) =~= before + hermes_calls(
                raw@,
                pos as int,
            ));
        }
        pos = next;
    }
    if out.len() > 0 {
        return out;
    }
    let q = skip_space_from(&cs, 0, n);
    let e = trim_end_from(&cs, q, n);
    let text = raw.substring_char(q, e);
    assert(text@ == trimmed(raw@));
    if let Some((name, args)) = call_of_object(text) {
        let ghost call = (name@, args);
        out.push((name, args));
        assert(calls_view(out@) =~= seq![call]);
    } else {
        assert(calls_view(out@) =~= Seq::<(Seq<char>, serde_json::Value)>::empty());
    }
    out
}

/// The call that the characters `q..e` of `cs` stand for, if they are one
/// JSON object with a string `name` and with `arguments`.
pub open spec fn object_call(cs: Seq<char>, q: int, e: int) -> Option<(Seq<char>, serde_json::Value)> {
    match json_object_fields(cs.subrange(q, e)) {
        Some(fs) => call_of(fs),
        None => None,
    }
}

/// Whether the call `c` is what some object in `cs` stands for: the text
/// between two positions of `cs` is one JSON object whose `name` is `c`'s
/// name and whose `arguments` are `c`'s arguments.
pub open spec fn comes_from_object(cs: Seq<char>, c: (Seq<char>, serde_json::Value)) -> bool {
    exists|q: int, e: int| 0 <= q <= e <= cs.len() && #[trigger] object_call(cs, q, e) == Some(c)
}

/// Skipping white space stays within `from..to`, and passes only white space.
proof fn lemma_skip_space_bounds(cs: Seq<char>, from: int, to: int)
    requires
        0 <= from <= to <= cs.len(),
    ensures
        from <= skip_space(cs, from, to) <= to,
        forall|i: int| from <= i < skip_space(cs, from, to) ==> is_whitespace(#[trigger] cs[i]),
{
    let p = non_space_from(cs, from);
    lemma_first_where(to, p);
    let q = skip_space(cs, from, to);
    assert forall|i: int| from <= i < q implies is_whitespace(#[trigger] cs[i]) by {
        assert(!p(i));
    }
}

/// Trimming the end stays within `from..to`.
proof fn lemma_trim_end_bounds(cs: Seq<char>, from: int, to: int)
    requires
        from <= to,
    ensures
        from <= trim_end(cs, from, to) <= to,
    decreases to - from,
{
    if to > from && is_whitespace(cs[to - 1]) {
        lemma_trim_end_bounds(cs, from, to - 1);
    }
}

/// A call found between `from` and `to` is the call of the object that
/// starts right after the white space at `from` and ends within `to`.
proof fn lemma_call_at_object(cs: Seq<char>, from: int, to: int)
    requires
        0 <= from <= to <= cs.len(),
    ensures
        call_at(cs, from, to) matches Some((n, a, e)) ==> {
            let q = skip_space(cs, from, to);
            &&& from <= q < e <= to
            &&& cs[q] == '{'
            &&& object_call(cs, q, e) == Some((n, a))
        },
{
    lemma_skip_space_bounds(cs, from, to);
    let q = skip_space(cs, from, to);
    lemma_first_where(to, closes_at(cs, q));
}

/// Where `pat` is found from `from` on, it is found at or after `from` and
/// ends within `cs`.
proof fn lemma_find_from_bounds(cs: Seq<char>, from: int, pat: Seq<char>)
    ensures
        find_from(cs, from, pat) matches Some(i) ==> from <= i && i + pat.len() <= cs.len(),
{
    lemma_first_where((cs.len() + 1) as int, occurs_from(cs, from, pat));
}

/// Every Llama-3 call from `rest` on comes from an object of `cs`.
proof fn lemma_llama_calls_from_objects(cs: Seq<char>, rest: int)
    requires
        0 <= rest <= cs.len(),
    ensures
        forall|k: int|
            0 <= k < llama_calls(cs, rest).len() ==> comes_from_object(
                cs,
                #[trigger] llama_calls(cs, rest)[k],
            ),
    decreases cs.len() - rest,
{
    lemma_find_from_bounds(cs, rest, "{\"name\""@);
    match find_from(cs, rest, "{\"name\""@) {
        Some(start) => {
            lemma_call_at_object(cs, start, cs.len() as int);
            match call_at(cs, start, cs.len() as int) {
                Some((n, a, e)) => {
                    if rest < e <= cs.len() {
                        lemma_llama_calls_from_objects(cs, e);
                        let q = skip_space(cs, start, cs.len() as int);
                        assert(object_call(cs, q, e) == Some((n, a)));
                        let tail = llama_calls(cs, e);
                        assert forall|k: int|
                            0 <= k < llama_calls(cs, rest).len() implies comes_from_object(
                            cs,
                            #[trigger] llama_calls(cs, rest)[k],
                        ) by {
                            if k > 0 {
                                assert(llama_calls(cs, rest)[k] == tail[k - 1]);
                            }
                        }
                    }
                },
                None => {},
            }
        },
        None => {},
    }
}

/// Every Hermes/Qwen call from `pos` on comes from an object of `cs`.
proof fn lemma_hermes_calls_from_objects(cs: Seq<char>, pos: int)
    requires
        0 <= pos <= cs.len(),
    ensures
        forall|k: int|
            0 <= k < hermes_calls(cs, pos).len() ==> comes_from_object(
                cs,
                #[trigger] hermes_calls(cs, pos)[k],
            ),
    decreases cs.len() - pos,
{
    let open = "<tool_call>"@;
    let close = "</tool_call>"@;
    lemma_find_from_bounds(cs, pos, open);
    match find_from(cs, pos, open) {
        Some(start) => {
            let after = start + open.len();
            lemma_find_from_bounds(cs, after, close);
            match find_from(cs, after, close) {
                Some(end_tag) => {
                    let next = end_tag + close.len();
                    lemma_call_at_object(cs, after, end_tag);
                    let here = match call_at(cs, after, end_tag) {
                        Some((n, a, _)) => seq![(n, a)],
                        None => Seq::<(Seq<char>, serde_json::Value)>::empty(),
                    };
                    assert forall|k: int| 0 <= k < here.len() implies comes_from_object(
                        cs,
                        #[trigger] here[k],
                    ) by {
                        let q = skip_space(cs, after, end_tag);
                        if let Some((_, _, e)) = call_at(cs, after, end_tag) {
                            assert(object_call(cs, q, e) == Some(here[k]));
                        }
                    }
                    if pos < next <= cs.len() {
                        lemma_hermes_calls_from_objects(cs, next);
                        let all = here + hermes_calls(cs, next);
                        assert(hermes_calls(cs, pos) == all);
                        assert forall|k: int| 0 <= k < all.len() implies comes_from_object(
                            cs,
                            #[trigger] all[k],
                        ) by {
                            if k < here.len() {
                                assert(all[k] == here[k]);
                            } else {
                                assert(all[k] == hermes_calls(cs, next)[k - here.len()]);
                            }
                        }
                    }
                },
                None => {},
            }
        },
        None => {},
    }
}

/// Every call that the tool-call parsing finds in a text comes from an
/// object of that text: a JSON object, somewhere in the text, whose `name`
/// is the call's name and whose `arguments` are the call's arguments.
pub proof fn lemma_calls_come_from_objects(cs: Seq<char>)
    ensures
        forall|k: int|
            0 <= k < tool_calls(cs).len() ==> comes_from_object(cs, #[trigger] tool_calls(cs)[k]),
{
    lemma_llama_calls_from_objects(cs, 0);
    lemma_hermes_calls_from_objects(cs, 0);
    if llama_calls(cs, 0).len() == 0 && hermes_calls(cs, 0).len() == 0 {
        let n = cs.len() as int;
        lemma_skip_space_bounds(cs, 0, n);
        let q = skip_space(cs, 0, n);
        lemma_trim_end_bounds(cs, q, n);
        let t = trim_end(cs, q, n);
        if let Some(c) = plain_call(cs) {
            assert(object_call(cs, q, t) == Some(c));
            assert(tool_calls(cs)[0] == c);
        }
    }
}

/// The bytes of a prefix end at a character boundary of the whole text.
proof fn lemma_prefix_char_boundary(cs: Seq<char>, e: int)
    requires
        0 <= e <= cs.len(),
    ensures
        is_char_boundary(encode_utf8(cs), byte_len(cs.take(e)) as int),
    decreases e,
{
    broadcast use encode_utf8_valid_utf8;

    if e == 0 {
        assert(cs.take(0) =~= Seq::<char>::empty());
        assert(encode_utf8(Seq::<char>::empty()) =~= Seq::<u8>::empty());
    } else {
        let bytes = encode_utf8(cs);
        encode_utf8_first_scalar(cs);
        assert(pop_first_scalar(bytes) =~= encode_utf8(cs.drop_first()));
        lemma_prefix_char_boundary(cs.drop_first(), e - 1);
        assert(cs.take(e).drop_first() =~= cs.drop_first().take(e - 1));
        assert(cs.take(e)[0] == cs[0]);
        lemma_byte_len_prefix(cs, e);
        char_is_scalar(cs[0]);
        assert(encode_scalar(cs[0] as u32).len() >= 1);
    }
}

/// What `extract_json_object_with_name` finds in `cs` is one JSON object at
/// the start of the text, after white space only: its name and arguments
/// are the call's, and the number of bytes up to its end is at most the
/// text's length in bytes and falls on a character boundary.
pub proof fn lemma_extract_is_leading_object(cs: Seq<char>)
    ensures
        call_at(cs, 0, cs.len() as int) matches Some((n, a, e)) ==> {
            let q = skip_space(cs, 0, cs.len() as int);
            &&& 0 <= q < e <= cs.len()
            &&& forall|i: int| 0 <= i < q ==> is_whitespace(#[trigger] cs[i])
            &&& cs[q] == '{'
            &&& object_call(cs, q, e) == Some((n, a))
            &&& byte_len(cs.take(e)) <= byte_len(cs)
            &&& is_char_boundary(encode_utf8(cs), byte_len(cs.take(e)) as int)
        },
{
    let n = cs.len() as int;
    lemma_skip_space_bounds(cs, 0, n);
    lemma_call_at_object(cs, 0, n);
    if let Some((_, _, e)) = call_at(cs, 0, n) {
        lemma_byte_len_prefix(cs, e);
        lemma_prefix_char_boundary(cs, e);
    }
}

/// Finding a call in `from..to` reads only `from..to`: it is the call found
/// in that stretch alone, with its end `from` further on.
proof fn lemma_call_at_window(cs: Seq<char>, from: int, to: int)
    requires
        0 <= from <= to <= cs.len(),
    ensures
        call_at(cs, from, to) == (match call_at(cs.subrange(from, to), 0, to - from) {
            Some((n, a, e)) => Some((n, a, from + e)),
            None => None::<(Seq<char>, serde_json::Value, int)>,
        }),
{
    let w = cs.subrange(from, to);
    let m = to - from;
    lemma_skip_space_window(cs, from, to);
    lemma_skip_space_bounds(w, 0, m);
    let qw = skip_space(w, 0, m);
    let q = from + qw;
    if qw < m {
        assert(w[qw] == cs[q]);
        if cs[q] == '{' {
            lemma_object_end_window(cs, from, to, q);
            lemma_first_where(m, closes_at(w, qw));
            if let Some(e) = object_end(w, qw, m) {
                assert(cs.subrange(q, from + e) =~= w.subrange(qw, e));
            }
        }
    }
}

/// The Hermes/Qwen scan of `p + r` from a position past `p` finds the calls
/// that the scan of `r` finds.
proof fn lemma_hermes_calls_shift(p: Seq<char>, r: Seq<char>, j: int)
    requires
        0 <= j,
    ensures
        hermes_calls(p + r, p.len() + j) == hermes_calls(r, j),
    decreases r.len() - j,
{
    let cs = p + r;
    let open = "<tool_call>"@;
    let close = "</tool_call>"@;
    lemma_find_from_shift(p, r, j, open);
    lemma_find_from_bounds(r, j, open);
    if let Some(start) = find_from(r, j, open) {
        let after = start + open.len();
        lemma_find_from_shift(p, r, after, close);
        lemma_find_from_bounds(r, after, close);
        if let Some(end_tag) = find_from(r, after, close) {
            let next = end_tag + close.len();
            lemma_call_at_window(cs, p.len() + after, p.len() + end_tag);
            lemma_call_at_window(r, after, end_tag);
            assert(cs.subrange(p.len() + after, p.len() + end_tag) =~= r.subrange(after, end_tag));
            if j < next <= r.len() {
                lemma_hermes_calls_shift(p, r, next);
            }
        }
    }
}

/// A `<tool_call>` block around `body`.
pub open spec fn tool_call_block(body: Seq<char>) -> Seq<char> {
    "<tool_call>"@ + body + "</tool_call>"@
}

/// The `<tool_call>` blocks around each of `bodies`, one after another.
pub open spec fn tool_call_blocks(bodies: Seq<Seq<char>>) -> Seq<char>
    decreases bodies.len(),
{
    if bodies.len() == 0 {
        Seq::empty()
    } else {
        tool_call_block(bodies[0]) + tool_call_blocks(bodies.drop_first())
    }
}

/// The call that `body` holds, as a sequence of none or one.
pub open spec fn body_call(body: Seq<char>) -> Seq<(Seq<char>, serde_json::Value)> {
    match call_at(body, 0, body.len() as int) {
        Some((n, a, _)) => seq![(n, a)],
        None => seq![],
    }
}

/// The Hermes/Qwen scan of a `<tool_call>` block followed by `r` gives the
/// block's call, if its body holds one, then the calls of `r`.
proof fn lemma_hermes_block(body: Seq<char>, r: Seq<char>)
    requires
        forall|i: int| !#[trigger] occurs_at(body, i, "</tool_call>"@),
    ensures
        hermes_calls(tool_call_block(body) + r, 0) == body_call(body) + hermes_calls(r, 0),
{
    let open = "<tool_call>"@;
    let close = "</tool_call>"@;
    reveal_strlit("<tool_call>");
    reveal_strlit("</tool_call>");
    let b = tool_call_block(body);
    let t = b + r;
    let nb = body.len() as int;
    let after = open.len() as int;
    let end_tag = after + nb;
    assert(after == 11);
    assert(close.len() == 12);
    // The block's opening tag is found at the start.
    assert(t.subrange(0, after) =~= open);
    let po = occurs_from(t, 0, open);
    assert(po(0));
    lemma_first_where_found((t.len() + 1) as int, po, 0);
    // Its closing tag is the first one after the opening tag.
    let pc = occurs_from(t, after, close);
    assert(t.subrange(end_tag, end_tag + 12) =~= close);
    assert(pc(end_tag));
    assert forall|x: int| 0 <= x < end_tag implies !#[trigger] pc(x) by {
        if x >= after && occurs_at(t, x, close) {
            if x + 12 <= end_tag {
                assert(t.subrange(x, x + 12) =~= body.subrange(x - after, x - after + 12));
                assert(occurs_at(body, x - after, close));
            } else {
                let d = end_tag - x;
                assert(t[end_tag] == '<');
                assert(t.subrange(x, x + 12)[d] == t[end_tag]);
                assert(close[d] != '<');
            }
        }
    }
    lemma_first_where_found((t.len() + 1) as int, pc, end_tag);
    // The object is looked for in the body alone.
    lemma_call_at_window(t, after, end_tag);
    assert(t.subrange(after, end_tag) =~= body);
    let next = end_tag + 12;
    assert(next == b.len());
    assert(b + r == t);
    lemma_hermes_calls_shift(b, r, 0);
    let here = match call_at(t, after, end_tag) {
        Some((n, a, _)) => seq![(n, a)],
        None => Seq::<(Seq<char>, serde_json::Value)>::empty(),
    };
    assert(here == body_call(body));
    assert(hermes_calls(t, 0) == here + hermes_calls(t, next));
}

/// The calls of each of `bodies`, in order.
pub open spec fn body_calls(bodies: Seq<Seq<char>>) -> Seq<(Seq<char>, serde_json::Value)>
    decreases bodies.len(),
{
    if bodies.len() == 0 {
        Seq::empty()
    } else {
        body_call(bodies[0]) + body_calls(bodies.drop_first())
    }
}

/// The Hermes/Qwen scan of a run of blocks gives the calls of their bodies.
proof fn lemma_hermes_blocks(bodies: Seq<Seq<char>>)
    requires
        forall|j: int, i: int|
            0 <= j < bodies.len() ==> !#[trigger] occurs_at(bodies[j], i, "</tool_call>"@),
    ensures
        hermes_calls(tool_call_blocks(bodies), 0) == body_calls(bodies),
    decreases bodies.len(),
{
    if bodies.len() == 0 {
        let t = tool_call_blocks(bodies);
        let po = occurs_from(t, 0, "<tool_call>"@);
        assert forall|x: int| 0 <= x < 1 implies !#[trigger] po(x) by {
            reveal_strlit("<tool_call>");
        }
        lemma_first_where_absent(1, po);
    } else {
        let rest = bodies.drop_first();
        assert forall|j: int, i: int| 0 <= j < rest.len() implies !#[trigger] occurs_at(
            rest[j],
            i,
            "</tool_call>"@,
        ) by {
            assert(rest[j] == bodies[j + 1]);
        }
        lemma_hermes_blocks(rest);
        assert forall|i: int| !#[trigger] occurs_at(bodies[0], i, "</tool_call>"@) by {}
        lemma_hermes_block(bodies[0], tool_call_blocks(rest));
    }
}

/// The calls of a run of bodies, one per body that holds a call.
proof fn lemma_body_calls(bodies: Seq<Seq<char>>)
    requires
        forall|j: int|
            0 <= j < bodies.len() ==> #[trigger] call_at(bodies[j], 0, bodies[j].len() as int)
                is Some,
    ensures
        body_calls(bodies).len() == bodies.len(),
        forall|j: int|
            0 <= j < bodies.len() ==> (call_at(bodies[j], 0, bodies[j].len() as int) matches Some(
                (n, a, _),
            ) && #[trigger] body_calls(bodies)[j] == (n, a)),
    decreases bodies.len(),
{
    if bodies.len() > 0 {
        let rest = bodies.drop_first();
        assert forall|j: int| 0 <= j < rest.len() implies #[trigger] call_at(
            rest[j],
            0,
            rest[j].len() as int,
        ) is Some by {
            assert(rest[j] == bodies[j + 1]);
        }
        lemma_body_calls(rest);
        assert(call_at(bodies[0], 0, bodies[0].len() as int) is Some);
        assert forall|j: int| 0 <= j < bodies.len() implies (call_at(
            bodies[j],
            0,
            bodies[j].len() as int,
        ) matches Some((n, a, _)) && #[trigger] body_calls(bodies)[j] == (n, a)) by {
            assert(call_at(bodies[j], 0, bodies[j].len() as int) is Some);
            if j > 0 {
                assert(rest[j - 1] == bodies[j]);
                assert(body_calls(bodies)[j] == body_calls(rest)[j - 1]);
            }
        }
    }
}

/// Parallel calls in `<tool_call>` blocks: in a text made of one block per
/// body, with no Llama-3 `{"name"` marker anywhere, the calls parsed are
/// the calls that the bodies hold, one per block, in the order of the
/// blocks, where each body holds a call and no closing tag.
pub proof fn lemma_tool_call_blocks(bodies: Seq<Seq<char>>)
    requires
        bodies.len() > 0,
        forall|j: int, i: int|
            0 <= j < bodies.len() ==> !#[trigger] occurs_at(bodies[j], i, "</tool_call>"@),
        forall|j: int|
            0 <= j < bodies.len() ==> #[trigger] call_at(bodies[j], 0, bodies[j].len() as int)
                is Some,
        forall|i: int| !#[trigger] occurs_at(tool_call_blocks(bodies), i, "{\"name\""@),
    ensures
        tool_calls(tool_call_blocks(bodies)).len() == bodies.len(),
        forall|j: int|
            0 <= j < bodies.len() ==> (call_at(bodies[j], 0, bodies[j].len() as int) matches Some(
                (n, a, _),
            ) && #[trigger] tool_calls(tool_call_blocks(bodies))[j] == (n, a)),
{
    let t = tool_call_blocks(bodies);
    let pl = occurs_from(t, 0, "{\"name\""@);
    assert forall|x: int| 0 <= x < t.len() + 1 implies !#[trigger] pl(x) by {
        assert(!occurs_at(t, x, "{\"name\""@));
    }
    lemma_first_where_absent((t.len() + 1) as int, pl);
    assert(llama_calls(t, 0).len() == 0);
    lemma_hermes_blocks(bodies);
    lemma_body_calls(bodies);
    assert(tool_calls(t) == body_calls(bodies));
}

/// Looking a tool up right after registering it finds it.
pub proof fn lemma_get_after_register(s: Seq<ToolDescriptor>, d: ToolDescriptor)
    ensures
        find_tool(with_tool(s, d), d.name@) == Some(d),
{
    let name = d.name@;
    let after = with_tool(s, d);
    lemma_first_where(s.len() as int, tool_named(s, name));
    match first_where(s.len() as int, tool_named(s, name)) {
        Some(i) => {
            assert forall|j: int| 0 <= j < i implies !#[trigger] tool_named(after, name)(j) by {
                assert(after[j] == s[j]);
                assert(!tool_named(s, name)(j));
            }
            assert(tool_named(after, name)(i));
            lemma_first_where_found(after.len() as int, tool_named(after, name), i);
        },
        None => {
            let n = s.len() as int;
            assert forall|j: int| 0 <= j < n implies !#[trigger] tool_named(after, name)(j) by {
                assert(after[j] == s[j]);
                assert(!tool_named(s, name)(j));
            }
            assert(tool_named(after, name)(n));
            lemma_first_where_found(after.len() as int, tool_named(after, name), n);
        },
    }
}

/// Registering a tool whose name is registered replaces it and keeps the
/// number of tools; registering a new name adds one tool.
pub proof fn lemma_register_count(s: Seq<ToolDescriptor>, d: ToolDescriptor)
    ensures
        find_tool(s, d.name@) is Some ==> with_tool(s, d).len() == s.len(),
        find_tool(s, d.name@) is None ==> with_tool(s, d).len() == s.len() + 1,
{
    lemma_first_where(s.len() as int, tool_named(s, d.name@));
}

} // verus!
