//! Plain records exchanged with the inference engine: what the harness
//! hands over to load a model or render a prompt, and what it gets back.
use vstd::prelude::*;

verus! {

/// A chat message as the engine receives it.
#[derive(Debug)]
pub struct ChatMessage {
    /// Wire-format role name (`system`, `user`, `assistant`, `tool`).
    pub role: String,
    /// Text content.
    pub content: String,
    /// Id of the tool call that a tool result answers.
    pub tool_call_id: String,
    /// Name of the tool that produced a tool result.
    pub tool_name: String,
    /// Raw JSON array of tool calls emitted by the assistant.
    pub tool_calls_json: String,
}

/// Settings for loading one model, as the engine receives them.
#[derive(Debug)]
pub struct ModelLoadSpec {
    /// Path to the .gguf file.
    pub path: String,
    /// Context window in tokens.
    pub context_size: i32,
    /// Logical batch size.
    pub batch_size: i32,
    /// CPU threads (0 = auto).
    pub threads: i32,
    /// GPU layers to offload (-1 = all).
    pub gpu_layers: i32,
    /// Use mmap for weight loading.
    pub use_mmap: bool,
    /// Lock weights in RAM.
    pub use_mlock: bool,
    /// Chat template override ("" = auto).
    pub chat_template_name: String,
}

/// What the engine reports about a loaded model.
#[derive(Debug)]
pub struct ModelInfo {
    /// Caller-chosen id.
    pub id: String,
    /// Path to the .gguf file.
    pub path: String,
    /// Architecture.
    pub arch: String,
    /// Family name used for chat template dispatch.
    pub family: String,
    /// Context window in tokens.
    pub context_size: i32,
    /// Approximate memory footprint in bytes.
    pub size_bytes: u64,
    /// Approximate parameter count in billions.
    pub n_params_b: i32,
    /// Whether the model supports tool calling.
    pub supports_tools: bool,
}

} // verus!
