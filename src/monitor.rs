use vstd::prelude::*;

verus! {

/// A line of the application log.
#[derive(Clone, Debug)]
pub struct LogEntry {
    pub id: String,
    pub timestamp: String,
    pub level: String,
    pub component: String,
    pub message: String,
}

/// Tokens used by a model call in all: the input and output tokens, saturating
/// at the largest `u32`.
pub fn total_tokens(input_tokens: u32, output_tokens: u32) -> (r: u32)
    ensures
        r == if input_tokens + output_tokens <= u32::MAX {
            (input_tokens + output_tokens) as u32
        } else {
            u32::MAX
        },
{
    input_tokens.saturating_add(output_tokens)
}

} // verus!
