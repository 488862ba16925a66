//! The colours of the prompts.
use vstd::prelude::*;

verus! {

/// The state in which a prompt is drawn.
#[derive(Clone, Copy, Debug, PartialEq, Eq, Structural)]
pub enum PromptState {
    /// The prompt waits for input.
    Active,
    /// The prompt was left.
    Cancel,
    /// The input was accepted.
    Submit,
    /// The input was refused.
    Error,
}

/// A colour of the terminal.
#[derive(Clone, Copy, Debug, PartialEq, Eq, Structural)]
pub enum Colour {
    /// The colour of the tool.
    Magenta,
    /// The colour of an error.
    Red,
}

/// How a piece of a prompt is painted.
#[derive(Clone, Copy, Debug, PartialEq, Eq, Structural)]
pub struct Paint {
    /// The colour of the text.
    pub colour: Colour,
    /// Whether the text is dimmed.
    pub dim: bool,
}

/// The theme of the tool: magenta throughout.
#[derive(Clone, Copy, Debug, PartialEq, Eq, Structural)]
pub struct MagentaTheme;

impl MagentaTheme {
    /// The side bar: magenta while the prompt is active, red on an error,
    /// dimmed magenta otherwise.
    pub open spec fn bar(state: PromptState) -> Paint {
        match state {
            PromptState::Active => Paint { colour: Colour::Magenta, dim: false },
            PromptState::Error => Paint { colour: Colour::Red, dim: false },
            _ => Paint { colour: Colour::Magenta, dim: true },
        }
    }

    /// The colour of the side bar of a prompt.
    pub fn bar_color(&self, state: &PromptState) -> (paint: Paint)
        ensures
            paint == Self::bar(*state),
    {
        match state {
            PromptState::Active => Paint { colour: Colour::Magenta, dim: false },
            PromptState::Error => Paint { colour: Colour::Red, dim: false },
            _ => Paint { colour: Colour::Magenta, dim: true },
        }
    }

    /// The colour of the symbol of a prompt: magenta in every state.
    pub fn state_symbol_color(&self, _state: &PromptState) -> (paint: Paint)
        ensures
            paint == (Paint { colour: Colour::Magenta, dim: false }),
    {
        Paint { colour: Colour::Magenta, dim: false }
    }
}

} // verus!
