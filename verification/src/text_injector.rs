//! The text injector: the transcription is pasted at the cursor through the
//! clipboard with the platform's paste shortcut.
use vstd::prelude::*;

verus! {

/// Injects text at the cursor by pasting it from the clipboard.
pub struct TextInjector;

impl TextInjector {
    pub fn new() -> (r: Self)
        ensures
            r == TextInjector,
    {
        TextInjector
    }
}

/// The modifier held with `V` to paste.
#[derive(Debug, Clone, Copy, PartialEq, Eq, Structural)]
pub enum PasteModifier {
    /// The Command key (macOS).
    Meta,
    /// The Control key (every other platform).
    Control,
}

/// The paste modifier of a platform: Command on macOS, Control elsewhere.
pub fn paste_modifier(macos: bool) -> (r: PasteModifier)
    ensures
        r == (if macos { PasteModifier::Meta } else { PasteModifier::Control }),
{
    if macos {
        PasteModifier::Meta
    } else {
        PasteModifier::Control
    }
}

} // verus!
