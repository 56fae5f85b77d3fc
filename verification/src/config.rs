//! Presets: which kind of input a preset asks for.
use vstd::prelude::*;

verus! {

/// The kind of input a preset asks for.
#[derive(Clone, Copy, PartialEq, Eq, Structural, Debug)]
pub enum PresetInputType {
    Dxgi,
    Image,
    Window,
    Custom,
}

/// What a preset's input specification holds, as far as choosing its kind goes.
pub enum PresetInput {
    /// A list; each item is `Some` of its text where it is a string, `None` otherwise.
    List(Vec<Option<String>>),
    /// Anything that is not a list.
    Other,
}

/// The kind that a sentinel string names; any other string names a custom input.
pub open spec fn sentinel_type(s: Seq<char>) -> PresetInputType {
    if s == "__dxgi__"@ {
        PresetInputType::Dxgi
    } else if s == "__image__"@ {
        PresetInputType::Image
    } else if s == "__window__"@ {
        PresetInputType::Window
    } else {
        PresetInputType::Custom
    }
}

/// The kind of input a preset asks for: a list of exactly one string that is one of the
/// sentinels `__dxgi__`, `__image__` or `__window__` names that kind; anything else is
/// custom.
pub open spec fn input_type(input: PresetInput) -> PresetInputType {
    match input {
        PresetInput::List(items) => if items@.len() == 1 && items@[0] is Some {
            sentinel_type(items@[0]->Some_0@)
        } else {
            PresetInputType::Custom
        },
        PresetInput::Other => PresetInputType::Custom,
    }
}

/// The kind that a string names.
fn sentinel_kind(s: &String) -> (t: PresetInputType)
    ensures
        t == sentinel_type(s@),
{
    if *s == String::from_str("__dxgi__") {
        PresetInputType::Dxgi
    } else if *s == String::from_str("__image__") {
        PresetInputType::Image
    } else if *s == String::from_str("__window__") {
        PresetInputType::Window
    } else {
        PresetInputType::Custom
    }
}

/// Determines the kind of input a preset asks for.
pub fn preset_input_type(input: &PresetInput) -> (t: PresetInputType)
    ensures
        t == input_type(*input),
{
    match input {
        PresetInput::List(items) => {
            if items.len() == 1 {
                match &items[0] {
                    Some(s) => sentinel_kind(s),
                    None => PresetInputType::Custom,
                }
            } else {
                PresetInputType::Custom
            }
        },
        PresetInput::Other => PresetInputType::Custom,
    }
}

} // verus!
