//! The downstream fixture's data model, as plain values, and the small
//! decisions its client makes before writing state.

use vstd::prelude::*;
use crate::color::HSVColor;

verus! {

/// A value together with the range the fixture allows for it.
#[derive(Debug, Copy, Clone, PartialEq, Eq, Structural)]
pub struct RangeValue {
    pub value: u32,
    pub max: u32,
    pub min: u32,
}

/// An inclusive range of values.
#[derive(Debug, Copy, Clone, PartialEq, Eq, Structural)]
pub struct Range {
    pub min: u32,
    pub max: u32,
}

/// A plain boolean payload value.
#[derive(Debug, Copy, Clone, PartialEq, Eq, Structural)]
pub struct BoolValue {
    pub value: bool,
}

/// A value to be reached over a transition time in seconds.
#[derive(Debug, Copy, Clone, PartialEq, Eq, Structural)]
pub struct TransitionValue {
    pub value: u32,
    pub duration: u32,
}

/// The state a panel reports.
#[derive(Debug)]
pub struct PanelState {
    pub brightness: RangeValue,
    pub color_mode: String,
    pub hue: RangeValue,
    pub sat: RangeValue,
    pub ct: RangeValue,
    pub on: BoolValue,
}

/// A panel: its name and reported state.
#[derive(Debug)]
pub struct Panel {
    pub name: String,
    pub state: PanelState,
}

/// A display effect written to the fixture.
#[derive(Debug)]
pub struct Effect {
    pub command: String,
    pub animation_name: String,
    pub animation_data: Option<String>,
    pub color_type: String,
    pub brightness_range: Range,
    pub loop_animation: bool,
    pub animation_type: String,
    pub transition_time: Range,
    pub delay_time: Range,
    pub palette: Vec<HSVColor>,
}

/// The brightness value actually written to the fixture: the requested
/// percentage, capped at 100.
pub fn clamp_brightness(value: u32) -> (r: u32)
    ensures
        r == if value <= 100 {
            value as int
        } else {
            100int
        },
{
    if value <= 100 {
        value
    } else {
        100
    }
}

/// Whether a color temperature is one the fixture accepts (1200 to 6500
/// mirek-reciprocal kelvin); writing any other value is a caller error.
pub fn color_temperature_valid(value: u32) -> (r: bool)
    ensures
        r == (1200 <= value <= 6500),
{
    1200 <= value && value <= 6500
}

} // verus!
