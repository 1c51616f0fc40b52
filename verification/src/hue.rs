//! The lighting hub's data model, as plain values.
//!
//! The hub reports fractional values (brightness percentages, chromaticity
//! coordinates) which are carried here as integers: chromaticity in
//! `COORD_SCALE` fixed point and percentages rounded to whole percent.  The
//! HTTP client that fills these lives outside the library.

use vstd::prelude::*;
use crate::color::{ColorCoordinate, ColorGamut2};

verus! {

/// A reference to another resource of the hub.
#[derive(Debug)]
pub struct Resource {
    pub id: String,
    pub resource_type: String,
}

/// Metadata of a room resource.
#[derive(Debug)]
pub struct RoomMetadata {
    pub name: String,
}

/// A room resource: the devices it spans and the services it offers.
#[derive(Debug)]
pub struct Room {
    pub id: String,
    pub children: Vec<Resource>,
    pub services: Vec<Resource>,
    pub metadata: RoomMetadata,
}

/// Whether a scene is inactive, static or a dynamic palette.
#[derive(Debug)]
pub struct SceneStatus {
    pub active: String,
}

/// On/off state of a light or group.
#[derive(Debug, Copy, Clone, PartialEq, Eq, Structural)]
pub struct OnStatus {
    pub on: bool,
}

/// Brightness of a light or group, in whole percent.
#[derive(Debug, Copy, Clone, PartialEq, Eq, Structural)]
pub struct Dimming {
    pub brightness: u32,
}

/// The state of a grouped light service.
#[derive(Debug)]
pub struct GroupedLight {
    pub id: String,
    pub on: OnStatus,
    pub dimming: Dimming,
}

/// A light's chromaticity and, when known, the gamut it can reach.
#[derive(Debug, Copy, Clone, PartialEq, Eq, Structural)]
pub struct Color {
    pub xy: ColorCoordinate,
    pub gamut: Option<ColorGamut2>,
}

/// Motion state of a light, with speed in whole percent.
#[derive(Debug)]
pub struct Dynamics {
    pub status: String,
    pub status_values: Vec<String>,
    pub speed: u32,
    pub speed_valid: bool,
}

/// A light resource.
#[derive(Debug)]
pub struct Light {
    pub id: String,
    pub owner: Resource,
    pub on: OnStatus,
    pub dimming: Dimming,
    pub color: Option<Color>,
    pub dynamics: Dynamics,
}

/// One color of a scene's palette.
#[derive(Debug)]
pub struct ScenePaletteColor {
    pub color: Color,
    pub dimming: Dimming,
}

/// The palette a scene describes.
#[derive(Debug)]
pub struct ScenePalette {
    pub color: Vec<ScenePaletteColor>,
}

/// A color temperature in mirek.
#[derive(Debug, Copy, Clone, PartialEq, Eq, Structural)]
pub struct ColorTemperature {
    pub mirek: u32,
}

/// What a scene does to one light.
#[derive(Debug)]
pub struct Action {
    pub on: OnStatus,
    pub dimming: Dimming,
    pub color: Option<Color>,
    pub color_temperature: Option<ColorTemperature>,
}

/// A scene action and the light it targets.
#[derive(Debug)]
pub struct SceneAction {
    pub target: Resource,
    pub action: Action,
}

/// A scene resource.
#[derive(Debug)]
pub struct Scene {
    pub id: String,
    pub group: Resource,
    pub palette: ScenePalette,
    pub status: SceneStatus,
    pub actions: Vec<SceneAction>,
}

/// One message of the hub's event stream.
#[derive(Debug)]
pub struct EventMessage {
    pub id: String,
    pub on: Option<OnStatus>,
    pub dimming: Option<Dimming>,
    pub color: Option<Color>,
    pub status: Option<SceneStatus>,
    pub owner: Option<Resource>,
    pub message_type: String,
}

/// One event of the hub's event stream.
#[derive(Debug)]
pub struct Event {
    pub event_type: String,
    pub creation_time: String,
    pub data: Vec<EventMessage>,
}

} // verus!
