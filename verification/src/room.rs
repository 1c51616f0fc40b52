//! The room aggregate and the decisions of the update loop: which event
//! messages matter, how they change the room, and what is written out.
//!
//! The surrounding program performs the HTTP calls; every decision between
//! them is a function here, with a contract.

use vstd::prelude::*;
use vstd::string::StringExecFns;
use crate::color::{
    hue_of, rgb_of, sat_of, val_of, ColorCoordinate, ColorGamut2, HSVColor, RGBColor,
};
use crate::gamut::{gamut_den, used_point};
use crate::hue::{EventMessage, Light, Scene};
use crate::nanoleaf::{clamp_brightness, Effect, Range};
use crate::palette::Palette;

verus! {

/// The state of the room being mirrored onto the fixture.
#[derive(Debug)]
pub struct Room {
    pub on: bool,
    /// Brightness in whole percent.
    pub brightness: u32,
    pub dynamic: bool,
    pub palette: Option<Palette>,
    pub color_temperature: Option<u32>,
    pub has_updated: bool,
    pub scene_has_updated: bool,
    pub max_brightness: u8,
}

impl Room {
    pub open spec fn wf(self) -> bool {
        self.palette matches Some(p) ==> p.wf()
    }

    /// The room's brightness, clamped to the configured maximum.
    pub fn get_brightness(&self) -> (r: u32)
        ensures
            r == if self.brightness <= self.max_brightness as u32 {
                self.brightness as int
            } else {
                self.max_brightness as int
            },
    {
        if self.brightness <= self.max_brightness as u32 {
            self.brightness
        } else {
            self.max_brightness as u32
        }
    }
}

/// A conversion succeeds exactly when the gamut is not degenerate and the
/// chromaticity actually used has a positive `y`.
pub open spec fn conversion_ok(xy: ColorCoordinate, g: ColorGamut2) -> bool {
    gamut_den(g) != 0 && used_point(xy, g).ny != 0
}

/// The HSV triple a chromaticity converts to, through the whole pipeline.
pub open spec fn converted_hsv(xy: ColorCoordinate, g: ColorGamut2, b: int) -> HSVColor {
    let rgb = rgb_of(used_point(xy, g), b);
    HSVColor {
        hue: hue_of(rgb.0, rgb.1, rgb.2) as u32,
        saturation: sat_of(rgb.0, rgb.1, rgb.2) as u8,
        brightness: val_of(rgb.0, rgb.1, rgb.2) as u8,
    }
}

/// What `get_palette` needs of each light: a color with a gamut, both
/// well-formed, and a brightness that fits the converter's scale.
pub open spec fn light_ok(l: Light) -> bool {
    &&& l.color matches Some(c)
    &&& c.gamut matches Some(g)
    &&& c.xy.wf()
    &&& g.wf()
    &&& l.dimming.brightness <= 255
}

/// The set of HSV colors of the first `n` lights whose conversion succeeds.
pub open spec fn palette_fold(lights: Seq<Light>, n: int) -> Set<HSVColor>
    decreases n,
{
    if n <= 0 {
        Set::empty()
    } else {
        let prev = palette_fold(lights, n - 1);
        let l = lights[n - 1];
        let c = l.color->0;
        let g = c.gamut->0;
        if conversion_ok(c.xy, g) {
            prev.insert(converted_hsv(c.xy, g, l.dimming.brightness as int))
        } else {
            prev
        }
    }
}

/// Build the palette of a set of lights: convert each light's chromaticity
/// at its own brightness and collect the distinct HSV results, skipping
/// lights whose gamut is degenerate or whose chromaticity is unusable.
pub fn get_palette(lights: &Vec<Light>) -> (p: Palette)
    requires
        forall|i: int| 0 <= i < lights@.len() ==> light_ok(#[trigger] lights@[i]),
    ensures
        p.wf(),
        p@ == palette_fold(lights@, lights@.len() as int),
{
    let mut palette = Palette::new();
    let mut i: usize = 0;
    while i < lights.len()
        invariant
            0 <= i <= lights@.len(),
            forall|k: int| 0 <= k < lights@.len() ==> light_ok(#[trigger] lights@[k]),
            palette.wf(),
            palette@ == palette_fold(lights@, i as int),
        decreases lights@.len() - i,
    {
        let light = &lights[i];
        proof {
            assert(light_ok(lights@[i as int]));
        }
        let color = light.color.unwrap();
        let color_coordinates = color.xy;
        let color_gamut = color.gamut.unwrap();
        let brightness = light.dimming.brightness as u8;
        match RGBColor::from_coordinate(color_coordinates, color_gamut, brightness) {
            Ok(rgb) => {
                let hsv = rgb.to_hsv();
                proof {
                    assert(hsv == converted_hsv(color_coordinates, color_gamut, brightness
                        as int));
                }
                palette.insert(hsv);
            },
            Err(_) => {
                proof {
                    assert(!conversion_ok(color_coordinates, color_gamut));
                }
            },
        }
        i += 1;
    }
    palette
}

/// Whether the update loop handles this message type at all.
pub fn message_type_allowed(message_type: &String) -> (r: bool)
    ensures
        r == (message_type@ == "grouped_light"@ || message_type@ == "light"@ || message_type@
            == "scene"@),
{
    let grouped_light = String::from_str("grouped_light");
    let light = String::from_str("light");
    let scene = String::from_str("scene");
    *message_type == grouped_light || *message_type == light || *message_type == scene
}

/// Fold a grouped-light event into the room: an on/off or brightness value
/// present in the message replaces the room's, and either marks the room
/// updated; everything else stays as it was.
pub fn apply_grouped_light(room: &mut Room, msg: &EventMessage)
    ensures
        final(room).on == (if msg.on is Some {
            msg.on->0.on
        } else {
            old(room).on
        }),
        final(room).brightness == (if msg.dimming is Some {
            msg.dimming->0.brightness
        } else {
            old(room).brightness
        }),
        final(room).has_updated == (old(room).has_updated || msg.on is Some || msg.dimming
            is Some),
        final(room).dynamic == old(room).dynamic,
        final(room).palette == old(room).palette,
        final(room).color_temperature == old(room).color_temperature,
        final(room).scene_has_updated == old(room).scene_has_updated,
        final(room).max_brightness == old(room).max_brightness,
{
    match &msg.on {
        Some(on) => {
            room.on = on.on;
            room.has_updated = true;
        },
        None => {},
    }
    match &msg.dimming {
        Some(dimming) => {
            room.brightness = dimming.brightness;
            room.has_updated = true;
        },
        None => {},
    }
}

/// Whether a scene event concerns this room at all: it must belong to the
/// room's group and not be inactive.
pub fn scene_concerns_room(scene: &Scene, room_id: &String) -> (r: bool)
    ensures
        r == (scene.group.id@ == room_id@ && scene.status.active@ != "inactive"@),
{
    let inactive = String::from_str("inactive");
    scene.group.id == *room_id && !(scene.status.active == inactive)
}

/// Fold an accepted scene change into the room: the new palette replaces the
/// old one, the room follows the scene's dynamic-palette mode, and both
/// update flags are raised.
pub fn apply_scene(room: &mut Room, active: &String, palette: Palette)
    requires
        palette.wf(),
    ensures
        final(room).dynamic == (active@ == "dynamic_palette"@),
        final(room).palette == Some(palette),
        final(room).wf(),
        final(room).scene_has_updated,
        final(room).has_updated,
        final(room).on == old(room).on,
        final(room).brightness == old(room).brightness,
        final(room).color_temperature == old(room).color_temperature,
        final(room).max_brightness == old(room).max_brightness,
{
    let dynamic_palette = String::from_str("dynamic_palette");
    room.dynamic = *active == dynamic_palette;
    room.palette = Some(palette);
    room.scene_has_updated = true;
    room.has_updated = true;
}

/// Build the display effect that writes the room's state to the fixture:
/// fixed command strings, the palette's colors, and ranges that depend only
/// on whether the scene is dynamic and on the room's brightness (capped at
/// 100 percent).
pub fn build_effect(room: &Room) -> (e: Effect)
    requires
        room.wf(),
        room.palette is Some,
    ensures
        e.command@ == "display"@,
        e.animation_name@ == "hue"@,
        e.color_type@ == "HSB"@,
        e.animation_data is None,
        e.brightness_range.min == 25,
        e.brightness_range.max == (if room.brightness <= 100 {
            room.brightness as int
        } else {
            100int
        }),
        e.loop_animation,
        e.animation_type@ == (if room.dynamic {
            "random"@
        } else {
            "flow"@
        }),
        e.transition_time == (if room.dynamic {
            (Range { min: 15, max: 30 })
        } else {
            (Range { min: 30, max: 60 })
        }),
        e.delay_time == (if room.dynamic {
            (Range { min: 30, max: 60 })
        } else {
            (Range { min: 60, max: 90 })
        }),
        e.palette@.to_set() == room.palette->0@,
        e.palette@.no_duplicates(),
{
    let animation_type = if room.dynamic {
        String::from_str("random")
    } else {
        String::from_str("flow")
    };
    let palette = match &room.palette {
        Some(p) => p.to_vec(),
        None => Vec::new(),
    };
    Effect {
        command: String::from_str("display"),
        animation_name: String::from_str("hue"),
        color_type: String::from_str("HSB"),
        animation_data: None,
        brightness_range: Range { min: 25, max: clamp_brightness(room.brightness) },
        loop_animation: true,
        animation_type,
        transition_time: if room.dynamic {
            Range { min: 15, max: 30 }
        } else {
            Range { min: 30, max: 60 }
        },
        delay_time: if room.dynamic {
            Range { min: 30, max: 60 }
        } else {
            Range { min: 60, max: 90 }
        },
        palette,
    }
}

} // verus!
