use nanohue::color::{ColorCoordinate, ColorGamut2};
use nanohue::hue::{
    Color, Dimming, Dynamics, EventMessage, Light, OnStatus, Resource, Scene, ScenePalette,
    SceneStatus,
};
use nanohue::nanoleaf::{clamp_brightness, color_temperature_valid};
use nanohue::palette::Palette;
use nanohue::room::{
    apply_grouped_light, apply_scene, build_effect, get_palette, message_type_allowed,
    scene_concerns_room, Room,
};

fn demo_gamut() -> ColorGamut2 {
    ColorGamut2::new(
        ColorCoordinate::new(6750, 3220),
        ColorCoordinate::new(4090, 5180),
        ColorCoordinate::new(1670, 400),
    )
}

fn demo_room() -> Room {
    Room {
        on: true,
        brightness: 80,
        dynamic: false,
        palette: Some(Palette::new()),
        color_temperature: None,
        has_updated: false,
        scene_has_updated: false,
        max_brightness: 60,
    }
}

fn demo_light(id: &str, xy: ColorCoordinate, brightness: u32) -> Light {
    Light {
        id: String::from(id),
        owner: Resource {
            id: String::from("device-1"),
            resource_type: String::from("device"),
        },
        on: OnStatus { on: true },
        dimming: Dimming { brightness },
        color: Some(Color { xy, gamut: Some(demo_gamut()) }),
        dynamics: Dynamics {
            status: String::from("none"),
            status_values: Vec::new(),
            speed: 0,
            speed_valid: false,
        },
    }
}

#[test]
fn get_brightness_clamps_to_the_maximum() {
    let room = demo_room();
    assert_eq!(room.get_brightness(), 60);
    let dim = Room { brightness: 10, ..demo_room() };
    assert_eq!(dim.get_brightness(), 10);
}

#[test]
fn grouped_light_event_updates_on_and_brightness() {
    let mut room = demo_room();
    let msg = EventMessage {
        id: String::from("evt-1"),
        on: Some(OnStatus { on: false }),
        dimming: Some(Dimming { brightness: 33 }),
        color: None,
        status: None,
        owner: None,
        message_type: String::from("grouped_light"),
    };
    apply_grouped_light(&mut room, &msg);
    assert!(!room.on);
    assert_eq!(room.brightness, 33);
    assert!(room.has_updated);
    assert!(!room.scene_has_updated);
}

#[test]
fn empty_grouped_light_event_changes_nothing() {
    let mut room = demo_room();
    let msg = EventMessage {
        id: String::from("evt-2"),
        on: None,
        dimming: None,
        color: None,
        status: None,
        owner: None,
        message_type: String::from("grouped_light"),
    };
    apply_grouped_light(&mut room, &msg);
    assert!(room.on);
    assert_eq!(room.brightness, 80);
    assert!(!room.has_updated);
}

#[test]
fn only_known_message_types_are_handled() {
    assert!(message_type_allowed(&String::from("grouped_light")));
    assert!(message_type_allowed(&String::from("light")));
    assert!(message_type_allowed(&String::from("scene")));
    assert!(!message_type_allowed(&String::from("zigbee_connectivity")));
    assert!(!message_type_allowed(&String::from("")));
}

fn demo_scene(group_id: &str, active: &str) -> Scene {
    Scene {
        id: String::from("scene-1"),
        group: Resource {
            id: String::from(group_id),
            resource_type: String::from("room"),
        },
        palette: ScenePalette { color: Vec::new() },
        status: SceneStatus { active: String::from(active) },
        actions: Vec::new(),
    }
}

#[test]
fn scene_events_are_filtered_by_room_and_activity() {
    let room_id = String::from("room-1");
    assert!(scene_concerns_room(&demo_scene("room-1", "static"), &room_id));
    assert!(scene_concerns_room(&demo_scene("room-1", "dynamic_palette"), &room_id));
    assert!(!scene_concerns_room(&demo_scene("room-1", "inactive"), &room_id));
    assert!(!scene_concerns_room(&demo_scene("room-2", "static"), &room_id));
}

#[test]
fn applying_a_scene_replaces_palette_and_raises_flags() {
    let mut room = demo_room();
    let mut palette = Palette::new();
    let hsv = nanohue::color::RGBColor { red: 255, green: 0, blue: 0 }.to_hsv();
    palette.insert(hsv);
    apply_scene(&mut room, &String::from("dynamic_palette"), palette);
    assert!(room.dynamic);
    assert!(room.scene_has_updated);
    assert!(room.has_updated);
    assert!(room.palette.as_ref().unwrap().contains(hsv));

    let mut still = demo_room();
    apply_scene(&mut still, &String::from("static"), Palette::new());
    assert!(!still.dynamic);
}

#[test]
fn palette_of_two_identical_lights_has_one_color() {
    let xy = ColorCoordinate::new(6750, 3220);
    let lights = vec![demo_light("light-1", xy, 100), demo_light("light-2", xy, 100)];
    let palette = get_palette(&lights);
    assert_eq!(palette.len(), 1);
}

#[test]
fn palette_of_different_lights_keeps_both_colors() {
    let lights = vec![
        demo_light("light-1", ColorCoordinate::new(6750, 3220), 255),
        demo_light("light-2", ColorCoordinate::new(1670, 400), 255),
    ];
    let palette = get_palette(&lights);
    assert_eq!(palette.len(), 2);
}

#[test]
fn palette_skips_lights_with_degenerate_gamuts() {
    let vertex = ColorCoordinate::new(3000, 3000);
    let mut broken = demo_light("light-1", vertex, 100);
    broken.color = Some(Color {
        xy: vertex,
        gamut: Some(ColorGamut2::new(vertex, vertex, vertex)),
    });
    let lights = vec![broken, demo_light("light-2", ColorCoordinate::new(6750, 3220), 100)];
    let palette = get_palette(&lights);
    assert_eq!(palette.len(), 1);
}

#[test]
fn effect_of_a_static_room_uses_flow_timing() {
    let room = demo_room();
    let effect = build_effect(&room);
    assert_eq!(effect.command, "display");
    assert_eq!(effect.animation_name, "hue");
    assert_eq!(effect.color_type, "HSB");
    assert_eq!(effect.animation_data, None);
    assert_eq!(effect.animation_type, "flow");
    assert!(effect.loop_animation);
    assert_eq!((effect.brightness_range.min, effect.brightness_range.max), (25, 80));
    assert_eq!((effect.transition_time.min, effect.transition_time.max), (30, 60));
    assert_eq!((effect.delay_time.min, effect.delay_time.max), (60, 90));
    assert!(effect.palette.is_empty());
}

#[test]
fn effect_of_a_dynamic_room_uses_random_timing_and_caps_brightness() {
    let mut room = demo_room();
    room.dynamic = true;
    room.brightness = 250;
    let mut palette = Palette::new();
    palette.insert(nanohue::color::RGBColor { red: 1, green: 2, blue: 3 }.to_hsv());
    room.palette = Some(palette);
    let effect = build_effect(&room);
    assert_eq!(effect.animation_type, "random");
    assert_eq!((effect.brightness_range.min, effect.brightness_range.max), (25, 100));
    assert_eq!((effect.transition_time.min, effect.transition_time.max), (15, 30));
    assert_eq!((effect.delay_time.min, effect.delay_time.max), (30, 60));
    assert_eq!(effect.palette.len(), 1);
}

#[test]
fn nanoleaf_write_decisions() {
    assert_eq!(clamp_brightness(42), 42);
    assert_eq!(clamp_brightness(100), 100);
    assert_eq!(clamp_brightness(101), 100);
    assert!(color_temperature_valid(1200));
    assert!(color_temperature_valid(6500));
    assert!(!color_temperature_valid(1199));
    assert!(!color_temperature_valid(6501));
}
