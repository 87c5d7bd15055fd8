use lighting::color::{encode_channel, fade, fade_to_black_col, mix_channel, Rgba, CHANNEL_MAX};
use lighting::srgb::srgb_quantize;
use lighting::config::{Config, ConfigFile, DisplayState, GlobalConfig, Presets};
use lighting::controller::{Controller, ControllerConfig, LEDS_PER_STRIP, STRIPS};
use lighting::effects::{
    all_internal_effects, ConfigError, EffectConfig, EffectInstance, EffectKind, SnakeConfig,
    SnakeEffect, SolidConfig, SolidEffect,
};
use lighting::notify::ChangeNotifier;
use lighting::section::{Section, SubPixel};
use lighting::timer::Timer;

fn gray(v: u16) -> Rgba {
    Rgba::new(v, v, v, CHANNEL_MAX)
}

fn section_of(len: usize, fill: Rgba, reversed: bool) -> Section {
    let mut pixels = Vec::new();
    for _ in 0..len {
        pixels.push(fill);
    }
    Section::new(pixels, reversed)
}

#[test]
fn forward_section_addressing_is_identity() {
    let mut pixels = Vec::new();
    for i in 0..5u16 {
        pixels.push(gray(i));
    }
    let s = Section::new(pixels, false);
    assert_eq!(s.get(0), gray(0));
    assert_eq!(s.get(4), gray(4));
}

#[test]
fn reversed_section_addressing_mirrors() {
    let mut pixels = Vec::new();
    for i in 0..5u16 {
        pixels.push(gray(i));
    }
    let s = Section::new(pixels, true);
    assert_eq!(s.get(0), gray(4));
    assert_eq!(s.get(4), gray(0));
}

#[test]
fn set_on_reversed_section_writes_mirrored() {
    let mut s = section_of(5, gray(0), true);
    s.set(0, gray(9));
    let pixels = s.into_pixels();
    assert_eq!(pixels[4], gray(9));
    assert_eq!(pixels[0], gray(0));
}

#[test]
fn range_of_reversed_section_is_forward_logical() {
    let mut pixels = Vec::new();
    for i in 0..6u16 {
        pixels.push(gray(i));
    }
    let s = Section::new(pixels, true);
    // Logical order is 5,4,3,2,1,0; the logical range [1,4) is 4,3,2.
    let sub = s.range(1, 4);
    assert_eq!(sub.len(), 3);
    assert_eq!(sub.get(0), gray(4));
    assert_eq!(sub.get(2), gray(2));
}

#[test]
fn set_aa_on_whole_pixel_is_exact() {
    let before = gray(1000);
    let target = gray(3000);
    let mut s = section_of(5, before, false);
    s.set_aa(SubPixel { whole: 2, frac: 0 }, &target);
    assert_eq!(s.get(1), before);
    assert_eq!(s.get(2), target);
    assert_eq!(s.get(3), before);
}

#[test]
fn set_aa_on_half_pixel_blends_both_neighbours() {
    let before = gray(1000);
    let target = gray(3000);
    let mut s = section_of(5, before, false);
    s.set_aa(SubPixel { whole: 2, frac: 128 }, &target);
    // Each neighbour moves halfway toward the target.
    let half = gray(2000);
    assert_eq!(s.get(2), half);
    assert_eq!(s.get(3), half);
    assert_eq!(s.get(1), before);
    assert_eq!(s.get(4), before);
}

#[test]
fn set_aa_clamps_past_the_end() {
    let before = gray(1000);
    let target = gray(3000);
    let mut s = section_of(3, before, false);
    s.set_aa(SubPixel { whole: 9, frac: 77 }, &target);
    assert_eq!(s.get(2), target);
    assert_eq!(s.get(1), before);
}

#[test]
fn set_aa_range_soft_ends_solid_middle() {
    let before = gray(1000);
    let target = gray(3000);
    let mut s = section_of(6, before, false);
    s.set_aa_range(
        SubPixel { whole: 1, frac: 128 },
        SubPixel { whole: 4, frac: 128 },
        &target,
    );
    let half = gray(2000);
    assert_eq!(s.get(0), before);
    assert_eq!(s.get(1), half);
    assert_eq!(s.get(2), target);
    assert_eq!(s.get(3), target);
    assert_eq!(s.get(4), half);
    assert_eq!(s.get(5), half);
}

#[test]
fn mix_channel_endpoints_and_midpoint() {
    assert_eq!(mix_channel(1000, 3000, 0, 256), 1000);
    assert_eq!(mix_channel(1000, 3000, 256, 256), 3000);
    assert_eq!(mix_channel(1000, 3000, 128, 256), 2000);
    // Truncating division: (10 * 1 + 11 * 1) / 2 = 10.
    assert_eq!(mix_channel(10, 11, 1, 2), 10);
}

#[test]
fn fade_decays_channels_toward_black() {
    // Above the floor: lose fade/256 of the value.
    assert_eq!(fade(10000, 128), 5000);
    assert_eq!(fade(10000, 0), 10000);
    // At or below the floor the channel goes out.
    assert_eq!(fade(2570, 1), 0);
    // A rate of 256 or more extinguishes outright.
    assert_eq!(fade(10000, 256), 0);
    assert_eq!(fade(10000, 60000), 0);

    let mut led = Rgba::new(10000, 20000, 2000, 65535);
    fade_to_black_col(&mut led, 128, 64, 1);
    assert_eq!(led, Rgba::new(5000, 15000, 0, 65535));
}

#[test]
fn srgb_quantize_matches_the_transfer_curve() {
    // The linear toe: 12.92 * (10/65535) * 255 = 0.5016..., the first input
    // that rounds up to code 1.
    assert_eq!(srgb_quantize(0), 0);
    assert_eq!(srgb_quantize(9), 0);
    assert_eq!(srgb_quantize(10), 1);
    // The power segment: codes 126/127 cut at linear 13791.
    assert_eq!(srgb_quantize(13790), 126);
    assert_eq!(srgb_quantize(13791), 127);
    // The top: code 255 starts at 65244.
    assert_eq!(srgb_quantize(65243), 254);
    assert_eq!(srgb_quantize(65244), 255);
    assert_eq!(srgb_quantize(65535), 255);
}

#[test]
fn encode_channel_linear_formula() {
    // Full alpha, full brightness: the byte is the channel over 257.
    assert_eq!(encode_channel(40000, 65535, 65535, false), 155);
    assert_eq!(encode_channel(20000, 65535, 65535, false), 77);
    assert_eq!(encode_channel(10000, 65535, 65535, false), 38);
    // Alpha composites toward black.
    assert_eq!(encode_channel(40000, 0, 65535, false), 0);
    // Half alpha: factor 32767, lin = 40000 * 32767 / 65535 = 19999.
    assert_eq!(encode_channel(40000, 32767, 65535, false), 77);
    // Brightness scales the same way.
    assert_eq!(encode_channel(40000, 65535, 0, false), 0);
}

#[test]
fn encode_channel_srgb_curve() {
    // lin = 16384, a quarter intensity: sRGB code 137.
    assert_eq!(encode_channel(16384, 65535, 65535, true), 137);
    assert_eq!(encode_channel(65535, 65535, 65535, true), 255);
    assert_eq!(encode_channel(0, 65535, 65535, true), 0);
    // Dim linear values still resolve through the sRGB toe.
    assert_eq!(encode_channel(10, 65535, 65535, true), 1);
}

#[test]
fn controller_encodes_strip_major_rgb() {
    let mut c = Controller::new(ControllerConfig::default());
    let mut s = c.section(0, 0, 1, false);
    s.set(0, Rgba::new(40000, 20000, 10000, 65535));
    c.write_section(0, 0, s);
    let frame = c.encode_state(65535, false);
    assert_eq!(frame.len(), 3 * STRIPS * LEDS_PER_STRIP);
    assert_eq!(frame[0], 155);
    assert_eq!(frame[1], 77);
    assert_eq!(frame[2], 38);
    assert_eq!(frame[3], 0);
}

#[test]
fn controller_sections_are_bounded_views() {
    let mut c = Controller::new(ControllerConfig::default());
    let mut s = c.section(1, 100, 4, true);
    assert_eq!(s.len(), 4);
    assert!(s.is_reversed());
    s.set(0, gray(7));
    c.write_section(1, 100, s);
    // Logical 0 of a reversed window is its last physical pixel.
    assert_eq!(c.get_pixel(1, 103), gray(7));
    assert_eq!(c.get_pixel(1, 100), Rgba::new(0, 0, 0, 0));
    // The neighbouring strip is untouched.
    assert_eq!(c.get_pixel(0, 100), Rgba::new(0, 0, 0, 0));
}

#[test]
fn controller_config_is_replaceable() {
    let mut c = Controller::new(ControllerConfig::default());
    assert_eq!(c.get_config().brightness, CHANNEL_MAX);
    let set = c.set_config(ControllerConfig {
        brightness: 100,
        as_srgb: true,
    });
    assert_eq!(set, c.get_config());
    assert!(c.get_config().as_srgb);
}

#[test]
fn registry_lists_both_kinds_in_order() {
    let registry = all_internal_effects();
    let listing = registry.list();
    assert_eq!(listing.len(), 2);
    assert_eq!(listing[0].id, "solid".to_string());
    assert_eq!(listing[1].id, "snake".to_string());
    assert_eq!(listing[0].schema.fields.len(), 1);
    assert_eq!(listing[1].schema.fields.len(), 2);
    assert_eq!(listing[1].schema.fields[1].name, "speed".to_string());
}

#[test]
fn registry_find_is_by_identifier() {
    let registry = all_internal_effects();
    assert_eq!(registry.find(&"snake".to_string()), Some(EffectKind::Snake));
    assert_eq!(registry.find(&"comet".to_string()), None);
}

#[test]
fn build_rejects_mismatched_config() {
    let solid_cfg = EffectConfig::Solid(SolidConfig { color: gray(1) });
    let r = EffectKind::Snake.build(&solid_cfg);
    assert_eq!(r, Err(ConfigError::KindMismatch));
    assert!(EffectKind::Solid.build(&solid_cfg).is_ok());
}

#[test]
fn set_config_keeps_previous_on_mismatch() {
    let mut inst = EffectInstance::Snake(SnakeEffect {
        config: SnakeConfig {
            color: gray(1),
            speed: 10,
        },
        head: 77,
    });
    let bad = EffectConfig::Solid(SolidConfig { color: gray(2) });
    assert_eq!(inst.set_config(&bad), Err(ConfigError::KindMismatch));
    match &inst {
        EffectInstance::Snake(s) => {
            assert_eq!(s.head, 77);
            assert_eq!(s.config.speed, 10);
        }
        other => panic!("instance changed kind: {:?}", other),
    }
    let good = EffectConfig::Snake(SnakeConfig {
        color: gray(3),
        speed: 20,
    });
    assert_eq!(inst.set_config(&good), Ok(()));
    match &inst {
        EffectInstance::Snake(s) => {
            assert_eq!(s.head, 77);
            assert_eq!(s.config.speed, 20);
        }
        other => panic!("instance changed kind: {:?}", other),
    }
}

#[test]
fn solid_run_fills_the_window() {
    let mut inst = EffectInstance::Solid(SolidEffect {
        config: SolidConfig { color: gray(123) },
    });
    let mut window = section_of(6, gray(0), false);
    inst.run(&mut window);
    for i in 0..6 {
        assert_eq!(window.get(i), gray(123));
    }
}

#[test]
fn snake_head_wraps_around_the_window() {
    let mut inst = EffectInstance::Snake(SnakeEffect {
        config: SnakeConfig {
            color: gray(9),
            speed: 256,
        },
        head: 0,
    });
    let mut window = section_of(3, gray(0), false);
    for expected in [1usize, 2, 0, 1] {
        inst.run(&mut window);
        assert_eq!(window.get(expected), gray(9));
    }
}

#[test]
fn timer_reports_window_statistics() {
    let mut t = Timer::new();
    let s = t.tick(240);
    assert_eq!(s.dt, 240);
    assert_eq!(s.min, 0);
    assert_eq!(s.max, 240);
    // One 240 among TIMER_WINDOW entries averages to exactly 1.
    assert_eq!(s.avg, 1);
    let s2 = t.tick(480);
    assert_eq!(s2.max, 480);
    assert_eq!(s2.min, 0);
    assert_eq!(s2.avg, 3);
}

#[test]
fn notifier_is_single_slot() {
    let mut n = ChangeNotifier::new();
    assert!(n.poll(0).is_none());
    let v0 = n.version();
    n.notify(DisplayState::default());
    let mut second = DisplayState::default();
    second.effects = Vec::new();
    n.notify(second);
    // A subscriber that slept through both sees only the latest version.
    assert!(n.poll(v0).is_some());
    assert!(n.poll(n.version()).is_none());
}

#[test]
fn config_holder_set_and_replace() {
    let mut c = Config::new(1u64);
    c.set(2);
    let prev = c.replace(3);
    assert_eq!(prev, 2);
    assert_eq!(c.inner, 3);
}

#[test]
fn config_files_have_their_names() {
    assert_eq!(GlobalConfig::file_name(), "config.json".to_string());
    assert_eq!(DisplayState::file_name(), "state.json".to_string());
    assert_eq!(Presets::file_name(), "presets.json".to_string());
}
