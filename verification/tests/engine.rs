use lighting::config::{
    DisplayState, DisplayStateEffect, GlobalConfig, Group, Presets, Segment, SegmentId, Strip,
};
use lighting::controller::{Controller, ControllerConfig, LEDS_PER_STRIP, STRIPS};
use lighting::effects::{
    all_internal_effects, EffectConfig, EffectInstance, SnakeConfig, SolidConfig,
};
use lighting::runner::{ApiConfig, EffectRunner, RunnerError};
use lighting::Rgba;

fn one_strip_config(segment_len: usize) -> GlobalConfig {
    let mut config = GlobalConfig::default();
    config.strips.push(Strip {
        offset: 0,
        segments: vec![Segment {
            name: "main".to_string(),
            length: segment_len,
            reversed: false,
        }],
    });
    config
}

fn fresh_runner(config: GlobalConfig) -> EffectRunner {
    let registry = all_internal_effects();
    let controller = Controller::new(ControllerConfig::default());
    EffectRunner::new(
        registry,
        controller,
        config,
        DisplayState::default(),
        Presets::default(),
    )
    .expect("building the runner from valid inputs succeeds")
}

fn snake_row(target: SegmentId, speed: u16) -> DisplayStateEffect {
    DisplayStateEffect {
        effect_id: "snake".to_string(),
        config: EffectConfig::Snake(SnakeConfig {
            color: Rgba::new(100, 200, 300, 65535),
            speed,
        }),
        segment_ids: vec![target],
        group_ids: vec![],
    }
}

fn solid_row(target: SegmentId, color: Rgba) -> DisplayStateEffect {
    DisplayStateEffect {
        effect_id: "solid".to_string(),
        config: EffectConfig::Solid(SolidConfig { color }),
        segment_ids: vec![target],
        group_ids: vec![],
    }
}

#[test]
fn empty_state_synthesizes_default_row() {
    // Scenario: an empty display state plus one strip with one 10-pixel
    // segment yields exactly one row, first registered kind, default config,
    // targeting that segment.
    let runner = fresh_runner(one_strip_config(10));
    let state = runner.get_state();
    assert_eq!(state.effects.len(), 1);
    let row = &state.effects[0];
    assert_eq!(row.effect_id, "solid".to_string());
    assert!(matches!(row.config, EffectConfig::Solid(_)));
    assert_eq!(
        row.segment_ids,
        vec![SegmentId {
            strip_idx: 0,
            segment_idx: 0
        }]
    );
    assert!(row.group_ids.is_empty());
}

#[test]
fn last_row_wins_on_shared_segment() {
    // Scenario: two rows assign different kinds to the same segment; the
    // later row's kind runs, and repeating the tick is deterministic.
    let mut runner = fresh_runner(one_strip_config(10));
    let target = SegmentId {
        strip_idx: 0,
        segment_idx: 0,
    };
    let red = Rgba::new(65535, 0, 0, 65535);
    let mut state = DisplayState::default();
    state.effects.push(snake_row(target, 256));
    state.effects.push(solid_row(target, red));
    runner.set_state(state).unwrap();

    // One entry for the shared target, owned by the later row's kind.
    assert_eq!(runner.effects_state.len(), 1);
    assert_eq!(runner.effects_state[0].1.effect_id, "solid".to_string());

    runner.tick();
    for i in 0..10 {
        assert_eq!(runner.controller.get_pixel(0, i), red);
    }
    runner.tick();
    for i in 0..10 {
        assert_eq!(runner.controller.get_pixel(0, i), red);
    }
}

#[test]
fn overflowing_segments_are_dropped() {
    // Scenario: a strip whose last segment overflows the per-strip capacity
    // loses that segment and everything after it.
    let mut runner = fresh_runner(one_strip_config(10));
    let strip = Strip {
        offset: 0,
        segments: vec![
            Segment {
                name: "fits".to_string(),
                length: 400,
                reversed: false,
            },
            Segment {
                name: "overflows".to_string(),
                length: 200,
                reversed: false,
            },
        ],
    };
    runner.set_segments(vec![strip]).unwrap();
    let strips = runner.list_segments();
    assert_eq!(strips.len(), 1);
    assert_eq!(strips[0].segments.len(), 1);
    assert_eq!(strips[0].segments[0].name, "fits".to_string());
    assert_eq!(strips[0].segments[0].length, 400);
}

#[test]
fn first_segment_overflowing_empties_the_strip() {
    let mut runner = fresh_runner(one_strip_config(10));
    let strip = Strip {
        offset: 470,
        segments: vec![Segment {
            name: "late".to_string(),
            length: 20,
            reversed: false,
        }],
    };
    runner.set_segments(vec![strip]).unwrap();
    assert_eq!(runner.list_segments()[0].segments.len(), 0);
}

#[test]
fn extra_strips_are_dropped() {
    let mut runner = fresh_runner(one_strip_config(10));
    let mut strips = Vec::new();
    for _ in 0..STRIPS + 2 {
        strips.push(Strip {
            offset: 0,
            segments: vec![],
        });
    }
    runner.set_segments(strips).unwrap();
    assert_eq!(runner.list_segments().len(), STRIPS);
}

#[test]
fn delete_missing_preset_is_harmless() {
    // Scenario: deleting an absent preset completes with no error and the
    // other entries stay.
    let mut runner = fresh_runner(one_strip_config(10));
    let mut snapshot = DisplayState::default();
    snapshot.effects.push(solid_row(
        SegmentId {
            strip_idx: 0,
            segment_idx: 0,
        },
        Rgba::new(1, 2, 3, 4),
    ));
    runner.set_preset("keep".to_string(), snapshot);
    runner.delete_preset(&"missing".to_string());
    let presets = runner.list_presets();
    assert_eq!(presets.0.len(), 1);
    assert_eq!(presets.0[0].0, "keep".to_string());
    assert_eq!(presets.0[0].1.effects.len(), 1);
}

#[test]
fn preset_save_load_round_trip() {
    let mut runner = fresh_runner(one_strip_config(10));
    let target = SegmentId {
        strip_idx: 0,
        segment_idx: 0,
    };
    let mut state = DisplayState::default();
    state.effects.push(snake_row(target, 512));
    runner.set_state(state).unwrap();
    runner.save_preset("wave".to_string());

    let mut other = DisplayState::default();
    other
        .effects
        .push(solid_row(target, Rgba::new(9, 9, 9, 9)));
    runner.set_state(other).unwrap();
    assert_eq!(runner.get_state().effects[0].effect_id, "solid".to_string());

    runner.load_preset(&"wave".to_string()).unwrap();
    let row = &runner.get_state().effects[0];
    assert_eq!(row.effect_id, "snake".to_string());
    assert!(matches!(
        row.config,
        EffectConfig::Snake(SnakeConfig { speed: 512, .. })
    ));
}

#[test]
fn load_unknown_preset_fails_without_change() {
    let mut runner = fresh_runner(one_strip_config(10));
    let before = runner.get_state().effects.len();
    let r = runner.load_preset(&"nope".to_string());
    assert_eq!(r, Err(RunnerError::UnknownPreset));
    assert_eq!(runner.get_state().effects.len(), before);
}

#[test]
fn same_kind_keeps_instance_state_across_validation() {
    // Continuity: a pure parameter tweak keeps the running instance and its
    // private animation state; a change of kind rebuilds from scratch.
    let mut runner = fresh_runner(one_strip_config(10));
    let target = SegmentId {
        strip_idx: 0,
        segment_idx: 0,
    };
    let mut state = DisplayState::default();
    state.effects.push(snake_row(target, 256));
    runner.set_state(state).unwrap();
    runner.tick();
    match &runner.effects_state[0].1.instance {
        EffectInstance::Snake(s) => assert_eq!(s.head, 256),
        other => panic!("expected a snake instance, got {:?}", other),
    }

    // Same kind, new speed: the head survives.
    let mut tweaked = DisplayState::default();
    tweaked.effects.push(snake_row(target, 512));
    runner.set_state(tweaked).unwrap();
    match &runner.effects_state[0].1.instance {
        EffectInstance::Snake(s) => {
            assert_eq!(s.head, 256);
            assert_eq!(s.config.speed, 512);
        }
        other => panic!("expected a snake instance, got {:?}", other),
    }

    // Different kind: a fresh instance replaces it.
    let mut switched = DisplayState::default();
    switched
        .effects
        .push(solid_row(target, Rgba::new(5, 5, 5, 5)));
    runner.set_state(switched).unwrap();
    assert!(matches!(
        runner.effects_state[0].1.instance,
        EffectInstance::Solid(_)
    ));
}

#[test]
fn unknown_effect_id_falls_back_to_default_kind() {
    let mut runner = fresh_runner(one_strip_config(10));
    let target = SegmentId {
        strip_idx: 0,
        segment_idx: 0,
    };
    let mut state = DisplayState::default();
    state.effects.push(DisplayStateEffect {
        effect_id: "aurora".to_string(),
        config: EffectConfig::Snake(SnakeConfig {
            color: Rgba::new(0, 0, 0, 0),
            speed: 1,
        }),
        segment_ids: vec![target],
        group_ids: vec![],
    });
    runner.set_state(state).unwrap();
    let row = &runner.get_state().effects[0];
    assert_eq!(row.effect_id, "solid".to_string());
    assert!(matches!(row.config, EffectConfig::Solid(_)));
}

#[test]
fn dangling_references_are_trimmed_not_deleted() {
    let mut runner = fresh_runner(one_strip_config(10));
    let good = SegmentId {
        strip_idx: 0,
        segment_idx: 0,
    };
    let bad = SegmentId {
        strip_idx: 7,
        segment_idx: 3,
    };
    let mut state = DisplayState::default();
    state.effects.push(DisplayStateEffect {
        effect_id: "solid".to_string(),
        config: EffectConfig::Solid(SolidConfig {
            color: Rgba::new(0, 0, 0, 0),
        }),
        segment_ids: vec![bad, good],
        group_ids: vec!["ghost".to_string()],
    });
    runner.set_state(state).unwrap();
    let row = &runner.get_state().effects[0];
    assert_eq!(row.segment_ids, vec![good]);
    assert!(row.group_ids.is_empty());
    assert_eq!(runner.get_state().effects.len(), 1);
}

#[test]
fn mismatched_config_is_rejected() {
    let mut runner = fresh_runner(one_strip_config(10));
    let target = SegmentId {
        strip_idx: 0,
        segment_idx: 0,
    };
    let mut state = DisplayState::default();
    state.effects.push(DisplayStateEffect {
        effect_id: "snake".to_string(),
        config: EffectConfig::Solid(SolidConfig {
            color: Rgba::new(0, 0, 0, 0),
        }),
        segment_ids: vec![target],
        group_ids: vec![],
    });
    let r = runner.set_state(state);
    assert!(matches!(r, Err(RunnerError::Config(_))));
}

#[test]
fn row_index_out_of_range_is_reported() {
    let mut runner = fresh_runner(one_strip_config(10));
    let r = runner.set_state_effect(
        9,
        "solid".to_string(),
        EffectConfig::Solid(SolidConfig {
            color: Rgba::new(0, 0, 0, 0),
        }),
    );
    assert_eq!(r, Err(RunnerError::RowIndexOutOfRange));
}

#[test]
fn set_state_effect_replaces_one_row() {
    let mut runner = fresh_runner(one_strip_config(10));
    let red = Rgba::new(65535, 0, 0, 65535);
    runner
        .set_state_effect(
            0,
            "solid".to_string(),
            EffectConfig::Solid(SolidConfig { color: red }),
        )
        .unwrap();
    let row = &runner.get_state().effects[0];
    assert_eq!(row.effect_id, "solid".to_string());
    assert!(matches!(
        row.config,
        EffectConfig::Solid(SolidConfig { color }) if color == red
    ));
    // The synthesized row's target list survives the assignment change.
    assert_eq!(row.segment_ids.len(), 1);
}

#[test]
fn group_target_runs_all_its_segments() {
    let mut config = GlobalConfig::default();
    config.strips.push(Strip {
        offset: 0,
        segments: vec![
            Segment {
                name: "left".to_string(),
                length: 4,
                reversed: false,
            },
            Segment {
                name: "right".to_string(),
                length: 4,
                reversed: false,
            },
        ],
    });
    config.groups.push(Group {
        id: "both".to_string(),
        name: "Both halves".to_string(),
        segment_ids: vec![
            SegmentId {
                strip_idx: 0,
                segment_idx: 0,
            },
            SegmentId {
                strip_idx: 0,
                segment_idx: 1,
            },
        ],
    });
    let mut runner = fresh_runner(config);
    let green = Rgba::new(0, 65535, 0, 65535);
    let mut state = DisplayState::default();
    state.effects.push(DisplayStateEffect {
        effect_id: "solid".to_string(),
        config: EffectConfig::Solid(SolidConfig { color: green }),
        segment_ids: vec![],
        group_ids: vec!["both".to_string()],
    });
    runner.set_state(state).unwrap();
    runner.tick();
    for i in 0..8 {
        assert_eq!(runner.controller.get_pixel(0, i), green);
    }
    assert_eq!(runner.controller.get_pixel(0, 8), Rgba::new(0, 0, 0, 0));
}

#[test]
fn groups_lose_dangling_segment_references() {
    let mut runner = fresh_runner(one_strip_config(10));
    let groups = vec![Group {
        id: "g".to_string(),
        name: "G".to_string(),
        segment_ids: vec![
            SegmentId {
                strip_idx: 0,
                segment_idx: 0,
            },
            SegmentId {
                strip_idx: 5,
                segment_idx: 0,
            },
        ],
    }];
    runner.set_groups(groups).unwrap();
    let kept = runner.list_groups();
    assert_eq!(kept.len(), 1);
    assert_eq!(
        kept[0].segment_ids,
        vec![SegmentId {
            strip_idx: 0,
            segment_idx: 0
        }]
    );
}

#[test]
fn global_config_round_trips_through_the_api() {
    let mut runner = fresh_runner(one_strip_config(10));
    runner.set_global_config(ApiConfig {
        brightness: 32768,
        srgb: true,
    });
    let got = runner.get_global_config();
    assert_eq!(got.brightness, 32768);
    assert!(got.srgb);
}

#[test]
fn set_state_publishes_to_the_notifier() {
    let mut runner = fresh_runner(one_strip_config(10));
    let v0 = runner.change_notifier().version();
    let mut state = DisplayState::default();
    state.effects.push(solid_row(
        SegmentId {
            strip_idx: 0,
            segment_idx: 0,
        },
        Rgba::new(1, 1, 1, 1),
    ));
    runner.set_state(state).unwrap();
    let notifier = runner.change_notifier();
    assert_ne!(notifier.version(), v0);
    let seen = notifier.poll(v0).expect("a fresh subscriber sees the state");
    assert_eq!(seen.effects.len(), 1);
    assert!(notifier.poll(notifier.version()).is_none());
}

#[test]
fn frame_has_fixed_transport_size() {
    let mut runner = fresh_runner(one_strip_config(10));
    let frame = runner.tick();
    assert_eq!(frame.len(), 3 * STRIPS * LEDS_PER_STRIP);
}

#[test]
fn reversed_segment_draws_head_from_far_end() {
    // A snake on a reversed segment writes its head near the segment's
    // physical end: logical index 1 is physical index length - 2.
    let mut config = GlobalConfig::default();
    config.strips.push(Strip {
        offset: 0,
        segments: vec![Segment {
            name: "back".to_string(),
            length: 10,
            reversed: true,
        }],
    });
    let mut runner = fresh_runner(config);
    let white = Rgba::new(65535, 65535, 65535, 65535);
    let mut state = DisplayState::default();
    state.effects.push(DisplayStateEffect {
        effect_id: "snake".to_string(),
        config: EffectConfig::Snake(SnakeConfig {
            color: white,
            speed: 256,
        }),
        segment_ids: vec![SegmentId {
            strip_idx: 0,
            segment_idx: 0,
        }],
        group_ids: vec![],
    });
    runner.set_state(state).unwrap();
    runner.tick();
    // Head at logical 1 after one tick of one pixel per tick.
    assert_eq!(runner.controller.get_pixel(0, 8), white);
    assert_eq!(runner.controller.get_pixel(0, 1), Rgba::new(0, 0, 0, 0));
}

#[test]
fn notifier_carries_the_validated_state() {
    // A state naming an unknown effect is repaired before it is published:
    // subscribers only ever observe the current (validated) display state.
    let mut runner = fresh_runner(one_strip_config(10));
    let good = SegmentId {
        strip_idx: 0,
        segment_idx: 0,
    };
    let bad = SegmentId {
        strip_idx: 4,
        segment_idx: 0,
    };
    let v0 = runner.change_notifier().version();
    let mut state = DisplayState::default();
    state.effects.push(DisplayStateEffect {
        effect_id: "aurora".to_string(),
        config: EffectConfig::Snake(SnakeConfig {
            color: Rgba::new(0, 0, 0, 0),
            speed: 1,
        }),
        segment_ids: vec![bad, good],
        group_ids: vec![],
    });
    runner.set_state(state).unwrap();
    let published = runner
        .change_notifier()
        .poll(v0)
        .expect("a successful mutation publishes");
    assert_eq!(published.effects.len(), 1);
    assert_eq!(published.effects[0].effect_id, "solid".to_string());
    assert_eq!(published.effects[0].segment_ids, vec![good]);
}

#[test]
fn duplicate_row_references_collapse_to_one() {
    let mut runner = fresh_runner(one_strip_config(10));
    let target = SegmentId {
        strip_idx: 0,
        segment_idx: 0,
    };
    let mut state = DisplayState::default();
    let mut row = snake_row(target, 256);
    row.segment_ids = vec![target, target, target];
    state.effects.push(row);
    runner.set_state(state).unwrap();
    assert_eq!(runner.get_state().effects[0].segment_ids, vec![target]);

    // With the duplicates collapsed, one tick advances the snake once.
    runner.tick();
    match &runner.effects_state[0].1.instance {
        EffectInstance::Snake(s) => assert_eq!(s.head, 256),
        other => panic!("expected a snake instance, got {:?}", other),
    }
}

#[test]
fn duplicate_group_references_collapse_to_one() {
    let mut runner = fresh_runner(one_strip_config(10));
    let target = SegmentId {
        strip_idx: 0,
        segment_idx: 0,
    };
    let groups = vec![Group {
        id: "g".to_string(),
        name: "G".to_string(),
        segment_ids: vec![target, target],
    }];
    runner.set_groups(groups).unwrap();
    assert_eq!(runner.list_groups()[0].segment_ids, vec![target]);

    // A row may also name the same group twice; one reference remains.
    let mut state = DisplayState::default();
    let mut row = snake_row(target, 256);
    row.segment_ids = vec![];
    row.group_ids = vec!["g".to_string(), "g".to_string()];
    state.effects.push(row);
    runner.set_state(state).unwrap();
    assert_eq!(
        runner.get_state().effects[0].group_ids,
        vec!["g".to_string()]
    );

    // The group's table entry runs the snake one step per tick (the entry
    // for the startup default row's segment target stays alongside it).
    runner.tick();
    assert_eq!(runner.effects_state.len(), 2);
    match &runner.effects_state[1].1.instance {
        EffectInstance::Snake(s) => assert_eq!(s.head, 256),
        other => panic!("expected a snake instance, got {:?}", other),
    }
}
