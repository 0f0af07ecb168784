use rusty_render::bounce::{after_pass, first_step, BounceReport, BounceStep, MAX_BOUNCES};
use rusty_render::lighting::{assign_light_slots, fold_ssr_settings, ssr_quality_level, LightKind, LightSlot, SsrSlot};
use rusty_render::pass_clear::{ClearFlags, PassClear};
use rusty_render::postfx_plan::{driving_volume, post_gates, target_sizes, MotionBlurRequest, VolumeSlot};
use rusty_render::quality::QualityPreset;

/// Drive the schedule with a fixed sequence of convergence answers (answer `i` is for
/// pass `i + 2`), counting the passes run.
fn run(answers: &[bool]) -> (BounceReport, u32) {
    let mut step = first_step(3);
    let mut passes = 0;
    loop {
        match step {
            BounceStep::Capture { bounce, lit } => {
                passes += 1;
                assert_eq!(lit, bounce > 1);
                let converged = bounce >= 2 && answers[(bounce - 2) as usize];
                step = after_pass(bounce, converged);
            }
            BounceStep::Finish(report) => return (report, passes),
        }
    }
}

#[test]
fn no_probes_is_a_converged_no_op() {
    assert_eq!(first_step(0), BounceStep::Finish(BounceReport { bounces: 0, converged: true }));
}

#[test]
fn converging_pass_stops_the_solve() {
    let (report, passes) = run(&[false, true, false, false]);
    assert_eq!(report, BounceReport { bounces: 3, converged: true });
    assert_eq!(passes, 3);
}

#[test]
fn never_converging_runs_to_the_cap() {
    let (report, passes) = run(&[false, false, false, false]);
    assert_eq!(report, BounceReport { bounces: MAX_BOUNCES, converged: false });
    assert_eq!(passes, MAX_BOUNCES);
}

#[test]
fn first_pass_never_converges() {
    // Bounce 1 has no previous field to compare against: it always continues.
    assert_eq!(after_pass(1, true), BounceStep::Capture { bounce: 2, lit: true });
}

#[test]
fn low_preset_disables_ssr_and_motion_blur() {
    let g = post_gates(QualityPreset::Low, true, true, Some(MotionBlurRequest { active: true, samples: 16 }));
    assert_eq!(g.ssr_mode, 0, "ssr off on Low");
    assert!(!g.motion_blur, "motion blur off on Low");
    assert_eq!(g.motion_blur_samples, 0, "no motion-blur samples on Low");
}

#[test]
fn high_preset_enables_real_ssr_and_motion_blur() {
    let g = post_gates(QualityPreset::High, true, true, Some(MotionBlurRequest { active: true, samples: 16 }));
    assert_eq!(g.ssr_mode, 2, "real screen-space SSR on High");
    assert!(g.motion_blur, "motion blur on on High");
    assert_eq!(g.motion_blur_samples, 16, "motion-blur samples passed through");
}

#[test]
fn inactive_volume_is_neutral_passthrough() {
    let v = VolumeSlot { entity_active: true, has_volume: true, volume_active: false };
    assert_eq!(driving_volume(&vec![v]), None);
}

#[test]
fn first_active_volume_drives_and_samples_clamp() {
    let off = VolumeSlot { entity_active: false, has_volume: true, volume_active: true };
    let on = VolumeSlot { entity_active: true, has_volume: true, volume_active: true };
    assert_eq!(driving_volume(&vec![off, on, on]), Some(1));
    let g = post_gates(QualityPreset::Medium, false, true, Some(MotionBlurRequest { active: true, samples: 100 }));
    assert_eq!(g.ssr_mode, 0);
    assert!(!g.bloom);
    assert_eq!(g.motion_blur_samples, 32);
    let g = post_gates(QualityPreset::Medium, false, false, Some(MotionBlurRequest { active: true, samples: 0 }));
    assert_eq!(g.motion_blur_samples, 2);
}

#[test]
fn bloom_targets_follow_the_divisor() {
    let s = target_sizes(1280, 720, QualityPreset::Low.bloom_divisor());
    assert_eq!((s.full_width, s.full_height, s.bloom_width, s.bloom_height), (1280, 720, 320, 180));
    let s = target_sizes(0, 3, 4);
    assert_eq!((s.full_width, s.full_height, s.bloom_width, s.bloom_height), (1, 3, 1, 1));
}

#[test]
fn depth_only_overlays_keep_colour() {
    assert!(PassClear::for_pass(true, ClearFlags::DepthOnly).clear_color);
    assert!(!PassClear::for_pass(false, ClearFlags::DepthOnly).clear_color);
    assert!(PassClear::for_pass(false, ClearFlags::Skybox).clear_color);
    assert!(PassClear::for_pass(false, ClearFlags::SolidColor).clear_color);
    assert_eq!(PassClear::for_pass(false, ClearFlags::Skybox).flags, ClearFlags::Skybox);
}

fn light(kind: LightKind) -> LightSlot {
    LightSlot { entity_active: true, kind: Some(kind) }
}

#[test]
fn point_lights_fill_four_slots_last_singletons_win() {
    let mut off = light(LightKind::Ambient);
    off.entity_active = false;
    let lights = vec![
        light(LightKind::Point),
        light(LightKind::Ambient),
        light(LightKind::Point),
        LightSlot { entity_active: true, kind: None },
        light(LightKind::Point),
        light(LightKind::Directional),
        light(LightKind::Point),
        light(LightKind::Point),
        off,
        light(LightKind::Spotlight),
    ];
    let slots = assign_light_slots(&lights);
    assert_eq!(slots.points, vec![0, 2, 4, 6]);
    assert_eq!(slots.ambient, Some(1));
    assert_eq!(slots.directional, Some(5));
    assert_eq!(slots.spot, Some(9));
}

fn ssr(active: bool, quality: &str, temporal: bool) -> SsrSlot {
    SsrSlot {
        entity_active: true,
        has_volume: true,
        ssr_active: active,
        ssr_quality: quality.to_string(),
        ssr_temporal_upsampling: temporal,
    }
}

#[test]
fn ssr_settings_fold_over_volumes() {
    assert_eq!(ssr_quality_level(&"Low".to_string()), 0);
    assert_eq!(ssr_quality_level(&"Medium".to_string()), 1);
    assert_eq!(ssr_quality_level(&"High".to_string()), 2);
    assert_eq!(ssr_quality_level(&"Ultra".to_string()), 3);
    assert_eq!(ssr_quality_level(&"Bogus".to_string()), 2);
    let none = fold_ssr_settings(&vec![]);
    assert!(!none.active && none.quality == 2 && !none.temporal_upsampling);
    let s = fold_ssr_settings(&vec![ssr(true, "Low", false), ssr(false, "Ultra", true)]);
    assert!(!s.active);
    assert_eq!(s.quality, 3);
    assert!(s.temporal_upsampling);
}

#[test]
fn last_active_volume_wins_every_ssr_setting() {
    let s = fold_ssr_settings(&vec![ssr(true, "Low", true), ssr(false, "Ultra", false)]);
    assert_eq!((s.active, s.quality, s.temporal_upsampling), (false, 3, false));
    // A volume on an inactive entity does not count.
    let mut off = ssr(false, "Medium", false);
    off.entity_active = false;
    let s = fold_ssr_settings(&vec![ssr(true, "Low", true), off]);
    assert_eq!((s.active, s.quality, s.temporal_upsampling), (true, 0, true));
}
