use brush::anim::config::{
    Affine3, AnimationConfig, Fraction, Interpolation, Keyframe, Pose, Quat, Vec2, Vec3,
    DEFAULT_FOV, HALF, ONE,
};
use brush::anim::export::{Exporter, PendingExport, PopupInput, Preset, Progress, Status};
use brush::anim::panel::{AnimationPanel, MarkerInput, Scene, ToolbarInput};
use brush::anim::video::{encoder_args, pack_rgb};
use brush::bits::{Double, Single};
use brush::names::PathName;

fn position(x: u32) -> Vec3 {
    Vec3::from_bits(x, 0, 0)
}

fn turn() -> Quat {
    let zero = Single { bits: 0 };
    Quat { x: zero, y: zero, z: zero, w: Single { bits: ONE } }
}

fn key(frame: usize, x: u32) -> Keyframe {
    Keyframe { frame, position: position(x), rotation: turn() }
}

fn with_keys(num_frames: usize, method: Interpolation, frames: &[usize]) -> AnimationConfig {
    let mut config = AnimationConfig::default();
    config.num_frames = num_frames;
    config.interpolation = method;
    for (i, f) in frames.iter().enumerate() {
        config.set_keyframe(*f, position(i as u32), turn());
    }
    config
}

fn frames(config: &AnimationConfig) -> Vec<usize> {
    config.keyframes.iter().map(|k| k.frame).collect()
}

fn linear(pose: Option<Pose>) -> (usize, usize, Fraction) {
    match pose {
        Some(Pose::Linear { from, to, at }) => (from.frame, to.frame, at),
        other => panic!("linear pose expected, not {other:?}"),
    }
}

fn scene(background: Option<Vec3>) -> Scene {
    Scene {
        fov_x: Double { bits: 1 },
        fov_y: Double { bits: 2 },
        center_uv: Vec2 { x: Single { bits: 3 }, y: Single { bits: 4 } },
        model_local_to_world: Affine3 { translation: position(9), ..Affine3::identity() },
        background,
        splat_scale: Some(Single { bits: 5 }),
    }
}

#[test]
fn defaults_are_exact() {
    let c = AnimationConfig::default();
    assert_eq!((c.num_frames, c.fps), (120, 30));
    assert_eq!(c.interpolation, Interpolation::default());
    assert_eq!(Interpolation::default(), Interpolation::CatmullRom);
    assert!(c.keyframes.is_empty());
    assert_eq!(DEFAULT_FOV, 0.8f64.to_bits());
    assert_eq!((c.fov_x.bits, c.fov_y.bits), (DEFAULT_FOV, DEFAULT_FOV));
    assert_eq!(HALF, 0.5f32.to_bits());
    assert_eq!((c.center_uv.x.bits, c.center_uv.y.bits), (HALF, HALF));
    assert_eq!(ONE, 1.0f32.to_bits());
    assert_eq!(c.model_local_to_world, Affine3::identity());
    assert_eq!(c.background, Vec3::from_bits(0, 0, 0));
    assert!(c.splat_scale.is_none());
}

#[test]
fn methods_have_labels() {
    let labels: Vec<&str> = Interpolation::all().iter().map(|m| m.label()).collect();
    assert_eq!(labels, ["Linear", "Smoothstep", "Catmull-Rom"]);
}

#[test]
fn min_frames_fits_every_keyframe() {
    assert_eq!(AnimationConfig::default().min_frames(), 1);
    assert_eq!(with_keys(1, Interpolation::Linear, &[3, 9, 4]).min_frames(), 10);
    let mut config = with_keys(5, Interpolation::Linear, &[9]);
    config.fit_timeline();
    assert_eq!(config.num_frames, 10);
    config.num_frames = 50;
    config.fit_timeline();
    assert_eq!(config.num_frames, 50);
}

#[test]
fn setting_a_keyframe_replaces_the_one_on_its_frame() {
    let mut config = with_keys(100, Interpolation::Linear, &[10, 5]);
    config.set_keyframe(10, position(77), turn());
    assert_eq!(config.keyframes, vec![key(10, 77), key(5, 1)]);
    config.set_keyframe(20, position(78), turn());
    assert_eq!(frames(&config), vec![10, 5, 20]);
    assert!(config.has_keyframe_at(20));
    config.remove_keyframes_at(20);
    assert!(!config.has_keyframe_at(20));
    assert_eq!(config.keyframes, vec![key(10, 77), key(5, 1)]);
}

#[test]
fn no_keyframe_no_pose_and_one_keyframe_one_pose() {
    assert_eq!(AnimationConfig::default().pose_at_frame(3), None);
    let config = with_keys(100, Interpolation::CatmullRom, &[40]);
    for frame in [0, 40, 99] {
        assert_eq!(config.pose_at_frame(frame), Some(Pose::Fixed { key: key(40, 0) }));
    }
}

#[test]
fn poses_run_along_the_loop() {
    let config = with_keys(100, Interpolation::Linear, &[60, 10, 30]);
    assert_eq!(linear(config.pose_at_frame(10)), (10, 30, Fraction { num: 0, den: 20 }));
    assert_eq!(linear(config.pose_at_frame(15)), (10, 30, Fraction { num: 5, den: 20 }));
    assert_eq!(linear(config.pose_at_frame(30)), (30, 60, Fraction { num: 0, den: 30 }));
    assert_eq!(linear(config.pose_at_frame(59)), (30, 60, Fraction { num: 29, den: 30 }));
    // From the last keyframe round to the first: 40 frames to the end, 10 more.
    assert_eq!(linear(config.pose_at_frame(60)), (60, 10, Fraction { num: 0, den: 50 }));
    assert_eq!(linear(config.pose_at_frame(99)), (60, 10, Fraction { num: 39, den: 50 }));
    assert_eq!(linear(config.pose_at_frame(0)), (60, 10, Fraction { num: 40, den: 50 }));
    assert_eq!(linear(config.pose_at_frame(9)), (60, 10, Fraction { num: 49, den: 50 }));
}

#[test]
fn a_keyframe_shows_on_its_frame() {
    let mut config = with_keys(100, Interpolation::Smoothstep, &[60, 10]);
    config.set_keyframe(30, position(9), turn());
    match config.pose_at_frame(30) {
        Some(Pose::Smoothstep { from, to, at }) => {
            assert_eq!(from, key(30, 9));
            assert_eq!(to.frame, 60);
            assert_eq!(at.num, 0);
        }
        other => panic!("{other:?}"),
    }
}

#[test]
fn splines_use_the_neighbours() {
    let neighbours = |frame| match with_keys(100, Interpolation::CatmullRom, &[10, 30, 60])
        .pose_at_frame(frame)
    {
        Some(Pose::CatmullRom { before, from, to, after, .. }) => {
            (before.frame, from.frame, to.frame, after.frame)
        }
        other => panic!("{other:?}"),
    };
    assert_eq!(neighbours(10), (60, 10, 30, 60));
    assert_eq!(neighbours(30), (10, 30, 60, 10));
    assert_eq!(neighbours(60), (30, 60, 10, 30));
    assert_eq!(neighbours(5), (30, 60, 10, 30));
}

#[test]
fn poses_that_cannot_be_worked_out_are_told() {
    let config = with_keys(100, Interpolation::Linear, &[10, 60]);
    assert!(config.is_playable(0) && config.is_playable(99));
    let short = with_keys(20, Interpolation::Linear, &[10, 60]);
    assert!(short.is_playable(30));
    assert!(!short.is_playable(0));
    assert!(AnimationConfig::default().is_playable(7));
}

#[test]
fn every_frame_has_its_pose() {
    let config = with_keys(12, Interpolation::Linear, &[2, 7]);
    let poses = config.render_poses();
    assert_eq!(poses.len(), 12);
    for (f, pose) in poses.into_iter().enumerate() {
        assert_eq!(pose, config.pose_at_frame(f));
    }
    let cameras = config.render_cameras(|pose| linear(pose).2.num);
    assert_eq!(cameras, vec![5, 6, 0, 1, 2, 3, 4, 0, 1, 2, 3, 4]);
}

#[test]
fn copies_are_complete() {
    let config = with_keys(12, Interpolation::Linear, &[2, 7]);
    let copy = config.clone();
    assert_eq!(copy.keyframes, config.keyframes);
    assert_eq!((copy.num_frames, copy.fps), (12, 30));
    assert_eq!(copy.interpolation, Interpolation::Linear);
    assert_eq!(copy.center_uv, config.center_uv);
}

#[test]
fn a_frame_of_the_panel_fits_the_timeline() {
    let mut panel = AnimationPanel::default();
    assert_eq!(panel.begin_frame(), 1);
    panel.current_frame = 500;
    panel.begin_frame();
    assert_eq!(panel.current_frame, 119);
    panel.load(with_keys(5, Interpolation::Linear, &[40, 20]));
    assert_eq!(panel.begin_frame(), 41);
    assert_eq!(panel.config.num_frames, 41);
    assert_eq!(panel.current_frame, 40);
}

#[test]
fn playback_loops() {
    let mut panel = AnimationPanel::default();
    panel.config.num_frames = 10;
    panel.advance_playback(5);
    assert_eq!(panel.current_frame, 0);
    panel.slide_to(7);
    panel.play();
    for (advanced, frame) in [(0, 7), (2, 9), (3, 0), (4, 1), (13, 0)] {
        panel.advance_playback(advanced);
        assert_eq!(panel.current_frame, frame);
    }
    panel.play();
    assert_eq!(panel.playback, Some(7));
    panel.stop();
    panel.advance_playback(1);
    assert_eq!(panel.current_frame, 0);
    panel.slide_to(99);
    assert_eq!(panel.current_frame, 9);
}

#[test]
fn loading_stops_playback() {
    let mut panel = AnimationPanel::default();
    panel.play();
    panel.apply_camera();
    panel.load(with_keys(30, Interpolation::Linear, &[3]));
    assert!(panel.playback.is_none());
    assert!(panel.applied_frame.is_none());
    assert_eq!(frames(&panel.config), vec![3]);
}

#[test]
fn keyframes_are_edited_on_the_current_frame() {
    let mut panel = AnimationPanel::default();
    assert!(!panel.can_export());
    panel.slide_to(12);
    panel.add_keyframe(position(1), turn());
    assert!(panel.has_keyframe_here());
    assert!(panel.can_export());
    panel.add_keyframe(position(2), turn());
    assert_eq!(panel.config.keyframes, vec![key(12, 2)]);
    panel.slide_to(13);
    assert!(!panel.has_keyframe_here());
    panel.remove_keyframe();
    assert_eq!(panel.config.keyframes.len(), 1);
    panel.slide_to(12);
    panel.remove_keyframe();
    assert!(panel.config.keyframes.is_empty());
}

#[test]
fn markers_move_to_free_frames_only() {
    let idle = MarkerInput { dragged_to: None, remove: false };
    let to = |frame| MarkerInput { dragged_to: Some(frame), remove: false };
    let gone = MarkerInput { dragged_to: None, remove: true };
    let edited = |inputs: Vec<MarkerInput>| {
        let mut panel = AnimationPanel::default();
        panel.config = with_keys(100, Interpolation::Linear, &[10, 20, 30]);
        panel.keyframe_timeline(&inputs);
        (frames(&panel.config), panel.config.keyframes.iter().map(|k| k.position.x.bits).collect())
    };
    let all: Vec<u32> = vec![0, 1, 2];
    assert_eq!(edited(vec![idle, idle, idle]), (vec![10, 20, 30], all.clone()));
    assert_eq!(edited(vec![idle, to(25), idle]), (vec![10, 25, 30], all.clone()));
    assert_eq!(edited(vec![idle, to(30), idle]), (vec![10, 20, 30], all.clone()));
    assert_eq!(edited(vec![idle, to(20), idle]), (vec![10, 20, 30], all.clone()));
    // Of several moves, the last one that is possible counts.
    assert_eq!(edited(vec![to(11), to(21), to(10)]), (vec![10, 21, 30], all));
    assert_eq!(edited(vec![gone, idle, idle]), (vec![20, 30], vec![1, 2]));
    assert_eq!(edited(vec![gone, gone, to(5)]), (vec![10, 5], vec![0, 2]));
    let moved_and_gone = MarkerInput { dragged_to: Some(90), remove: true };
    assert_eq!(edited(vec![moved_and_gone, idle, idle]), (vec![20, 30], vec![1, 2]));
}

#[test]
fn pending_edits_are_named() {
    let mut panel = AnimationPanel::default();
    panel.config = with_keys(100, Interpolation::Linear, &[10, 20]);
    let inputs = vec![
        MarkerInput { dragged_to: Some(11), remove: true },
        MarkerInput { dragged_to: None, remove: false },
    ];
    assert_eq!(panel.draw_markers(&inputs), (Some((0, 11)), Some(0)));
}

#[test]
fn a_new_method_is_applied_at_once() {
    let mut panel = AnimationPanel::default();
    panel.config = with_keys(100, Interpolation::Linear, &[0, 50]);
    assert_eq!(linear(panel.apply_camera()), (0, 50, Fraction { num: 0, den: 50 }));
    assert!(!panel.needs_apply());
    assert_eq!(panel.apply_camera(), None);
    panel.set_interpolation(Interpolation::Linear);
    assert!(!panel.needs_apply());
    panel.set_interpolation(Interpolation::Smoothstep);
    assert!(panel.needs_apply());
    assert!(matches!(panel.apply_camera(), Some(Pose::Smoothstep { .. })));
}

#[test]
fn entered_numbers_stay_in_range() {
    let mut panel = AnimationPanel::default();
    for (entered, kept) in [(5, 10), (10, 10), (500, 500), (200_000, 100_000)] {
        panel.set_num_frames(entered, 10);
        assert_eq!(panel.config.num_frames, kept);
    }
    panel.set_num_frames(7, 100_050);
    assert_eq!(panel.config.num_frames, 100_000);
    panel.set_num_frames(200_000, 100_050);
    assert_eq!(panel.config.num_frames, 100_050);
    for (entered, kept) in [(0, 1), (1, 1), (24, 24), (61, 60)] {
        panel.set_fps(entered);
        assert_eq!(panel.config.fps, kept);
    }
}

#[test]
fn the_panel_is_visible_for_finished_splats() {
    assert!(AnimationPanel::is_visible(true, false));
    assert!(!AnimationPanel::is_visible(true, true));
    assert!(!AnimationPanel::is_visible(false, false));
}

#[test]
fn viewer_and_animation_are_kept_in_step() {
    let mut panel = AnimationPanel::default();
    assert_eq!((panel.config.fov_x.bits, panel.config.fov_y.bits), (DEFAULT_FOV, DEFAULT_FOV));
    assert_eq!((panel.config.center_uv.x.bits, panel.config.center_uv.y.bits), (HALF, HALF));
    assert_eq!(panel.config.splat_scale, None);
    panel.sync_scene_into_config(&scene(None));
    assert_eq!(panel.config.background, Vec3::from_bits(0, 0, 0));
    assert_eq!((panel.config.fov_x.bits, panel.config.fov_y.bits), (1, 2));
    panel.sync_scene_into_config(&scene(Some(position(8))));
    assert_eq!(panel.config.background, position(8));
    assert_eq!(panel.config.splat_scale, Some(Single { bits: 5 }));

    let after = panel.apply_config_to_viewer();
    assert_eq!((after.fov_x.bits, after.fov_y.bits), (1, 2));
    assert_eq!(after.center_uv, scene(None).center_uv);
    assert_eq!(after.background, Some(position(8)));
    assert_eq!(after.splat_scale, Some(Single { bits: 5 }));
    assert_eq!(after.model_local_to_world.translation, position(9));
    let before = panel.config.clone();
    panel.sync_scene_into_config(&Scene {
        fov_x: Double { bits: 100 },
        fov_y: Double { bits: 200 },
        center_uv: Vec2 { x: Single { bits: 300 }, y: Single { bits: 400 } },
        splat_scale: None,
        ..scene(None)
    });
    assert_eq!((panel.config.fov_x.bits, panel.config.fov_y.bits), (100, 200));
    panel.sync_scene_into_config(&after);
    assert_eq!(panel.config.fov_x, before.fov_x);
    assert_eq!(panel.config.fov_y, before.fov_y);
    assert_eq!(panel.config.center_uv, before.center_uv);
    assert_eq!(panel.config.model_local_to_world, before.model_local_to_world);
    assert_eq!(panel.config.background, before.background);
    assert_eq!(panel.config.splat_scale, before.splat_scale);
}

#[test]
fn export_jobs_hold_the_whole_animation() {
    let mut panel = AnimationPanel::default();
    panel.config = with_keys(20, Interpolation::Linear, &[0, 10]);
    let pending = PendingExport { width: 640, height: 480, path: PathName::from_text("o.mp4") };
    let job = panel.export_job(pending, &scene(Some(position(8))));
    assert_eq!(job.poses, panel.config.render_poses());
    assert_eq!((job.width, job.height, job.fps), (640, 480, 30));
    assert_eq!(job.path.bytes, b"o.mp4");
    assert_eq!((job.fov_x.bits, job.fov_y.bits), (1, 2));
    assert_eq!(job.background, position(8));
    assert_eq!(job.center_uv, panel.config.center_uv);
    assert_eq!(job.model_local_to_world.translation, position(9));
    assert_eq!(job.splat_scale, Some(Single { bits: 5 }));
}

fn nothing() -> PopupInput {
    PopupInput { preset: None, resolution: None, export: false, open: true }
}

#[test]
fn a_closed_popup_does_nothing() {
    let mut exporter = Exporter::default();
    assert_eq!((exporter.open, exporter.width, exporter.height), (false, 1920, 1080));
    let mut picked = Some(PathName::from_text("o.mp4"));
    let input = PopupInput { export: true, preset: Some(0), ..nothing() };
    assert!(exporter.draw(&mut picked, &input).is_none());
    assert!(picked.is_some());
    assert!(!exporter.open);
    assert_eq!(exporter.width, 1920);
}

#[test]
fn an_export_needs_a_path() {
    let mut exporter = Exporter::default();
    exporter.open();
    let input = PopupInput { export: true, ..nothing() };
    assert!(exporter.draw(&mut None, &input).is_none());
    let mut picked = Some(PathName::from_text("o.mp4"));
    let request = exporter.draw(&mut picked, &input).expect("request");
    assert!(picked.is_none());
    assert_eq!((request.width, request.height), (1920, 1080));
    assert_eq!(request.path.bytes, b"o.mp4");
    // The path stays for the next time.
    assert!(exporter.draw(&mut None, &input).is_some());
    assert!(exporter.draw(&mut None, &nothing()).is_none());
    assert!(exporter.draw(&mut None, &PopupInput { open: false, ..nothing() }).is_none());
    assert!(!exporter.open);
}

#[test]
fn resolutions_come_from_presets_and_entries() {
    let presets = Preset::all();
    let sizes: Vec<_> = presets.iter().map(|p| (p.name, p.width, p.height)).collect();
    assert_eq!(sizes, [("HD", 1280, 720), ("Full HD", 1920, 1080), ("UHD", 3840, 2160)]);
    let mut exporter = Exporter::default();
    exporter.open();
    for (i, preset) in presets.iter().enumerate() {
        exporter.draw(&mut None, &PopupInput { preset: Some(i), ..nothing() });
        assert_eq!((exporter.width, exporter.height), (preset.width, preset.height));
    }
    for (entered, kept) in [
        ((1, 2), (16, 16)),
        ((640, 480), (640, 480)),
        ((10_000, 10_000), (7680, 4320)),
    ] {
        exporter.draw(&mut None, &PopupInput { resolution: Some(entered), ..nothing() });
        assert_eq!((exporter.width, exporter.height), kept);
    }
}

#[test]
fn a_running_export_cannot_be_changed() {
    let mut exporter = Exporter::default();
    exporter.open();
    exporter.path = Some(PathName::from_text("o.mp4"));
    exporter.start(10);
    assert!(exporter.is_running());
    let input = PopupInput { preset: Some(0), resolution: Some((64, 64)), export: true, open: true };
    assert!(exporter.draw(&mut None, &input).is_none());
    assert_eq!((exporter.width, exporter.height), (1920, 1080));
}

#[test]
fn progress_is_shown() {
    let mut progress = Progress { rendered: 0, total: 0, running: false, error: None };
    assert!(matches!(progress.status(), Status::Idle));
    assert_eq!(progress.status().message(), None);
    progress.start(3);
    progress.advance(2);
    assert_eq!(progress.status().message().as_deref(), Some("Rendering frame 2 / 3"));
    progress.finish(None);
    assert_eq!(progress.status().message().as_deref(), Some("Export complete."));
    progress.start(0);
    assert_eq!(progress.status().message().as_deref(), Some("Rendering frame 0 / 1"));
    progress.finish(None);
    assert!(matches!(progress.status(), Status::Idle));
    progress.start(3);
    progress.finish(Some("no encoder".to_owned()));
    assert_eq!(progress.status().message().as_deref(), Some("no encoder"));
    progress.start(3);
    assert!(progress.error.is_none());
}

#[test]
fn the_encoder_gets_its_arguments() {
    assert_eq!(
        encoder_args(640, 480, 30).join(" "),
        "-f rawvideo -pixel_format rgb24 -video_size 640x480 -framerate 30 -i - -c:v libx264 \
         -pix_fmt yuv420p -preset medium -loglevel error -nostats -y"
    );
}

#[test]
fn frames_are_packed_without_alpha() {
    let floats = [0.0f32, 0.5, 1.0, 9.0, 2.0, -1.0, 0.25, 9.0];
    let rgb = pack_rgb(&floats, 2, 1, |v: f32| (v.clamp(0.0, 1.0) * 255.0) as u8);
    assert_eq!(rgb, vec![0, 127, 255, 255, 0, 63]);
}

#[test]
fn the_toolbar_takes_everything_in() {
    let mut panel = AnimationPanel::default();
    panel.slide_to(4);
    panel.apply_camera();
    let idle = ToolbarInput {
        play: false,
        stop: false,
        add: None,
        remove: false,
        interpolation: Interpolation::CatmullRom,
        num_frames: 120,
        fps: 30,
    };
    panel.toolbar(&ToolbarInput { remove: true, stop: true, ..idle }, 1);
    assert!(panel.config.keyframes.is_empty());
    assert_eq!((panel.playback, panel.applied_frame), (None, Some(4)));
    panel.toolbar(&ToolbarInput { play: true, add: Some((position(6), turn())), ..idle }, 1);
    assert_eq!(panel.config.keyframes, vec![key(4, 6)]);
    assert_eq!(panel.playback, Some(4));
    panel.toolbar(
        &ToolbarInput {
            stop: true,
            play: true,
            interpolation: Interpolation::Linear,
            num_frames: 3,
            fps: 99,
            ..idle
        },
        5,
    );
    assert_eq!((panel.playback, panel.applied_frame), (None, None));
    assert_eq!((panel.config.num_frames, panel.config.fps), (5, 60));
    assert_eq!(panel.config.interpolation, Interpolation::Linear);
    panel.toolbar(&ToolbarInput { remove: true, ..idle }, 1);
    assert!(panel.config.keyframes.is_empty());
}
