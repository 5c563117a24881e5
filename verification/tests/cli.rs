use brush::cli::args::{AnimationArgs, Cli, DataSource, MissingArgument};
use brush::cli::jobs::{plan_jobs, render_source, RenderError, RenderPlan};
use brush::cli::ui::{closing_line, CliUi, EvalLine, Flow, LogLine, UiActions, UiMessage};
use brush::names::PathName;

fn args(source: Option<DataSource>, with_viewer: bool, render: bool) -> Cli {
    Cli {
        source,
        with_viewer,
        animation: AnimationArgs {
            render_anim: if render { Some(PathName::from_text("a.json")) } else { None },
            anim_out: PathName::from_text("animation.mp4"),
            anim_width: 1920,
            anim_height: 1080,
        },
    }
}

fn path(text: &str) -> Option<DataSource> {
    Some(DataSource::Path(text.to_owned()))
}

fn text(line: &Option<String>) -> Option<&str> {
    line.as_deref()
}

fn shown(line: &EvalLine) -> Option<&str> {
    match line {
        EvalLine::Show(t) => Some(t),
        EvalLine::Keep | EvalLine::Finish => None,
    }
}

fn info(line: &LogLine) -> Option<&str> {
    match line {
        LogLine::Info(t) => Some(t),
        LogLine::Nothing | LogLine::Warn(_) => None,
    }
}

fn is_quiet(actions: &UiActions) -> bool {
    actions.main.is_none()
        && actions.stats.is_none()
        && matches!(actions.eval, EvalLine::Keep)
        && actions.position.is_none()
        && actions.print.is_none()
        && matches!(actions.log, LogLine::Nothing)
        && actions.flow == Flow::Continue
}

#[test]
fn arguments_that_go_together_are_accepted() {
    for (source, viewer, render) in [
        (path("a"), false, false),
        (path("a"), true, false),
        (path("a"), false, true),
        (path("a"), true, true),
        (None, true, false),
    ] {
        let accepted = args(source, viewer, render).validate().expect("arguments");
        assert_eq!(accepted.with_viewer, viewer);
        assert_eq!(accepted.animation.render_anim.is_some(), render);
        assert_eq!(accepted.animation.anim_width, 1920);
        assert_eq!(accepted.animation.anim_height, 1080);
        assert_eq!(accepted.animation.anim_out.bytes, b"animation.mp4");
    }
}

#[test]
fn missing_arguments_are_named() {
    for viewer in [false, true] {
        let missing = args(None, viewer, true).validate().unwrap_err();
        assert_eq!(missing, MissingArgument::RenderSource);
        assert_eq!(
            missing.message(),
            "--render-anim requires a PATH_OR_URL source (a .ply file or a folder of plys)"
        );
    }
    let missing = args(None, false, false).validate().unwrap_err();
    assert_eq!(missing, MissingArgument::TrainSource);
    assert_eq!(missing.message(), "When --with-viewer is false, --source must be provided");
}

#[test]
fn only_local_sources_are_rendered() {
    assert_eq!(render_source(&args(path("dir/x.ply"), false, true)).expect("path"), "dir/x.ply");
    let url = Some(DataSource::Other("https://example.com/x.ply".to_owned()));
    let e = render_source(&args(url, false, true)).unwrap_err();
    assert_eq!(
        e.message(""),
        "--render-anim needs a local .ply file or folder, not https://example.com/x.ply"
    );
}

#[test]
fn a_single_file_is_rendered_to_the_output() {
    let out = PathName::from_text("video.mp4");
    assert!(matches!(plan_jobs(None, false, Some(&out)), Ok(RenderPlan::Single)));
}

#[test]
fn a_folder_is_rendered_file_by_file() {
    let names: Vec<PathName> =
        ["b.ply", "notes.txt", "a.PLY", "c.v2.ply", "ply"].map(PathName::from_text).into();
    let plan = |out_is_dir, out: Option<&str>| {
        let out = out.map(PathName::from_text);
        match plan_jobs(Some(&names), out_is_dir, out.as_ref()).expect("plan") {
            RenderPlan::Folder { collect, jobs } => (
                collect,
                jobs.into_iter().map(|j| (j.ply.bytes, j.video.bytes)).collect::<Vec<_>>(),
            ),
            RenderPlan::Single => panic!("folder expected"),
        }
    };
    let expected: Vec<(Vec<u8>, Vec<u8>)> = vec![
        (b"a.PLY".to_vec(), b"a.mp4".to_vec()),
        (b"b.ply".to_vec(), b"b.mp4".to_vec()),
        (b"c.v2.ply".to_vec(), b"c.v2.mp4".to_vec()),
    ];
    assert_eq!(plan(false, Some("animation.mp4")), (false, expected.clone()));
    assert_eq!(plan(true, Some("animation.mp4")), (true, expected.clone()));
    assert_eq!(plan(false, Some("videos")), (true, expected.clone()));
    assert_eq!(plan(false, None), (true, expected));
}

#[test]
fn a_folder_without_splats_is_refused() {
    let names = vec![PathName::from_text("a.txt")];
    let e = plan_jobs(Some(&names), false, None).unwrap_err();
    assert!(matches!(e, RenderError::NoSplats));
    assert_eq!(e.message("some/dir"), "no .ply files found in some/dir");
    assert!(plan_jobs(Some(&vec![]), true, None).is_err());
}

#[test]
fn messages_change_their_lines() {
    let opening = CliUi::opening();
    assert_eq!(info(&opening.log), Some("Starting up"));
    assert_eq!(text(&opening.stats), Some("Starting up"));
    assert_eq!(shown(&opening.eval), Some("waiting for dataset..."));

    let mut ui = CliUi::new(1000);
    let a = ui.step(&UiMessage::NewProcess);
    assert_eq!(text(&a.main), Some("Starting process..."));
    let a = ui.step(&UiMessage::StartLoading { name: "garden".to_owned(), training: true });
    assert_eq!(text(&a.main), Some("Loading garden..."));
    assert_eq!(a.flow, Flow::Continue);
    let a = ui.step(&UiMessage::Dataset { train_views: 30, eval_views: 4 });
    assert_eq!(text(&a.main), Some("Loading dataset with 30 training, 4 eval views"));
    assert_eq!(shown(&a.eval), Some("evaluating 4 views every 1000 steps"));
    assert_eq!(info(&a.log), Some("Loaded dataset with 30 training, 4 eval views"));
    let a = ui.step(&UiMessage::Dataset { train_views: 30, eval_views: 0 });
    assert!(matches!(a.eval, EvalLine::Finish));
    let step = UiMessage::TrainStep { iter: 12, total_secs: 3, lod_progress: None };
    let a = ui.step(&step);
    assert_eq!((text(&a.main), a.position), (Some("Training"), Some(12)));
    assert!(matches!(a.log, LogLine::Nothing));
    let step = UiMessage::TrainStep { iter: 13, total_secs: 4, lod_progress: Some((2, 5)) };
    let a = ui.step(&step);
    assert_eq!((text(&a.main), a.position), (Some("LOD 2/5"), Some(13)));
    let a = ui.step(&UiMessage::RefineStep { cur_splat_count: 777, iter: 13 });
    assert_eq!(text(&a.stats), Some("Current splat count 777"));
    assert_eq!(info(&a.log), Some("Refine iter 13, 777 splats."));
    let a = ui.step(&UiMessage::EvalResult {
        iter: 14,
        avg_psnr: "25.5".to_owned(),
        avg_ssim: "0.9".to_owned(),
    });
    assert_eq!(shown(&a.eval), Some("Eval iter 14: PSNR 25.5, ssim 0.9"));
    assert_eq!(info(&a.log), Some("Eval iter 14: PSNR 25.5, ssim 0.9"));
    let a = ui.step(&UiMessage::DoneLoading);
    assert_eq!(text(&a.main), Some("Completed loading"));
    assert_eq!(text(&a.stats), Some("Completed loading"));
    assert_eq!(info(&a.log), Some("Completed loading."));
    let a = ui.step(&UiMessage::Warning { error: "low disk".to_owned() });
    assert_eq!(text(&a.print), Some("⚠️: low disk"));
    assert!(matches!(&a.log, LogLine::Warn(t) if t == "low disk"));
    assert!(is_quiet(&ui.step(&UiMessage::SplatsUpdated)));
    assert!(is_quiet(&ui.step(&UiMessage::TrainConfig)));
    assert!(is_quiet(&ui.step(&UiMessage::DoneTraining)));
    assert_eq!(ui.elapsed_secs, 4);
}

#[test]
fn viewing_and_errors_end_the_output() {
    let mut ui = CliUi::new(1);
    let a = ui.step(&UiMessage::StartLoading { name: "x".to_owned(), training: false });
    assert_eq!(a.flow, Flow::Stop);
    assert_eq!(
        text(&a.print),
        Some("❌ Only training is supported in the CLI (try passing --with-viewer to view a splat)")
    );
    assert!(a.main.is_none());
    let a = ui.step(&UiMessage::Failed);
    assert_eq!(a.flow, Flow::Fail);
    assert_eq!(text(&a.print), Some("❌ Encountered an error"));
}

#[test]
fn the_last_step_tells_the_time() {
    let mut ui = CliUi::new(1);
    assert_eq!(ui.closing(), "Training took 0s");
    for total_secs in [10, 3725] {
        ui.step(&UiMessage::TrainStep { iter: 1, total_secs, lod_progress: None });
        ui.step(&UiMessage::DoneTraining);
    }
    assert_eq!(ui.closing(), "Training took 1h 2m 5s");
    assert_eq!(closing_line("5s"), "Training took 5s");
    for (secs, written) in [
        (59, "59s"),
        (3_600, "1h"),
        (86_400, "1day"),
        (3 * 86_400 + 61, "3days 1m 1s"),
        (2_630_016, "1month"),
        (5 * 2_630_016 + 86_400, "5months 1day"),
        (31_557_600, "1year"),
        (2 * 31_557_600 + 2_630_016 + 2 * 86_400 + 7, "2years 1month 2days 7s"),
    ] {
        ui.elapsed_secs = secs;
        assert_eq!(ui.closing(), format!("Training took {written}"));
    }
}
