//! What the command line shows of a running process: for each message of the
//! process, which lines change, what is logged, and whether to go on.

use vstd::prelude::*;
use vstd::string::*;

use crate::text::{decimal, lemma_decimal_digits, push_count, push_decimal, text_of};

verus! {

/// A message of a running process.
#[derive(Debug)]
pub enum UiMessage {
    NewProcess,
    StartLoading { name: String, training: bool },
    SplatsUpdated,
    TrainConfig,
    Dataset { train_views: usize, eval_views: usize },
    TrainStep { iter: u64, total_secs: u64, lod_progress: Option<(u64, u64)> },
    RefineStep { cur_splat_count: u64, iter: u64 },
    /// The averages come as they are shown.
    EvalResult { iter: u64, avg_psnr: String, avg_ssim: String },
    DoneTraining,
    DoneLoading,
    Warning { error: String },
    /// The process has failed.
    Failed,
}

/// What becomes of the line about evaluation.
#[derive(Debug)]
pub enum EvalLine {
    Keep,
    Show(String),
    /// The line is finished and cleared.
    Finish,
}

/// What is written to the log.
#[derive(Debug)]
pub enum LogLine {
    Nothing,
    Info(String),
    Warn(String),
}

/// Whether to wait for further messages.
#[derive(Clone, Copy, Debug, PartialEq, Eq, Structural)]
pub enum Flow {
    Continue,
    /// Stop, as if the process had ended.
    Stop,
    /// Stop and hand the error on.
    Fail,
}

/// What changes on the screen, and what is logged.
#[derive(Debug)]
pub struct UiActions {
    /// The new text of the main line.
    pub main: Option<String>,
    /// The new text of the line about the splats.
    pub stats: Option<String>,
    pub eval: EvalLine,
    /// The new position of the progress bar.
    pub position: Option<u64>,
    /// A line to print above the others.
    pub print: Option<String>,
    pub log: LogLine,
    pub flow: Flow,
}

/// What becomes of the line about evaluation, by its text.
#[verifier::ext_equal]
pub enum EvalView {
    Keep,
    Show(Seq<char>),
    Finish,
}

/// What is written to the log, by its text.
#[verifier::ext_equal]
pub enum LogView {
    Nothing,
    Info(Seq<char>),
    Warn(Seq<char>),
}

/// What changes on the screen and what is logged, by the texts.
#[verifier::ext_equal]
pub struct UiView {
    pub main: Option<Seq<char>>,
    pub stats: Option<Seq<char>>,
    pub eval: EvalView,
    pub position: Option<u64>,
    pub print: Option<Seq<char>>,
    pub log: LogView,
    pub flow: Flow,
}

/// The characters of a text, if there is one.
pub open spec fn text_view(text: Option<String>) -> Option<Seq<char>> {
    match text {
        Some(t) => Some(t@),
        None => None,
    }
}

impl View for UiActions {
    type V = UiView;

    open spec fn view(&self) -> UiView {
        UiView {
            main: text_view(self.main),
            stats: text_view(self.stats),
            eval: match self.eval {
                EvalLine::Keep => EvalView::Keep,
                EvalLine::Show(t) => EvalView::Show(t@),
                EvalLine::Finish => EvalView::Finish,
            },
            position: self.position,
            print: text_view(self.print),
            log: match self.log {
                LogLine::Nothing => LogView::Nothing,
                LogLine::Info(t) => LogView::Info(t@),
                LogLine::Warn(t) => LogView::Warn(t@),
            },
            flow: self.flow,
        }
    }
}

/// Nothing changes and nothing is logged.
pub open spec fn no_change() -> UiView {
    UiView {
        main: None,
        stats: None,
        eval: EvalView::Keep,
        position: None,
        print: None,
        log: LogView::Nothing,
        flow: Flow::Continue,
    }
}

/// What changes on the screen, and what is logged, for a message.
pub open spec fn reaction(message: UiMessage, eval_every: u64) -> UiView {
    match message {
        UiMessage::NewProcess => UiView { main: Some("Starting process..."@), ..no_change() },
        UiMessage::StartLoading { name, training } => if training {
            UiView { main: Some("Loading "@ + name@ + "..."@), ..no_change() }
        } else {
            UiView {
                print: Some(
                    "❌ Only training is supported in the CLI (try passing --with-viewer to view a splat)"@,
                ),
                flow: Flow::Stop,
                ..no_change()
            }
        },
        UiMessage::Dataset { train_views, eval_views } => UiView {
            main: Some(
                "Loading dataset with "@ + decimal(train_views as nat) + " training, "@ + decimal(
                    eval_views as nat,
                ) + " eval views"@,
            ),
            eval: if eval_views > 0 {
                EvalView::Show(
                    "evaluating "@ + decimal(eval_views as nat) + " views every "@ + decimal(
                        eval_every as nat,
                    ) + " steps"@,
                )
            } else {
                EvalView::Finish
            },
            log: LogView::Info(
                "Loaded dataset with "@ + decimal(train_views as nat) + " training, "@ + decimal(
                    eval_views as nat,
                ) + " eval views"@,
            ),
            ..no_change()
        },
        UiMessage::TrainStep { iter, total_secs, lod_progress } => UiView {
            main: Some(
                match lod_progress {
                    Some((lod, total)) => "LOD "@ + decimal(lod as nat) + "/"@ + decimal(
                        total as nat,
                    ),
                    None => "Training"@,
                },
            ),
            position: Some(iter),
            ..no_change()
        },
        UiMessage::RefineStep { cur_splat_count, iter } => UiView {
            stats: Some("Current splat count "@ + decimal(cur_splat_count as nat)),
            log: LogView::Info(
                "Refine iter "@ + decimal(iter as nat) + ", "@ + decimal(cur_splat_count as nat)
                    + " splats."@,
            ),
            ..no_change()
        },
        UiMessage::EvalResult { iter, avg_psnr, avg_ssim } => UiView {
            eval: EvalView::Show(
                "Eval iter "@ + decimal(iter as nat) + ": PSNR "@ + avg_psnr@ + ", ssim "@
                    + avg_ssim@,
            ),
            log: LogView::Info(
                "Eval iter "@ + decimal(iter as nat) + ": PSNR "@ + avg_psnr@ + ", ssim "@
                    + avg_ssim@,
            ),
            ..no_change()
        },
        UiMessage::DoneLoading => UiView {
            main: Some("Completed loading"@),
            stats: Some("Completed loading"@),
            log: LogView::Info("Completed loading."@),
            ..no_change()
        },
        UiMessage::Warning { error } => UiView {
            print: Some("⚠️: "@ + error@),
            log: LogView::Warn(error@),
            ..no_change()
        },
        UiMessage::Failed => UiView {
            print: Some("❌ Encountered an error"@),
            flow: Flow::Fail,
            ..no_change()
        },
        _ => no_change(),
    }
}

/// The training time after a message.
pub open spec fn secs_after(message: UiMessage, secs: u64) -> u64 {
    match message {
        UiMessage::TrainStep { total_secs, .. } => total_secs,
        _ => secs,
    }
}

/// The training time after several messages.
pub open spec fn secs_after_all(messages: Seq<UiMessage>, secs: u64) -> u64
    decreases messages.len(),
{
    if messages.len() == 0 {
        secs
    } else {
        secs_after(messages.last(), secs_after_all(messages.drop_last(), secs))
    }
}

/// A unit of time after a number of it.
pub open spec fn plural(count: nat, unit: Seq<char>) -> Seq<char> {
    if count > 1 {
        unit + "s"@
    } else {
        unit
    }
}

/// The text of a duration, extended by `count` of a unit: nothing where there
/// is none of it, and parted from what comes before it by a space.
pub open spec fn with_unit(before: Seq<char>, count: nat, unit: Seq<char>) -> Seq<char> {
    if count == 0 {
        before
    } else if before.len() == 0 {
        decimal(count) + unit
    } else {
        before + " "@ + decimal(count) + unit
    }
}

/// A duration of whole seconds in years of 365.25 days, months of 30.44 days,
/// days, hours, minutes and seconds.
pub open spec fn duration_text(secs: u64) -> Seq<char> {
    let in_year = secs as nat % 31_557_600;
    let in_month = in_year % 2_630_016;
    let in_day = in_month % 86_400;
    let years = secs as nat / 31_557_600;
    let months = in_year / 2_630_016;
    let days = in_month / 86_400;
    if secs == 0 {
        "0s"@
    } else {
        let to_years = with_unit(Seq::empty(), years, plural(years, "year"@));
        let to_months = with_unit(to_years, months, plural(months, "month"@));
        let to_days = with_unit(to_months, days, plural(days, "day"@));
        let to_hours = with_unit(to_days, in_day / 3_600, "h"@);
        let to_minutes = with_unit(to_hours, in_day % 3_600 / 60, "m"@);
        with_unit(to_minutes, in_day % 60, "s"@)
    }
}

/// Calls `humantime::format_duration` on a duration of `secs` seconds and
/// writes out the result: the counts of each unit that there are any of, from
/// years to seconds, parted by spaces, or `0s`. Years, months and days have a
/// plural.
#[verifier::external_body]
fn format_secs(secs: u64) -> (text: String)
    ensures
        text@ == duration_text(secs),
{
    humantime::format_duration(std::time::Duration::from_secs(secs)).to_string()
}

/// Nothing changes and nothing is logged.
fn unchanged() -> (actions: UiActions)
    ensures
        actions@ == no_change(),
{
    UiActions {
        main: None,
        stats: None,
        eval: EvalLine::Keep,
        position: None,
        print: None,
        log: LogLine::Nothing,
        flow: Flow::Continue,
    }
}

/// The line that closes the output, for a training time as it is written.
pub fn closing_line(duration: &str) -> (text: String)
    ensures
        text@ == "Training took "@ + duration@,
{
    let mut text = text_of("Training took ");
    text.append(duration);
    text
}

/// What is known of the process so far.
#[derive(Clone, Copy, Debug)]
pub struct CliUi {
    /// After how many steps the model is evaluated.
    pub eval_every: u64,
    /// How long training took, up to the last step.
    pub elapsed_secs: u64,
}

impl CliUi {
    /// Before the first message.
    pub fn new(eval_every: u64) -> (ui: CliUi)
        ensures
            ui.eval_every == eval_every,
            ui.elapsed_secs == 0,
    {
        CliUi { eval_every, elapsed_secs: 0 }
    }

    /// What is shown before the first message.
    pub fn opening() -> (actions: UiActions)
        ensures
            actions@ == (UiView {
                stats: Some("Starting up"@),
                eval: EvalView::Show("waiting for dataset..."@),
                log: LogView::Info("Starting up"@),
                ..no_change()
            }),
            actions.stats matches Some(t) && t@ == "Starting up"@,
            actions.eval matches EvalLine::Show(t) && t@ == "waiting for dataset..."@,
            actions.log matches LogLine::Info(t) && t@ == "Starting up"@,
            actions.main is None && actions.position is None && actions.print is None,
            actions.flow == Flow::Continue,
    {
        let mut actions = unchanged();
        actions.stats = Some(text_of("Starting up"));
        actions.eval = EvalLine::Show(text_of("waiting for dataset..."));
        actions.log = LogLine::Info(text_of("Starting up"));
        actions
    }

    /// The changes for a dataset.
    fn dataset(&self, train_views: usize, eval_views: usize) -> (actions: UiActions)
        ensures
            actions@ == reaction(
                UiMessage::Dataset { train_views, eval_views },
                self.eval_every,
            ),
    {
        let mut text = text_of("Loading dataset with ");
        push_count(&mut text, train_views);
        text.append(" training, ");
        push_count(&mut text, eval_views);
        text.append(" eval views");
        let mut loaded = text_of("Loaded dataset with ");
        push_count(&mut loaded, train_views);
        loaded.append(" training, ");
        push_count(&mut loaded, eval_views);
        loaded.append(" eval views");
        let mut actions = unchanged();
        actions.main = Some(text);
        actions.log = LogLine::Info(loaded);
        if eval_views > 0 {
            let mut line = text_of("evaluating ");
            push_count(&mut line, eval_views);
            line.append(" views every ");
            push_decimal(&mut line, self.eval_every);
            line.append(" steps");
            actions.eval = EvalLine::Show(line);
        } else {
            actions.eval = EvalLine::Finish;
        }
        actions
    }

    /// Takes in a message, and says what changes on the screen and what is
    /// logged.
    pub fn step(&mut self, message: &UiMessage) -> (actions: UiActions)
        ensures
            actions@ == reaction(*message, old(self).eval_every),
            final(self).eval_every == old(self).eval_every,
            final(self).elapsed_secs == secs_after(*message, old(self).elapsed_secs),
            final(self).elapsed_secs == match *message {
                UiMessage::TrainStep { total_secs, .. } => total_secs,
                _ => old(self).elapsed_secs,
            },
            // The main line.
            match *message {
                UiMessage::NewProcess => actions.main matches Some(t) && t@
                    == "Starting process..."@,
                UiMessage::StartLoading { name, training } => if training {
                    actions.main matches Some(t) && t@ == "Loading "@ + name@ + "..."@
                } else {
                    actions.main is None
                },
                UiMessage::Dataset { train_views, eval_views } => actions.main matches Some(t)
                    && t@ == "Loading dataset with "@ + decimal(train_views as nat)
                    + " training, "@ + decimal(eval_views as nat) + " eval views"@,
                UiMessage::TrainStep { lod_progress: Some((lod, total)), .. } => {
                    actions.main matches Some(t) && t@ == "LOD "@ + decimal(lod as nat) + "/"@
                        + decimal(total as nat)
                },
                UiMessage::TrainStep { lod_progress: None, .. } => actions.main matches Some(t)
                    && t@ == "Training"@,
                UiMessage::DoneLoading => actions.main matches Some(t) && t@
                    == "Completed loading"@,
                _ => actions.main is None,
            },
            // The line about the splats.
            match *message {
                UiMessage::RefineStep { cur_splat_count, .. } => actions.stats matches Some(t) && t@
                    == "Current splat count "@ + decimal(cur_splat_count as nat),
                UiMessage::DoneLoading => actions.stats matches Some(t) && t@
                    == "Completed loading"@,
                _ => actions.stats is None,
            },
            // The line about evaluation.
            match *message {
                UiMessage::Dataset { eval_views, .. } => if eval_views >= 1 {
                    actions.eval matches EvalLine::Show(t) && t@ == "evaluating "@ + decimal(
                        eval_views as nat,
                    ) + " views every "@ + decimal(old(self).eval_every as nat) + " steps"@
                } else {
                    actions.eval is Finish
                },
                UiMessage::EvalResult { iter, avg_psnr, avg_ssim } => {
                    actions.eval matches EvalLine::Show(t) && t@ == "Eval iter "@ + decimal(
                        iter as nat,
                    ) + ": PSNR "@ + avg_psnr@ + ", ssim "@ + avg_ssim@
                },
                _ => actions.eval is Keep,
            },
            // The progress bar.
            match *message {
                UiMessage::TrainStep { iter, .. } => actions.position == Some(iter),
                _ => actions.position is None,
            },
            // What is printed.
            match *message {
                UiMessage::StartLoading { training, .. } => if training {
                    actions.print is None
                } else {
                    actions.print matches Some(t) && t@
                        == "❌ Only training is supported in the CLI (try passing --with-viewer to view a splat)"@
                },
                UiMessage::Warning { error } => actions.print matches Some(t) && t@ == "⚠️: "@
                    + error@,
                UiMessage::Failed => actions.print matches Some(t) && t@
                    == "❌ Encountered an error"@,
                _ => actions.print is None,
            },
            // What is logged.
            match *message {
                UiMessage::Dataset { train_views, eval_views } => actions.log matches LogLine::Info(
                    t,
                ) && t@ == "Loaded dataset with "@ + decimal(train_views as nat) + " training, "@
                    + decimal(eval_views as nat) + " eval views"@,
                UiMessage::RefineStep { cur_splat_count, iter } => actions.log matches LogLine::Info(
                    t,
                ) && t@ == "Refine iter "@ + decimal(iter as nat) + ", "@ + decimal(
                    cur_splat_count as nat,
                ) + " splats."@,
                UiMessage::EvalResult { iter, avg_psnr, avg_ssim } => {
                    actions.log matches LogLine::Info(t) && t@ == "Eval iter "@ + decimal(
                        iter as nat,
                    ) + ": PSNR "@ + avg_psnr@ + ", ssim "@ + avg_ssim@
                },
                UiMessage::DoneLoading => actions.log matches LogLine::Info(t) && t@
                    == "Completed loading."@,
                UiMessage::Warning { error } => actions.log matches LogLine::Warn(t) && t@
                    == error@,
                _ => actions.log is Nothing,
            },
            // Whether to go on.
            match *message {
                UiMessage::StartLoading { training, .. } => actions.flow == if training {
                    Flow::Continue
                } else {
                    Flow::Stop
                },
                UiMessage::Failed => actions.flow == Flow::Fail,
                _ => actions.flow == Flow::Continue,
            },
    {
        let mut actions = unchanged();
        match message {
            UiMessage::NewProcess => {
                actions.main = Some(text_of("Starting process..."));
            },
            UiMessage::StartLoading { name, training } => {
                if !*training {
                    actions.print = Some(
                        text_of(
                            "❌ Only training is supported in the CLI (try passing --with-viewer to view a splat)",
                        ),
                    );
                    actions.flow = Flow::Stop;
                } else {
                    let mut text = text_of("Loading ");
                    text.append(name.as_str());
                    text.append("...");
                    actions.main = Some(text);
                }
            },
            UiMessage::SplatsUpdated => {},
            UiMessage::TrainConfig => {},
            UiMessage::Dataset { train_views, eval_views } => {
                actions = self.dataset(*train_views, *eval_views);
            },
            UiMessage::TrainStep { iter, total_secs, lod_progress } => {
                let text = match lod_progress {
                    Some((lod, total)) => {
                        let mut text = text_of("LOD ");
                        push_decimal(&mut text, *lod);
                        text.append("/");
                        push_decimal(&mut text, *total);
                        text
                    },
                    None => text_of("Training"),
                };
                actions.main = Some(text);
                actions.position = Some(*iter);
                self.elapsed_secs = *total_secs;
            },
            UiMessage::RefineStep { cur_splat_count, iter } => {
                let mut text = text_of("Current splat count ");
                push_decimal(&mut text, *cur_splat_count);
                actions.stats = Some(text);
                let mut line = text_of("Refine iter ");
                push_decimal(&mut line, *iter);
                line.append(", ");
                push_decimal(&mut line, *cur_splat_count);
                line.append(" splats.");
                actions.log = LogLine::Info(line);
            },
            UiMessage::EvalResult { iter, avg_psnr, avg_ssim } => {
                let mut text = text_of("Eval iter ");
                push_decimal(&mut text, *iter);
                text.append(": PSNR ");
                text.append(avg_psnr.as_str());
                text.append(", ssim ");
                text.append(avg_ssim.as_str());
                actions.log = LogLine::Info(text_of(text.as_str()));
                actions.eval = EvalLine::Show(text);
            },
            UiMessage::DoneTraining => {},
            UiMessage::DoneLoading => {
                actions.main = Some(text_of("Completed loading"));
                actions.stats = Some(text_of("Completed loading"));
                actions.log = LogLine::Info(text_of("Completed loading."));
            },
            UiMessage::Warning { error } => {
                let mut text = text_of("⚠️: ");
                text.append(error.as_str());
                actions.print = Some(text);
                actions.log = LogLine::Warn(text_of(error.as_str()));
            },
            UiMessage::Failed => {
                actions.print = Some(text_of("❌ Encountered an error"));
                actions.flow = Flow::Fail;
            },
        }
        actions
    }

    /// The line that closes the output: how long training took.
    pub fn closing(&self) -> (text: String)
        ensures
            text@ == "Training took "@ + duration_text(self.elapsed_secs),
    {
        closing_line(format_secs(self.elapsed_secs).as_str())
    }
}

/// The training time that is shown in the end is that of the last training
/// step, whatever messages came after it.
pub proof fn law_last_step_counts(messages: Seq<UiMessage>, step: int, secs: u64)
    requires
        0 <= step < messages.len(),
        messages[step] is TrainStep,
        forall|i: int| step < i < messages.len() ==> !(#[trigger] messages[i] is TrainStep),
    ensures
        secs_after_all(messages, secs) == messages[step]->total_secs,
    decreases messages.len(),
{
    let rest = messages.drop_last();
    if step < rest.len() {
        assert(!(messages[messages.len() - 1] is TrainStep));
        assert forall|i: int| step < i < rest.len() implies !(#[trigger] rest[i] is TrainStep) by {
            assert(rest[i] == messages[i]);
        }
        law_last_step_counts(rest, step, secs);
    }
}

/// Without a training step, the training time stays as it was.
pub proof fn law_no_step_no_time(messages: Seq<UiMessage>, secs: u64)
    requires
        forall|i: int| 0 <= i < messages.len() ==> !(#[trigger] messages[i] is TrainStep),
    ensures
        secs_after_all(messages, secs) == secs,
    decreases messages.len(),
{
    if messages.len() > 0 {
        let rest = messages.drop_last();
        assert(!(messages[messages.len() - 1] is TrainStep));
        assert forall|i: int| 0 <= i < rest.len() implies !(#[trigger] rest[i] is TrainStep) by {
            assert(rest[i] == messages[i]);
        }
        law_no_step_no_time(rest, secs);
    }
}

/// Only loading without training and an error end the output early.
pub proof fn law_what_ends_the_output(message: UiMessage, eval_every: u64)
    ensures
        reaction(message, eval_every).flow == Flow::Stop <==> (message matches UiMessage::StartLoading {
            training,
            ..
        } && !training),
        reaction(message, eval_every).flow == Flow::Fail <==> message is Failed,
{
}

/// A time of less than a day is told in hours, minutes and seconds, as far as
/// there are any of them.
pub proof fn law_time_of_less_than_a_day(hours: nat, minutes: nat, seconds: nat, secs: u64)
    requires
        hours < 24,
        minutes < 60,
        seconds < 60,
        secs == hours * 3600 + minutes * 60 + seconds,
    ensures
        secs == 0 ==> duration_text(secs) == "0s"@,
        hours == 0 && minutes == 0 && seconds > 0 ==> duration_text(secs) == decimal(seconds)
            + "s"@,
        hours == 0 && minutes > 0 && seconds > 0 ==> duration_text(secs) == decimal(minutes) + "m"@
            + " "@ + decimal(seconds) + "s"@,
        hours > 0 && minutes > 0 && seconds > 0 ==> duration_text(secs) == decimal(hours) + "h"@
            + " "@ + decimal(minutes) + "m"@ + " "@ + decimal(seconds) + "s"@,
{
    lemma_decimal_digits(hours);
    lemma_decimal_digits(minutes);
}

/// Each message changes the lines it is about, with the numbers and texts it
/// carries, and no other: the main line.
pub proof fn law_main_line(message: UiMessage, eval_every: u64)
    ensures
        reaction(message, eval_every).main == match message {
            UiMessage::NewProcess => Some("Starting process..."@),
            UiMessage::StartLoading { name, training } => if training {
                Some("Loading "@ + name@ + "..."@)
            } else {
                None
            },
            UiMessage::Dataset { train_views, eval_views } => Some(
                "Loading dataset with "@ + decimal(train_views as nat) + " training, "@ + decimal(
                    eval_views as nat,
                ) + " eval views"@,
            ),
            UiMessage::TrainStep { lod_progress, .. } => match lod_progress {
                Some((lod, total)) => Some(
                    "LOD "@ + decimal(lod as nat) + "/"@ + decimal(total as nat),
                ),
                None => Some("Training"@),
            },
            UiMessage::DoneLoading => Some("Completed loading"@),
            _ => None,
        },
{
}

/// Each message changes the lines it is about, with the numbers and texts it
/// carries, and no other: the lines on splats, evaluation and progress.
pub proof fn law_other_lines(message: UiMessage, eval_every: u64)
    ensures
        reaction(message, eval_every).stats == match message {
            UiMessage::RefineStep { cur_splat_count, .. } => Some(
                "Current splat count "@ + decimal(cur_splat_count as nat),
            ),
            UiMessage::DoneLoading => Some("Completed loading"@),
            _ => None,
        },
        reaction(message, eval_every).eval == match message {
            UiMessage::Dataset { eval_views, .. } => if eval_views >= 1 {
                EvalView::Show(
                    "evaluating "@ + decimal(eval_views as nat) + " views every "@ + decimal(
                        eval_every as nat,
                    ) + " steps"@,
                )
            } else {
                EvalView::Finish
            },
            UiMessage::EvalResult { iter, avg_psnr, avg_ssim } => EvalView::Show(
                "Eval iter "@ + decimal(iter as nat) + ": PSNR "@ + avg_psnr@ + ", ssim "@
                    + avg_ssim@,
            ),
            _ => EvalView::Keep,
        },
        reaction(message, eval_every).position == match message {
            UiMessage::TrainStep { iter, .. } => Some(iter),
            _ => None,
        },
{
}

/// Each message is printed and logged with the numbers and texts it carries.
pub proof fn law_printed_and_logged(message: UiMessage, eval_every: u64)
    ensures
        reaction(message, eval_every).print == match message {
            UiMessage::StartLoading { training: false, .. } => Some(
                "❌ Only training is supported in the CLI (try passing --with-viewer to view a splat)"@,
            ),
            UiMessage::Warning { error } => Some("⚠️: "@ + error@),
            UiMessage::Failed => Some("❌ Encountered an error"@),
            _ => None,
        },
        reaction(message, eval_every).log == match message {
            UiMessage::Dataset { train_views, eval_views } => LogView::Info(
                "Loaded dataset with "@ + decimal(train_views as nat) + " training, "@ + decimal(
                    eval_views as nat,
                ) + " eval views"@,
            ),
            UiMessage::RefineStep { cur_splat_count, iter } => LogView::Info(
                "Refine iter "@ + decimal(iter as nat) + ", "@ + decimal(cur_splat_count as nat)
                    + " splats."@,
            ),
            UiMessage::EvalResult { iter, avg_psnr, avg_ssim } => LogView::Info(
                "Eval iter "@ + decimal(iter as nat) + ": PSNR "@ + avg_psnr@ + ", ssim "@
                    + avg_ssim@,
            ),
            UiMessage::DoneLoading => LogView::Info("Completed loading."@),
            UiMessage::Warning { error } => LogView::Warn(error@),
            _ => LogView::Nothing,
        },
{
}

} // verus!
