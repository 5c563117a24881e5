//! The export popup: resolution, output path, progress, and when an export
//! starts.

use vstd::prelude::*;
use vstd::string::*;

use crate::names::PathName;
use crate::text::{decimal, push_count, text_of};

verus! {

/// The smallest width and height that can be chosen.
pub const MIN_SIDE: u32 = 16;

/// The largest width that can be chosen.
pub const MAX_WIDTH: u32 = 7680;

/// The largest height that can be chosen.
pub const MAX_HEIGHT: u32 = 4320;

/// A resolution that the popup offers by name.
#[derive(Clone, Copy, Debug)]
pub struct Preset {
    pub name: &'static str,
    pub width: u32,
    pub height: u32,
}

impl Preset {
    /// The preset has the given name and resolution.
    pub open spec fn is(self, name: Seq<char>, width: u32, height: u32) -> bool {
        self.name@ == name && self.width == width && self.height == height
    }

    /// The resolutions that the popup offers, in this order.
    pub fn all() -> (presets: [Preset; 3])
        ensures
            presets@[0].is("HD"@, 1280, 720),
            presets@[1].is("Full HD"@, 1920, 1080),
            presets@[2].is("UHD"@, 3840, 2160),
            presets@[0].name@ == "HD"@ && presets@[0].width == 1280 && presets@[0].height == 720,
            presets@[1].name@ == "Full HD"@ && presets@[1].width == 1920 && presets@[1].height
                == 1080,
            presets@[2].name@ == "UHD"@ && presets@[2].width == 3840 && presets@[2].height == 2160,
    {
        [
            Preset { name: "HD", width: 1280, height: 720 },
            Preset { name: "Full HD", width: 1920, height: 1080 },
            Preset { name: "UHD", width: 3840, height: 2160 },
        ]
    }
}

/// How far an export has come.
#[derive(Debug)]
pub struct Progress {
    pub rendered: usize,
    pub total: usize,
    pub running: bool,
    pub error: Option<String>,
}

/// What the popup shows of the progress.
#[derive(Debug)]
pub enum Status {
    /// No export was started yet.
    Idle,
    /// Some of the frames are rendered.
    Running { done: usize, total: usize },
    /// The last export failed.
    Failed { error: String },
    /// The last export went through.
    Complete,
}

impl Progress {
    /// Nothing was started yet.
    pub open spec fn untouched(self) -> bool {
        self.rendered == 0 && self.total == 0 && !self.running && self.error is None
    }

    /// What the popup shows.
    pub open spec fn shows(self, status: Status) -> bool {
        if self.running {
            status matches Status::Running { done, total } && done == self.rendered && total == if self.total
                >= 1 {
                self.total
            } else {
                1
            }
        } else {
            match self.error {
                Some(e) => status matches Status::Failed { error } && error@ == e@,
                None => if self.total > 0 {
                    status is Complete
                } else {
                    status is Idle
                },
            }
        }
    }

    /// What the popup shows.
    pub fn status(&self) -> (status: Status)
        ensures
            self.shows(status),
            self.running ==> (status matches Status::Running { done, total } && done
                == self.rendered && total >= 1 && (self.total >= 1 ==> total == self.total) && (
            self.total == 0 ==> total == 1)),
            !self.running ==> (self.error matches Some(e) ==> (status matches Status::Failed {
                error,
            } && error@ == e@)),
            !self.running && self.error is None ==> (status is Complete <==> self.total > 0) && (
            status is Idle <==> self.total == 0),
    {
        if self.running {
            let total: usize = if self.total >= 1 {
                self.total
            } else {
                1
            };
            return Status::Running { done: self.rendered, total };
        }
        match &self.error {
            Some(e) => Status::Failed { error: e.clone() },
            None => if self.total > 0 {
                Status::Complete
            } else {
                Status::Idle
            },
        }
    }

    /// Starts over, with `frames` frames to render.
    pub fn start(&mut self, frames: usize)
        ensures
            final(self).rendered == 0,
            final(self).total == frames,
            final(self).running,
            final(self).error is None,
    {
        self.rendered = 0;
        self.total = frames;
        self.running = true;
        self.error = None;
    }

    /// Notes that `done` frames are rendered.
    pub fn advance(&mut self, done: usize)
        ensures
            final(self).rendered == done,
            final(self).total == old(self).total,
            final(self).running == old(self).running,
            final(self).error == old(self).error,
    {
        self.rendered = done;
    }

    /// Notes that the export has ended, with an error if it failed.
    pub fn finish(&mut self, failure: Option<String>)
        ensures
            final(self).rendered == old(self).rendered,
            final(self).total == old(self).total,
            !final(self).running,
            final(self).error == if failure is Some {
                failure
            } else {
                old(self).error
            },
    {
        if failure.is_some() {
            self.error = failure;
        }
        self.running = false;
    }
}

impl Status {
    /// The text that is shown, if any.
    pub open spec fn text(self) -> Option<Seq<char>> {
        match self {
            Status::Idle => None,
            Status::Running { done, total } => Some(
                "Rendering frame "@ + decimal(done as nat) + " / "@ + decimal(total as nat),
            ),
            Status::Failed { error } => Some(error@),
            Status::Complete => Some("Export complete."@),
        }
    }

    /// The text that is shown, if any.
    pub fn message(&self) -> (text: Option<String>)
        ensures
            match text {
                Some(t) => self.text() == Some(t@),
                None => self.text() is None,
            },
            match *self {
                Status::Idle => text is None,
                Status::Running { done, total } => text matches Some(t) && t@
                    == "Rendering frame "@ + decimal(done as nat) + " / "@ + decimal(total as nat),
                Status::Failed { error } => text matches Some(t) && t@ == error@,
                Status::Complete => text matches Some(t) && t@ == "Export complete."@,
            },
    {
        match self {
            Status::Idle => None,
            Status::Running { done, total } => {
                let mut text = text_of("Rendering frame ");
                push_count(&mut text, *done);
                text.append(" / ");
                push_count(&mut text, *total);
                Some(text)
            },
            Status::Failed { error } => Some(error.clone()),
            Status::Complete => Some(text_of("Export complete.")),
        }
    }
}

/// What the popup hands back when an export is asked for.
#[derive(Debug)]
pub struct PendingExport {
    pub width: u32,
    pub height: u32,
    pub path: PathName,
}

/// What was done in the popup while it was shown.
#[derive(Debug)]
pub struct PopupInput {
    /// The preset that was clicked.
    pub preset: Option<usize>,
    /// The width and height that were entered, after the click on a preset.
    pub resolution: Option<(u32, u32)>,
    /// Whether the export button was clicked.
    pub export: bool,
    /// Whether the popup is still open.
    pub open: bool,
}

/// The export popup.
#[derive(Debug)]
pub struct Exporter {
    pub open: bool,
    pub width: u32,
    pub height: u32,
    pub path: Option<PathName>,
    pub progress: Progress,
}

impl Default for Exporter {
    fn default() -> (e: Self)
        ensures
            !e.open,
            e.width == 1920,
            e.height == 1080,
            e.path is None,
            e.progress.untouched(),
            e.progress.rendered == 0 && e.progress.total == 0 && !e.progress.running
                && e.progress.error is None,
    {
        Exporter {
            open: false,
            width: 1920,
            height: 1080,
            path: None,
            progress: Progress { rendered: 0, total: 0, running: false, error: None },
        }
    }
}

/// `value`, or the nearer end of the range from `low` to `high`.
pub open spec fn within(value: u32, low: u32, high: u32) -> u32 {
    if value < low {
        low
    } else if value > high {
        high
    } else {
        value
    }
}

/// `value`, or the nearer end of the range from `low` to `high`.
fn clamped(value: u32, low: u32, high: u32) -> (r: u32)
    requires
        low <= high,
    ensures
        r == within(value, low, high),
{
    if value < low {
        low
    } else if value > high {
        high
    } else {
        value
    }
}

/// The resolution of a preset.
pub open spec fn preset_size(i: int) -> (u32, u32) {
    if i == 0 {
        (1280, 720)
    } else if i == 1 {
        (1920, 1080)
    } else {
        (3840, 2160)
    }
}

impl Exporter {
    /// The resolution after what was done in the popup. While an export is
    /// running, the resolution cannot be changed.
    pub open spec fn resolution_after(self, input: PopupInput) -> (u32, u32) {
        if self.progress.running {
            (self.width, self.height)
        } else {
            match input.resolution {
                Some((w, h)) => (
                    within(w, MIN_SIDE, MAX_WIDTH),
                    within(h, MIN_SIDE, MAX_HEIGHT),
                ),
                None => match input.preset {
                    Some(i) => preset_size(i as int),
                    None => (self.width, self.height),
                },
            }
        }
    }

    /// Opens the popup.
    pub fn open(&mut self)
        ensures
            final(self).open,
            final(self).width == old(self).width,
            final(self).height == old(self).height,
            final(self).path == old(self).path,
            final(self).progress == old(self).progress,
    {
        self.open = true;
    }

    /// Whether an export is running.
    pub fn is_running(&self) -> (r: bool)
        ensures
            r == self.progress.running,
    {
        self.progress.running
    }

    /// Takes in what was done in the popup, and returns an export when one was
    /// asked for. `picked` is a path chosen in the meantime; it is picked up
    /// only while the popup is open.
    pub fn draw(&mut self, picked: &mut Option<PathName>, input: &PopupInput) -> (request: Option<
        PendingExport,
    >)
        requires
            input.preset matches Some(i) ==> i < 3,
        ensures
            !old(self).open ==> {
                &&& *final(self) == *old(self)
                &&& *final(picked) == *old(picked)
                &&& request is None
            },
            old(self).open ==> {
                &&& final(self).open == input.open
                &&& (final(self).width, final(self).height) == old(self).resolution_after(*input)
                &&& final(self).path == if *old(picked) is Some {
                    *old(picked)
                } else {
                    old(self).path
                }
                &&& *final(picked) == None::<PathName>
                &&& final(self).progress == old(self).progress
                &&& match final(self).path {
                    Some(p) => if input.export && !old(self).progress.running {
                        request matches Some(r) && r.width == final(self).width && r.height
                            == final(self).height && r.path@ == p@
                    } else {
                        request is None
                    },
                    None => request is None,
                }
            },
            old(self).open && old(self).progress.running ==> final(self).width == old(self).width
                && final(self).height == old(self).height,
            old(self).open && !old(self).progress.running ==> match input.resolution {
                // Each side is the one entered, or the nearer end of its range.
                Some((w, h)) => {
                    &&& 16 <= final(self).width <= 7680
                    &&& 16 <= final(self).height <= 4320
                    &&& 16 <= w <= 7680 ==> final(self).width == w
                    &&& w < 16 ==> final(self).width == 16
                    &&& w > 7680 ==> final(self).width == 7680
                    &&& 16 <= h <= 4320 ==> final(self).height == h
                    &&& h < 16 ==> final(self).height == 16
                    &&& h > 4320 ==> final(self).height == 4320
                },
                None => match input.preset {
                    Some(0) => final(self).width == 1280 && final(self).height == 720,
                    Some(1) => final(self).width == 1920 && final(self).height == 1080,
                    Some(_) => final(self).width == 3840 && final(self).height == 2160,
                    None => final(self).width == old(self).width && final(self).height == old(
                        self,
                    ).height,
                },
            },
            request is Some <==> old(self).open && input.export && !old(self).progress.running
                && final(self).path is Some,
    {
        if !self.open {
            return None;
        }
        if picked.is_some() {
            self.path = picked.take();
        }
        let mut request: Option<PendingExport> = None;
        if !self.progress.running {
            if let Some(i) = input.preset {
                let preset = Preset::all()[i];
                self.width = preset.width;
                self.height = preset.height;
            }
            if let Some((w, h)) = input.resolution {
                self.width = clamped(w, MIN_SIDE, MAX_WIDTH);
                self.height = clamped(h, MIN_SIDE, MAX_HEIGHT);
            }
            if input.export {
                if let Some(path) = &self.path {
                    request = Some(
                        PendingExport {
                            width: self.width,
                            height: self.height,
                            path: path.clone(),
                        },
                    );
                }
            }
        }
        self.open = input.open;
        request
    }

    /// Notes that an export of `frames` frames has started.
    pub fn start(&mut self, frames: usize)
        ensures
            final(self).open == old(self).open,
            final(self).width == old(self).width,
            final(self).height == old(self).height,
            final(self).path == old(self).path,
            final(self).progress.rendered == 0,
            final(self).progress.total == frames,
            final(self).progress.running,
            final(self).progress.error is None,
    {
        self.progress.start(frames);
    }
}

/// An export that was started and ended shows its error, or that it is
/// complete, unless it had no frames; the frames rendered in between change
/// nothing in that.
pub proof fn law_ended_export(
    started: Progress,
    advanced: Progress,
    ended: Progress,
    failure: Option<String>,
    status: Status,
)
    requires
        started.running,
        started.error is None,
        advanced.total == started.total,
        advanced.running == started.running,
        advanced.error == started.error,
        ended.rendered == advanced.rendered,
        ended.total == advanced.total,
        !ended.running,
        ended.error == if failure is Some {
            failure
        } else {
            advanced.error
        },
        ended.shows(status),
    ensures
        failure matches Some(e) ==> (status matches Status::Failed { error } && error@ == e@),
        failure is None && started.total > 0 ==> status is Complete,
        failure is None && started.total == 0 ==> status is Idle,
{
}

/// While no export is running, a resolution that was entered counts, each side
/// held within its range, over a preset that was clicked; while one is running
/// nothing changes the resolution.
pub proof fn law_resolution(exporter: Exporter, input: PopupInput)
    ensures
        exporter.progress.running ==> exporter.resolution_after(input) == (
            exporter.width,
            exporter.height,
        ),
        !exporter.progress.running ==> (input.resolution matches Some((w, h)) ==> {
            let (width, height) = exporter.resolution_after(input);
            &&& 16 <= width <= 7680
            &&& 16 <= height <= 4320
            &&& 16 <= w <= 7680 ==> width == w
            &&& w < 16 ==> width == 16
            &&& w > 7680 ==> width == 7680
            &&& 16 <= h <= 4320 ==> height == h
            &&& h < 16 ==> height == 16
            &&& h > 4320 ==> height == 4320
        }),
        !exporter.progress.running && input.resolution is None ==> exporter.resolution_after(input)
            == match input.preset {
            Some(0) => (1280u32, 720u32),
            Some(1) => (1920u32, 1080u32),
            Some(_) => (3840u32, 2160u32),
            None => (exporter.width, exporter.height),
        },
{
}

/// What is shown of a running export tells how many frames are done and how
/// many there are.
pub proof fn law_progress_is_told(done: usize, total: usize)
    ensures
        (Status::Running { done, total }).text() == Some(
            "Rendering frame "@ + decimal(done as nat) + " / "@ + decimal(total as nat),
        ),
        Status::Idle.text() is None,
        Status::Complete.text() == Some("Export complete."@),
{
}

} // verus!
