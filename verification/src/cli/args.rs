//! The arguments, and which of them go together.

use vstd::prelude::*;
use vstd::string::*;

use crate::names::PathName;
use crate::text::text_of;

verus! {

/// Where splats or images come from.
#[derive(Debug)]
pub enum DataSource {
    /// A local path.
    Path(String),
    /// Anything else, as it is shown.
    Other(String),
}

/// Options for rendering an animation instead of training.
#[derive(Debug)]
pub struct AnimationArgs {
    /// The animation config to render.
    pub render_anim: Option<PathName>,
    /// The output: a video, or a directory to collect videos in.
    pub anim_out: PathName,
    /// The width of the video.
    pub anim_width: u32,
    /// The height of the video.
    pub anim_height: u32,
}

/// The arguments of the command line.
#[derive(Debug)]
pub struct Cli {
    /// Source to load from.
    pub source: Option<DataSource>,
    /// Whether to show a viewer.
    pub with_viewer: bool,
    pub animation: AnimationArgs,
}

/// An argument that is required in combination with others, and is missing.
#[derive(Clone, Copy, Debug, PartialEq, Eq, Structural)]
pub enum MissingArgument {
    /// An animation is to be rendered, but of what is not said.
    RenderSource,
    /// There is neither a viewer nor anything to train on.
    TrainSource,
}

impl MissingArgument {
    /// The text of the error.
    pub open spec fn text(self) -> Seq<char> {
        match self {
            MissingArgument::RenderSource => {
                "--render-anim requires a PATH_OR_URL source (a .ply file or a folder of plys)"@
            },
            MissingArgument::TrainSource => {
                "When --with-viewer is false, --source must be provided"@
            },
        }
    }

    /// The text of the error.
    pub fn message(self) -> (text: String)
        ensures
            text@ == self.text(),
            self is RenderSource ==> text@
                == "--render-anim requires a PATH_OR_URL source (a .ply file or a folder of plys)"@,
            self is TrainSource ==> text@
                == "When --with-viewer is false, --source must be provided"@,
    {
        match self {
            MissingArgument::RenderSource => text_of(
                "--render-anim requires a PATH_OR_URL source (a .ply file or a folder of plys)",
            ),
            MissingArgument::TrainSource => text_of(
                "When --with-viewer is false, --source must be provided",
            ),
        }
    }
}

/// What the arguments lack, if anything.
pub open spec fn lacks(args: Cli) -> Option<MissingArgument> {
    if args.source is Some {
        None
    } else if args.animation.render_anim is Some {
        Some(MissingArgument::RenderSource)
    } else if !args.with_viewer {
        Some(MissingArgument::TrainSource)
    } else {
        None
    }
}

impl Cli {
    /// Accepts arguments that go together: an animation is rendered from a
    /// source, and training without a viewer needs one.
    pub fn validate(self) -> (outcome: Result<Cli, MissingArgument>)
        ensures
            match lacks(self) {
                Some(missing) => outcome == Err::<Cli, _>(missing),
                None => outcome == Ok::<_, MissingArgument>(self),
            },
            self.source is Some ==> outcome == Ok::<_, MissingArgument>(self),
            self.source is None && self.animation.render_anim is Some ==> outcome == Err::<Cli, _>(
                MissingArgument::RenderSource,
            ),
            self.source is None && self.animation.render_anim is None && !self.with_viewer
                ==> outcome == Err::<Cli, _>(MissingArgument::TrainSource),
            self.source is None && self.animation.render_anim is None && self.with_viewer
                ==> outcome == Ok::<_, MissingArgument>(self),
    {
        if self.animation.render_anim.is_some() {
            if self.source.is_none() {
                return Err(MissingArgument::RenderSource);
            }
            return Ok(self);
        }
        if !self.with_viewer && self.source.is_none() {
            return Err(MissingArgument::TrainSource);
        }
        Ok(self)
    }
}

/// Arguments that are accepted for rendering an animation have a source, and
/// arguments that are accepted have a source or a viewer.
pub proof fn law_accepted_arguments(args: Cli)
    requires
        lacks(args) is None,
    ensures
        args.animation.render_anim is Some ==> args.source is Some,
        args.source is Some || args.with_viewer,
{
}

/// Nothing is lacking exactly where there is a source, or where there is a
/// viewer and no animation to render. What is lacking is a source, and the
/// animation is what it is asked for if there is one.
pub proof fn law_what_is_lacking(args: Cli)
    ensures
        lacks(args) is None <==> args.source is Some || (args.with_viewer
            && args.animation.render_anim is None),
        lacks(args) == Some(MissingArgument::RenderSource) <==> args.source is None
            && args.animation.render_anim is Some,
        MissingArgument::RenderSource.text()
            == "--render-anim requires a PATH_OR_URL source (a .ply file or a folder of plys)"@,
        MissingArgument::TrainSource.text()
            == "When --with-viewer is false, --source must be provided"@,
{
}

} // verus!
