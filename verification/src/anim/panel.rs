//! The animation panel: playback, the keyframe timeline, and how the animation
//! and the viewer are kept in step.

use vstd::prelude::*;

use crate::anim::config::{
    all_within, distinct_frames, frames_needed, law_min_frames_is_least, with_keyframe,
    without_frame, Affine3, AnimationConfig, Interpolation, Keyframe, Pose, Quat, Vec2, Vec3,
    DEFAULT_FOV, HALF,
};
use crate::anim::export::PendingExport;
use crate::anim::laws::{law_nothing_to_remove, law_removed_frame_is_empty, law_set_keyframe};
use crate::bits::{Double, Single};
use crate::names::PathName;

verus! {

/// The largest frame count that can be entered.
pub const MAX_FRAMES: usize = 100_000;

/// The largest frame rate that can be entered; the smallest is one.
pub const MAX_FPS: usize = 60;

/// The state of the viewer that an animation captures.
#[derive(Clone, Copy, Debug)]
pub struct Scene {
    pub fov_x: Double,
    pub fov_y: Double,
    pub center_uv: Vec2,
    pub model_local_to_world: Affine3,
    pub background: Option<Vec3>,
    pub splat_scale: Option<Single>,
}

/// Everything that is needed to render and encode a video.
#[derive(Debug)]
pub struct ExportJob {
    /// The pose of each frame.
    pub poses: Vec<Option<Pose>>,
    pub fov_x: Double,
    pub fov_y: Double,
    pub center_uv: Vec2,
    pub model_local_to_world: Affine3,
    pub fps: usize,
    pub background: Vec3,
    pub splat_scale: Option<Single>,
    pub width: u32,
    pub height: u32,
    pub path: PathName,
}

/// What was done with the marker of a keyframe.
#[derive(Clone, Copy, Debug)]
pub struct MarkerInput {
    /// The frame that the marker was dragged to.
    pub dragged_to: Option<usize>,
    /// Whether the keyframe is to be removed.
    pub remove: bool,
}

/// What was done on the toolbar.
#[derive(Clone, Copy, Debug)]
pub struct ToolbarInput {
    /// Whether playback is to start.
    pub play: bool,
    /// Whether playback is to stop.
    pub stop: bool,
    /// The pose of a keyframe that is to be set on the current frame.
    pub add: Option<(Vec3, Quat)>,
    /// Whether the keyframe on the current frame is to be removed.
    pub remove: bool,
    /// The interpolation method that is selected.
    pub interpolation: Interpolation,
    /// The frame count that is entered.
    pub num_frames: usize,
    /// The frame rate that is entered.
    pub fps: usize,
}

/// The animation panel.
#[derive(Debug)]
pub struct AnimationPanel {
    pub config: AnimationConfig,
    pub current_frame: usize,
    /// While playing: the frame that playback started from.
    pub playback: Option<usize>,
    /// The frame that was last applied to the camera.
    pub applied_frame: Option<usize>,
}

/// Whether a keyframe other than the one at `idx` is on `frame`.
pub open spec fn occupied(kfs: Seq<Keyframe>, idx: int, frame: usize) -> bool {
    exists|i: int| 0 <= i < kfs.len() && i != idx && (#[trigger] kfs[i]).frame == frame
}

/// Whether the marker at `idx` was dragged to another frame that is free.
pub open spec fn moves_to(
    kfs: Seq<Keyframe>,
    inputs: Seq<MarkerInput>,
    idx: int,
    frame: usize,
) -> bool {
    &&& 0 <= idx < kfs.len()
    &&& inputs[idx].dragged_to == Some(frame)
    &&& kfs[idx].frame != frame
    &&& !occupied(kfs, idx, frame)
}

/// `found` is the move that is to be made: that of the last marker that was
/// dragged to another frame that is free.
pub open spec fn pending_move(
    kfs: Seq<Keyframe>,
    inputs: Seq<MarkerInput>,
    found: Option<(usize, usize)>,
) -> bool {
    match found {
        Some((idx, frame)) => moves_to(kfs, inputs, idx as int, frame) && forall|j: int, f: usize|
            idx < j < kfs.len() ==> !#[trigger] moves_to(kfs, inputs, j, f),
        None => forall|j: int, f: usize| !#[trigger] moves_to(kfs, inputs, j, f),
    }
}

/// `found` is the keyframe that is to be removed: the last one that was asked
/// for.
pub open spec fn pending_removal(inputs: Seq<MarkerInput>, found: Option<usize>) -> bool {
    match found {
        Some(idx) => {
            &&& idx < inputs.len()
            &&& inputs[idx as int].remove
            &&& forall|j: int| idx < j < inputs.len() ==> !(#[trigger] inputs[j]).remove
        },
        None => forall|j: int| 0 <= j < inputs.len() ==> !(#[trigger] inputs[j]).remove,
    }
}

/// The keyframe at the given place goes to another frame.
pub open spec fn moved(kfs: Seq<Keyframe>, to_move: Option<(usize, usize)>) -> Seq<Keyframe> {
    match to_move {
        Some((idx, frame)) => kfs.update(
            idx as int,
            Keyframe { frame, ..kfs[idx as int] },
        ),
        None => kfs,
    }
}

/// The keyframe at the given place is gone.
pub open spec fn removed(kfs: Seq<Keyframe>, to_remove: Option<usize>) -> Seq<Keyframe> {
    match to_remove {
        Some(idx) => kfs.remove(idx as int),
        None => kfs,
    }
}

/// The keyframes after what was done on the toolbar: one is set on the current
/// frame, then those on it are removed, as asked for.
pub open spec fn keyframes_after(kfs: Seq<Keyframe>, current: usize, input: ToolbarInput) -> Seq<
    Keyframe,
> {
    let added = match input.add {
        Some((position, rotation)) => with_keyframe(
            kfs,
            Keyframe { frame: current, position, rotation },
        ),
        None => kfs,
    };
    if input.remove {
        without_frame(added, current)
    } else {
        added
    }
}

/// `value`, or the nearer end of a range. The ends may come in either order.
pub open spec fn in_range(value: usize, a: usize, b: usize) -> usize {
    let low = if a <= b { a } else { b };
    let high = if a <= b { b } else { a };
    if value < low {
        low
    } else if value > high {
        high
    } else {
        value
    }
}

/// `value`, or the nearer end of a range. The ends may come in either order.
fn clamp_to_range(value: usize, a: usize, b: usize) -> (r: usize)
    ensures
        r == in_range(value, a, b),
{
    let low: usize = if a <= b { a } else { b };
    let high: usize = if a <= b { b } else { a };
    if value < low {
        low
    } else if value > high {
        high
    } else {
        value
    }
}

/// The color that stands for no background: black.
pub open spec fn shown_background(background: Option<Vec3>) -> Vec3 {
    match background {
        Some(color) => color,
        None => Vec3::of_bits(0, 0, 0),
    }
}

impl Default for AnimationPanel {
    fn default() -> (panel: Self)
        ensures
            panel.config.num_frames == 120,
            panel.config.fps == 30,
            panel.config.interpolation == Interpolation::CatmullRom,
            panel.config.keyframes@.len() == 0,
            panel.config.fov_x.bits == DEFAULT_FOV,
            panel.config.fov_y.bits == DEFAULT_FOV,
            panel.config.fov_x.bits == 0x3fe9_9999_9999_999a,
            panel.config.fov_y.bits == 0x3fe9_9999_9999_999a,
            panel.config.center_uv.x.bits == 0x3f00_0000,
            panel.config.center_uv.y.bits == 0x3f00_0000,
            panel.config.center_uv.x.bits == HALF,
            panel.config.center_uv.y.bits == HALF,
            panel.config.model_local_to_world == Affine3::unit(),
            panel.config.background == Vec3::of_bits(0, 0, 0),
            panel.config.splat_scale is None,
            panel.current_frame == 0,
            panel.playback is None,
            panel.applied_frame is None,
    {
        AnimationPanel {
            config: AnimationConfig::default(),
            current_frame: 0,
            playback: None,
            applied_frame: None,
        }
    }
}

impl AnimationConfig {
    /// The animation shows the given state of the viewer.
    pub open spec fn shows(self, scene: Scene) -> bool {
        &&& self.fov_x == scene.fov_x
        &&& self.fov_y == scene.fov_y
        &&& self.center_uv == scene.center_uv
        &&& self.model_local_to_world == scene.model_local_to_world
        &&& self.background == shown_background(scene.background)
        &&& self.splat_scale == scene.splat_scale
    }

    /// The state of the viewer after the animation's own state was pushed into
    /// it.
    pub open spec fn pushed(self) -> Scene {
        Scene {
            fov_x: self.fov_x,
            fov_y: self.fov_y,
            center_uv: self.center_uv,
            model_local_to_world: self.model_local_to_world,
            background: Some(self.background),
            splat_scale: self.splat_scale,
        }
    }
}

impl AnimationPanel {
    /// Everything but the animation itself is as in `other`.
    pub open spec fn same_playback(self, other: AnimationPanel) -> bool {
        &&& self.current_frame == other.current_frame
        &&& self.playback == other.playback
        &&& self.applied_frame == other.applied_frame
    }

    /// Whether the panel is shown: there are splats to show, and they are not
    /// being trained.
    pub fn is_visible(has_splats: bool, training: bool) -> (visible: bool)
        ensures
            visible == (has_splats && !training),
    {
        has_splats && !training
    }

    /// Takes over an animation that was loaded, and stops playback.
    pub fn load(&mut self, config: AnimationConfig)
        ensures
            final(self).config == config,
            final(self).current_frame == old(self).current_frame,
            final(self).playback is None,
            final(self).applied_frame is None,
    {
        self.config = config;
        self.playback = None;
        self.applied_frame = None;
    }

    /// Makes the timeline fit all keyframes and the current frame fit the
    /// timeline. Returns the smallest frame count that fits all keyframes.
    pub fn begin_frame(&mut self) -> (min_frames: usize)
        requires
            all_within(old(self).config.keyframes@, usize::MAX as int),
        ensures
            min_frames == frames_needed(old(self).config.keyframes@),
            min_frames >= 1,
            forall|i: int|
                0 <= i < old(self).config.keyframes@.len() ==> (
                #[trigger] old(self).config.keyframes@[i]).frame < min_frames,
            min_frames > 1 ==> exists|i: int|
                0 <= i < old(self).config.keyframes@.len() && (
                #[trigger] old(self).config.keyframes@[i]).frame + 1 == min_frames,
            final(self).config.num_frames == if old(self).config.num_frames >= min_frames {
                old(self).config.num_frames
            } else {
                min_frames
            },
            final(self).config.keyframes == old(self).config.keyframes,
            final(self).config.same_setting(old(self).config),
            final(self).config.fits(),
            final(self).current_frame == if old(self).current_frame
                < final(self).config.num_frames {
                old(self).current_frame as int
            } else {
                final(self).config.num_frames - 1
            },
            final(self).playback == old(self).playback,
            final(self).applied_frame == old(self).applied_frame,
    {
        let min_frames: usize = self.config.min_frames();
        if self.config.num_frames < min_frames {
            self.config.num_frames = min_frames;
        }
        proof {
            law_min_frames_is_least(self.config.keyframes@);
        }
        let last_frame: usize = self.config.num_frames - 1;
        if self.current_frame > last_frame {
            self.current_frame = last_frame;
        }
        min_frames
    }

    /// While playing, goes on to the frame that is `advanced` frames after the
    /// one that playback started from, round the loop.
    pub fn advance_playback(&mut self, advanced: usize)
        requires
            old(self).config.num_frames >= 1,
            old(self).playback matches Some(start) ==> start + advanced <= usize::MAX,
        ensures
            final(self).current_frame == match old(self).playback {
                Some(start) => (start + advanced) % (old(self).config.num_frames as int),
                None => old(self).current_frame as int,
            },
            old(self).playback is Some ==> final(self).current_frame
                < final(self).config.num_frames,
            final(self).config == old(self).config,
            final(self).playback == old(self).playback,
            final(self).applied_frame == old(self).applied_frame,
    {
        if let Some(start) = self.playback {
            self.current_frame = (start + advanced) % self.config.num_frames;
        }
    }

    /// Goes to the frame that the slider was moved to.
    pub fn slide_to(&mut self, frame: usize)
        requires
            old(self).config.num_frames >= 1,
        ensures
            final(self).current_frame == if frame < old(self).config.num_frames {
                frame as int
            } else {
                old(self).config.num_frames - 1
            },
            final(self).config == old(self).config,
            final(self).playback == old(self).playback,
            final(self).applied_frame == old(self).applied_frame,
    {
        let last_frame: usize = self.config.num_frames - 1;
        self.current_frame = if frame > last_frame {
            last_frame
        } else {
            frame
        };
    }

    /// Whether a keyframe other than the one at `idx` is on `frame`.
    fn is_occupied(&self, idx: usize, frame: usize) -> (r: bool)
        ensures
            r == occupied(self.config.keyframes@, idx as int, frame),
    {
        let mut i: usize = 0;
        while i < self.config.keyframes.len()
            invariant
                i <= self.config.keyframes@.len(),
                forall|j: int|
                    0 <= j < i && j != idx ==> (#[trigger] self.config.keyframes@[j]).frame
                        != frame,
            decreases self.config.keyframes.len() - i,
        {
            if i != idx && self.config.keyframes[i].frame == frame {
                return true;
            }
            i = i + 1;
        }
        false
    }

    /// What follows from what was done with the markers: the keyframe that
    /// moves and the frame it moves to, and the keyframe that is removed.
    pub fn draw_markers(&self, inputs: &Vec<MarkerInput>) -> (pending: (
        Option<(usize, usize)>,
        Option<usize>,
    ))
        requires
            inputs@.len() == self.config.keyframes@.len(),
        ensures
            pending_move(self.config.keyframes@, inputs@, pending.0),
            pending_removal(inputs@, pending.1),
            pending.0 matches Some((idx, frame)) ==> {
                &&& idx < inputs@.len()
                &&& inputs@[idx as int].dragged_to == Some(frame)
                &&& forall|i: int|
                    0 <= i < self.config.keyframes@.len() ==> (
                    #[trigger] self.config.keyframes@[i]).frame != frame
            },
            // A marker that was dragged to a free frame moves, unless a later one does.
            forall|j: int|
                0 <= j < inputs@.len() && (#[trigger] inputs@[j]).dragged_to is Some && (forall|
                    i: int,
                |
                    0 <= i < self.config.keyframes@.len() ==> Some(
                        (#[trigger] self.config.keyframes@[i]).frame,
                    ) != inputs@[j].dragged_to) ==> (pending.0 matches Some((idx, _)) && j <= idx),
            pending.1 matches Some(r) ==> r < inputs@.len() && inputs@[r as int].remove,
            forall|j: int|
                0 <= j < inputs@.len() && (#[trigger] inputs@[j]).remove ==> (
                pending.1 matches Some(r) && j <= r),
    {
        let ghost kfs = self.config.keyframes@;
        let mut to_move: Option<(usize, usize)> = None;
        let mut to_remove: Option<usize> = None;
        let mut idx: usize = 0;
        while idx < inputs.len()
            invariant
                idx <= inputs@.len(),
                kfs == self.config.keyframes@,
                inputs@.len() == kfs.len(),
                match to_move {
                    Some((m, frame)) => m < idx && moves_to(kfs, inputs@, m as int, frame)
                        && forall|j: int, f: usize|
                        m < j < idx ==> !#[trigger] moves_to(kfs, inputs@, j, f),
                    None => forall|j: int, f: usize|
                        j < idx ==> !#[trigger] moves_to(kfs, inputs@, j, f),
                },
                match to_remove {
                    Some(r) => r < idx && inputs@[r as int].remove && forall|j: int|
                        r < j < idx ==> !(#[trigger] inputs@[j]).remove,
                    None => forall|j: int| 0 <= j < idx ==> !(#[trigger] inputs@[j]).remove,
                },
            decreases inputs.len() - idx,
        {
            let frame: usize = self.config.keyframes[idx].frame;
            if let Some(new_frame) = inputs[idx].dragged_to {
                let taken = self.is_occupied(idx, new_frame);
                if new_frame != frame && !taken {
                    assert(moves_to(kfs, inputs@, idx as int, new_frame));
                    to_move = Some((idx, new_frame));
                }
            }
            if inputs[idx].remove {
                to_remove = Some(idx);
            }
            idx = idx + 1;
        }
        proof {
            assert forall|j: int|
                0 <= j < inputs@.len() && (#[trigger] inputs@[j]).dragged_to is Some && (forall|
                    i: int,
                |
                    0 <= i < kfs.len() ==> Some((#[trigger] kfs[i]).frame)
                        != inputs@[j].dragged_to) implies (to_move matches Some((idx, _)) && j
                <= idx) by {
                let f = inputs@[j].dragged_to->0;
                assert(Some(kfs[j].frame) != inputs@[j].dragged_to);
                assert(moves_to(kfs, inputs@, j, f));
            }
        }
        (to_move, to_remove)
    }

    /// Makes the changes to the keyframes that were asked for on the timeline:
    /// first a move, then a removal.
    pub fn keyframe_timeline(&mut self, inputs: &Vec<MarkerInput>)
        requires
            inputs@.len() == old(self).config.keyframes@.len(),
        ensures
            exists|to_move: Option<(usize, usize)>, to_remove: Option<usize>|
                #![trigger moved(old(self).config.keyframes@, to_move), pending_removal(
                    inputs@,
                    to_remove,
                )]
                pending_move(old(self).config.keyframes@, inputs@, to_move) && pending_removal(
                    inputs@,
                    to_remove,
                ) && final(self).config.keyframes@ == removed(
                    moved(old(self).config.keyframes@, to_move),
                    to_remove,
                ),
            final(self).config.keyframes@.len() == old(self).config.keyframes@.len() - if exists|j: int|
                0 <= j < inputs@.len() && (#[trigger] inputs@[j]).remove {
                1int
            } else {
                0
            },
            distinct_frames(old(self).config.keyframes@) ==> distinct_frames(
                final(self).config.keyframes@,
            ),
            final(self).config.num_frames == old(self).config.num_frames,
            final(self).config.same_setting(old(self).config),
            final(self).same_playback(*old(self)),
    {
        let ghost kfs = self.config.keyframes@;
        let (to_move, to_remove) = self.draw_markers(inputs);
        if let Some((idx, new_frame)) = to_move {
            let key = self.config.keyframes[idx];
            let there = Keyframe {
                frame: new_frame,
                position: key.position,
                rotation: key.rotation,
            };
            self.config.keyframes.set(idx, there);
        }
        assert(self.config.keyframes@ =~= moved(kfs, to_move));
        if let Some(idx) = to_remove {
            self.config.keyframes.remove(idx);
        }
        proof {
            assert(pending_removal(inputs@, to_remove));
            if distinct_frames(kfs) {
                law_marker_edits_keep_frames_distinct(kfs, inputs@, to_move, to_remove);
            }
        }
    }

    /// Starts playback from the current frame, unless it is on.
    pub fn play(&mut self)
        ensures
            final(self).playback == if old(self).playback is Some {
                old(self).playback
            } else {
                Some(old(self).current_frame)
            },
            final(self).config == old(self).config,
            final(self).current_frame == old(self).current_frame,
            final(self).applied_frame == old(self).applied_frame,
    {
        if self.playback.is_none() {
            self.playback = Some(self.current_frame);
        }
    }

    /// Stops playback.
    pub fn stop(&mut self)
        ensures
            final(self).playback is None,
            final(self).config == old(self).config,
            final(self).current_frame == old(self).current_frame,
            final(self).applied_frame == old(self).applied_frame,
    {
        self.playback = None;
    }

    /// Sets a keyframe with the given pose on the current frame.
    pub fn add_keyframe(&mut self, position: Vec3, rotation: Quat)
        ensures
            final(self).config.keyframes@ == with_keyframe(
                old(self).config.keyframes@,
                Keyframe { frame: old(self).current_frame, position, rotation },
            ),
            final(self).config.num_frames == old(self).config.num_frames,
            final(self).config.same_setting(old(self).config),
            final(self).same_playback(*old(self)),
            old(self).config.fits() && old(self).current_frame < old(self).config.num_frames
                ==> final(self).config.fits(),
    {
        proof {
            law_set_keyframe(
                self.config.keyframes@,
                Keyframe { frame: self.current_frame, position, rotation },
            );
        }
        self.config.set_keyframe(self.current_frame, position, rotation);
    }

    /// Removes the keyframe on the current frame, if there is one.
    pub fn remove_keyframe(&mut self)
        ensures
            final(self).config.keyframes@ == without_frame(
                old(self).config.keyframes@,
                old(self).current_frame,
            ),
            final(self).config.num_frames == old(self).config.num_frames,
            final(self).config.same_setting(old(self).config),
            final(self).same_playback(*old(self)),
            old(self).config.fits() ==> final(self).config.fits(),
    {
        self.config.remove_keyframes_at(self.current_frame);
        proof {
            let kfs = old(self).config.keyframes@;
            let kept = self.config.keyframes@;
            law_removed_frame_is_empty(kfs, self.current_frame);
            if old(self).config.fits() {
                assert forall|i: int| 0 <= i < kept.len() implies (#[trigger] kept[i]).frame
                    < self.config.num_frames by {
                    assert(kept.contains(kept[i]));
                    let j = choose|j: int| 0 <= j < kfs.len() && kfs[j] == kept[i];
                    assert(kfs[j].frame < self.config.num_frames);
                }
            }
        }
    }

    /// Whether some keyframe is on the current frame.
    pub fn has_keyframe_here(&self) -> (has: bool)
        ensures
            has == exists|i: int|
                0 <= i < self.config.keyframes@.len() && (
                #[trigger] self.config.keyframes@[i]).frame == self.current_frame,
    {
        self.config.has_keyframe_at(self.current_frame)
    }

    /// Selects how poses are interpolated. A change takes effect at once.
    pub fn set_interpolation(&mut self, method: Interpolation)
        ensures
            final(self).config.interpolation == method,
            final(self).config.keyframes == old(self).config.keyframes,
            final(self).config.num_frames == old(self).config.num_frames,
            final(self).config.fps == old(self).config.fps,
            final(self).config.same_scene(old(self).config),
            final(self).current_frame == old(self).current_frame,
            final(self).playback == old(self).playback,
            final(self).applied_frame == if method == old(self).config.interpolation {
                old(self).applied_frame
            } else {
                None
            },
    {
        let changed = self.config.interpolation != method;
        self.config.interpolation = method;
        if changed {
            self.applied_frame = None;
        }
    }

    /// Sets the frame count that was entered; it stays between what the
    /// keyframes need and `MAX_FRAMES`.
    pub fn set_num_frames(&mut self, value: usize, min_frames: usize)
        ensures
            final(self).config.num_frames == in_range(value, min_frames, MAX_FRAMES),
            min_frames <= value <= 100_000 ==> final(self).config.num_frames == value,
            value < min_frames <= 100_000 ==> final(self).config.num_frames == min_frames,
            min_frames <= 100_000 < value ==> final(self).config.num_frames == 100_000,
            100_000 <= value <= min_frames ==> final(self).config.num_frames == value,
            value < 100_000 < min_frames ==> final(self).config.num_frames == 100_000,
            100_000 < min_frames < value ==> final(self).config.num_frames == min_frames,
            final(self).config.keyframes == old(self).config.keyframes,
            final(self).config.same_setting(old(self).config),
            final(self).same_playback(*old(self)),
    {
        self.config.num_frames = clamp_to_range(value, min_frames, MAX_FRAMES);
    }

    /// Sets the frame rate that was entered; it stays between one and
    /// `MAX_FPS`.
    pub fn set_fps(&mut self, value: usize)
        ensures
            final(self).config.fps == in_range(value, 1, MAX_FPS),
            1 <= value <= 60 ==> final(self).config.fps == value,
            value < 1 ==> final(self).config.fps == 1,
            value > 60 ==> final(self).config.fps == 60,
            final(self).config.keyframes == old(self).config.keyframes,
            final(self).config.num_frames == old(self).config.num_frames,
            final(self).config.interpolation == old(self).config.interpolation,
            final(self).config.same_scene(old(self).config),
            final(self).same_playback(*old(self)),
    {
        self.config.fps = clamp_to_range(value, 1, MAX_FPS);
    }

    /// Takes in what was done on the toolbar. Playback can be started only while
    /// it is off, and stopped only while it is on.
    pub fn toolbar(&mut self, input: &ToolbarInput, min_frames: usize)
        ensures
            final(self).playback == match old(self).playback {
                Some(start) => if input.stop {
                    None
                } else {
                    Some(start)
                },
                None => if input.play {
                    Some(old(self).current_frame)
                } else {
                    None
                },
            },
            final(self).config.keyframes@ == keyframes_after(
                old(self).config.keyframes@,
                old(self).current_frame,
                *input,
            ),
            final(self).config.interpolation == input.interpolation,
            final(self).applied_frame == if input.interpolation == old(self).config.interpolation {
                old(self).applied_frame
            } else {
                None
            },
            final(self).config.num_frames == in_range(input.num_frames, min_frames, MAX_FRAMES),
            min_frames <= input.num_frames <= 100_000 ==> final(self).config.num_frames == input.num_frames,
            input.num_frames < min_frames <= 100_000 ==> final(self).config.num_frames == min_frames,
            min_frames <= 100_000 < input.num_frames ==> final(self).config.num_frames == 100_000,
            100_000 <= input.num_frames <= min_frames ==> final(self).config.num_frames == input.num_frames,
            input.num_frames < 100_000 < min_frames ==> final(self).config.num_frames == 100_000,
            100_000 < min_frames < input.num_frames ==> final(self).config.num_frames == min_frames,
            final(self).config.fps == in_range(input.fps, 1, MAX_FPS),
            1 <= input.fps <= 60 ==> final(self).config.fps == input.fps,
            input.fps < 1 ==> final(self).config.fps == 1,
            input.fps > 60 ==> final(self).config.fps == 60,
            final(self).config.same_scene(old(self).config),
            final(self).current_frame == old(self).current_frame,
    {
        let playing = self.playback.is_some();
        if input.play && !playing {
            self.play();
        }
        if input.stop && playing {
            self.stop();
        }
        if let Some((position, rotation)) = input.add {
            self.add_keyframe(position, rotation);
        }
        let has_here = self.has_keyframe_here();
        if input.remove {
            if has_here {
                self.remove_keyframe();
            } else {
                proof {
                    law_nothing_to_remove(self.config.keyframes@, self.current_frame);
                }
            }
        }
        self.set_interpolation(input.interpolation);
        self.set_num_frames(input.num_frames, min_frames);
        self.set_fps(input.fps);
    }

    /// Whether there is anything to export.
    pub fn can_export(&self) -> (r: bool)
        ensures
            r == (self.config.keyframes@.len() > 0),
    {
        self.config.keyframes.len() > 0
    }

    /// Captures the state of the viewer, so that it can be reproduced.
    pub fn sync_scene_into_config(&mut self, scene: &Scene)
        ensures
            final(self).config.shows(*scene),
            final(self).config.fov_x == scene.fov_x && final(self).config.fov_y == scene.fov_y,
            final(self).config.center_uv == scene.center_uv,
            final(self).config.model_local_to_world == scene.model_local_to_world,
            scene.background matches Some(color) ==> final(self).config.background == color,
            scene.background is None ==> final(self).config.background.x.bits == 0
                && final(self).config.background.y.bits == 0
                && final(self).config.background.z.bits == 0,
            final(self).config.splat_scale == scene.splat_scale,
            final(self).config.keyframes == old(self).config.keyframes,
            final(self).config.num_frames == old(self).config.num_frames,
            final(self).config.fps == old(self).config.fps,
            final(self).config.interpolation == old(self).config.interpolation,
            final(self).same_playback(*old(self)),
    {
        self.config.fov_x = scene.fov_x;
        self.config.fov_y = scene.fov_y;
        self.config.center_uv = scene.center_uv;
        self.config.model_local_to_world = scene.model_local_to_world;
        self.config.background = match scene.background {
            Some(color) => color,
            None => Vec3::from_bits(0, 0, 0),
        };
        self.config.splat_scale = scene.splat_scale;
    }

    /// The state of the viewer after the animation's own state was pushed into
    /// it: all of it is the animation's.
    pub fn apply_config_to_viewer(&self) -> (after: Scene)
        ensures
            after == self.config.pushed(),
            after.fov_x == self.config.fov_x && after.fov_y == self.config.fov_y,
            after.center_uv == self.config.center_uv,
            after.model_local_to_world == self.config.model_local_to_world,
            after.background == Some(self.config.background),
            after.splat_scale == self.config.splat_scale,
    {
        Scene {
            fov_x: self.config.fov_x,
            fov_y: self.config.fov_y,
            center_uv: self.config.center_uv,
            model_local_to_world: self.config.model_local_to_world,
            background: Some(self.config.background),
            splat_scale: self.config.splat_scale,
        }
    }

    /// Whether the current frame is still to be applied to the camera.
    pub fn needs_apply(&self) -> (r: bool)
        ensures
            r == (self.applied_frame != Some(self.current_frame)),
    {
        match self.applied_frame {
            Some(frame) => frame != self.current_frame,
            None => true,
        }
    }

    /// The pose to drive the camera to: that of the current frame, unless it
    /// was applied already or there are no keyframes. Afterwards the current
    /// frame counts as applied.
    pub fn apply_camera(&mut self) -> (pose: Option<Pose>)
        requires
            old(self).applied_frame != Some(old(self).current_frame) ==> old(
                self,
            ).config.playable(old(self).current_frame),
        ensures
            pose == if old(self).applied_frame == Some(old(self).current_frame) {
                None
            } else {
                old(self).config.pose(old(self).current_frame)
            },
            final(self).applied_frame == Some(old(self).current_frame),
            final(self).config == old(self).config,
            final(self).current_frame == old(self).current_frame,
            final(self).playback == old(self).playback,
    {
        if !self.needs_apply() {
            return None;
        }
        let pose = self.config.pose_at_frame(self.current_frame);
        self.applied_frame = Some(self.current_frame);
        pose
    }

    /// The job for an export that was asked for, in the given state of the
    /// viewer.
    pub fn export_job(&mut self, pending: PendingExport, scene: &Scene) -> (job: ExportJob)
        requires
            forall|f: usize|
                f < old(self).config.num_frames ==> #[trigger] old(self).config.playable(f),
        ensures
            job.poses@.len() == old(self).config.num_frames,
            forall|f: usize|
                f < old(self).config.num_frames ==> #[trigger] job.poses@[f as int] == old(
                    self,
                ).config.pose(f),
            job.fov_x == scene.fov_x,
            job.fov_y == scene.fov_y,
            job.center_uv == scene.center_uv,
            job.model_local_to_world == scene.model_local_to_world,
            job.fps == old(self).config.fps,
            job.background == shown_background(scene.background),
            scene.background matches Some(color) ==> job.background == color,
            scene.background is None ==> job.background.x.bits == 0 && job.background.y.bits == 0
                && job.background.z.bits == 0,
            job.splat_scale == scene.splat_scale,
            job.width == pending.width,
            job.height == pending.height,
            job.path == pending.path,
            final(self).config.shows(*scene),
            final(self).config.fov_x == scene.fov_x && final(self).config.fov_y == scene.fov_y,
            final(self).config.center_uv == scene.center_uv,
            final(self).config.model_local_to_world == scene.model_local_to_world,
            scene.background matches Some(color) ==> final(self).config.background == color,
            scene.background is None ==> final(self).config.background.x.bits == 0
                && final(self).config.background.y.bits == 0
                && final(self).config.background.z.bits == 0,
            final(self).config.splat_scale == scene.splat_scale,
            final(self).config.keyframes == old(self).config.keyframes,
            final(self).config.num_frames == old(self).config.num_frames,
            final(self).config.fps == old(self).config.fps,
            final(self).config.interpolation == old(self).config.interpolation,
            final(self).same_playback(*old(self)),
    {
        let poses = self.config.render_poses();
        self.sync_scene_into_config(scene);
        ExportJob {
            poses,
            fov_x: self.config.fov_x,
            fov_y: self.config.fov_y,
            center_uv: self.config.center_uv,
            model_local_to_world: self.config.model_local_to_world,
            fps: self.config.fps,
            background: self.config.background,
            splat_scale: self.config.splat_scale,
            width: pending.width,
            height: pending.height,
            path: pending.path,
        }
    }
}

/// What is done with the markers keeps the frames of the keyframes distinct.
pub proof fn law_marker_edits_keep_frames_distinct(
    kfs: Seq<Keyframe>,
    inputs: Seq<MarkerInput>,
    to_move: Option<(usize, usize)>,
    to_remove: Option<usize>,
)
    requires
        inputs.len() == kfs.len(),
        distinct_frames(kfs),
        pending_move(kfs, inputs, to_move),
        pending_removal(inputs, to_remove),
    ensures
        distinct_frames(removed(moved(kfs, to_move), to_remove)),
{
    let there = moved(kfs, to_move);
    assert(distinct_frames(there)) by {
        if let Some((idx, frame)) = to_move {
            assert forall|i: int, j: int| 0 <= i < j < there.len() implies (
            #[trigger] there[i]).frame != (#[trigger] there[j]).frame by {
                if i == idx {
                    assert(there[j] == kfs[j]);
                } else if j == idx {
                    assert(there[i] == kfs[i]);
                } else {
                    assert(there[i] == kfs[i] && there[j] == kfs[j]);
                }
            }
        }
    }
    if let Some(idx) = to_remove {
        let left = there.remove(idx as int);
        assert forall|i: int, j: int| 0 <= i < j < left.len() implies (#[trigger] left[i]).frame
            != (#[trigger] left[j]).frame by {
            let a = if i < idx { i } else { i + 1 };
            let b = if j < idx { j } else { j + 1 };
            assert(left[i] == there[a] && left[j] == there[b]);
        }
    }
}

/// Pushing an animation's state into the viewer and capturing it again gives
/// back what was pushed, all of it.
pub proof fn law_sync_undoes_apply(pushed: AnimationConfig, synced: AnimationConfig)
    requires
        synced.shows(pushed.pushed()),
    ensures
        synced.fov_x == pushed.fov_x,
        synced.fov_y == pushed.fov_y,
        synced.center_uv == pushed.center_uv,
        synced.model_local_to_world == pushed.model_local_to_world,
        synced.background == pushed.background,
        synced.splat_scale == pushed.splat_scale,
{
}

/// Capturing the state of the viewer and pushing it back leaves the viewer as
/// it is, except that no background becomes a black one.
pub proof fn law_apply_undoes_sync(scene: Scene, synced: AnimationConfig)
    requires
        synced.shows(scene),
    ensures
        synced.pushed() == (Scene {
            background: Some(shown_background(scene.background)),
            ..scene
        }),
{
}

/// Playback goes through the frames of the loop one by one: a step further in
/// time is a step further on the timeline, and from the last frame back to the
/// first.
pub proof fn law_playback_loops(start: int, advanced: int, num_frames: int)
    requires
        0 <= start,
        0 <= advanced,
        1 <= num_frames,
    ensures
        (start + advanced + 1) % num_frames == if (start + advanced) % num_frames + 1
            == num_frames {
            0
        } else {
            (start + advanced) % num_frames + 1
        },
        (start + advanced + num_frames) % num_frames == (start + advanced) % num_frames,
{
    let now = start + advanced;
    vstd::arithmetic::div_mod::lemma_fundamental_div_mod(now, num_frames);
    let q = now / num_frames;
    let r = now % num_frames;
    assert(0 <= r < num_frames);
    assert(q * num_frames == num_frames * q) by (nonlinear_arith);
    assert((q + 1) * num_frames == num_frames * q + num_frames) by (nonlinear_arith);
    if r + 1 == num_frames {
        vstd::arithmetic::div_mod::lemma_fundamental_div_mod_converse(
            now + 1,
            num_frames,
            q + 1,
            0,
        );
    } else {
        vstd::arithmetic::div_mod::lemma_fundamental_div_mod_converse(
            now + 1,
            num_frames,
            q,
            r + 1,
        );
    }
    vstd::arithmetic::div_mod::lemma_fundamental_div_mod_converse(
        now + num_frames,
        num_frames,
        q + 1,
        r,
    );
}

/// What leaves everything but the keyframes and the frame count as it is leaves
/// each part of it as it is.
pub proof fn law_same_setting(a: AnimationConfig, b: AnimationConfig)
    requires
        a.same_setting(b),
    ensures
        a.fps == b.fps,
        a.interpolation == b.interpolation,
        a.same_scene(b),
{
}

/// What leaves the viewer state as it is leaves each part of it as it is.
pub proof fn law_same_scene(a: AnimationConfig, b: AnimationConfig)
    requires
        a.same_scene(b),
    ensures
        a.fov_x == b.fov_x,
        a.fov_y == b.fov_y,
        a.center_uv == b.center_uv,
        a.model_local_to_world == b.model_local_to_world,
        a.background == b.background,
        a.splat_scale == b.splat_scale,
{
}

/// What leaves playback as it is leaves each part of it as it is.
pub proof fn law_same_playback(a: AnimationPanel, b: AnimationPanel)
    requires
        a.same_playback(b),
    ensures
        a.current_frame == b.current_frame,
        a.playback == b.playback,
        a.applied_frame == b.applied_frame,
{
}

/// A keyframe whose marker moves goes to the frame that its marker was dragged
/// to, with its pose; all other keyframes stay.
pub proof fn law_moved_marker(
    kfs: Seq<Keyframe>,
    inputs: Seq<MarkerInput>,
    to_move: Option<(usize, usize)>,
    i: int,
)
    requires
        inputs.len() == kfs.len(),
        pending_move(kfs, inputs, to_move),
        0 <= i < kfs.len(),
    ensures
        moved(kfs, to_move).len() == kfs.len(),
        moved(kfs, to_move)[i].position == kfs[i].position,
        moved(kfs, to_move)[i].rotation == kfs[i].rotation,
        moved(kfs, to_move)[i].frame != kfs[i].frame ==> inputs[i].dragged_to == Some(
            moved(kfs, to_move)[i].frame,
        ),
        match to_move {
            Some((m, frame)) => if i == m {
                moved(kfs, to_move)[i].frame == frame && frame != kfs[i].frame
            } else {
                moved(kfs, to_move)[i] == kfs[i]
            },
            None => moved(kfs, to_move) == kfs,
        },
{
}

/// Removing the marked keyframe leaves those before it in place and moves
/// those after it up by one.
pub proof fn law_removed_marker(
    kfs: Seq<Keyframe>,
    inputs: Seq<MarkerInput>,
    to_remove: Option<usize>,
    i: int,
)
    requires
        inputs.len() == kfs.len(),
        pending_removal(inputs, to_remove),
        0 <= i < kfs.len(),
    ensures
        (forall|j: int| 0 <= j < inputs.len() ==> !(#[trigger] inputs[j]).remove) ==> removed(
            kfs,
            to_remove,
        ) == kfs,
        inputs[i].remove && (forall|j: int|
            i < j < inputs.len() ==> !(#[trigger] inputs[j]).remove) ==> removed(kfs, to_remove)
            == kfs.take(i) + kfs.skip(i + 1),
{
    if inputs[i].remove && (forall|j: int|
        i < j < inputs.len() ==> !(#[trigger] inputs[j]).remove) {
        assert(to_remove is Some);
        let r = to_remove->0 as int;
        assert(r == i) by {
            if r < i {
                assert(!inputs[i].remove);
            } else if r > i {
                assert(!inputs[r].remove);
            }
        }
        assert(removed(kfs, to_remove) =~= kfs.take(i) + kfs.skip(i + 1));
    }
}

/// What the toolbar asks for on the current frame happens there: an asked
/// removal leaves no keyframe on it, an added keyframe is on it, and without
/// either the keyframes stay. Keyframes on other frames are untouched.
pub proof fn law_toolbar_keyframes(kfs: Seq<Keyframe>, current: usize, input: ToolbarInput)
    ensures
        input.remove ==> forall|i: int|
            0 <= i < keyframes_after(kfs, current, input).len() ==> (
            #[trigger] keyframes_after(kfs, current, input)[i]).frame != current,
        !input.remove && input.add is None ==> keyframes_after(kfs, current, input) == kfs,
        !input.remove ==> (input.add matches Some((position, rotation)) ==> keyframes_after(
            kfs,
            current,
            input,
        ).contains(Keyframe { frame: current, position, rotation })),
        forall|k: Keyframe|
            k.frame != current ==> (#[trigger] keyframes_after(kfs, current, input).contains(k)
                == kfs.contains(k)),
{
    let added = match input.add {
        Some((position, rotation)) => {
            let key = Keyframe { frame: current, position, rotation };
            law_set_keyframe(kfs, key);
            with_keyframe(kfs, key)
        },
        None => kfs,
    };
    law_removed_frame_is_empty(added, current);
}

} // verus!
