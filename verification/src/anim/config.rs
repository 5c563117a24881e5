//! A keyframe animation: the timeline, the keyframe poses, and the viewer
//! state that is needed to render the same view again.

use vstd::prelude::*;

use crate::bits::{Double, Single};
use crate::sort::{
    arranged, law_stable_order_exists, law_stable_order_is_unique, precedes, sort_places,
    stable_order,
};

verus! {

/// How camera poses are interpolated between keyframes.
#[derive(Clone, Copy, Debug, PartialEq, Eq, Structural)]
pub enum Interpolation {
    Linear,
    Smoothstep,
    CatmullRom,
}

impl Default for Interpolation {
    fn default() -> (i: Self)
        ensures
            i == Interpolation::CatmullRom,
    {
        Interpolation::CatmullRom
    }
}

impl Interpolation {
    /// The name that is shown for the method.
    pub open spec fn name(self) -> Seq<char> {
        match self {
            Interpolation::Linear => "Linear"@,
            Interpolation::Smoothstep => "Smoothstep"@,
            Interpolation::CatmullRom => "Catmull-Rom"@,
        }
    }

    /// The name that is shown for the method.
    pub fn label(self) -> (text: &'static str)
        ensures
            text@ == self.name(),
            self is Linear ==> text@ == "Linear"@,
            self is Smoothstep ==> text@ == "Smoothstep"@,
            self is CatmullRom ==> text@ == "Catmull-Rom"@,
    {
        match self {
            Interpolation::Linear => "Linear",
            Interpolation::Smoothstep => "Smoothstep",
            Interpolation::CatmullRom => "Catmull-Rom",
        }
    }

    /// All methods, in the order in which they are offered.
    pub fn all() -> (methods: [Interpolation; 3])
        ensures
            methods@ == seq![
                Interpolation::Linear,
                Interpolation::Smoothstep,
                Interpolation::CatmullRom,
            ],
    {
        [Interpolation::Linear, Interpolation::Smoothstep, Interpolation::CatmullRom]
    }
}

/// A pair of single-precision numbers.
#[derive(Clone, Copy, Debug, PartialEq, Eq, Structural)]
pub struct Vec2 {
    pub x: Single,
    pub y: Single,
}

/// A point, a direction or a color.
#[derive(Clone, Copy, Debug, PartialEq, Eq, Structural)]
pub struct Vec3 {
    pub x: Single,
    pub y: Single,
    pub z: Single,
}

/// A rotation.
#[derive(Clone, Copy, Debug, PartialEq, Eq, Structural)]
pub struct Quat {
    pub x: Single,
    pub y: Single,
    pub z: Single,
    pub w: Single,
}

/// An affine transform: the three columns of its matrix, and its translation.
#[derive(Clone, Copy, Debug, PartialEq, Eq, Structural)]
pub struct Affine3 {
    pub x_axis: Vec3,
    pub y_axis: Vec3,
    pub z_axis: Vec3,
    pub translation: Vec3,
}

/// The bit pattern of 1.0.
pub const ONE: u32 = 0x3f80_0000;

/// The bit pattern of 0.5.
pub const HALF: u32 = 0x3f00_0000;

/// The bit pattern of 0.8 in double precision.
pub const DEFAULT_FOV: u64 = 0x3fe9_9999_9999_999a;

impl Vec3 {
    /// The vector with the given bit patterns.
    pub open spec fn of_bits(x: u32, y: u32, z: u32) -> Vec3 {
        Vec3 { x: Single { bits: x }, y: Single { bits: y }, z: Single { bits: z } }
    }

    /// The vector with the given bit patterns.
    pub fn from_bits(x: u32, y: u32, z: u32) -> (v: Vec3)
        ensures
            v == Vec3::of_bits(x, y, z),
            v.x.bits == x && v.y.bits == y && v.z.bits == z,
    {
        Vec3 { x: Single { bits: x }, y: Single { bits: y }, z: Single { bits: z } }
    }
}

impl Affine3 {
    /// The transform that leaves every point where it is.
    pub open spec fn unit() -> Affine3 {
        Affine3 {
            x_axis: Vec3::of_bits(ONE, 0, 0),
            y_axis: Vec3::of_bits(0, ONE, 0),
            z_axis: Vec3::of_bits(0, 0, ONE),
            translation: Vec3::of_bits(0, 0, 0),
        }
    }

    /// The transform that leaves every point where it is.
    pub fn identity() -> (t: Affine3)
        ensures
            t == Affine3::unit(),
            t.x_axis.x.bits == 0x3f80_0000 && t.x_axis.y.bits == 0 && t.x_axis.z.bits == 0,
            t.y_axis.x.bits == 0 && t.y_axis.y.bits == 0x3f80_0000 && t.y_axis.z.bits == 0,
            t.z_axis.x.bits == 0 && t.z_axis.y.bits == 0 && t.z_axis.z.bits == 0x3f80_0000,
            t.translation.x.bits == 0 && t.translation.y.bits == 0 && t.translation.z.bits == 0,
    {
        Affine3 {
            x_axis: Vec3::from_bits(ONE, 0, 0),
            y_axis: Vec3::from_bits(0, ONE, 0),
            z_axis: Vec3::from_bits(0, 0, ONE),
            translation: Vec3::from_bits(0, 0, 0),
        }
    }
}

/// A camera pose pinned to a frame on the timeline.
#[derive(Clone, Copy, Debug, PartialEq, Eq, Structural)]
pub struct Keyframe {
    pub frame: usize,
    pub position: Vec3,
    pub rotation: Quat,
}

/// A complete animation: the timeline, the keyframe poses, and the viewer
/// state (field of view, model transform, background) needed to reproduce the
/// rendered view outside the viewer.
#[derive(Debug)]
pub struct AnimationConfig {
    pub num_frames: usize,
    pub fps: usize,
    pub interpolation: Interpolation,
    pub keyframes: Vec<Keyframe>,
    /// Field of view captured from the viewer camera.
    pub fov_x: Double,
    pub fov_y: Double,
    pub center_uv: Vec2,
    /// Model-to-world transform from the viewer.
    pub model_local_to_world: Affine3,
    /// Background color and splat scale from the viewer.
    pub background: Vec3,
    pub splat_scale: Option<Single>,
}

/// The part `num / den` of the way from one keyframe to the next.
#[derive(Clone, Copy, Debug, PartialEq, Eq, Structural)]
pub struct Fraction {
    pub num: usize,
    pub den: usize,
}

/// A stretch between two keyframes, and how much of it has passed.
#[derive(Clone, Copy, Debug, PartialEq, Eq, Structural)]
pub struct Segment {
    pub index: usize,
    pub at: Fraction,
}

/// A camera pose, as the keyframes it is interpolated from.
#[derive(Clone, Copy, Debug, PartialEq, Eq, Structural)]
pub enum Pose {
    /// The pose of the only keyframe.
    Fixed { key: Keyframe },
    /// Between two keyframes, at constant speed.
    Linear { from: Keyframe, to: Keyframe, at: Fraction },
    /// Between two keyframes, slow at both ends.
    Smoothstep { from: Keyframe, to: Keyframe, at: Fraction },
    /// On the spline through `from` and `to`, with tangents from the keyframes
    /// around them.
    CatmullRom { before: Keyframe, from: Keyframe, to: Keyframe, after: Keyframe, at: Fraction },
}

impl Pose {
    /// The keyframe that the pose starts out from.
    pub open spec fn start(self) -> Keyframe {
        match self {
            Pose::Fixed { key } => key,
            Pose::Linear { from, .. } => from,
            Pose::Smoothstep { from, .. } => from,
            Pose::CatmullRom { from, .. } => from,
        }
    }

    /// How far the pose has moved on from there, in frames.
    pub open spec fn passed(self) -> int {
        match self {
            Pose::Fixed { .. } => 0,
            Pose::Linear { at, .. } => at.num as int,
            Pose::Smoothstep { at, .. } => at.num as int,
            Pose::CatmullRom { at, .. } => at.num as int,
        }
    }
}

/// The frames of the keyframes.
pub open spec fn frames(keyframes: Seq<Keyframe>) -> Seq<usize> {
    Seq::new(keyframes.len(), |i: int| keyframes[i].frame)
}

/// The keyframes sorted by frame; those on one frame keep their order.
pub open spec fn timeline(keyframes: Seq<Keyframe>) -> Seq<Keyframe> {
    arranged(keyframes, choose|order: Seq<usize>| stable_order(frames(keyframes), order))
}

/// The keyframes stand in the order of their frames.
pub open spec fn in_frame_order(kfs: Seq<Keyframe>) -> bool {
    forall|i: int, j: int| 0 <= i <= j < kfs.len() ==> kfs[i].frame <= kfs[j].frame
}

/// No two keyframes are on the same frame.
pub open spec fn distinct_frames(kfs: Seq<Keyframe>) -> bool {
    forall|i: int, j: int|
        0 <= i < kfs.len() && 0 <= j < kfs.len() && i != j ==> kfs[i].frame != kfs[j].frame
}

/// Every keyframe is on one of the first `num_frames` frames.
pub open spec fn all_within(kfs: Seq<Keyframe>, num_frames: int) -> bool {
    forall|i: int| 0 <= i < kfs.len() ==> (#[trigger] kfs[i]).frame < num_frames
}

/// The last place of `kfs` whose frame is not after `frame`, or -1.
pub open spec fn last_at_or_before(kfs: Seq<Keyframe>, frame: int) -> int
    decreases kfs.len(),
{
    if kfs.len() == 0 {
        -1
    } else if kfs.last().frame <= frame {
        kfs.len() - 1
    } else {
        last_at_or_before(kfs.drop_last(), frame)
    }
}

/// `frame` lies on or after the first and before the last keyframe.
pub open spec fn between_keyframes(kfs: Seq<Keyframe>, frame: int) -> bool {
    kfs.first().frame <= frame < kfs.last().frame
}

/// Which stretch of the loop `frame` is on, for keyframes in frame order.
/// Stretch `s` runs from keyframe `s` to the next one; the last stretch runs
/// from the last keyframe over the end of the timeline to the first.
pub open spec fn segment_index(kfs: Seq<Keyframe>, frame: int) -> int {
    if between_keyframes(kfs, frame) {
        last_at_or_before(kfs, frame)
    } else {
        kfs.len() - 1
    }
}

/// How many frames of the stretch have passed.
pub open spec fn segment_passed(kfs: Seq<Keyframe>, num_frames: int, frame: int) -> int {
    if between_keyframes(kfs, frame) {
        frame - kfs[segment_index(kfs, frame)].frame
    } else {
        (frame + num_frames - kfs.last().frame) % num_frames
    }
}

/// How many frames the stretch is long.
pub open spec fn segment_length(kfs: Seq<Keyframe>, num_frames: int, frame: int) -> int {
    if between_keyframes(kfs, frame) {
        kfs[segment_index(kfs, frame) + 1].frame - kfs[segment_index(kfs, frame)].frame
    } else {
        num_frames - (kfs.last().frame - kfs.first().frame)
    }
}

/// The frame arithmetic of the loop stays within range.
pub open spec fn loop_reaches(kfs: Seq<Keyframe>, num_frames: int, frame: int) -> bool {
    ||| kfs.len() < 2
    ||| between_keyframes(kfs, frame)
    ||| {
        &&& 0 < num_frames
        &&& kfs.last().frame - kfs.first().frame <= num_frames
        &&& kfs.last().frame <= frame + num_frames <= usize::MAX
    }
}

/// The pose on `frame`, for keyframes in frame order.
pub open spec fn pose_on(
    kfs: Seq<Keyframe>,
    num_frames: int,
    method: Interpolation,
    frame: int,
) -> Option<Pose> {
    let n = kfs.len() as int;
    if n == 0 {
        None
    } else if n == 1 {
        Some(Pose::Fixed { key: kfs[0] })
    } else {
        let s = segment_index(kfs, frame);
        let at = Fraction {
            num: segment_passed(kfs, num_frames, frame) as usize,
            den: segment_length(kfs, num_frames, frame) as usize,
        };
        let from = kfs[s];
        let to = kfs[(s + 1) % n];
        Some(
            match method {
                Interpolation::Linear => Pose::Linear { from, to, at },
                Interpolation::Smoothstep => Pose::Smoothstep { from, to, at },
                Interpolation::CatmullRom => Pose::CatmullRom {
                    before: kfs[(s + n - 1) % n],
                    from,
                    to,
                    after: kfs[(s + 2) % n],
                    at,
                },
            },
        )
    }
}

/// The first place whose keyframe is on `frame`, or the length.
pub open spec fn first_on_frame(kfs: Seq<Keyframe>, frame: usize) -> int
    decreases kfs.len(),
{
    if kfs.len() == 0 {
        0
    } else if kfs.first().frame == frame {
        0
    } else {
        1 + first_on_frame(kfs.drop_first(), frame)
    }
}

/// The keyframes after `key` was set: it replaces the first keyframe on its
/// frame, or comes last.
pub open spec fn with_keyframe(kfs: Seq<Keyframe>, key: Keyframe) -> Seq<Keyframe> {
    let at = first_on_frame(kfs, key.frame);
    if at < kfs.len() {
        kfs.update(at, key)
    } else {
        kfs.push(key)
    }
}

/// The keyframes that are not on `frame`.
pub open spec fn without_frame(kfs: Seq<Keyframe>, frame: usize) -> Seq<Keyframe> {
    kfs.filter(|k: Keyframe| k.frame != frame)
}

/// The smallest frame count that fits every keyframe.
pub open spec fn frames_needed(kfs: Seq<Keyframe>) -> int
    decreases kfs.len(),
{
    if kfs.len() == 0 {
        1
    } else {
        let rest = frames_needed(kfs.drop_last());
        if kfs.last().frame + 1 > rest {
            kfs.last().frame + 1
        } else {
            rest
        }
    }
}

impl AnimationConfig {
    /// Everything but the keyframes and the frame count is as in `other`.
    pub open spec fn same_setting(self, other: AnimationConfig) -> bool {
        &&& self.fps == other.fps
        &&& self.interpolation == other.interpolation
        &&& self.same_scene(other)
    }

    /// The viewer state is as in `other`.
    pub open spec fn same_scene(self, other: AnimationConfig) -> bool {
        &&& self.fov_x == other.fov_x
        &&& self.fov_y == other.fov_y
        &&& self.center_uv == other.center_uv
        &&& self.model_local_to_world == other.model_local_to_world
        &&& self.background == other.background
        &&& self.splat_scale == other.splat_scale
    }

    /// The timeline is long enough for every keyframe.
    pub open spec fn fits(self) -> bool {
        &&& self.num_frames >= 1
        &&& all_within(self.keyframes@, self.num_frames as int)
    }

    /// Whether the pose on `frame` can be worked out.
    pub open spec fn playable(self, frame: usize) -> bool {
        loop_reaches(timeline(self.keyframes@), self.num_frames as int, frame as int)
    }

    /// The pose on `frame`.
    pub open spec fn pose(self, frame: usize) -> Option<Pose> {
        pose_on(
            timeline(self.keyframes@),
            self.num_frames as int,
            self.interpolation,
            frame as int,
        )
    }
}

/// The keyframes in frame order are those arranged by any stable order.
pub proof fn lemma_timeline_is(keyframes: Seq<Keyframe>, order: Seq<usize>)
    requires
        stable_order(frames(keyframes), order),
    ensures
        timeline(keyframes) == arranged(keyframes, order),
{
    let chosen = choose|o: Seq<usize>| stable_order(frames(keyframes), o);
    law_stable_order_is_unique(frames(keyframes), chosen, order);
}

/// The timeline holds the keyframes, and holds them in frame order.
pub proof fn lemma_timeline(keyframes: Seq<Keyframe>) -> (order: Seq<usize>)
    requires
        keyframes.len() <= usize::MAX,
    ensures
        stable_order(frames(keyframes), order),
        timeline(keyframes) == arranged(keyframes, order),
        timeline(keyframes).len() == keyframes.len(),
        in_frame_order(timeline(keyframes)),
{
    law_stable_order_exists(frames(keyframes));
    let order = choose|o: Seq<usize>| stable_order(frames(keyframes), o);
    lemma_timeline_is(keyframes, order);
    let kfs = timeline(keyframes);
    assert forall|i: int, j: int| 0 <= i <= j < kfs.len() implies kfs[i].frame <= kfs[j].frame by {
        if i < j {
            assert(precedes(frames(keyframes), order[i] as int, order[j] as int));
        }
    }
    order
}

proof fn lemma_last_at_or_before(kfs: Seq<Keyframe>, frame: int, s: int)
    requires
        in_frame_order(kfs),
        0 <= s < kfs.len() - 1,
        kfs[s].frame <= frame < kfs[s + 1].frame,
    ensures
        last_at_or_before(kfs, frame) == s,
    decreases kfs.len(),
{
    reveal_with_fuel(last_at_or_before, 2);
    assert(kfs[s + 1].frame <= kfs.last().frame);
    if s == kfs.len() - 2 {
        assert(kfs.drop_last().last() == kfs[s]);
    } else {
        assert(kfs.drop_last()[s] == kfs[s]);
        assert(kfs.drop_last()[s + 1] == kfs[s + 1]);
        lemma_last_at_or_before(kfs.drop_last(), frame, s);
    }
}

/// A remainder after going round at most once.
pub proof fn lemma_wrap(x: int, n: int)
    requires
        0 <= x < 2 * n,
    ensures
        x % n == if x < n {
            x
        } else {
            x - n
        },
{
    if x < n {
        vstd::arithmetic::div_mod::lemma_small_mod(x as nat, n as nat);
    } else {
        vstd::arithmetic::div_mod::lemma_mod_sub_multiples_vanish(x, n);
        vstd::arithmetic::div_mod::lemma_small_mod((x - n) as nat, n as nat);
    }
}

proof fn lemma_first_on_frame(kfs: Seq<Keyframe>, frame: usize, at: int)
    requires
        0 <= at <= kfs.len(),
        forall|i: int| 0 <= i < at ==> (#[trigger] kfs[i]).frame != frame,
        at < kfs.len() ==> kfs[at].frame == frame,
    ensures
        first_on_frame(kfs, frame) == at,
    decreases kfs.len(),
{
    if at > 0 {
        assert(kfs[0].frame != frame);
        assert forall|i: int| 0 <= i < at - 1 implies (#[trigger] kfs.drop_first()[i]).frame
            != frame by {
            assert(kfs[i + 1].frame != frame);
        }
        lemma_first_on_frame(kfs.drop_first(), frame, at - 1);
    }
}

impl Clone for AnimationConfig {
    fn clone(&self) -> (copy: Self)
        ensures
            copy.keyframes@ == self.keyframes@,
            copy.num_frames == self.num_frames,
            copy.same_setting(*self),
            copy.fps == self.fps,
            copy.interpolation == self.interpolation,
            copy.fov_x == self.fov_x && copy.fov_y == self.fov_y,
            copy.center_uv == self.center_uv,
            copy.model_local_to_world == self.model_local_to_world,
            copy.background == self.background,
            copy.splat_scale == self.splat_scale,
    {
        let mut keyframes: Vec<Keyframe> = Vec::new();
        let mut i: usize = 0;
        while i < self.keyframes.len()
            invariant
                i <= self.keyframes@.len(),
                keyframes@ == self.keyframes@.take(i as int),
            decreases self.keyframes.len() - i,
        {
            keyframes.push(self.keyframes[i]);
            i = i + 1;
            assert(keyframes@ =~= self.keyframes@.take(i as int));
        }
        assert(keyframes@ =~= self.keyframes@);
        AnimationConfig {
            num_frames: self.num_frames,
            fps: self.fps,
            interpolation: self.interpolation,
            keyframes,
            fov_x: self.fov_x,
            fov_y: self.fov_y,
            center_uv: self.center_uv,
            model_local_to_world: self.model_local_to_world,
            background: self.background,
            splat_scale: self.splat_scale,
        }
    }
}

impl Default for AnimationConfig {
    fn default() -> (c: Self)
        ensures
            c.num_frames == 120,
            c.fps == 30,
            c.interpolation == Interpolation::CatmullRom,
            c.keyframes@.len() == 0,
            c.fov_x.bits == DEFAULT_FOV,
            c.fov_y.bits == DEFAULT_FOV,
            c.center_uv.x.bits == HALF,
            c.center_uv.y.bits == HALF,
            c.model_local_to_world == Affine3::unit(),
            c.background == Vec3::of_bits(0, 0, 0),
            c.splat_scale is None,
    {
        AnimationConfig {
            num_frames: 120,
            fps: 30,
            interpolation: Interpolation::CatmullRom,
            keyframes: Vec::new(),
            fov_x: Double { bits: DEFAULT_FOV },
            fov_y: Double { bits: DEFAULT_FOV },
            center_uv: Vec2 { x: Single { bits: HALF }, y: Single { bits: HALF } },
            model_local_to_world: Affine3::identity(),
            background: Vec3::from_bits(0, 0, 0),
            splat_scale: None,
        }
    }
}

impl AnimationConfig {
    /// Smallest frame count that still fits every keyframe.
    pub fn min_frames(&self) -> (n: usize)
        requires
            all_within(self.keyframes@, usize::MAX as int),
        ensures
            n == frames_needed(self.keyframes@),
            n >= 1,
            forall|i: int|
                0 <= i < self.keyframes@.len() ==> (#[trigger] self.keyframes@[i]).frame < n,
            n > 1 ==> exists|i: int|
                0 <= i < self.keyframes@.len() && (#[trigger] self.keyframes@[i]).frame + 1 == n,
    {
        let mut n: usize = 1;
        let mut i: usize = 0;
        while i < self.keyframes.len()
            invariant
                i <= self.keyframes@.len(),
                all_within(self.keyframes@, usize::MAX as int),
                n == frames_needed(self.keyframes@.take(i as int)),
                n >= 1,
                forall|j: int| 0 <= j < i ==> (#[trigger] self.keyframes@[j]).frame < n,
                n > 1 ==> exists|j: int|
                    0 <= j < i && (#[trigger] self.keyframes@[j]).frame + 1 == n,
            decreases self.keyframes.len() - i,
        {
            proof {
                let taken = self.keyframes@.take(i + 1);
                assert(taken.drop_last() =~= self.keyframes@.take(i as int));
                assert(taken.last() == self.keyframes@[i as int]);
            }
            let needed: usize = self.keyframes[i].frame + 1;
            if needed > n {
                n = needed;
            }
            i = i + 1;
        }
        assert(self.keyframes@.take(i as int) =~= self.keyframes@);
        n
    }

    /// Insert a keyframe at `frame`, replacing any existing keyframe there.
    pub fn set_keyframe(&mut self, frame: usize, position: Vec3, rotation: Quat)
        ensures
            final(self).keyframes@ == with_keyframe(
                old(self).keyframes@,
                Keyframe { frame, position, rotation },
            ),
            final(self).num_frames == old(self).num_frames,
            final(self).same_setting(*old(self)),
            final(self).fps == old(self).fps,
            final(self).interpolation == old(self).interpolation,
            final(self).fov_x == old(self).fov_x && final(self).fov_y == old(self).fov_y,
            final(self).center_uv == old(self).center_uv,
            final(self).model_local_to_world == old(self).model_local_to_world,
            final(self).background == old(self).background,
            final(self).splat_scale == old(self).splat_scale,
    {
        let key = Keyframe { frame, position, rotation };
        let mut at: usize = 0;
        while at < self.keyframes.len() && self.keyframes[at].frame != frame
            invariant
                at <= self.keyframes@.len(),
                forall|i: int| 0 <= i < at ==> (#[trigger] self.keyframes@[i]).frame != frame,
            decreases self.keyframes.len() - at,
        {
            at = at + 1;
        }
        proof {
            lemma_first_on_frame(self.keyframes@, frame, at as int);
        }
        if at < self.keyframes.len() {
            self.keyframes.set(at, key);
        } else {
            self.keyframes.push(key);
        }
    }

    /// Whether some keyframe is on `frame`.
    pub fn has_keyframe_at(&self, frame: usize) -> (has: bool)
        ensures
            has == exists|i: int|
                0 <= i < self.keyframes@.len() && (#[trigger] self.keyframes@[i]).frame == frame,
    {
        let mut i: usize = 0;
        while i < self.keyframes.len()
            invariant
                i <= self.keyframes@.len(),
                forall|j: int| 0 <= j < i ==> (#[trigger] self.keyframes@[j]).frame != frame,
            decreases self.keyframes.len() - i,
        {
            if self.keyframes[i].frame == frame {
                return true;
            }
            i = i + 1;
        }
        false
    }

    /// Drops every keyframe on `frame`.
    pub fn remove_keyframes_at(&mut self, frame: usize)
        ensures
            final(self).keyframes@ == without_frame(old(self).keyframes@, frame),
            final(self).num_frames == old(self).num_frames,
            final(self).same_setting(*old(self)),
            final(self).fps == old(self).fps,
            final(self).interpolation == old(self).interpolation,
            final(self).fov_x == old(self).fov_x && final(self).fov_y == old(self).fov_y,
            final(self).center_uv == old(self).center_uv,
            final(self).model_local_to_world == old(self).model_local_to_world,
            final(self).background == old(self).background,
            final(self).splat_scale == old(self).splat_scale,
    {
        let ghost keep = |k: Keyframe| k.frame != frame;
        let mut kept: Vec<Keyframe> = Vec::new();
        let mut i: usize = 0;
        while i < self.keyframes.len()
            invariant
                i <= self.keyframes@.len(),
                keep == (|k: Keyframe| k.frame != frame),
                kept@ == self.keyframes@.take(i as int).filter(keep),
            decreases self.keyframes.len() - i,
        {
            proof {
                let taken = self.keyframes@.take(i + 1);
                assert(taken.drop_last() =~= self.keyframes@.take(i as int));
                assert(taken.last() == self.keyframes@[i as int]);
                reveal(Seq::filter);
            }
            let key = self.keyframes[i];
            if key.frame != frame {
                kept.push(key);
            }
            i = i + 1;
        }
        assert(self.keyframes@.take(i as int) =~= self.keyframes@);
        self.keyframes = kept;
    }

    /// Makes the timeline long enough for every keyframe.
    pub fn fit_timeline(&mut self)
        requires
            all_within(old(self).keyframes@, usize::MAX as int),
        ensures
            final(self).num_frames == if old(self).num_frames >= frames_needed(
                old(self).keyframes@,
            ) {
                old(self).num_frames as int
            } else {
                frames_needed(old(self).keyframes@)
            },
            final(self).keyframes == old(self).keyframes,
            final(self).same_setting(*old(self)),
            final(self).fits(),
            final(self).num_frames >= old(self).num_frames,
            forall|i: int|
                0 <= i < old(self).keyframes@.len() ==> (#[trigger] old(self).keyframes@[i]).frame
                    < final(self).num_frames,
            final(self).fps == old(self).fps,
            final(self).interpolation == old(self).interpolation,
            final(self).fov_x == old(self).fov_x && final(self).fov_y == old(self).fov_y,
            final(self).center_uv == old(self).center_uv,
            final(self).model_local_to_world == old(self).model_local_to_world,
            final(self).background == old(self).background,
            final(self).splat_scale == old(self).splat_scale,
    {
        let needed = self.min_frames();
        if self.num_frames < needed {
            self.num_frames = needed;
        }
        proof {
            law_min_frames_is_least(self.keyframes@);
        }
    }

    /// Finds the loop segment containing `frame` and the place within it, given
    /// keyframes sorted by frame.
    fn segment_at(&self, kfs: &Vec<Keyframe>, frame: usize) -> (seg: Segment)
        requires
            kfs@.len() >= 2,
            in_frame_order(kfs@),
            loop_reaches(kfs@, self.num_frames as int, frame as int),
        ensures
            seg.index == segment_index(kfs@, frame as int),
            seg.index < kfs@.len(),
            seg.at.num == segment_passed(kfs@, self.num_frames as int, frame as int),
            seg.at.den == segment_length(kfs@, self.num_frames as int, frame as int),
    {
        let n: usize = kfs.len();
        let first: usize = kfs[0].frame;
        let last: usize = kfs[n - 1].frame;
        assert(kfs@[0].frame <= kfs@[n - 1].frame);
        if first <= frame && frame < last {
            let mut s: usize = 0;
            while frame >= kfs[s + 1].frame
                invariant
                    n == kfs@.len(),
                    s + 1 < n,
                    kfs@[s as int].frame <= frame < kfs@[n - 1].frame,
                decreases n - s,
            {
                s = s + 1;
            }
            proof {
                lemma_last_at_or_before(kfs@, frame as int, s as int);
            }
            Segment {
                index: s,
                at: Fraction {
                    num: frame - kfs[s].frame,
                    den: kfs[s + 1].frame - kfs[s].frame,
                },
            }
        } else {
            let wrap_len: usize = self.num_frames - (last - first);
            let steps: usize = (frame + self.num_frames - last) % self.num_frames;
            Segment { index: n - 1, at: Fraction { num: steps, den: wrap_len } }
        }
    }

    /// The keyframes in frame order.
    fn sorted_keyframes(&self) -> (kfs: Vec<Keyframe>)
        ensures
            kfs@ == timeline(self.keyframes@),
            in_frame_order(kfs@),
    {
        let mut numbers: Vec<usize> = Vec::new();
        let mut i: usize = 0;
        while i < self.keyframes.len()
            invariant
                i <= self.keyframes@.len(),
                numbers@ == frames(self.keyframes@).take(i as int),
            decreases self.keyframes.len() - i,
        {
            numbers.push(self.keyframes[i].frame);
            i = i + 1;
            assert(numbers@ =~= frames(self.keyframes@).take(i as int));
        }
        assert(numbers@ =~= frames(self.keyframes@));
        let order = sort_places(&numbers);
        proof {
            lemma_timeline_is(self.keyframes@, order@);
            let found = lemma_timeline(self.keyframes@);
        }
        let mut kfs: Vec<Keyframe> = Vec::new();
        let mut j: usize = 0;
        while j < order.len()
            invariant
                j <= order@.len(),
                stable_order(frames(self.keyframes@), order@),
                kfs@ == arranged(self.keyframes@, order@).take(j as int),
            decreases order.len() - j,
        {
            kfs.push(self.keyframes[order[j]]);
            j = j + 1;
            assert(kfs@ =~= arranged(self.keyframes@, order@).take(j as int));
        }
        assert(kfs@ =~= timeline(self.keyframes@));
        kfs
    }

    /// Whether the pose on `frame` can be worked out.
    pub fn is_playable(&self, frame: usize) -> (r: bool)
        ensures
            r == self.playable(frame),
    {
        let kfs = self.sorted_keyframes();
        let n: usize = kfs.len();
        if n < 2 {
            return true;
        }
        let first: usize = kfs[0].frame;
        let last: usize = kfs[n - 1].frame;
        assert(kfs@[0].frame <= kfs@[n - 1].frame);
        if first <= frame && frame < last {
            return true;
        }
        0 < self.num_frames && last - first <= self.num_frames && self.num_frames <= usize::MAX
            - frame && last <= frame + self.num_frames
    }

    /// The interpolated camera pose at `frame`, using the selected method. The
    /// keyframes form a closed loop, so frames wrap smoothly from the last
    /// keyframe back to the first. Returns `None` if there are no keyframes.
    pub fn pose_at_frame(&self, frame: usize) -> (pose: Option<Pose>)
        requires
            self.playable(frame),
        ensures
            pose == self.pose(frame),
    {
        let kfs = self.sorted_keyframes();
        let n: usize = kfs.len();
        if n == 0 {
            return None;
        }
        if n == 1 {
            return Some(Pose::Fixed { key: kfs[0] });
        }
        let seg = self.segment_at(&kfs, frame);
        let s: usize = seg.index;
        let from = kfs[s];
        let to = kfs[if s + 1 == n { 0 } else { s + 1 }];
        proof {
            lemma_wrap(s + 1, n as int);
            lemma_wrap(s + n - 1, n as int);
            lemma_wrap(s + 2, n as int);
        }
        let at = seg.at;
        let pose = match self.interpolation {
            Interpolation::Linear => Pose::Linear { from, to, at },
            Interpolation::Smoothstep => Pose::Smoothstep { from, to, at },
            Interpolation::CatmullRom => {
                let before: usize = if s == 0 { n - 1 } else { s - 1 };
                let after: usize = if s + 1 == n {
                    1
                } else if s + 2 == n {
                    0
                } else {
                    s + 2
                };
                Pose::CatmullRom { before: kfs[before], from, to, after: kfs[after], at }
            },
        };
        Some(pose)
    }

    /// One camera for each frame of the timeline: what `camera_for` makes of the
    /// frame's pose.
    pub fn render_cameras<C, F: Fn(Option<Pose>) -> C>(&self, camera_for: F) -> (cameras: Vec<C>)
        requires
            forall|f: usize| f < self.num_frames ==> #[trigger] self.playable(f),
            forall|pose: Option<Pose>| call_requires(camera_for, (pose,)),
        ensures
            cameras@.len() == self.num_frames,
            forall|f: usize|
                f < self.num_frames ==> call_ensures(
                    camera_for,
                    (self.pose(f),),
                    #[trigger] cameras@[f as int],
                ),
    {
        let mut cameras: Vec<C> = Vec::new();
        let mut f: usize = 0;
        while f < self.num_frames
            invariant
                f <= self.num_frames,
                cameras@.len() == f,
                forall|g: usize| g < self.num_frames ==> #[trigger] self.playable(g),
                forall|pose: Option<Pose>| call_requires(camera_for, (pose,)),
                forall|g: usize|
                    g < f ==> call_ensures(
                        camera_for,
                        (self.pose(g),),
                        #[trigger] cameras@[g as int],
                    ),
            decreases self.num_frames - f,
        {
            assert(self.playable(f));
            cameras.push(camera_for(self.pose_at_frame(f)));
            f = f + 1;
        }
        cameras
    }

    /// The pose of every frame of the timeline.
    pub fn render_poses(&self) -> (poses: Vec<Option<Pose>>)
        requires
            forall|f: usize| f < self.num_frames ==> #[trigger] self.playable(f),
        ensures
            poses@.len() == self.num_frames,
            forall|f: usize|
                f < self.num_frames ==> #[trigger] poses@[f as int] == self.pose(f),
    {
        let mut poses: Vec<Option<Pose>> = Vec::new();
        let mut f: usize = 0;
        while f < self.num_frames
            invariant
                f <= self.num_frames,
                poses@.len() == f,
                forall|g: usize| g < self.num_frames ==> #[trigger] self.playable(g),
                forall|g: usize| g < f ==> #[trigger] poses@[g as int] == self.pose(g),
            decreases self.num_frames - f,
        {
            assert(self.playable(f));
            poses.push(self.pose_at_frame(f));
            f = f + 1;
        }
        poses
    }
}

/// The smallest frame count fits every keyframe, and no smaller count of at
/// least one does.
pub proof fn law_min_frames_is_least(kfs: Seq<Keyframe>)
    ensures
        frames_needed(kfs) >= 1,
        all_within(kfs, frames_needed(kfs)),
        forall|n: int| 1 <= n && #[trigger] all_within(kfs, n) ==> frames_needed(kfs) <= n,
    decreases kfs.len(),
{
    if kfs.len() > 0 {
        let rest = kfs.drop_last();
        law_min_frames_is_least(rest);
        assert forall|i: int| 0 <= i < kfs.len() implies (#[trigger] kfs[i]).frame < frames_needed(
            kfs,
        ) by {
            if i < kfs.len() - 1 {
                assert(rest[i] == kfs[i]);
            }
        }
        assert forall|n: int| 1 <= n && #[trigger] all_within(kfs, n) implies frames_needed(kfs)
            <= n by {
            assert forall|i: int| 0 <= i < rest.len() implies (#[trigger] rest[i]).frame < n by {
                assert(rest[i] == kfs[i]);
            }
            assert(all_within(rest, n));
            assert(kfs[kfs.len() - 1].frame < n);
        }
    }
}

} // verus!
