//! What holds of every animation: the loop of poses is closed and even, and a
//! keyframe that was set is what its frame shows.

use vstd::prelude::*;

use crate::anim::config::{
    all_within, between_keyframes, distinct_frames, first_on_frame, frames, in_frame_order,
    last_at_or_before, lemma_timeline, lemma_wrap, pose_on, segment_index, segment_length,
    segment_passed, timeline, with_keyframe, without_frame, AnimationConfig, Interpolation,
    Keyframe, Pose,
};
use crate::sort::precedes;

verus! {

/// The place found by `last_at_or_before` is the last one that is not after
/// the frame.
proof fn lemma_found(kfs: Seq<Keyframe>, frame: int)
    requires
        in_frame_order(kfs),
        kfs.len() > 0,
        kfs[0].frame <= frame,
    ensures
        0 <= last_at_or_before(kfs, frame) < kfs.len(),
        kfs[last_at_or_before(kfs, frame)].frame <= frame,
        forall|i: int|
            last_at_or_before(kfs, frame) < i < kfs.len() ==> frame < (#[trigger] kfs[i]).frame,
    decreases kfs.len(),
{
    if kfs.last().frame > frame {
        let rest = kfs.drop_last();
        assert(rest.len() > 0) by {
            if rest.len() == 0 {
                assert(kfs[0] == kfs.last());
            }
        }
        lemma_found(rest, frame);
        let s = last_at_or_before(rest, frame);
        assert(rest[s] == kfs[s]);
        assert forall|i: int| s < i < kfs.len() implies frame < (#[trigger] kfs[i]).frame by {
            if i < kfs.len() - 1 {
                assert(rest[i] == kfs[i]);
            }
        }
    }
}

/// On a timeline that fits every keyframe, each frame has a pose.
pub proof fn law_fitting_timeline_is_playable(config: AnimationConfig, frame: usize)
    requires
        config.fits(),
        frame + config.num_frames <= usize::MAX,
    ensures
        config.playable(frame),
{
    let kfs = timeline(config.keyframes@);
    assert(config.keyframes@.len() == config.keyframes.len());
    let order = lemma_timeline(config.keyframes@);
    if kfs.len() >= 2 {
        assert(config.keyframes@[order[kfs.len() - 1] as int].frame < config.num_frames);
    }
}

/// The timeline of keyframes within a frame count is within it, and keyframes
/// on distinct frames stay on distinct frames.
pub proof fn lemma_timeline_keeps(keyframes: Seq<Keyframe>, num_frames: int)
    requires
        keyframes.len() <= usize::MAX,
    ensures
        all_within(keyframes, num_frames) ==> all_within(timeline(keyframes), num_frames),
        distinct_frames(keyframes) ==> distinct_frames(timeline(keyframes)),
{
    let kfs = timeline(keyframes);
    let order = lemma_timeline(keyframes);
    if all_within(keyframes, num_frames) {
        assert forall|i: int| 0 <= i < kfs.len() implies (#[trigger] kfs[i]).frame < num_frames by {
            assert(keyframes[order[i] as int].frame < num_frames);
        }
    }
    if distinct_frames(keyframes) {
        assert forall|i: int, j: int|
            0 <= i < kfs.len() && 0 <= j < kfs.len() && i != j implies kfs[i].frame
            != kfs[j].frame by {
            if i < j {
                assert(precedes(frames(keyframes), order[i] as int, order[j] as int));
            } else {
                assert(precedes(frames(keyframes), order[j] as int, order[i] as int));
            }
            assert(order[i] != order[j]);
            assert(keyframes[order[i] as int].frame != keyframes[order[j] as int].frame);
        }
    }
}

/// Every frame of the timeline is on a stretch between two keyframes, and on
/// it strictly before its end.
pub proof fn law_frame_is_on_a_segment(kfs: Seq<Keyframe>, num_frames: int, frame: int)
    requires
        in_frame_order(kfs),
        kfs.len() >= 2,
        all_within(kfs, num_frames),
        0 <= frame < num_frames,
    ensures
        0 <= segment_index(kfs, frame) < kfs.len(),
        0 <= segment_passed(kfs, num_frames, frame) < segment_length(kfs, num_frames, frame),
{
    assert(kfs[kfs.len() - 1].frame < num_frames);
    assert(kfs[0].frame <= kfs[kfs.len() - 1].frame);
    if between_keyframes(kfs, frame) {
        lemma_found(kfs, frame);
        assert(kfs[segment_index(kfs, frame) + 1].frame > frame);
    } else {
        lemma_wrap(frame + num_frames - kfs.last().frame, num_frames);
    }
}

/// The poses move on evenly and come round: on the next frame, the one after
/// the last being the first, the pose is one step further on its stretch, or
/// at the start of the next stretch when the stretch is over.
pub proof fn law_next_frame_moves_on(kfs: Seq<Keyframe>, num_frames: int, frame: int)
    requires
        in_frame_order(kfs),
        distinct_frames(kfs),
        kfs.len() >= 2,
        all_within(kfs, num_frames),
        0 <= frame < num_frames,
    ensures
        ({
            let next = if frame + 1 == num_frames {
                0
            } else {
                frame + 1
            };
            let passed = segment_passed(kfs, num_frames, frame) + 1;
            if passed < segment_length(kfs, num_frames, frame) {
                &&& segment_index(kfs, next) == segment_index(kfs, frame)
                &&& segment_passed(kfs, num_frames, next) == passed
            } else {
                &&& passed == segment_length(kfs, num_frames, frame)
                &&& segment_index(kfs, next) == (segment_index(kfs, frame) + 1) % (
                kfs.len() as int)
                &&& segment_passed(kfs, num_frames, next) == 0
            }
        }),
{
    let n = kfs.len() as int;
    let next = if frame + 1 == num_frames {
        0
    } else {
        frame + 1
    };
    let first = kfs.first().frame as int;
    let last = kfs.last().frame as int;
    assert(kfs[n - 1].frame < num_frames);
    assert(kfs[0].frame <= kfs[n - 1].frame);
    assert(kfs[0].frame != kfs[n - 1].frame);
    law_frame_is_on_a_segment(kfs, num_frames, frame);
    law_frame_is_on_a_segment(kfs, num_frames, next);
    let s = segment_index(kfs, frame);
    lemma_wrap(s + 1, n);
    if between_keyframes(kfs, frame) {
        lemma_found(kfs, frame);
        assert(kfs[s + 1].frame > frame);
        if frame + 1 < kfs[s + 1].frame {
            assert(kfs[s + 1].frame <= kfs[n - 1].frame);
            lemma_found(kfs, frame + 1);
            lemma_place(kfs, frame + 1, s);
        } else if s + 1 < n - 1 {
            assert(kfs[s + 1].frame <= kfs[n - 1].frame);
            assert(kfs[s + 1].frame != kfs[n - 1].frame);
            assert(kfs[s + 1].frame <= kfs[s + 2].frame);
            assert(kfs[s + 1].frame != kfs[s + 2].frame);
            lemma_found(kfs, frame + 1);
            lemma_place(kfs, frame + 1, s + 1);
        } else {
            lemma_wrap(next + num_frames - last, num_frames);
        }
    } else {
        lemma_wrap(frame + num_frames - last, num_frames);
        if next == first {
            assert(kfs[0].frame != kfs[1].frame);
            assert(kfs[0].frame <= kfs[1].frame);
            assert(kfs[1].frame <= kfs[n - 1].frame);
            lemma_found(kfs, next);
            lemma_place(kfs, next, 0);
        } else {
            lemma_wrap(next + num_frames - last, num_frames);
        }
    }
}

/// A place that is not after the frame, followed by one that is, is the one found.
proof fn lemma_place(kfs: Seq<Keyframe>, frame: int, s: int)
    requires
        in_frame_order(kfs),
        0 <= s < kfs.len(),
        kfs[s].frame <= frame,
        s + 1 < kfs.len() ==> frame < kfs[s + 1].frame,
    ensures
        last_at_or_before(kfs, frame) == s,
{
    assert(kfs[0].frame <= kfs[s].frame);
    lemma_found(kfs, frame);
    let found = last_at_or_before(kfs, frame);
    if found > s {
        assert(kfs[s + 1].frame <= kfs[found].frame);
    }
}

/// On the frame of a keyframe, the pose is that keyframe's own.
pub proof fn law_pose_on_keyframe(
    keyframes: Seq<Keyframe>,
    num_frames: int,
    method: Interpolation,
    k: int,
)
    requires
        keyframes.len() <= usize::MAX,
        distinct_frames(keyframes),
        all_within(keyframes, num_frames),
        0 <= k < keyframes.len(),
    ensures
        ({
            let pose = pose_on(
                timeline(keyframes),
                num_frames,
                method,
                keyframes[k].frame as int,
            );
            &&& pose matches Some(p)
            &&& p.start() == keyframes[k]
            &&& p.passed() == 0
        }),
{
    let kfs = timeline(keyframes);
    let order = lemma_timeline(keyframes);
    lemma_timeline_keeps(keyframes, num_frames);
    assert(order.contains(k as usize));
    let at = choose|i: int| 0 <= i < order.len() && order[i] == k as usize;
    let frame = keyframes[k].frame as int;
    let n = kfs.len() as int;
    assert(kfs[at] == keyframes[k]);
    if n >= 2 {
        if at == n - 1 {
            lemma_wrap(num_frames, num_frames);
            assert(frame + num_frames - kfs.last().frame == num_frames);
        } else {
            assert(kfs[at].frame <= kfs[at + 1].frame);
            assert(kfs[at].frame != kfs[at + 1].frame);
            assert(kfs[at + 1].frame <= kfs[n - 1].frame);
            assert(kfs[0].frame <= kfs[at].frame);
            lemma_place(kfs, frame, at);
        }
    }
}

/// What `first_on_frame` finds.
proof fn lemma_first(kfs: Seq<Keyframe>, frame: usize)
    ensures
        0 <= first_on_frame(kfs, frame) <= kfs.len(),
        forall|i: int|
            0 <= i < first_on_frame(kfs, frame) ==> (#[trigger] kfs[i]).frame != frame,
        first_on_frame(kfs, frame) < kfs.len() ==> kfs[first_on_frame(kfs, frame)].frame == frame,
    decreases kfs.len(),
{
    if kfs.len() > 0 && kfs.first().frame != frame {
        let rest = kfs.drop_first();
        lemma_first(rest, frame);
        assert forall|i: int| 0 <= i < first_on_frame(kfs, frame) implies (#[trigger] kfs[i]).frame
            != frame by {
            if i > 0 {
                assert(rest[i - 1] == kfs[i]);
            }
        }
    }
}

/// Setting a keyframe puts it on its frame, leaves the keyframes of all other
/// frames as they are, and keeps the frames distinct and on the timeline.
pub proof fn law_set_keyframe(kfs: Seq<Keyframe>, key: Keyframe)
    ensures
        with_keyframe(kfs, key).contains(key),
        forall|k: Keyframe|
            k.frame != key.frame ==> (#[trigger] with_keyframe(kfs, key).contains(k)
                == kfs.contains(k)),
        distinct_frames(kfs) ==> distinct_frames(with_keyframe(kfs, key)),
        forall|n: int|
            #[trigger] all_within(kfs, n) && key.frame < n ==> all_within(
                with_keyframe(kfs, key),
                n,
            ),
{
    let set = with_keyframe(kfs, key);
    let at = first_on_frame(kfs, key.frame);
    lemma_first(kfs, key.frame);
    assert(set[at] == key);
    assert forall|k: Keyframe| k.frame != key.frame implies #[trigger] set.contains(k)
        == kfs.contains(k) by {
        if set.contains(k) {
            let i = choose|i: int| 0 <= i < set.len() && set[i] == k;
            assert(kfs[i] == k);
        }
        if kfs.contains(k) {
            let i = choose|i: int| 0 <= i < kfs.len() && kfs[i] == k;
            assert(set[i] == k);
        }
    }
}

/// Of two keyframes set on one frame, the second remains.
pub proof fn law_set_keyframe_replaces(kfs: Seq<Keyframe>, a: Keyframe, b: Keyframe)
    requires
        a.frame == b.frame,
    ensures
        with_keyframe(with_keyframe(kfs, a), b) == with_keyframe(kfs, b),
{
    let once = with_keyframe(kfs, a);
    lemma_first(kfs, a.frame);
    lemma_first(once, a.frame);
    let at = first_on_frame(kfs, a.frame);
    assert(once[at] == a);
    let again = first_on_frame(once, a.frame);
    if again < at {
        assert(once[again] == kfs[again]);
    }
    assert(again == at);
    assert(with_keyframe(once, b) =~= with_keyframe(kfs, b));
}

/// The pose on the frame of a keyframe that was just set is the one that was set.
pub proof fn law_set_keyframe_shows(
    kfs: Seq<Keyframe>,
    key: Keyframe,
    num_frames: int,
    method: Interpolation,
)
    requires
        kfs.len() < usize::MAX,
        distinct_frames(kfs),
        all_within(kfs, num_frames),
        key.frame < num_frames,
    ensures
        ({
            let pose = pose_on(
                timeline(with_keyframe(kfs, key)),
                num_frames,
                method,
                key.frame as int,
            );
            &&& pose matches Some(p)
            &&& p.start() == key
            &&& p.passed() == 0
        }),
{
    let set = with_keyframe(kfs, key);
    law_set_keyframe(kfs, key);
    lemma_first(kfs, key.frame);
    let at = first_on_frame(kfs, key.frame);
    assert(set[at] == key);
    law_pose_on_keyframe(set, num_frames, method, at);
}

/// Removing the keyframes of a frame right after the only one was added there
/// gives the earlier keyframes back.
pub proof fn law_remove_undoes_set(kfs: Seq<Keyframe>, key: Keyframe)
    requires
        forall|i: int| 0 <= i < kfs.len() ==> (#[trigger] kfs[i]).frame != key.frame,
    ensures
        without_frame(with_keyframe(kfs, key), key.frame) == kfs,
{
    let keep = |k: Keyframe| k.frame != key.frame;
    lemma_first(kfs, key.frame);
    let at = first_on_frame(kfs, key.frame);
    assert(at == kfs.len());
    assert(with_keyframe(kfs, key).drop_last() =~= kfs);
    reveal(Seq::filter);
    assert(kfs.push(key).filter(keep) == kfs.filter(keep));
    lemma_filter_keeps_all(kfs, keep);
}

proof fn lemma_filter_keeps_all(kfs: Seq<Keyframe>, keep: spec_fn(Keyframe) -> bool)
    requires
        forall|i: int| 0 <= i < kfs.len() ==> keep(#[trigger] kfs[i]),
    ensures
        kfs.filter(keep) == kfs,
    decreases kfs.len(),
{
    reveal(Seq::filter);
    if kfs.len() > 0 {
        let rest = kfs.drop_last();
        assert forall|i: int| 0 <= i < rest.len() implies keep(#[trigger] rest[i]) by {
            assert(rest[i] == kfs[i]);
        }
        lemma_filter_keeps_all(rest, keep);
        assert(keep(kfs[kfs.len() - 1]));
        assert(kfs =~= rest.push(kfs.last()));
    }
}

/// After the keyframes of a frame were removed, none is on it, and those of
/// all other frames are still there.
pub proof fn law_removed_frame_is_empty(kfs: Seq<Keyframe>, frame: usize)
    ensures
        forall|k: Keyframe| #[trigger]
            without_frame(kfs, frame).contains(k) <==> (kfs.contains(k) && k.frame != frame),
    decreases kfs.len(),
{
    reveal(Seq::filter);
    let kept = without_frame(kfs, frame);
    if kfs.len() > 0 {
        let rest = kfs.drop_last();
        let kept_rest = without_frame(rest, frame);
        law_removed_frame_is_empty(rest, frame);
        assert forall|k: Keyframe| #[trigger] kept.contains(k) <==> (kfs.contains(k) && k.frame
            != frame) by {
            assert(kfs =~= rest.push(kfs.last()));
            assert(kept_rest.contains(k) <==> (rest.contains(k) && k.frame != frame));
            broadcast use vstd::seq_lib::group_seq_properties;

        }
    }
}

/// Removing from a frame that has no keyframe changes nothing.
pub proof fn law_nothing_to_remove(kfs: Seq<Keyframe>, frame: usize)
    requires
        forall|i: int| 0 <= i < kfs.len() ==> (#[trigger] kfs[i]).frame != frame,
    ensures
        without_frame(kfs, frame) == kfs,
    decreases kfs.len(),
{
    reveal(Seq::filter);
    if kfs.len() > 0 {
        let rest = kfs.drop_last();
        assert forall|i: int| 0 <= i < rest.len() implies (#[trigger] rest[i]).frame != frame by {
            assert(rest[i] == kfs[i]);
        }
        law_nothing_to_remove(rest, frame);
        assert(kfs[kfs.len() - 1].frame != frame);
        assert(rest.push(kfs.last()) =~= kfs);
    }
}

/// How many frames it takes to come from frame `a` to frame `b` on a loop of `n`
/// frames, going on at least one frame.
spec fn frames_ahead(a: int, b: int, n: int) -> int {
    if a < b {
        b - a
    } else {
        b - a + n
    }
}

/// `to` is the keyframe that comes next after `from` on a loop of `n` frames:
/// none of the keyframes is met earlier.
spec fn follows(keyframes: Seq<Keyframe>, n: int, from: Keyframe, to: Keyframe) -> bool {
    &&& keyframes.contains(from)
    &&& keyframes.contains(to)
    &&& forall|i: int|
        0 <= i < keyframes.len() ==> frames_ahead(from.frame as int, to.frame as int, n)
            <= frames_ahead(from.frame as int, (#[trigger] keyframes[i]).frame as int, n)
}

/// On a sorted timeline the keyframe in the next place follows, the first after
/// the last.
proof fn lemma_next_place_follows(kfs: Seq<Keyframe>, n: int, s: int)
    requires
        in_frame_order(kfs),
        distinct_frames(kfs),
        all_within(kfs, n),
        kfs.len() >= 2,
        0 <= s < kfs.len(),
    ensures
        follows(kfs, n, kfs[s], kfs[(s + 1) % (kfs.len() as int)]),
        s + 1 < kfs.len() ==> frames_ahead(kfs[s].frame as int, kfs[s + 1].frame as int, n)
            == kfs[s + 1].frame - kfs[s].frame,
        s + 1 == kfs.len() ==> frames_ahead(kfs[s].frame as int, kfs[0].frame as int, n)
            == kfs[0].frame - kfs[s].frame + n,
{
    let len = kfs.len() as int;
    lemma_wrap(s + 1, len);
    let t = (s + 1) % len;
    assert(kfs[s].frame < n);
    assert forall|i: int| 0 <= i < len implies frames_ahead(
        kfs[s].frame as int,
        kfs[t].frame as int,
        n,
    ) <= frames_ahead(kfs[s].frame as int, (#[trigger] kfs[i]).frame as int, n) by {
        assert(kfs[t].frame < n);
        assert(kfs[s].frame != kfs[t].frame);
        if i > s {
            assert(kfs[s].frame <= kfs[i].frame && kfs[s].frame != kfs[i].frame);
            assert(kfs[s].frame <= kfs[t].frame);
            assert(kfs[t].frame <= kfs[i].frame);
        } else {
            assert(kfs[i].frame <= kfs[s].frame);
            if t == s + 1 {
                assert(kfs[s].frame <= kfs[t].frame);
            } else {
                assert(kfs[t].frame <= kfs[i].frame);
                assert(kfs[t].frame <= kfs[s].frame);
            }
        }
    }
    if s + 1 < len {
        assert(kfs[s].frame <= kfs[s + 1].frame && kfs[s].frame != kfs[s + 1].frame);
    } else {
        assert(kfs[0].frame <= kfs[s].frame);
    }
    assert(kfs.contains(kfs[s]));
    assert(kfs.contains(kfs[t]));
}

/// What follows on the timeline follows among the keyframes as they are given.
proof fn lemma_timeline_follows(
    keyframes: Seq<Keyframe>,
    n: int,
    from: Keyframe,
    to: Keyframe,
)
    requires
        keyframes.len() <= usize::MAX,
        follows(timeline(keyframes), n, from, to),
    ensures
        follows(keyframes, n, from, to),
{
    let kfs = timeline(keyframes);
    let order = lemma_timeline(keyframes);
    let a = choose|i: int| 0 <= i < kfs.len() && kfs[i] == from;
    let b = choose|i: int| 0 <= i < kfs.len() && kfs[i] == to;
    assert(keyframes[order[a] as int] == from);
    assert(keyframes[order[b] as int] == to);
    assert forall|i: int| 0 <= i < keyframes.len() implies frames_ahead(
        from.frame as int,
        to.frame as int,
        n,
    ) <= frames_ahead(from.frame as int, (#[trigger] keyframes[i]).frame as int, n) by {
        assert(order.contains(i as usize));
        let j = choose|j: int| 0 <= j < order.len() && order[j] == i as usize;
        assert(kfs[j] == keyframes[i]);
    }
}

/// The keyframes that a pose is made of follow each other.
proof fn lemma_pose_follows(config: AnimationConfig, frame: usize)
    requires
        config.keyframes@.len() >= 2,
        frame < config.num_frames,
        forall|i: int|
            0 <= i < config.keyframes@.len() ==> (#[trigger] config.keyframes@[i]).frame
                < config.num_frames,
        forall|i: int, j: int|
            0 <= i < j < config.keyframes@.len() ==> (#[trigger] config.keyframes@[i]).frame != (
            #[trigger] config.keyframes@[j]).frame,
    ensures
        ({
            let n = config.num_frames as int;
            let kfs = config.keyframes@;
            let (from, to, at) = match config.pose(frame) {
                Some(Pose::Linear { from, to, at }) => (from, to, at),
                Some(Pose::Smoothstep { from, to, at }) => (from, to, at),
                Some(Pose::CatmullRom { before, from, to, after, at }) => (from, to, at),
                _ => arbitrary(),
            };
            &&& match config.interpolation {
                Interpolation::Linear => config.pose(frame) matches Some(Pose::Linear { .. }),
                Interpolation::Smoothstep => config.pose(frame) matches Some(
                    Pose::Smoothstep { .. },
                ),
                Interpolation::CatmullRom => config.pose(frame) matches Some(
                    Pose::CatmullRom { before, after, .. },
                ) && follows(kfs, n, before, from) && follows(kfs, n, to, after),
            }
            &&& follows(kfs, n, from, to)
            &&& at.den == frames_ahead(from.frame as int, to.frame as int, n)
            &&& at.num == if from.frame <= frame {
                frame - from.frame
            } else {
                frame - from.frame + n
            }
            &&& at.num < at.den
        }),
{
    let n = config.num_frames as int;
    let given = config.keyframes@;
    let kfs = timeline(given);
    let f = frame as int;
    assert(given.len() == config.keyframes.len());
    assert forall|i: int, j: int|
        0 <= i < given.len() && 0 <= j < given.len() && i != j implies given[i].frame
        != given[j].frame by {
        if i < j {
            assert(given[i].frame != given[j].frame);
        } else {
            assert(given[j].frame != given[i].frame);
        }
    }
    let order = lemma_timeline(given);
    lemma_timeline_keeps(given, n);
    law_frame_is_on_a_segment(kfs, n, f);
    let len = kfs.len() as int;
    let s = segment_index(kfs, f);
    assert(kfs[0].frame <= kfs[len - 1].frame);
    assert(kfs[len - 1].frame < n);
    if between_keyframes(kfs, f) {
        lemma_found(kfs, f);
    } else {
        lemma_wrap(f + n - kfs.last().frame, n);
    }
    lemma_next_place_follows(kfs, n, s);
    lemma_wrap(s + 1, len);
    lemma_wrap(s + len - 1, len);
    lemma_wrap(s + 2, len);
    let t = (s + 1) % len;
    lemma_timeline_follows(given, n, kfs[s], kfs[t]);
    lemma_next_place_follows(kfs, n, t);
    lemma_wrap(t + 1, len);
    assert((t + 1) % len == (s + 2) % len);
    lemma_timeline_follows(given, n, kfs[t], kfs[(s + 2) % len]);
    let b = (s + len - 1) % len;
    lemma_next_place_follows(kfs, n, b);
    lemma_wrap(b + 1, len);
    lemma_timeline_follows(given, n, kfs[b], kfs[s]);
    assert(follows(given, n, kfs[b], kfs[s]));
    assert(follows(given, n, kfs[s], kfs[t]));
    assert(follows(given, n, kfs[t], kfs[(s + 2) % len]));
}

/// The keyframes that a pose is made of are consecutive on the loop: the pose
/// goes from the last keyframe met at or before the frame to the one that
/// follows it, and a spline also takes the one before and the one after them.
/// Whichever keyframe `i` one looks at, it is not met between two of them. How
/// much of the way has passed is counted in frames, and so is the way.
pub proof fn law_pose_is_made_of_consecutive_keyframes(
    config: AnimationConfig,
    frame: usize,
    i: int,
)
    requires
        config.keyframes@.len() >= 2,
        frame < config.num_frames,
        forall|i: int|
            0 <= i < config.keyframes@.len() ==> (#[trigger] config.keyframes@[i]).frame
                < config.num_frames,
        forall|i: int, j: int|
            0 <= i < j < config.keyframes@.len() ==> (#[trigger] config.keyframes@[i]).frame != (
            #[trigger] config.keyframes@[j]).frame,
        0 <= i < config.keyframes@.len(),
    ensures
        ({
            let n = config.num_frames as int;
            let kfs = config.keyframes@;
            let k = kfs[i].frame as int;
            let (from, to, at) = match config.pose(frame) {
                Some(Pose::Linear { from, to, at }) => (from, to, at),
                Some(Pose::Smoothstep { from, to, at }) => (from, to, at),
                Some(Pose::CatmullRom { before, from, to, after, at }) => (from, to, at),
                _ => arbitrary(),
            };
            let way = to.frame - from.frame + if from.frame < to.frame {
                0
            } else {
                n
            };
            &&& config.interpolation is Linear ==> (config.pose(frame) matches Some(
                Pose::Linear { .. },
            ))
            &&& config.interpolation is Smoothstep ==> (config.pose(frame) matches Some(
                Pose::Smoothstep { .. },
            ))
            &&& config.interpolation is CatmullRom ==> (config.pose(frame) matches Some(
                Pose::CatmullRom { .. },
            ))
            &&& kfs.contains(from)
            &&& kfs.contains(to)
            &&& way <= k - from.frame + if from.frame < k {
                0
            } else {
                n
            }
            &&& at.den == way
            &&& at.num == frame - from.frame + if from.frame <= frame {
                0
            } else {
                n
            }
            &&& at.num < at.den
        }),
        config.pose(frame) matches Some(Pose::CatmullRom { before, from, to, after, at }) ==> {
            let n = config.num_frames as int;
            let kfs = config.keyframes@;
            let k = kfs[i].frame as int;
            &&& kfs.contains(before)
            &&& kfs.contains(after)
            &&& from.frame - before.frame + (if before.frame < from.frame {
                0
            } else {
                n
            }) <= k - before.frame + if before.frame < k {
                0
            } else {
                n
            }
            &&& after.frame - to.frame + (if to.frame < after.frame {
                0
            } else {
                n
            }) <= k - to.frame + if to.frame < k {
                0
            } else {
                n
            }
        },
{
    lemma_pose_follows(config, frame);
}

/// Without keyframes there is no pose, and the only keyframe is the pose on
/// every frame.
pub proof fn law_pose_of_few_keyframes(config: AnimationConfig, frame: usize)
    ensures
        config.keyframes@.len() == 0 ==> config.pose(frame) is None,
        config.keyframes@.len() == 1 ==> config.pose(frame) == Some(
            Pose::Fixed { key: config.keyframes@[0] },
        ),
{
    assert(config.keyframes@.len() == config.keyframes.len());
    let order = lemma_timeline(config.keyframes@);
}

/// A keyframe is set in the place of the first one on its frame, and behind all
/// others where there is none.
pub proof fn law_place_of_a_set_keyframe(kfs: Seq<Keyframe>, key: Keyframe, i: int)
    requires
        0 <= i <= kfs.len(),
        forall|j: int| 0 <= j < i ==> (#[trigger] kfs[j]).frame != key.frame,
        i < kfs.len() ==> kfs[i].frame == key.frame,
    ensures
        i < kfs.len() ==> with_keyframe(kfs, key) == kfs.update(i, key),
        i == kfs.len() ==> with_keyframe(kfs, key) == kfs.push(key),
{
    lemma_first(kfs, key.frame);
    let at = first_on_frame(kfs, key.frame);
    if at < i {
        assert(kfs[at].frame != key.frame);
    }
}

/// Removal looks at one keyframe after the other: those on the frame go, all
/// others stay in their order.
pub proof fn law_removal_keeps_order(kfs: Seq<Keyframe>, k: Keyframe, frame: usize)
    ensures
        without_frame(Seq::empty(), frame) == Seq::<Keyframe>::empty(),
        k.frame == frame ==> without_frame(kfs.push(k), frame) == without_frame(kfs, frame),
        k.frame != frame ==> without_frame(kfs.push(k), frame) == without_frame(kfs, frame).push(k),
{
    reveal(Seq::filter);
    let longer = kfs.push(k);
    assert(longer.drop_last() =~= kfs);
    assert(longer.last() == k);
}

} // verus!
