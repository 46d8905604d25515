//! Cutting a long input into windows.
//!
//! The outer loop of a transcription walks over the frames of a recording
//! once, from the first to the last. Each window begins where the one before
//! it ended and is as long as the cap allows, or as what is left if that is
//! less. No frame is visited twice and none is left out.

use vstd::arithmetic::div_mod::{lemma_fundamental_div_mod_converse, lemma_small_mod};
use vstd::prelude::*;

verus! {

/// A run of frames: `len` of them, the first at `start`.
#[derive(Clone, Copy, Debug, PartialEq, Eq, Structural)]
pub struct Window {
    pub start: usize,
    pub len: usize,
}

/// The size of the window that begins at `seek`: what is left of the input,
/// but no more than the cap.
pub open spec fn window_size(total: nat, cap: nat, seek: nat) -> nat {
    if total - seek <= cap {
        (total - seek) as nat
    } else {
        cap
    }
}

/// The windows from `seek` to the end of the input, in the order in which
/// they are taken.
pub open spec fn windows_from(total: usize, cap: usize, seek: usize) -> Seq<Window>
    decreases total - seek,
{
    if seek >= total || cap == 0 {
        Seq::empty()
    } else {
        let len = window_size(total as nat, cap as nat, seek as nat) as usize;
        seq![Window { start: seek, len }] + windows_from(total, cap, (seek + len) as usize)
    }
}

/// All windows of an input of `total` frames.
pub open spec fn windows_of(total: usize, cap: usize) -> Seq<Window> {
    windows_from(total, cap, 0)
}

/// The sum of the sizes of some windows.
pub open spec fn frames_in(windows: Seq<Window>) -> nat
    decreases windows.len(),
{
    if windows.len() == 0 {
        0
    } else {
        windows.first().len as nat + frames_in(windows.drop_first())
    }
}

/// The window that begins at `seek`, or `None` when the input is used up.
pub fn next_window(total: usize, cap: usize, seek: usize) -> (window: Option<Window>)
    ensures
        window is None <==> seek >= total,
        window is Some ==> window->Some_0.start == seek && window->Some_0.len == window_size(
            total as nat,
            cap as nat,
            seek as nat,
        ),
{
    if seek >= total {
        None
    } else if total - seek <= cap {
        Some(Window { start: seek, len: total - seek })
    } else {
        Some(Window { start: seek, len: cap })
    }
}

/// The windows from `seek` on are the window at `seek` and those after it.
pub proof fn lemma_windows_unfold(total: usize, cap: usize, seek: usize)
    requires
        seek < total,
        cap > 0,
    ensures
        ({
            let len = window_size(total as nat, cap as nat, seek as nat);
            &&& 0 < len <= cap
            &&& seek + len <= total
            &&& windows_from(total, cap, seek) == seq![Window { start: seek, len: len as usize }]
                + windows_from(total, cap, (seek + len) as usize)
        }),
{
}

/// From `seek` on the windows lie end to end, none is empty or longer than
/// the cap, and together they hold the frames from `seek` to the end.
pub proof fn lemma_windows_cover(total: usize, cap: usize, seek: usize)
    requires
        seek <= total,
        cap > 0,
    ensures
        frames_in(windows_from(total, cap, seek)) == total - seek,
        forall|i: int|
            0 <= i < windows_from(total, cap, seek).len() ==> {
                let w = #[trigger] windows_from(total, cap, seek)[i];
                &&& 0 < w.len <= cap
                &&& seek <= w.start
                &&& w.start + w.len <= total
            },
        forall|i: int|
            0 <= i < windows_from(total, cap, seek).len() - 1 ==> {
                let w = #[trigger] windows_from(total, cap, seek)[i];
                windows_from(total, cap, seek)[i + 1].start == w.start + w.len
            },
        seek < total ==> windows_from(total, cap, seek).len() > 0 && windows_from(
            total,
            cap,
            seek,
        ).first().start == seek,
    decreases total - seek,
{
    if seek < total {
        let len = window_size(total as nat, cap as nat, seek as nat);
        let next = (seek + len) as usize;
        let tail = windows_from(total, cap, next);
        let all = windows_from(total, cap, seek);
        lemma_windows_unfold(total, cap, seek);
        lemma_windows_cover(total, cap, next);
        assert(all.drop_first() == tail);
        assert forall|i: int| 0 <= i < all.len() implies {
            let w = #[trigger] all[i];
            &&& 0 < w.len <= cap
            &&& seek <= w.start
            &&& w.start + w.len <= total
        } by {
            if i > 0 {
                assert(all[i] == tail[i - 1]);
            }
        }
        assert forall|i: int| 0 <= i < all.len() - 1 implies {
            let w = #[trigger] all[i];
            all[i + 1].start == w.start + w.len
        } by {
            assert(all[i + 1] == tail[i]);
            if i > 0 {
                assert(all[i] == tail[i - 1]);
            }
        }
    }
}

/// The windows of an input are numbered from zero; the window of number `i`
/// begins at `i` times the cap, and there are as many windows as the cap goes
/// into the length, rounded up.
pub proof fn lemma_window_places(total: usize, cap: usize)
    requires
        cap > 0,
    ensures
        windows_of(total, cap).len() == (total + cap - 1) / (cap as int),
        forall|i: int|
            0 <= i < windows_of(total, cap).len() ==> {
                let w = #[trigger] windows_of(total, cap)[i];
                &&& w.start == i * cap
                &&& w.len == window_size(total as nat, cap as nat, (i * cap) as nat)
            },
{
    lemma_places_from(total, cap, 0);
    assert forall|i: int| 0 <= i < windows_of(total, cap).len() implies {
        let w = #[trigger] windows_of(total, cap)[i];
        &&& w.start == i * cap
        &&& w.len == window_size(total as nat, cap as nat, (i * cap) as nat)
    } by {
        assert(0 + i * cap == i * cap);
    }
}

/// Of the windows from `seek` on each begins one cap after the one before it,
/// and there are as many as the cap goes into what is left, rounded up.
proof fn lemma_places_from(total: usize, cap: usize, seek: usize)
    requires
        cap > 0,
        seek <= total,
    ensures
        windows_from(total, cap, seek).len() == (total - seek + cap - 1) / (cap as int),
        forall|i: int|
            0 <= i < windows_from(total, cap, seek).len() ==> {
                let w = #[trigger] windows_from(total, cap, seek)[i];
                &&& w.start == seek + i * cap
                &&& w.len == window_size(total as nat, cap as nat, (seek + i * cap) as nat)
            },
    decreases total - seek,
{
    let width = cap as int;
    let left = total - seek;
    if seek >= total {
        assert((left + width - 1) / width == 0) by {
            lemma_fundamental_div_mod_converse(left + width - 1, width, 0, width - 1);
        }
    } else {
        let len = window_size(total as nat, cap as nat, seek as nat);
        let next = (seek + len) as usize;
        let tail = windows_from(total, cap, next);
        let all = windows_from(total, cap, seek);
        lemma_windows_unfold(total, cap, seek);
        lemma_places_from(total, cap, next);
        assert(all.len() == tail.len() + 1);
        if left <= width {
            assert(total - next == 0);
            assert((left + width - 1) / width == 1) by {
                lemma_fundamental_div_mod_converse(left + width - 1, width, 1, left - 1);
            }
        } else {
            let q = (left - 1) / width;
            let r = (left - 1) % width;
            assert(left - 1 == width * q + r && 0 <= r < width) by {
                vstd::arithmetic::div_mod::lemma_fundamental_div_mod(left - 1, width);
            }
            assert(left + width - 1 == (q + 1) * width + r) by (nonlinear_arith)
                requires
                    left - 1 == width * q + r,
            ;
            lemma_fundamental_div_mod_converse(left + width - 1, width, q + 1, r);
        }
        assert forall|i: int| 0 <= i < all.len() implies {
            let w = #[trigger] all[i];
            &&& w.start == seek + i * cap
            &&& w.len == window_size(total as nat, cap as nat, (seek + i * cap) as nat)
        } by {
            if i > 0 {
                assert(all[i] == tail[i - 1]);
                assert(next + (i - 1) * cap == seek + i * cap) by (nonlinear_arith)
                    requires
                        next == seek + cap,
                ;
            } else {
                assert(seek + 0 * cap == seek);
            }
        }
    }
}

/// The size of the last window of an input of `frames` frames: what is left
/// over when the frames are dealt out in windows of `cap`, or a whole `cap`
/// if nothing is left over.
pub open spec fn last_window_size(frames: nat, cap: nat) -> nat {
    if frames % cap == 0 {
        cap
    } else {
        frames % cap
    }
}

/// The sizes of the windows of an input add up to its length, and the size
/// of the last window is the remainder of the length by the cap, or the cap
/// where the remainder is zero.
pub proof fn lemma_window_sizes(total: usize, cap: usize)
    requires
        cap > 0,
    ensures
        frames_in(windows_of(total, cap)) == total,
        total > 0 ==> windows_of(total, cap).len() > 0 && windows_of(total, cap).last().len
            == last_window_size(total as nat, cap as nat),
        total == 0 ==> windows_of(total, cap).len() == 0,
{
    lemma_windows_cover(total, cap, 0);
    if total > 0 {
        lemma_last_window(total, cap, 0);
    }
}

/// The last of the windows from `seek` on has the size that the frames from
/// `seek` on leave for it.
proof fn lemma_last_window(total: usize, cap: usize, seek: usize)
    requires
        seek < total,
        cap > 0,
    ensures
        windows_from(total, cap, seek).len() > 0,
        windows_from(total, cap, seek).last().len == last_window_size(
            (total - seek) as nat,
            cap as nat,
        ),
    decreases total - seek,
{
    let left = (total - seek) as int;
    let width = cap as int;
    lemma_windows_unfold(total, cap, seek);
    if left <= width {
        assert(windows_from(total, cap, (seek + left) as usize) == Seq::<Window>::empty());
        assert(windows_from(total, cap, seek) == seq![Window { start: seek, len: left as usize }]);
        if left < width {
            lemma_small_mod(left as nat, width as nat);
        } else {
            lemma_fundamental_div_mod_converse(left, width, 1, 0);
        }
    } else {
        let next = (seek + cap) as usize;
        lemma_last_window(total, cap, next);
        let tail = windows_from(total, cap, next);
        let all = windows_from(total, cap, seek);
        assert(all.last() == tail.last());
        let q = (left - width) / width;
        let r = (left - width) % width;
        assert(left - width == width * q + r && 0 <= r < width) by {
            vstd::arithmetic::div_mod::lemma_fundamental_div_mod(left - width, width);
        }
        assert(left == (q + 1) * width + r) by (nonlinear_arith)
            requires
                left - width == width * q + r,
        ;
        lemma_fundamental_div_mod_converse(left, width, q + 1, r);
    }
}

} // verus!
