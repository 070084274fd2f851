use vstd::prelude::*;

verus! {

/// A discrete navigation request read from the input of one frame.
#[derive(Clone, Copy, Debug, PartialEq, Eq, Structural)]
pub enum NavEvent {
    Stay,
    Next,
    Previous,
}

/// Which way the reading position moved, for the slide transition.
#[derive(Clone, Copy, Debug, PartialEq, Eq, Structural)]
pub enum Motion {
    Still,
    Forward,
    Backward,
}

/// The outcome of one frame of navigation.
#[derive(Clone, Copy, Debug, PartialEq, Eq, Structural)]
pub struct Navigation {
    /// The chunk to show.
    pub index: usize,
    /// The raw scroll offset goes back to the top.
    pub reset_scroll: bool,
    pub motion: Motion,
}

/// The index an event asks for, before clamping.
pub open spec fn stepped(index: usize, event: NavEvent) -> int {
    match event {
        NavEvent::Stay => index as int,
        NavEvent::Next => index + 1,
        NavEvent::Previous => if index > 0 {
            index - 1
        } else {
            0
        },
    }
}

/// One frame of navigation from chunk `index`, with `count` chunks reported
/// by the provider (`done` once every page is segmented). Next moves one
/// chunk on and Previous one back, never below 0; the index is then kept in
/// `[0, count)`. The scroll is reset on Previous, and on Next unless the
/// provider is still processing and the new index is the placeholder slot
/// `count - 1`. With no chunks at all nothing moves.
pub open spec fn navigated(index: usize, event: NavEvent, count: usize, done: bool) -> Navigation {
    if count == 0 {
        Navigation { index, reset_scroll: false, motion: Motion::Still }
    } else {
        let s = stepped(index, event);
        let next = if s >= count {
            (count - 1) as usize
        } else {
            s as usize
        };
        Navigation {
            index: next,
            reset_scroll: match event {
                NavEvent::Stay => false,
                NavEvent::Next => !(!done && s == count - 1),
                NavEvent::Previous => true,
            },
            motion: if next > index {
                Motion::Forward
            } else if next < index {
                Motion::Backward
            } else {
                Motion::Still
            },
        }
    }
}

/// Applies one frame of navigation; see `navigated`.
pub fn navigate(index: usize, event: NavEvent, count: usize, done: bool) -> (r: Navigation)
    ensures
        r == navigated(index, event, count, done),
{
    if count == 0 {
        return Navigation { index, reset_scroll: false, motion: Motion::Still };
    }
    let mut next = index;
    let mut reset_scroll = false;
    match event {
        NavEvent::Stay => {},
        NavEvent::Next => {
            if index < usize::MAX {
                next = index + 1;
            } else {
                next = index;
            }
            reset_scroll = !(!done && count >= 2 && index == count - 2);
        },
        NavEvent::Previous => {
            if next > 0 {
                next = next - 1;
            }
            reset_scroll = true;
        },
    }
    if next >= count {
        next = count - 1;
    }
    let motion = if next > index {
        Motion::Forward
    } else if next < index {
        Motion::Backward
    } else {
        Motion::Still
    };
    Navigation { index: next, reset_scroll, motion }
}

/// Where reading resumes in a reopened document: the position it was left
/// at, pulled back to the last chunk when the document now reports fewer.
pub fn resume_index(last_seen: usize, count: usize) -> (r: usize)
    ensures
        count == 0 ==> r == 0,
        count > 0 ==> r == if last_seen < count {
            last_seen
        } else {
            (count - 1) as usize
        },
{
    if count == 0 {
        0
    } else if last_seen < count {
        last_seen
    } else {
        count - 1
    }
}

/// The reading position after a run of frames from `start`, each frame an
/// event with the provider's chunk count and processing state.
pub open spec fn replay(start: usize, frames: Seq<(NavEvent, usize, bool)>) -> usize
    decreases frames.len(),
{
    if frames.len() == 0 {
        start
    } else {
        let f = frames.last();
        navigated(replay(start, frames.drop_last()), f.0, f.1, f.2).index
    }
}

/// Whatever the events, at the end of every frame in which the provider
/// reports chunks, the reading position lies in `[0, count)`.
pub proof fn lemma_index_stays_in_range(start: usize, frames: Seq<(NavEvent, usize, bool)>)
    ensures
        forall|k: int|
            0 <= k < frames.len() && #[trigger] frames[k].1 > 0 ==> replay(start, frames.take(k + 1))
                < frames[k].1,
{
    assert forall|k: int| 0 <= k < frames.len() && #[trigger] frames[k].1 > 0 implies replay(
        start,
        frames.take(k + 1),
    ) < frames[k].1 by {
        let t = frames.take(k + 1);
        assert(t.last() == frames[k]);
    }
}

} // verus!
