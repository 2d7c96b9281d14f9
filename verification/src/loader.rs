//! The load scheduler's queue discipline: an unbounded first-in first-out
//! urgent lane for interactively needed work, and a bounded last-in
//! first-out background lane for speculative prefetch, capped so that the
//! oldest entry is dropped — never the newest, which is the user's current
//! scroll position. A worker's next pick always drains urgent work first.

use std::collections::VecDeque;
use vstd::prelude::*;
use crate::format::ImageFormat;

verus! {

/// One unit of work, created by the consumer and consumed exactly once by
/// a worker.
pub enum LoadRequest {
    LoadImage(String, ImageFormat),
    LoadThumbnail(String, ImageFormat, u32),
}

/// Most background-lane entries outstanding at once.
pub const BACKGROUND_CAP: usize = 200;

/// The scheduler's queues. The urgent lane is kept oldest-first; the
/// background lane is kept newest-first, so its front is both the next
/// pick and the newest request, and its back is the oldest entry, the one
/// dropped under the cap.
pub struct Loader {
    urgent: VecDeque<LoadRequest>,
    background: VecDeque<LoadRequest>,
}

impl Loader {
    /// The urgent lane, next pick first.
    pub closed spec fn urgent_lane(self) -> Seq<LoadRequest> {
        self.urgent@
    }

    /// The background lane, newest (and next pick) first.
    pub closed spec fn background_lane(self) -> Seq<LoadRequest> {
        self.background@
    }

    /// The background lane never exceeds its cap.
    pub closed spec fn wf(self) -> bool {
        self.background@.len() <= BACKGROUND_CAP
    }

    /// Empty lanes.
    pub fn new() -> (r: Self)
        ensures
            r.wf(),
            r.urgent_lane() =~= Seq::<LoadRequest>::empty(),
            r.background_lane() =~= Seq::<LoadRequest>::empty(),
    {
        Loader { urgent: VecDeque::new(), background: VecDeque::new() }
    }

    /// Submit an urgent full-image request: appended to the urgent lane,
    /// which is drained in submission order.
    pub fn request_image(&mut self, path: String, format: ImageFormat)
        requires
            old(self).wf(),
        ensures
            final(self).wf(),
            final(self).urgent_lane() == old(self).urgent_lane().push(
                LoadRequest::LoadImage(path, format),
            ),
            final(self).background_lane() == old(self).background_lane(),
    {
        self.urgent.push_back(LoadRequest::LoadImage(path, format));
    }

    /// Submit a background thumbnail request: pushed at the front of the
    /// background lane, newest first. When the lane would exceed its cap,
    /// the single oldest entry is dropped; the newest is always retained.
    pub fn request_thumbnail(&mut self, path: String, format: ImageFormat, size: u32)
        requires
            old(self).wf(),
        ensures
            final(self).wf(),
            final(self).urgent_lane() == old(self).urgent_lane(),
            final(self).background_lane().len() <= BACKGROUND_CAP,
            final(self).background_lane()[0] == LoadRequest::LoadThumbnail(path, format, size),
            old(self).background_lane().len() < BACKGROUND_CAP ==> final(self).background_lane()
                == seq![LoadRequest::LoadThumbnail(path, format, size)] + old(
                self,
            ).background_lane(),
            old(self).background_lane().len() == BACKGROUND_CAP ==> final(self).background_lane()
                == (seq![LoadRequest::LoadThumbnail(path, format, size)] + old(
                self,
            ).background_lane()).drop_last(),
    {
        let ghost before = self.background@;
        self.background.push_front(LoadRequest::LoadThumbnail(path, format, size));
        if self.background.len() > BACKGROUND_CAP {
            let _oldest = self.background.pop_back();
            proof {
                assert(self.background@ =~= (seq![
                    LoadRequest::LoadThumbnail(path, format, size),
                ] + before).drop_last());
            }
        } else {
            proof {
                assert(self.background@ =~= seq![
                    LoadRequest::LoadThumbnail(path, format, size),
                ] + before);
            }
        }
    }

    /// Hand out the next unit of work: strictly the urgent lane first, in
    /// submission order; only when it is empty, the newest background
    /// entry; nothing when both lanes are empty.
    pub fn next_request(&mut self) -> (r: Option<LoadRequest>)
        requires
            old(self).wf(),
        ensures
            final(self).wf(),
            old(self).urgent_lane().len() > 0 ==> {
                &&& r == Some(old(self).urgent_lane()[0])
                &&& final(self).urgent_lane() == old(self).urgent_lane().drop_first()
                &&& final(self).background_lane() == old(self).background_lane()
            },
            old(self).urgent_lane().len() == 0 && old(self).background_lane().len() > 0 ==> {
                &&& r == Some(old(self).background_lane()[0])
                &&& final(self).urgent_lane() == old(self).urgent_lane()
                &&& final(self).background_lane() == old(self).background_lane().drop_first()
            },
            old(self).urgent_lane().len() == 0 && old(self).background_lane().len() == 0 ==> {
                &&& r is None
                &&& final(self).urgent_lane() == old(self).urgent_lane()
                &&& final(self).background_lane() == old(self).background_lane()
            },
    {
        match self.urgent.pop_front() {
            Some(req) => {
                proof {
                    assert(self.urgent@ =~= old(self).urgent@.drop_first());
                }
                Some(req)
            },
            None => {
                let r = self.background.pop_front();
                proof {
                    if old(self).background@.len() > 0 {
                        assert(self.background@ =~= old(self).background@.drop_first());
                    }
                }
                r
            },
        }
    }

    /// How many requests are waiting in the urgent lane.
    pub fn urgent_len(&self) -> (r: usize)
        ensures
            r == self.urgent_lane().len(),
    {
        self.urgent.len()
    }

    /// How many requests are waiting in the background lane.
    pub fn background_len(&self) -> (r: usize)
        ensures
            r == self.background_lane().len(),
    {
        self.background.len()
    }
}

/// The worker pool size for a machine with the given logical parallelism:
/// at most half the cores, to leave headroom for decoding-internal
/// parallelism and the interactive thread, and never less than one.
pub fn worker_count(logical_cores: usize) -> (r: usize)
    ensures
        r == if logical_cores / 2 > 1 {
            logical_cores / 2
        } else {
            1
        },
{
    let half = logical_cores / 2;
    if half > 1 {
        half
    } else {
        1
    }
}

} // verus!
