//! Laws of the packer over whole runs: what holds of every sequence of
//! insertions into one bin, whatever the sizes asked for.

use vstd::prelude::*;
use crate::binpack::Rect;
use crate::placement::{lies_under, overlaps};
use crate::skyline::Skyline;

verus! {

/// The size asked for in one insertion.
pub struct Request {
    pub width: int,
    pub height: int,
}

/// A run of insertions into one bin, from the empty bin on: the requests in
/// order, the result of each, and the skyline before the first request and
/// after each one.
pub struct History {
    pub bin_width: int,
    pub bin_height: int,
    pub requests: Seq<Request>,
    pub results: Seq<Option<Rect>>,
    pub states: Seq<Skyline>,
}

impl History {
    /// Request `k` asks for a positive size, and its result and the skyline
    /// after it are those of one insertion into the skyline before it.
    pub open spec fn step(self, k: int) -> bool {
        &&& self.requests[k].width > 0
        &&& self.requests[k].height > 0
        &&& self.states[k].inserts(
            self.requests[k].width,
            self.requests[k].height,
            self.results[k],
            self.states[k + 1],
        )
    }

    /// The run starts from the empty bin and every step of it is an
    /// insertion.
    pub open spec fn valid(self) -> bool {
        &&& 0 < self.bin_width <= i32::MAX
        &&& 0 < self.bin_height <= i32::MAX
        &&& self.results.len() == self.requests.len()
        &&& self.states.len() == self.requests.len() + 1
        &&& self.states[0] == Skyline::empty_bin(self.bin_width, self.bin_height)
        &&& forall|k: int| 0 <= k < self.requests.len() ==> #[trigger] self.step(k)
    }

    /// The skyline is well formed after any number of insertions: sorted by
    /// `x`, contiguous, covering exactly the bin's width, of positive widths,
    /// and with no two neighbours of equal height. The bin keeps its size.
    pub proof fn lemma_always_wf(self, k: int)
        requires
            self.valid(),
            0 <= k <= self.requests.len(),
        ensures
            self.states[k].wf(),
            self.states[k].sorted(),
            self.states[k].contiguous(),
            self.states[k].covers_bin(),
            self.states[k].positive_widths(),
            self.states[k].merged(),
            self.states[k].width == self.bin_width,
            self.states[k].height == self.bin_height,
        decreases k,
    {
        if k == 0 {
            let s = Skyline::empty_bin(self.bin_width, self.bin_height);
            assert(s.nodes.len() == 1);
            assert(s.nodes[0].width == self.bin_width);
        } else {
            self.lemma_always_wf(k - 1);
            assert(self.step(k - 1));
        }
    }

    /// The skyline has at most one segment more than insertions were made.
    pub proof fn lemma_segment_count(self, k: int)
        requires
            self.valid(),
            0 <= k <= self.requests.len(),
        ensures
            0 < self.states[k].nodes.len() <= k + 1,
        decreases k,
    {
        self.lemma_always_wf(k);
        if k > 0 {
            self.lemma_segment_count(k - 1);
            assert(self.step(k - 1));
        }
    }

    /// Every rectangle that was placed lies inside the bin.
    pub proof fn lemma_in_bounds(self, k: int)
        requires
            self.valid(),
            0 <= k < self.requests.len(),
        ensures
            self.results[k] matches Some(r) ==> {
                &&& r.width == self.requests[k].width
                &&& r.height == self.requests[k].height
                &&& 0 <= r.x
                &&& 0 <= r.y
                &&& r.x + r.width <= self.bin_width
                &&& r.y + r.height <= self.bin_height
            },
    {
        self.lemma_always_wf(k);
        assert(self.step(k));
        if let Some(r) = self.results[k] {
            let s = self.states[k];
            let q = self.requests[k];
            let i = choose|i: int| s.places_at(q.width, q.height, i, r);
            s.lemma_fit_in_bounds(i, q.width, q.height, r.y as int);
        }
    }

    /// A request wider or higher than the bin fails, whatever was placed
    /// before it.
    pub proof fn lemma_too_large_fails(self, k: int)
        requires
            self.valid(),
            0 <= k < self.requests.len(),
            self.requests[k].width > self.bin_width || self.requests[k].height > self.bin_height,
        ensures
            self.results[k] is None,
    {
        self.lemma_in_bounds(k);
    }

    /// A failed request leaves the skyline as it was.
    pub proof fn lemma_failure_changes_nothing(self, k: int)
        requires
            self.valid(),
            0 <= k < self.requests.len(),
            self.results[k] is None,
        ensures
            self.states[k + 1] == self.states[k],
    {
        assert(self.step(k));
    }

    /// From one step to the next the skyline is nowhere lower.
    proof fn lemma_rising(self, k: int, m: int, px: int)
        requires
            self.valid(),
            0 <= k <= m <= self.requests.len(),
            0 <= px < self.bin_width,
        ensures
            self.states[k].level_at(px) <= self.states[m].level_at(px),
        decreases m - k,
    {
        if k < m {
            self.lemma_rising(k, m - 1, px);
            self.lemma_always_wf(m - 1);
            assert(self.step(m - 1));
            if let Some(r) = self.results[m - 1] {
                let q = self.requests[m - 1];
                self.states[m - 1].lemma_raised_not_lower(q.width, q.height, r, self.states[m]);
            }
        }
    }

    /// A rectangle that was placed lies under every later skyline.
    pub proof fn lemma_stays_under(self, k: int, m: int)
        requires
            self.valid(),
            0 <= k < m <= self.requests.len(),
            self.results[k] is Some,
        ensures
            lies_under(self.results[k]->0, self.states[m]),
    {
        let r = self.results[k]->0;
        self.lemma_in_bounds(k);
        self.lemma_always_wf(k);
        assert(self.step(k));
        assert forall|px: int| r.x <= px < r.x + r.width implies r.y + r.height
            <= #[trigger] self.states[m].level_at(px) by {
            assert(self.states[k + 1].level_at(px) == r.y + r.height);
            self.lemma_rising(k + 1, m, px);
        }
    }

    /// No two rectangles that were placed overlap.
    pub proof fn lemma_no_overlap(self, i: int, j: int)
        requires
            self.valid(),
            0 <= i < j < self.requests.len(),
            self.results[i] is Some,
            self.results[j] is Some,
        ensures
            !overlaps(self.results[i]->0, self.results[j]->0),
    {
        let a = self.results[i]->0;
        let b = self.results[j]->0;
        let s = self.states[j];
        let q = self.requests[j];
        self.lemma_in_bounds(i);
        self.lemma_in_bounds(j);
        self.lemma_always_wf(j);
        self.lemma_stays_under(i, j);
        assert(self.step(i));
        assert(self.step(j));
        s.lemma_placed_clear(q.width, q.height, b, a);
    }

    /// Two runs in bins of the same size with the same requests give the same
    /// results and pass through the same skylines.
    pub proof fn lemma_deterministic(self, other: History)
        requires
            self.valid(),
            other.valid(),
            self.bin_width == other.bin_width,
            self.bin_height == other.bin_height,
            self.requests == other.requests,
        ensures
            self.results == other.results,
            self.states == other.states,
    {
        self.lemma_same_upto(other, self.requests.len() as int);
        assert forall|k: int| 0 <= k < self.results.len() implies self.results[k] == other.results[k] by {
            self.lemma_same_upto(other, k + 1);
        }
        assert forall|k: int| 0 <= k < self.states.len() implies self.states[k] == other.states[k] by {
            self.lemma_same_upto(other, k);
        }
        assert(self.results =~= other.results);
        assert(self.states =~= other.states);
    }

    proof fn lemma_same_upto(self, other: History, k: int)
        requires
            self.valid(),
            other.valid(),
            self.bin_width == other.bin_width,
            self.bin_height == other.bin_height,
            self.requests == other.requests,
            0 <= k <= self.requests.len(),
        ensures
            self.states[k] == other.states[k],
            k > 0 ==> self.results[k - 1] == other.results[k - 1],
        decreases k,
    {
        if k > 0 {
            self.lemma_same_upto(other, k - 1);
            assert(self.step(k - 1));
            assert(other.step(k - 1));
            let q = self.requests[k - 1];
            self.states[k - 1].lemma_insert_unique(
                q.width,
                q.height,
                self.results[k - 1],
                self.states[k],
                other.results[k - 1],
                other.states[k],
            );
        }
    }

    /// Two placed rectangles that stand side by side with their far edges on
    /// one row, both still on the skyline, are topped by one segment that
    /// spans them both.
    pub proof fn lemma_neighbours_merged(self, i: int, j: int, m: int)
        requires
            self.valid(),
            0 <= i < self.requests.len(),
            0 <= j < self.requests.len(),
            0 <= m <= self.requests.len(),
            self.results[i] is Some,
            self.results[j] is Some,
            ({
                let a = self.results[i]->0;
                let b = self.results[j]->0;
                let s = self.states[m];
                &&& a.x + a.width == b.x
                &&& a.y + a.height == b.y + b.height
                &&& forall|px: int| a.x <= px < a.x + a.width ==> #[trigger] s.level_at(px) == a.y + a.height
                &&& forall|px: int| b.x <= px < b.x + b.width ==> #[trigger] s.level_at(px) == b.y + b.height
            }),
        ensures
            ({
                let a = self.results[i]->0;
                let b = self.results[j]->0;
                let s = self.states[m];
                exists|n: int|
                    {
                        &&& 0 <= n < s.nodes.len()
                        &&& (#[trigger] s.nodes[n]).x <= a.x
                        &&& b.x + b.width <= s.nodes[n].end()
                        &&& s.nodes[n].y == a.y + a.height
                    }
            }),
    {
        let a = self.results[i]->0;
        let b = self.results[j]->0;
        let s = self.states[m];
        self.lemma_in_bounds(i);
        self.lemma_in_bounds(j);
        self.lemma_always_wf(m);
        assert(self.step(i));
        assert(self.step(j));
        let last = b.x + b.width - 1;
        assert(s.level_at(a.x as int) == a.y + a.height);
        assert forall|px: int| a.x <= px <= last implies #[trigger] s.level_at(px) == s.level_at(a.x as int) by {
            if px < b.x {
                assert(s.level_at(px) == a.y + a.height);
            } else {
                assert(s.level_at(px) == b.y + b.height);
            }
        }
        s.lemma_level_run(a.x as int, last);
        let n = s.lemma_covered(a.x as int);
        assert(0 <= n < s.nodes.len() && s.nodes[n].x <= a.x && b.x + b.width <= s.nodes[n].end() && s.nodes[n].y
            == a.y + a.height);
    }
}

} // verus!
