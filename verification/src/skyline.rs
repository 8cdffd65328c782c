//! The mathematical model of the packer's state: a skyline over the columns
//! of the bin, and the facts that follow from its segments tiling the bin.

use vstd::prelude::*;
use crate::binpack::SkylineNode;

verus! {

/// The state of one bin: its size and the segments of its skyline, left to
/// right.
pub struct Skyline {
    pub width: int,
    pub height: int,
    pub nodes: Seq<SkylineNode>,
}

impl SkylineNode {
    /// The column just right of the segment.
    pub open spec fn end(self) -> int {
        self.x + self.width
    }

    /// Whether column `px` lies in the segment's span.
    pub open spec fn holds(self, px: int) -> bool {
        self.x <= px < self.x + self.width
    }
}

impl Skyline {
    /// The skyline of an empty bin: one segment of height 0 across the bin.
    pub open spec fn empty_bin(width: int, height: int) -> Skyline {
        Skyline {
            width,
            height,
            nodes: seq![(SkylineNode { x: 0, y: 0, width: width as i32 })],
        }
    }

    /// Every segment is at least one column wide.
    pub open spec fn positive_widths(self) -> bool {
        forall|i: int| 0 <= i < self.nodes.len() ==> (#[trigger] self.nodes[i]).width > 0
    }

    /// Each segment begins where the one before it ends.
    pub open spec fn contiguous(self) -> bool {
        forall|i: int, j: int|
            #![trigger self.nodes[i], self.nodes[j]]
            0 <= i && j == i + 1 && j < self.nodes.len() ==> self.nodes[i].end() == self.nodes[j].x
    }

    /// The spans of the segments, taken together, are exactly the columns
    /// `0 .. width`.
    pub open spec fn covers_bin(self) -> bool {
        &&& self.nodes.len() > 0
        &&& self.nodes[0].x == 0
        &&& self.nodes.last().end() == self.width
    }

    /// Segments come in ascending order of `x`.
    pub open spec fn sorted(self) -> bool {
        forall|i: int, j: int|
            #![trigger self.nodes[i], self.nodes[j]]
            0 <= i < j < self.nodes.len() ==> self.nodes[i].x < self.nodes[j].x
    }

    /// No two neighbouring segments have the same height.
    pub open spec fn merged(self) -> bool {
        forall|i: int, j: int|
            #![trigger self.nodes[i], self.nodes[j]]
            0 <= i && j == i + 1 && j < self.nodes.len() ==> self.nodes[i].y != self.nodes[j].y
    }

    /// No segment lies outside the rows `0 ..= height`.
    pub open spec fn within_height(self) -> bool {
        forall|i: int| 0 <= i < self.nodes.len() ==> 0 <= (#[trigger] self.nodes[i]).y <= self.height
    }

    /// The segments tile the bin: positive widths, contiguous, covering
    /// `0 .. width`, and no higher than the bin. Neighbours of equal height
    /// are still allowed.
    pub open spec fn tiled(self) -> bool {
        &&& 0 < self.width <= i32::MAX
        &&& 0 < self.height <= i32::MAX
        &&& self.positive_widths()
        &&& self.contiguous()
        &&& self.covers_bin()
        &&& self.within_height()
    }

    /// The invariant of a packer's skyline.
    pub open spec fn wf(self) -> bool {
        &&& self.tiled()
        &&& self.sorted()
        &&& self.merged()
    }

    /// The index of the segment that holds column `px`.
    pub open spec fn node_of(self, px: int) -> int {
        choose|i: int| 0 <= i < self.nodes.len() && self.nodes[i].holds(px)
    }

    /// The height of the skyline over column `px`: the first free row there.
    pub open spec fn level_at(self, px: int) -> int {
        self.nodes[self.node_of(px)].y as int
    }

    /// `other` is a bin of the same size with the same level over every
    /// column.
    pub open spec fn same_levels(self, other: Skyline) -> bool {
        &&& other.width == self.width
        &&& other.height == self.height
        &&& forall|px: int|
            #![trigger self.level_at(px)]
            #![trigger other.level_at(px)]
            0 <= px < self.width ==> self.level_at(px) == other.level_at(px)
    }

    /// In a tiling, a segment ends no later than any segment after it begins.
    pub proof fn lemma_ordered(self, i: int, j: int)
        requires
            self.tiled(),
            0 <= i < j < self.nodes.len(),
        ensures
            self.nodes[i].end() <= self.nodes[j].x,
            self.nodes[i].x < self.nodes[j].x,
        decreases j - i,
    {
        assert(self.nodes[j - 1].end() == self.nodes[j].x);
        assert(self.nodes[i].width > 0);
        if j > i + 1 {
            self.lemma_ordered(i, j - 1);
            assert(self.nodes[j - 1].width > 0);
        }
    }

    /// A tiling is sorted.
    pub proof fn lemma_tiled_sorted(self)
        requires
            self.tiled(),
        ensures
            self.sorted(),
    {
        assert forall|i: int, j: int| 0 <= i < j < self.nodes.len() implies (#[trigger] self.nodes[i]).x < (#[trigger] self.nodes[j]).x by {
            self.lemma_ordered(i, j);
        }
    }

    /// No segment of a tiling reaches beyond the bin.
    pub proof fn lemma_inside(self, i: int)
        requires
            self.tiled(),
            0 <= i < self.nodes.len(),
        ensures
            0 <= self.nodes[i].x,
            self.nodes[i].end() <= self.width,
    {
        if 0 < i {
            self.lemma_ordered(0, i);
        }
        if i < self.nodes.len() - 1 {
            self.lemma_ordered(i, self.nodes.len() - 1);
            assert(self.nodes.last().width > 0);
        }
    }

    proof fn lemma_covered_from(self, k: int, px: int) -> (i: int)
        requires
            self.tiled(),
            0 <= k < self.nodes.len(),
            self.nodes[k].x <= px < self.width,
        ensures
            k <= i < self.nodes.len(),
            self.nodes[i].holds(px),
        decreases self.nodes.len() - k,
    {
        if px < self.nodes[k].end() {
            k
        } else {
            assert(self.nodes[k].end() == self.nodes[k + 1].x);
            self.lemma_covered_from(k + 1, px)
        }
    }

    /// Every column of the bin lies in some segment of a tiling.
    pub proof fn lemma_covered(self, px: int) -> (i: int)
        requires
            self.tiled(),
            0 <= px < self.width,
        ensures
            0 <= i < self.nodes.len(),
            self.nodes[i].holds(px),
            self.node_of(px) == i,
            self.level_at(px) == self.nodes[i].y,
    {
        let i = self.lemma_covered_from(0, px);
        self.lemma_level(i, px);
        i
    }

    /// In a tiling, the level over a column is the height of the one segment
    /// that holds it.
    pub proof fn lemma_level(self, i: int, px: int)
        requires
            self.tiled(),
            0 <= i < self.nodes.len(),
            self.nodes[i].holds(px),
        ensures
            self.node_of(px) == i,
            self.level_at(px) == self.nodes[i].y,
    {
        let k = self.node_of(px);
        if k < i {
            self.lemma_ordered(k, i);
        } else if i < k {
            self.lemma_ordered(i, k);
        }
    }

    proof fn lemma_same_prefix(self, other: Skyline, i: int)
        requires
            self.wf(),
            other.wf(),
            self.same_levels(other),
            0 <= i < self.nodes.len(),
        ensures
            i < other.nodes.len(),
            self.nodes[i] == other.nodes[i],
        decreases i,
    {
        if i > 0 {
            self.lemma_same_prefix(other, i - 1);
            assert(self.nodes[i - 1].end() == self.nodes[i].x);
            assert(self.nodes[i].width > 0);
            self.lemma_inside(i);
            if i >= other.nodes.len() {
                assert(other.nodes[i - 1] == other.nodes.last());
            }
            assert(other.nodes[i - 1].end() == other.nodes[i].x);
        }
        let a = self.nodes[i];
        let b = other.nodes[i];
        self.lemma_inside(i);
        other.lemma_inside(i);
        assert(a.width > 0 && b.width > 0);
        self.lemma_level(i, a.x as int);
        other.lemma_level(i, a.x as int);
        if a.end() < b.end() {
            assert(self.nodes[i].end() == self.nodes[i + 1].x);
            assert(self.nodes[i + 1].width > 0);
            assert(self.nodes[i].y != self.nodes[i + 1].y);
            self.lemma_level(i + 1, a.end());
            other.lemma_level(i, a.end());
        } else if b.end() < a.end() {
            assert(other.nodes[i].end() == other.nodes[i + 1].x);
            assert(other.nodes[i + 1].width > 0);
            assert(other.nodes[i].y != other.nodes[i + 1].y);
            other.lemma_level(i + 1, b.end());
            self.lemma_level(i, b.end());
        }
    }

    /// The levels fix the segments: two well-formed skylines with the same
    /// level over every column are the same skyline.
    pub proof fn lemma_levels_fix_nodes(self, other: Skyline)
        requires
            self.wf(),
            other.wf(),
            self.same_levels(other),
        ensures
            self == other,
    {
        let n = self.nodes.len() as int;
        self.lemma_same_prefix(other, n - 1);
        if other.nodes.len() > n {
            assert(other.nodes[n - 1].end() == other.nodes[n].x);
            assert(other.nodes[n].width > 0);
            other.lemma_inside(n);
        }
        assert forall|i: int| 0 <= i < n implies self.nodes[i] == other.nodes[i] by {
            self.lemma_same_prefix(other, i);
        }
        assert(self.nodes =~= other.nodes);
    }

    /// Columns of equal level lie in one segment: where the level of a
    /// well-formed skyline is the same over all of the columns `a ..= b`, a
    /// single segment holds them all.
    pub proof fn lemma_level_run(self, a: int, b: int)
        requires
            self.wf(),
            0 <= a <= b < self.width,
            forall|px: int| a <= px <= b ==> #[trigger] self.level_at(px) == self.level_at(a),
        ensures
            self.node_of(a) == self.node_of(b),
            self.nodes[self.node_of(a)].holds(a),
            self.nodes[self.node_of(a)].holds(b),
        decreases b - a,
    {
        let i = self.lemma_covered(a);
        if a < b {
            self.lemma_level_run(a, b - 1);
            if b >= self.nodes[i].end() {
                self.lemma_inside(i);
                assert(self.nodes[i].end() == self.nodes[i + 1].x);
                assert(self.nodes[i + 1].width > 0);
                assert(self.nodes[i].y != self.nodes[i + 1].y);
                self.lemma_level(i + 1, b);
                assert(self.level_at(b) == self.level_at(a));
            }
            self.lemma_level(i, b);
        }
    }
}

} // verus!
