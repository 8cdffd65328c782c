//! What it means to place a rectangle on a skyline: where it may rest, which
//! resting place is chosen, and what the skyline is afterwards.

use vstd::prelude::*;
use crate::binpack::{Rect, SkylineNode};
use crate::skyline::Skyline;

verus! {

/// Two rectangles share at least one cell.
pub open spec fn overlaps(a: Rect, b: Rect) -> bool {
    &&& a.x < b.x + b.width
    &&& b.x < a.x + a.width
    &&& a.y < b.y + b.height
    &&& b.y < a.y + a.height
}

/// The rectangle `r` lies wholly under the skyline `s`: over each of its
/// columns the level is at or beyond its far edge.
pub open spec fn lies_under(r: Rect, s: Skyline) -> bool {
    forall|px: int| r.x <= px < r.x + r.width ==> r.y + r.height <= #[trigger] s.level_at(px)
}

impl Skyline {
    /// `y` is the highest level of the skyline over the columns
    /// `x .. x + w`: the row on which a rectangle over those columns comes to
    /// rest.
    pub open spec fn rests_at(self, x: int, w: int, y: int) -> bool {
        &&& forall|px: int| x <= px < x + w ==> #[trigger] self.level_at(px) <= y
        &&& exists|px: int| x <= px < x + w && #[trigger] self.level_at(px) == y
    }

    /// A rectangle of `w` by `h` fits with its left edge at the start of
    /// segment `i`, resting on row `y`: it stays within the bin's width and,
    /// resting there, within its height.
    pub open spec fn fits_at(self, i: int, w: int, h: int, y: int) -> bool {
        &&& 0 <= i < self.nodes.len()
        &&& self.nodes[i].x + w <= self.width
        &&& self.rests_at(self.nodes[i].x as int, w, y)
        &&& y + h <= self.height
    }

    /// Segment `i` with resting row `yi` is chosen before segment `j` with
    /// resting row `yj`: the lower row wins, then the narrower segment, then
    /// the one further left.
    pub open spec fn prefers(self, i: int, yi: int, j: int, yj: int) -> bool {
        ||| yi < yj
        ||| yi == yj && self.nodes[i].width < self.nodes[j].width
        ||| yi == yj && self.nodes[i].width == self.nodes[j].width && i <= j
    }

    /// Segment `i` with resting row `y` is the choice for a rectangle of `w`
    /// by `h`: it fits there, and it is preferred to every other segment where
    /// it fits.
    pub open spec fn chooses(self, w: int, h: int, i: int, y: int) -> bool {
        &&& self.fits_at(i, w, h, y)
        &&& forall|j: int, yj: int| #[trigger] self.fits_at(j, w, h, yj) ==> self.prefers(i, y, j, yj)
    }

    /// `r` occupies, at segment `i`, the place chosen for a rectangle of `w`
    /// by `h`.
    pub open spec fn places_at(self, w: int, h: int, i: int, r: Rect) -> bool {
        &&& self.chooses(w, h, i, r.y as int)
        &&& r.x == self.nodes[i].x
        &&& r.width == w
        &&& r.height == h
    }

    /// `r` is where a rectangle of `w` by `h` is placed.
    pub open spec fn places(self, w: int, h: int, r: Rect) -> bool {
        exists|i: int| self.places_at(w, h, i, r)
    }

    /// A rectangle of `w` by `h` fits nowhere.
    pub open spec fn full_for(self, w: int, h: int) -> bool {
        forall|j: int, yj: int| !#[trigger] self.fits_at(j, w, h, yj)
    }

    /// `after` is a bin of the same size whose level over the columns of `r`
    /// is the far edge of `r`, and elsewhere as in this skyline.
    pub open spec fn lifted_by(self, r: Rect, after: Skyline) -> bool {
        &&& after.width == self.width
        &&& after.height == self.height
        &&& forall|px: int|
            0 <= px < self.width ==> #[trigger] after.level_at(px) == (if r.x <= px < r.x + r.width {
                r.y + r.height
            } else {
                self.level_at(px)
            })
    }

    /// `after` is this skyline raised by the rectangle `r`: its levels are
    /// lifted by `r`, and its segments are again in merged form, at most one
    /// more of them than before.
    pub open spec fn raised_by(self, r: Rect, after: Skyline) -> bool {
        &&& self.lifted_by(r, after)
        &&& after.wf()
        &&& after.nodes.len() <= self.nodes.len() + 1
    }

    /// One insertion of a `w` by `h` rectangle takes this skyline to `after`
    /// with result `res`: either the rectangle is placed and the skyline
    /// raised by it, or it fits nowhere and nothing changes.
    pub open spec fn inserts(self, w: int, h: int, res: Option<Rect>, after: Skyline) -> bool {
        match res {
            Some(r) => self.places(w, h, r) && self.raised_by(r, after),
            None => self.full_for(w, h) && after == self,
        }
    }

    /// The resting row over a span of columns is unique.
    pub proof fn lemma_rest_unique(self, x: int, w: int, y1: int, y2: int)
        requires
            self.rests_at(x, w, y1),
            self.rests_at(x, w, y2),
        ensures
            y1 == y2,
    {
        let c1 = choose|px: int| x <= px < x + w && #[trigger] self.level_at(px) == y1;
        let c2 = choose|px: int| x <= px < x + w && #[trigger] self.level_at(px) == y2;
        assert(self.level_at(c1) <= y2);
        assert(self.level_at(c2) <= y1);
    }

    /// A rectangle that fits rests on or above every level under it, inside
    /// the bin.
    pub proof fn lemma_fit_in_bounds(self, i: int, w: int, h: int, y: int)
        requires
            self.tiled(),
            w > 0,
            self.fits_at(i, w, h, y),
        ensures
            0 <= self.nodes[i].x,
            self.nodes[i].x + w <= self.width,
            0 <= y,
            y + h <= self.height,
    {
        self.lemma_inside(i);
        let p = choose|px: int| self.nodes[i].x <= px < self.nodes[i].x + w && #[trigger] self.level_at(px) == y;
        let k = self.lemma_covered(p);
    }

    /// The place of a rectangle is unique: two rectangles that both satisfy
    /// `places` for the same request are equal.
    pub proof fn lemma_place_unique(self, w: int, h: int, r1: Rect, r2: Rect)
        requires
            self.places(w, h, r1),
            self.places(w, h, r2),
        ensures
            r1 == r2,
    {
        let i1 = choose|i: int| self.places_at(w, h, i, r1);
        let i2 = choose|i: int| self.places_at(w, h, i, r2);
        assert(self.prefers(i1, r1.y as int, i2, r2.y as int));
        assert(self.prefers(i2, r2.y as int, i1, r1.y as int));
    }

    /// The segment that tops the rectangle `r`.
    pub open spec fn cap(r: Rect) -> SkylineNode {
        SkylineNode { x: r.x, y: (r.y + r.height) as i32, width: r.width }
    }

    /// What is left of segment `n` to the right of column `from`.
    pub open spec fn cut(n: SkylineNode, from: int) -> SkylineNode {
        SkylineNode { x: from as i32, y: n.y, width: (n.end() - from) as i32 }
    }

    /// The segments after `r` was laid over segments `index .. k` of this
    /// skyline and, where `k` is a segment, over the left part of it.
    pub open spec fn overlaid(self, r: Rect, index: int, k: int) -> Seq<SkylineNode> {
        let head = self.nodes.subrange(0, index).push(Self::cap(r));
        if k < self.nodes.len() {
            head + seq![Self::cut(self.nodes[k], r.x + r.width)] + self.nodes.subrange(
                k + 1,
                self.nodes.len() as int,
            )
        } else {
            head
        }
    }

    /// Laying a rectangle over the segments it covers gives a tiling whose
    /// levels are those of the skyline lifted by the rectangle.
    pub proof fn lemma_overlaid(self, r: Rect, index: int, k: int, after: Skyline)
        requires
            self.tiled(),
            r.width > 0,
            r.height > 0,
            0 <= index < self.nodes.len(),
            r.x == self.nodes[index].x,
            r.x + r.width <= self.width,
            0 <= r.y,
            r.y + r.height <= self.height,
            index <= k <= self.nodes.len(),
            k < self.nodes.len() ==> self.nodes[k].x <= r.x + r.width < self.nodes[k].end(),
            k == self.nodes.len() ==> r.x + r.width == self.width,
            after.width == self.width,
            after.height == self.height,
            after.nodes == self.overlaid(r, index, k),
        ensures
            after.tiled(),
            self.lifted_by(r, after),
    {
        let n = self.nodes.len() as int;
        let right = r.x + r.width;
        self.lemma_inside(index);
        if k < n {
            self.lemma_inside(k);
            assert(after.nodes.len() == index + 1 + (n - k));
            assert(after.nodes[index + 1] == Self::cut(self.nodes[k], right));
            assert forall|m: int| index + 1 < m < after.nodes.len() implies #[trigger] after.nodes[m]
                == self.nodes[m - index - 1 + k] by {}
        } else {
            assert(after.nodes.len() == index + 1);
        }
        assert(after.nodes[index] == Self::cap(r));
        assert forall|m: int| 0 <= m < index implies #[trigger] after.nodes[m] == self.nodes[m] by {}
        assert(after.positive_widths()) by {
            assert forall|m: int| 0 <= m < after.nodes.len() implies (#[trigger] after.nodes[m]).width > 0 by {
                if m > index + 1 {
                    assert(self.nodes[m - index - 1 + k].width > 0);
                } else if m < index {
                    assert(self.nodes[m].width > 0);
                }
            }
        }
        assert(after.within_height()) by {
            assert forall|m: int| 0 <= m < after.nodes.len() implies 0 <= (#[trigger] after.nodes[m]).y
                <= after.height by {
                if m > index + 1 {
                    assert(0 <= self.nodes[m - index - 1 + k].y <= self.height);
                } else if m < index {
                    assert(0 <= self.nodes[m].y <= self.height);
                } else if m == index + 1 {
                    assert(0 <= self.nodes[k].y <= self.height);
                }
            }
        }
        assert(after.contiguous()) by {
            assert forall|a: int, b: int|
                #![trigger after.nodes[a], after.nodes[b]]
                0 <= a && b == a + 1 && b < after.nodes.len() implies after.nodes[a].end()
                == after.nodes[b].x by {
                if b < index {
                    assert(self.nodes[a].end() == self.nodes[b].x);
                } else if b == index {
                    assert(self.nodes[a].end() == self.nodes[index].x);
                } else if a == index {
                } else if a == index + 1 {
                    assert(self.nodes[k].end() == self.nodes[k + 1].x);
                } else {
                    assert(self.nodes[a - index - 1 + k].end() == self.nodes[b - index - 1 + k].x);
                }
            }
        }
        assert(after.covers_bin());
        assert forall|px: int| 0 <= px < self.width implies #[trigger] after.level_at(px) == (if r.x
            <= px < r.x + r.width {
            r.y + r.height
        } else {
            self.level_at(px)
        }) by {
            let j = self.lemma_covered(px);
            if px < r.x {
                if j > index {
                    self.lemma_ordered(index, j);
                }
                after.lemma_level(j, px);
            } else if px < right {
                after.lemma_level(index, px);
            } else {
                if j < k {
                    self.lemma_ordered(j, k);
                }
                if j == k {
                    after.lemma_level(index + 1, px);
                } else {
                    after.lemma_level(j - k + index + 1, px);
                }
            }
        }
    }

    /// Joining two neighbours of equal height into one segment keeps the
    /// tiling and every level.
    pub proof fn lemma_joined(self, i: int, after: Skyline)
        requires
            self.tiled(),
            0 <= i < self.nodes.len() - 1,
            self.nodes[i].y == self.nodes[i + 1].y,
            after.width == self.width,
            after.height == self.height,
            after.nodes == self.nodes.update(
                i,
                SkylineNode {
                    x: self.nodes[i].x,
                    y: self.nodes[i].y,
                    width: (self.nodes[i].width + self.nodes[i + 1].width) as i32,
                },
            ).remove(i + 1),
        ensures
            after.tiled(),
            self.same_levels(after),
    {
        self.lemma_inside(i);
        self.lemma_inside(i + 1);
        assert(self.nodes[i].end() == self.nodes[i + 1].x);
        assert(self.nodes[i].width > 0 && self.nodes[i + 1].width > 0);
        assert(after.nodes.len() == self.nodes.len() - 1);
        assert forall|m: int| 0 <= m < i implies #[trigger] after.nodes[m] == self.nodes[m] by {}
        assert forall|m: int| i < m < after.nodes.len() implies #[trigger] after.nodes[m] == self.nodes[m
            + 1] by {}
        assert(after.positive_widths()) by {
            assert forall|m: int| 0 <= m < after.nodes.len() implies (#[trigger] after.nodes[m]).width > 0 by {
                if m > i {
                    assert(self.nodes[m + 1].width > 0);
                } else if m < i {
                    assert(self.nodes[m].width > 0);
                }
            }
        }
        assert(after.within_height()) by {
            assert forall|m: int| 0 <= m < after.nodes.len() implies 0 <= (#[trigger] after.nodes[m]).y
                <= after.height by {
                if m > i {
                    assert(0 <= self.nodes[m + 1].y <= self.height);
                } else {
                    assert(0 <= self.nodes[m].y <= self.height);
                }
            }
        }
        assert(after.contiguous()) by {
            assert forall|a: int, b: int|
                #![trigger after.nodes[a], after.nodes[b]]
                0 <= a && b == a + 1 && b < after.nodes.len() implies after.nodes[a].end()
                == after.nodes[b].x by {
                if b < i {
                    assert(self.nodes[a].end() == self.nodes[b].x);
                } else if b == i {
                    assert(self.nodes[a].end() == self.nodes[i].x);
                } else if a == i {
                    assert(self.nodes[i + 1].end() == self.nodes[i + 2].x);
                } else {
                    assert(self.nodes[a + 1].end() == self.nodes[b + 1].x);
                }
            }
        }
        assert(after.covers_bin());
        assert forall|px: int| 0 <= px < self.width implies self.level_at(px) == after.level_at(px) by {
            let j = self.lemma_covered(px);
            if j < i {
                after.lemma_level(j, px);
            } else if j <= i + 1 {
                after.lemma_level(i, px);
            } else {
                after.lemma_level(j - 1, px);
            }
        }
    }

    /// A rectangle that was placed rests on or above the skyline over each of
    /// its columns, and the skyline raised by it is nowhere lower than
    /// before.
    pub proof fn lemma_raised_not_lower(self, w: int, h: int, r: Rect, after: Skyline)
        requires
            self.tiled(),
            w > 0,
            h > 0,
            self.places(w, h, r),
            self.lifted_by(r, after),
        ensures
            forall|px: int| r.x <= px < r.x + r.width ==> #[trigger] self.level_at(px) <= r.y,
            forall|px: int| 0 <= px < self.width ==> self.level_at(px) <= #[trigger] after.level_at(px),
    {
        let i = choose|i: int| self.places_at(w, h, i, r);
        assert(self.rests_at(r.x as int, w, r.y as int));
        assert forall|px: int| 0 <= px < self.width implies self.level_at(px) <= #[trigger] after.level_at(
            px,
        ) by {
            if r.x <= px < r.x + r.width {
                assert(self.level_at(px) <= r.y);
            }
        }
    }

    /// One insertion has one outcome: the result and the skyline afterwards
    /// are determined by the skyline before and the size asked for.
    pub proof fn lemma_insert_unique(
        self,
        w: int,
        h: int,
        res1: Option<Rect>,
        after1: Skyline,
        res2: Option<Rect>,
        after2: Skyline,
    )
        requires
            self.inserts(w, h, res1, after1),
            self.inserts(w, h, res2, after2),
        ensures
            res1 == res2,
            after1 == after2,
    {
        if let Some(r1) = res1 {
            let i1 = choose|i: int| self.places_at(w, h, i, r1);
            assert(self.fits_at(i1, w, h, r1.y as int));
        }
        if let Some(r2) = res2 {
            let i2 = choose|i: int| self.places_at(w, h, i, r2);
            assert(self.fits_at(i2, w, h, r2.y as int));
        }
        if let (Some(r1), Some(r2)) = (res1, res2) {
            self.lemma_place_unique(w, h, r1, r2);
            assert(after1.same_levels(after2));
            after1.lemma_levels_fix_nodes(after2);
        }
    }

    /// A rectangle that is placed overlaps nothing that lies under the
    /// skyline.
    pub proof fn lemma_placed_clear(self, w: int, h: int, r: Rect, a: Rect)
        requires
            self.tiled(),
            w > 0,
            h > 0,
            self.places(w, h, r),
            a.width > 0,
            0 <= a.x,
            a.x + a.width <= self.width,
            lies_under(a, self),
        ensures
            !overlaps(a, r),
    {
        let i = choose|i: int| self.places_at(w, h, i, r);
        self.lemma_fit_in_bounds(i, w, h, r.y as int);
        assert(self.rests_at(r.x as int, w, r.y as int));
        if a.x < r.x + r.width && r.x < a.x + a.width {
            let px = if a.x < r.x {
                r.x as int
            } else {
                a.x as int
            };
            assert(a.y + a.height <= self.level_at(px));
            assert(self.level_at(px) <= r.y);
        }
    }
}

} // verus!
