//! Skyline rectangle packing into one bin of fixed size.

use vstd::prelude::*;
use crate::skyline::Skyline;

verus! {

/// A rectangle placed in the bin: its top-left corner and its size.
#[derive(Clone, Copy, Debug, PartialEq, Eq, Structural)]
pub struct Rect {
    pub x: i32,
    pub y: i32,
    pub width: i32,
    pub height: i32,
}

impl Rect {
    pub fn new(x: i32, y: i32, width: i32, height: i32) -> (r: Rect)
        ensures
            r == (Rect { x, y, width, height }),
    {
        Rect { x, y, width, height }
    }

    /// Whether the rectangle holds no cell at all.
    pub fn is_empty(&self) -> (e: bool)
        ensures
            e == (self.width <= 0 || self.height <= 0),
    {
        self.width <= 0 || self.height <= 0
    }
}

/// One segment of the skyline: over the columns `x .. x + width` the rows
/// below `y` are taken and the rows from `y` on are free.
#[derive(Clone, Copy, Debug, PartialEq, Eq, Structural)]
pub struct SkylineNode {
    pub x: i32,
    pub y: i32,
    pub width: i32,
}

impl SkylineNode {
    pub fn new(x: i32, y: i32, width: i32) -> (n: SkylineNode)
        ensures
            n == (SkylineNode { x, y, width }),
    {
        SkylineNode { x, y, width }
    }
}

/// A packer for one bin.
pub struct BinPack {
    bin_width: i32,
    bin_height: i32,
    skyline: Vec<SkylineNode>,
}

impl View for BinPack {
    type V = Skyline;

    closed spec fn view(&self) -> Skyline {
        Skyline {
            width: self.bin_width as int,
            height: self.bin_height as int,
            nodes: self.skyline@,
        }
    }
}

impl BinPack {
    /// An empty bin of the given size.
    pub fn new(width: i32, height: i32) -> (p: BinPack)
        requires
            width > 0,
            height > 0,
        ensures
            p@ == Skyline::empty_bin(width as int, height as int),
            p@.wf(),
    {
        let mut nodes: Vec<SkylineNode> = Vec::new();
        nodes.push(SkylineNode::new(0, 0, width));
        let p = BinPack { bin_width: width, bin_height: height, skyline: nodes };
        assert(p@.nodes =~= Skyline::empty_bin(width as int, height as int).nodes);
        p
    }

    /// The bin's width.
    pub fn width(&self) -> (w: i32)
        ensures
            w == self@.width,
    {
        self.bin_width
    }

    /// The bin's height.
    pub fn height(&self) -> (h: i32)
        ensures
            h == self@.height,
    {
        self.bin_height
    }

    /// The segments of the skyline, left to right.
    pub fn segments(&self) -> (s: &Vec<SkylineNode>)
        ensures
            s@ == self@.nodes,
    {
        &self.skyline
    }

    /// The number of segments in the skyline.
    pub fn segment_count(&self) -> (n: usize)
        ensures
            n == self@.nodes.len(),
    {
        self.skyline.len()
    }

    /// Tries the place whose left edge is the start of segment
    /// `sky_node_idx`: returns the row on which a `width` by `height`
    /// rectangle rests there, or `None` when it would leave the bin.
    pub fn rectangle_fits(&self, sky_node_idx: usize, width: i32, height: i32) -> (res: Option<i32>)
        requires
            self@.wf(),
            sky_node_idx < self@.nodes.len(),
            width > 0,
            height > 0,
        ensures
            match res {
                Some(y) => self@.fits_at(sky_node_idx as int, width as int, height as int, y as int),
                None => forall|y: int| !self@.fits_at(sky_node_idx as int, width as int, height as int, y),
            },
    {
        let x: i32 = self.skyline[sky_node_idx].x;
        proof {
            self@.lemma_inside(sky_node_idx as int);
            self@.lemma_level(sky_node_idx as int, x as int);
        }
        if width > self.bin_width - x {
            return None;
        }
        let mut width_left: i32 = width;
        let mut i: usize = sky_node_idx;
        let mut y: i32 = self.skyline[sky_node_idx].y;
        let ghost mut top: int = x as int;
        while width_left > 0
            invariant
                self@.tiled(),
                sky_node_idx <= i <= self.skyline.len(),
                x == self.skyline[sky_node_idx as int].x,
                width > 0,
                x + width <= self.bin_width,
                i < self.skyline.len() ==> width_left == x + width - self.skyline[i as int].x,
                i == self.skyline.len() ==> width_left <= 0,
                i == sky_node_idx ==> width_left == width,
                i > sky_node_idx ==> y + height <= self.bin_height,
                forall|px: int| x <= px < x + width - width_left ==> #[trigger] self@.level_at(px) <= y,
                x <= top < x + width,
                self@.level_at(top) == y,
            decreases self.skyline.len() - i,
        {
            let node = self.skyline[i];
            proof {
                self@.lemma_inside(i as int);
                self@.lemma_level(i as int, node.x as int);
                if i > sky_node_idx {
                    self@.lemma_ordered(sky_node_idx as int, i as int);
                }
            }
            if node.y > y {
                y = node.y;
                proof {
                    top = node.x as int;
                }
            }
            if height > self.bin_height - y {
                assert forall|yy: int| !self@.fits_at(sky_node_idx as int, width as int, height as int, yy) by {
                    if self@.fits_at(sky_node_idx as int, width as int, height as int, yy) {
                        assert(self@.level_at(top) <= yy);
                    }
                }
                return None;
            }
            proof {
                assert forall|px: int| x <= px < node.x + node.width implies #[trigger] self@.level_at(px) <= y by {
                    if px >= node.x {
                        self@.lemma_level(i as int, px);
                    }
                }
                if i + 1 < self.skyline.len() {
                    assert(self@.nodes[i as int].end() == self@.nodes[i + 1].x);
                }
            }
            width_left = width_left - node.width;
            i += 1;
        }
        Some(y)
    }

    /// Searches all segments for the place of a `width` by `height`
    /// rectangle: the lowest resting row, then the narrower segment, then the
    /// leftmost. Returns the rectangle there with the segment's index, or
    /// `None` as index (and an empty rectangle) when it fits nowhere.
    pub fn position_new_node(&self, width: i32, height: i32) -> (res: (Rect, Option<usize>))
        requires
            self@.wf(),
            width > 0,
            height > 0,
        ensures
            match res.1 {
                Some(i) => self@.places_at(width as int, height as int, i as int, res.0),
                None => self@.full_for(width as int, height as int) && res.0 == (Rect {
                    x: 0,
                    y: 0,
                    width: 0,
                    height: 0,
                }),
            },
    {
        let mut best_height: i32 = 0;
        let mut best_width: i32 = 0;
        let mut node = Rect::new(0, 0, 0, 0);
        let mut ret_idx: Option<usize> = None;
        let ghost w = width as int;
        let ghost h = height as int;
        let mut i: usize = 0;
        while i < self.skyline.len()
            invariant
                self@.wf(),
                width > 0,
                height > 0,
                w == width,
                h == height,
                i <= self.skyline.len(),
                match ret_idx {
                    Some(b) => {
                        &&& b < i
                        &&& self@.fits_at(b as int, w, h, node.y as int)
                        &&& node == (Rect { x: self.skyline[b as int].x, y: node.y, width, height })
                        &&& best_height == node.y + height
                        &&& best_width == self.skyline[b as int].width
                        &&& forall|j: int, yj: int|
                            j < i && #[trigger] self@.fits_at(j, w, h, yj) ==> self@.prefers(
                                b as int,
                                node.y as int,
                                j,
                                yj,
                            )
                    },
                    None => {
                        &&& node == (Rect { x: 0, y: 0, width: 0, height: 0 })
                        &&& forall|j: int, yj: int| j < i ==> !#[trigger] self@.fits_at(j, w, h, yj)
                    },
                },
            decreases self.skyline.len() - i,
        {
            let ghost prev_idx = ret_idx;
            let ghost prev_y = node.y as int;
            match self.rectangle_fits(i, width, height) {
                Some(y) => {
                    let seg = self.skyline[i];
                    let better = match ret_idx {
                        None => true,
                        Some(_) => y + height < best_height || (y + height == best_height && seg.width
                            < best_width),
                    };
                    if better {
                        best_height = y + height;
                        best_width = seg.width;
                        node = Rect::new(seg.x, y, width, height);
                        ret_idx = Some(i);
                    }
                    proof {
                        let b = ret_idx->0 as int;
                        assert forall|j: int, yj: int|
                            j < i + 1 && #[trigger] self@.fits_at(j, w, h, yj) implies self@.prefers(
                            b,
                            node.y as int,
                            j,
                            yj,
                        ) by {
                            if j == i {
                                self@.lemma_rest_unique(seg.x as int, w, y as int, yj);
                            } else if prev_idx is Some {
                                assert(self@.prefers(prev_idx->0 as int, prev_y, j, yj));
                            }
                        }
                    }
                },
                None => {},
            }
            i += 1;
        }
        (node, ret_idx)
    }

    /// Joins every run of neighbouring segments of equal height into one
    /// segment. The levels of the skyline stay as they are.
    pub fn merge_skylines(&mut self)
        requires
            old(self)@.tiled(),
        ensures
            final(self)@.wf(),
            old(self)@.same_levels(final(self)@),
            final(self)@.nodes.len() <= old(self)@.nodes.len(),
    {
        let mut i: usize = 0;
        while i + 1 < self.skyline.len()
            invariant
                self@.tiled(),
                self.skyline.len() <= old(self).skyline.len(),
                old(self)@.same_levels(self@),
                i < self.skyline.len(),
                forall|a: int, b: int|
                    #![trigger self.skyline[a], self.skyline[b]]
                    0 <= a && b == a + 1 && b <= i ==> self.skyline[a].y != self.skyline[b].y,
            decreases self.skyline.len() - i,
        {
            let node = self.skyline[i];
            let next = self.skyline[i + 1];
            if node.y == next.y {
                let ghost before = self@;
                proof {
                    before.lemma_inside(i as int);
                    before.lemma_inside(i + 1);
                    assert(before.nodes[i as int].end() == before.nodes[i + 1].x);
                }
                self.skyline.set(i, SkylineNode::new(node.x, node.y, node.width + next.width));
                self.skyline.remove(i + 1);
                proof {
                    before.lemma_joined(i as int, self@);
                }
            } else {
                i += 1;
            }
        }
        proof {
            self@.lemma_tiled_sorted();
        }
    }

    /// Raises the skyline by `rect`, which was placed at segment `index`: the
    /// rectangle's far edge becomes a segment there, the segments under it
    /// are removed or cut back to its right edge, and equal neighbours are
    /// merged.
    pub fn add_skyline_level(&mut self, rect: Rect, index: usize)
        requires
            old(self)@.wf(),
            rect.width > 0,
            rect.height > 0,
            old(self)@.fits_at(index as int, rect.width as int, rect.height as int, rect.y as int),
            rect.x == old(self)@.nodes[index as int].x,
        ensures
            old(self)@.raised_by(rect, final(self)@),
    {
        let ghost before = self@;
        proof {
            before.lemma_fit_in_bounds(index as int, rect.width as int, rect.height as int, rect.y as int);
        }
        let node = SkylineNode::new(rect.x, rect.y + rect.height, rect.width);
        let ghost right = rect.x + rect.width;
        self.skyline.insert(index, node);
        assert(index < self.skyline.len());
        let i: usize = index + 1;
        let ghost mut k: int = index as int;
        while i < self.skyline.len()
            invariant_except_break
                self.skyline@ == before.nodes.subrange(0, index as int).push(node) + before.nodes.subrange(
                    k,
                    before.nodes.len() as int,
                ),
                k > index ==> before.nodes[k - 1].end() <= right,
            invariant
                before.tiled(),
                self@.width == before.width,
                self@.height == before.height,
                i == index + 1,
                index <= k <= before.nodes.len(),
                index < before.nodes.len(),
                node == Skyline::cap(rect),
                right == rect.x + rect.width,
                rect.width > 0,
                rect.height > 0,
                rect.x == before.nodes[index as int].x,
                right <= before.width,
                0 <= rect.y,
                rect.y + rect.height <= before.height,
            ensures
                index <= k <= before.nodes.len(),
                k < before.nodes.len() ==> before.nodes[k].x <= right < before.nodes[k].end(),
                k == before.nodes.len() ==> right == before.width,
                self.skyline@ == before.overlaid(rect, index as int, k),
            decreases self.skyline.len() - i,
        {
            let cur_node = self.skyline[i];
            let prev_node = self.skyline[i - 1];
            assert(prev_node == node);
            assert(cur_node == before.nodes[k]);
            proof {
                before.lemma_inside(k);
                if k > index {
                    assert(before.nodes[k - 1].end() == before.nodes[k].x);
                }
            }
            if cur_node.x < prev_node.x + prev_node.width {
                let shrink = prev_node.x + prev_node.width - cur_node.x;
                let new_node = SkylineNode::new(cur_node.x + shrink, cur_node.y, cur_node.width - shrink);
                if new_node.width <= 0 {
                    self.skyline.remove(i);
                    proof {
                        k = k + 1;
                        assert(self.skyline@ =~= before.nodes.subrange(0, index as int).push(node)
                            + before.nodes.subrange(k, before.nodes.len() as int));
                    }
                } else {
                    self.skyline.set(i, new_node);
                    assert(self.skyline@ =~= before.overlaid(rect, index as int, k));
                    break ;
                }
            } else {
                assert(cur_node == Skyline::cut(cur_node, right));
                assert(self.skyline@ =~= before.overlaid(rect, index as int, k));
                break ;
            }
        }
        proof {
            if k == before.nodes.len() {
                assert(self.skyline@ =~= before.overlaid(rect, index as int, k));
                assert(before.nodes[k - 1].end() == before.width);
            }
            before.lemma_overlaid(rect, index as int, k, self@);
        }
        let ghost laid = self@;
        self.merge_skylines();
        proof {
            assert forall|px: int| 0 <= px < before.width implies #[trigger] self@.level_at(px) == (if rect.x
                <= px < rect.x + rect.width {
                rect.y + rect.height
            } else {
                before.level_at(px)
            }) by {
                assert(laid.level_at(px) == self@.level_at(px));
            }
        }
    }

    /// Places a `width` by `height` rectangle in the bin and raises the
    /// skyline by it. Returns the rectangle where it was placed, or `None`,
    /// with the skyline as it was, when the bin has no room for it.
    pub fn insert(&mut self, width: i32, height: i32) -> (res: Option<Rect>)
        requires
            old(self)@.wf(),
            width > 0,
            height > 0,
        ensures
            final(self)@.wf(),
            final(self)@.width == old(self)@.width,
            final(self)@.height == old(self)@.height,
            old(self)@.inserts(width as int, height as int, res, final(self)@),
            final(self)@.nodes.len() <= old(self)@.nodes.len() + 1,
            width > old(self)@.width ==> res is None,
            height > old(self)@.height ==> res is None,
            res matches Some(r) ==> {
                &&& r.width == width
                &&& r.height == height
                &&& 0 <= r.x
                &&& 0 <= r.y
                &&& r.x + r.width <= old(self)@.width
                &&& r.y + r.height <= old(self)@.height
            },
    {
        let (new_node, best_index) = self.position_new_node(width, height);
        match best_index {
            Some(index) => {
                proof {
                    self@.lemma_fit_in_bounds(index as int, width as int, height as int, new_node.y as int);
                }
                self.add_skyline_level(new_node, index);
                Some(new_node)
            },
            None => None,
        }
    }
}

} // verus!
