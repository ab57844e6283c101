//! The voxel world: a named box of block bytes with a spawn point, its
//! accessors, the placement policy, generation helpers and its two gzip forms.

use vstd::prelude::*;
use crate::block::{valid_block, spec_fluid, spec_fall, spec_slab, BlockState};
use crate::codec::{spec_be16, spec_be32, spec_i16_from_be, i16_to_be, i16_from_be, u32_to_be, lemma_be16_round_trip};

verus! {

/// One cell change, as `(x, y, z, block)`.
pub type Change = (i16, i16, i16, u8);

#[derive(Clone)]
pub struct Level {
    pub name: String,
    pub size_x: i16,
    pub size_y: i16,
    pub size_z: i16,
    pub spawn_x: i16,
    pub spawn_y: i16,
    pub spawn_z: i16,
    pub spawn_yaw: u8,
    pub spawn_pitch: u8,
    pub changed: bool,
    /// The block bytes; every mutation goes through `set_block`, which keeps `wf`.
    pub data: Vec<u8>,
}

#[derive(Clone, Copy, Debug, PartialEq, Eq, Structural)]
pub enum GenerationType {
    Empty,
    Flat,
    Vanilla,
}

pub enum SaveType {
    Network,
    Disk,
}

/// The linear index of a cell in the block array.
pub open spec fn spec_idx(sx: int, sz: int, x: int, y: int, z: int) -> int {
    x + z * sx + y * sx * sz
}

/// The largest dimensions for which the spawn-point arithmetic
/// (`x*16+16` and `y*32+61` on 16-bit values) cannot overflow.
pub open spec fn size_limits(sx: int, sy: int, sz: int) -> bool {
    sx <= 2046 && sy <= 1021 && sz <= 2046
}

impl Level {
    /// The block bytes, in `x + z*size_x + y*size_x*size_z` order.
    pub open spec fn blocks(&self) -> Seq<u8> {
        self.data@
    }

    pub open spec fn wf(&self) -> bool {
        &&& 0 <= self.size_x
        &&& 0 <= self.size_y
        &&& 0 <= self.size_z
        &&& size_limits(self.size_x as int, self.size_y as int, self.size_z as int)
        &&& self.blocks().len() == self.size_x as int * self.size_y as int * self.size_z as int
        &&& forall|i: int| 0 <= i < self.blocks().len() ==> valid_block(#[trigger] self.blocks()[i])
    }

    pub open spec fn in_bounds(&self, x: i16, y: i16, z: i16) -> bool {
        0 <= x < self.size_x && 0 <= y < self.size_y && 0 <= z < self.size_z
    }

    pub open spec fn idx(&self, x: int, y: int, z: int) -> int {
        spec_idx(self.size_x as int, self.size_z as int, x, y, z)
    }

    /// The block stored at a cell.
    pub open spec fn spec_block(&self, x: int, y: int, z: int) -> u8 {
        self.blocks()[self.idx(x, y, z)]
    }

    /// Everything but the spawn point, the block data and the changed flag.
    pub open spec fn same_frame(&self, other: &Level) -> bool {
        &&& self.name@ == other.name@
        &&& self.size_x == other.size_x
        &&& self.size_y == other.size_y
        &&& self.size_z == other.size_z
    }
}

pub proof fn lemma_idx_bounds(sx: int, sy: int, sz: int, x: int, y: int, z: int)
    requires
        0 <= x < sx,
        0 <= y < sy,
        0 <= z < sz,
    ensures
        0 <= spec_idx(sx, sz, x, y, z) < sx * sy * sz,
        x + z * sx <= sx * sz - 1,
        sx * sz <= sx * sy * sz,
        y * (sx * sz) <= sx * sy * sz - sx * sz,
{
    assert(0 <= x + z * sx + y * sx * sz < sx * sy * sz) by (nonlinear_arith)
        requires
            0 <= x < sx,
            0 <= y < sy,
            0 <= z < sz,
    ;
    assert(x + z * sx <= sx * sz - 1) by (nonlinear_arith)
        requires
            0 <= x < sx,
            0 <= z < sz,
    ;
    assert(sx * sz <= sx * sy * sz) by (nonlinear_arith)
        requires
            0 <= x < sx,
            0 <= y < sy,
            0 <= z < sz,
    ;
    assert(y * (sx * sz) <= sx * sy * sz - sx * sz) by (nonlinear_arith)
        requires
            0 <= y < sy,
            0 < sx,
            0 < sz,
    ;
}

/// Two levels of the same size and block data agree on every column search.
pub proof fn lemma_highest_same(a: &Level, b: &Level, x: int, z: int, y: int)
    requires
        a.blocks() == b.blocks(),
        a.size_x == b.size_x,
        a.size_z == b.size_z,
    ensures
        a.spec_highest(x, z, y) == b.spec_highest(x, z, y),
    decreases y + 1,
{
    if y >= 0 && a.spec_block(x, y, z) == 0 {
        lemma_highest_same(a, b, x, z, y - 1);
    }
}

pub proof fn lemma_idx_injective(
    sx: int,
    sy: int,
    sz: int,
    x1: int,
    y1: int,
    z1: int,
    x2: int,
    y2: int,
    z2: int,
)
    requires
        0 <= x1 < sx,
        0 <= y1 < sy,
        0 <= z1 < sz,
        0 <= x2 < sx,
        0 <= y2 < sy,
        0 <= z2 < sz,
        spec_idx(sx, sz, x1, y1, z1) == spec_idx(sx, sz, x2, y2, z2),
    ensures
        x1 == x2 && y1 == y2 && z1 == z2,
{
    assert(y1 == y2) by (nonlinear_arith)
        requires
            0 <= x1 < sx,
            0 <= y1 < sy,
            0 <= z1 < sz,
            0 <= x2 < sx,
            0 <= y2 < sy,
            0 <= z2 < sz,
            x1 + z1 * sx + y1 * sx * sz == x2 + z2 * sx + y2 * sx * sz,
    ;
    assert(z1 == z2) by (nonlinear_arith)
        requires
            0 <= x1 < sx,
            0 <= z1 < sz,
            0 <= x2 < sx,
            0 <= z2 < sz,
            x1 + z1 * sx == x2 + z2 * sx,
    ;
}

impl Level {
    pub fn new(name: String) -> (r: Level)
        ensures
            r.wf(),
            r.name@ == name@,
            r.size_x == 0 && r.size_y == 0 && r.size_z == 0,
            r.blocks().len() == 0,
            r.spawn_x == 0 && r.spawn_y == 0 && r.spawn_z == 0,
            r.spawn_yaw == 0 && r.spawn_pitch == 0,
            !r.changed,
    {
        Level {
            name,
            size_x: 0,
            size_y: 0,
            size_z: 0,
            data: Vec::new(),
            spawn_x: 0,
            spawn_y: 0,
            spawn_z: 0,
            spawn_yaw: 0,
            spawn_pitch: 0,
            changed: false,
        }
    }

    /// The exec mirror of `idx`, proved in range.
    fn index_of(&self, x: i16, y: i16, z: i16) -> (i: usize)
        requires
            self.wf(),
            self.in_bounds(x, y, z),
        ensures
            i == self.idx(x as int, y as int, z as int),
            i < self.blocks().len(),
    {
        proof {
            lemma_idx_bounds(
                self.size_x as int,
                self.size_y as int,
                self.size_z as int,
                x as int,
                y as int,
                z as int,
            );
        }
        let n = self.data.len();
        let sx = self.size_x as usize;
        let sz = self.size_z as usize;
        proof {
            assert(n as int == self.size_x as int * self.size_y as int * self.size_z as int);
            assert(sx * sz == self.size_x as int * self.size_z as int) by (nonlinear_arith)
                requires
                    sx == self.size_x as int,
                    sz == self.size_z as int,
                    0 <= sx,
                    0 <= sz,
            ;
        }
        let plane: usize = sx * sz;
        let i = x as usize + z as usize * sx + y as usize * plane;
        proof {
            assert(z as usize * sx == z as int * sx) by (nonlinear_arith)
                requires
                    0 <= z,
                    0 <= sx,
                    sx == self.size_x as int,
            ;
            assert(y as usize * plane == y as int * plane) by (nonlinear_arith)
                requires
                    0 <= y,
                    0 <= plane,
            ;
            assert(y as int * (self.size_x as int * self.size_z as int) == y as int
                * self.size_x as int * self.size_z as int) by (nonlinear_arith);
        }
        i
    }

    pub fn get_block(&self, x: i16, y: i16, z: i16) -> (b: u8)
        requires
            self.wf(),
            self.in_bounds(x, y, z),
        ensures
            b == self.spec_block(x as int, y as int, z as int),
            valid_block(b),
    {
        let i = self.index_of(x, y, z);
        self.data[i]
    }

    pub fn set_block(&mut self, x: i16, y: i16, z: i16, b: u8)
        requires
            old(self).wf(),
            old(self).in_bounds(x, y, z),
            valid_block(b),
        ensures
            final(self).wf(),
            final(self).blocks() == old(self).blocks().update(
                old(self).idx(x as int, y as int, z as int),
                b,
            ),
            final(self).changed,
            final(self).same_frame(old(self)),
            final(self).spawn_x == old(self).spawn_x,
            final(self).spawn_y == old(self).spawn_y,
            final(self).spawn_z == old(self).spawn_z,
            final(self).spawn_yaw == old(self).spawn_yaw,
            final(self).spawn_pitch == old(self).spawn_pitch,
    {
        let i = self.index_of(x, y, z);
        if !self.changed {
            self.changed = true;
        }
        self.data.set(i, b);
    }

    /// The altitude encoding of the highest non-air cell of a column:
    /// `y*32 + 61` for the highest `y` with a non-air block, else `29`.
    pub open spec fn spec_highest(&self, x: int, z: int, y: int) -> int
        decreases y + 1,
    {
        if y < 0 {
            -1
        } else if self.spec_block(x, y, z) != 0 {
            y
        } else {
            self.spec_highest(x, z, y - 1)
        }
    }

    pub open spec fn spec_max_y(&self, x: int, z: int) -> int {
        let h = self.spec_highest(x, z, self.size_y - 1);
        if h >= 0 {
            h * 32 + 61
        } else {
            29
        }
    }

    pub fn max_y(&mut self, x: i16, z: i16) -> (r: i16)
        requires
            old(self).wf(),
            old(self).size_y > 0 ==> 0 <= x < old(self).size_x && 0 <= z < old(self).size_z,
        ensures
            *final(self) == *old(self),
            r == old(self).spec_max_y(x as int, z as int),
    {
        let mut y: i16 = self.size_y;
        while y > 0
            invariant
                self.wf(),
                0 <= y <= self.size_y,
                self.size_y > 0 ==> 0 <= x < self.size_x && 0 <= z < self.size_z,
                self.spec_highest(x as int, z as int, self.size_y - 1) == self.spec_highest(
                    x as int,
                    z as int,
                    y - 1,
                ),
            decreases y,
        {
            y = y - 1;
            if self.get_block(x, y, z) > 0 {
                assert(self.spec_highest(x as int, z as int, y as int) == y);
                return y * 32 + 61;
            }
        }
        29
    }

    /// The spawn point: centered over the level, at the height of the
    /// middle column's highest block.
    pub open spec fn spec_spawn_of(l: &Level) -> (int, int, int) {
        (
            l.size_x as int * 16 + 16,
            l.spec_max_y(l.size_x as int / 2, l.size_z as int / 2),
            l.size_z as int * 16 + 16,
        )
    }

    pub open spec fn spawn_consistent(&self) -> bool {
        (self.spawn_x as int, self.spawn_y as int, self.spawn_z as int) == Level::spec_spawn_of(
            self,
        )
    }

    pub fn reset_spawn(&mut self)
        requires
            old(self).wf(),
            old(self).size_y > 0 ==> old(self).size_x > 0 && old(self).size_z > 0,
        ensures
            final(self).wf(),
            final(self).blocks() == old(self).blocks(),
            final(self).same_frame(old(self)),
            final(self).changed == old(self).changed,
            final(self).spawn_yaw == old(self).spawn_yaw,
            final(self).spawn_pitch == old(self).spawn_pitch,
            final(self).spawn_consistent(),
    {
        self.spawn_x = self.size_x * 16 + 16;
        self.spawn_z = self.size_z * 16 + 16;
        let mx = self.size_x / 2;
        let mz = self.size_z / 2;
        let ghost mid = *self;
        self.spawn_y = self.max_y(mx, mz);
        proof {
            lemma_highest_same(
                &mid,
                final(self),
                mx as int,
                mz as int,
                mid.size_y - 1,
            );
        }
    }
}


/// No cell is named twice in a change list.
pub open spec fn distinct_cells(cs: Seq<Change>) -> bool {
    forall|j: int, k: int|
        0 <= j < k < cs.len() ==> !((#[trigger] cs[j]).0 == (#[trigger] cs[k]).0 && cs[j].1
            == cs[k].1 && cs[j].2 == cs[k].2)
}

/// Applying a list of cell changes to block data, first change first.
pub open spec fn spec_apply(data: Seq<u8>, sx: int, sz: int, cs: Seq<Change>) -> Seq<u8>
    decreases cs.len(),
{
    if cs.len() == 0 {
        data
    } else {
        let c = cs[0];
        spec_apply(
            data.update(spec_idx(sx, sz, c.0 as int, c.1 as int, c.2 as int), c.3),
            sx,
            sz,
            cs.drop_first(),
        )
    }
}

pub proof fn lemma_apply_snoc(data: Seq<u8>, sx: int, sz: int, cs: Seq<Change>, c: Change)
    ensures
        spec_apply(data, sx, sz, cs.push(c)) == spec_apply(data, sx, sz, cs).update(
            spec_idx(sx, sz, c.0 as int, c.1 as int, c.2 as int),
            c.3,
        ),
    decreases cs.len(),
{
    let i = spec_idx(sx, sz, c.0 as int, c.1 as int, c.2 as int);
    if cs.len() == 0 {
        assert(cs.push(c)[0] == c);
        assert(cs.push(c).drop_first() =~= Seq::<Change>::empty());
        assert(spec_apply(data, sx, sz, cs.push(c)) == spec_apply(
            data.update(i, c.3),
            sx,
            sz,
            cs.push(c).drop_first(),
        ));
        assert(spec_apply(data.update(i, c.3), sx, sz, Seq::<Change>::empty()) == data.update(
            i,
            c.3,
        ));
        assert(spec_apply(data, sx, sz, cs) == data);
    } else {
        let h = cs[0];
        let ih = spec_idx(sx, sz, h.0 as int, h.1 as int, h.2 as int);
        let d2 = data.update(ih, h.3);
        assert(cs.push(c)[0] == h);
        assert(cs.push(c).drop_first() =~= cs.drop_first().push(c));
        assert(spec_apply(data, sx, sz, cs.push(c)) == spec_apply(
            d2,
            sx,
            sz,
            cs.drop_first().push(c),
        ));
        lemma_apply_snoc(d2, sx, sz, cs.drop_first(), c);
        assert(spec_apply(data, sx, sz, cs) == spec_apply(d2, sx, sz, cs.drop_first()));
    }
}

impl Level {
    /// Where a falling block comes to rest: walk down from `f` while the
    /// cell below is fluid.
    pub open spec fn spec_fall_bottom(&self, x: int, z: int, f: int) -> int
        decreases f,
    {
        if f <= 0 {
            f
        } else if !spec_fluid(self.spec_block(x, f - 1, z)) {
            f
        } else {
            self.spec_fall_bottom(x, z, f - 1)
        }
    }

    /// The top of the run of falling blocks that starts at cell `t`.
    pub open spec fn spec_tower_top(&self, x: int, z: int, t: int) -> int
        decreases self.size_y - t,
    {
        if t >= self.size_y - 1 {
            t
        } else if !spec_fall(self.spec_block(x, t + 1, z)) {
            t
        } else {
            self.spec_tower_top(x, z, t + 1)
        }
    }

    /// Whether placing `b` at `(x, y, z)` lets the column above fall.
    pub open spec fn spec_fluid_case(&self, x: int, y: int, z: int, b: u8) -> bool {
        spec_fluid(b) && y < self.size_y - 1 && spec_fall(self.spec_block(x, y + 1, z))
    }

    /// The single cell written outside the falling-column case: a falling
    /// block sinks through fluid, a slab stacked on a slab becomes the
    /// double slab one cell lower.
    pub open spec fn spec_simple_place(&self, x: int, y: int, z: int, b: u8) -> (int, u8) {
        let y1 = if spec_fall(b) {
            self.spec_fall_bottom(x, z, y)
        } else {
            y as int
        };
        if spec_slab(b) is Some && y1 > 0 && self.spec_block(x, y1 - 1, z) == b {
            (y1 - 1, spec_slab(b)->0)
        } else {
            (y1, b)
        }
    }

    /// Place a block under the policy of the world: the result is the list
    /// of cells that actually changed, in the order they were written.
    pub fn place_block(&mut self, x: i16, y: i16, z: i16, b: u8) -> (changes: Vec<Change>)
        requires
            old(self).wf(),
            old(self).in_bounds(x, y, z),
            valid_block(b),
        ensures
            final(self).wf(),
            final(self).same_frame(old(self)),
            final(self).changed,
            final(self).spawn_consistent(),
            changes@.len() >= 1,
            distinct_cells(changes@),
            forall|j: int|
                0 <= j < changes@.len() ==> (#[trigger] changes@[j]).0 == x
                    && old(self).in_bounds(changes@[j].0, changes@[j].1, changes@[j].2)
                    && valid_block(changes@[j].3),
            final(self).blocks() == spec_apply(
                old(self).blocks(),
                old(self).size_x as int,
                old(self).size_z as int,
                changes@,
            ),
            !old(self).spec_fluid_case(x as int, y as int, z as int, b) ==> changes@ =~= seq![
                (
                    x,
                    old(self).spec_simple_place(x as int, y as int, z as int, b).0 as i16,
                    z,
                    old(self).spec_simple_place(x as int, y as int, z as int, b).1,
                ),
            ],
            old(self).spec_fluid_case(x as int, y as int, z as int, b) ==> {
                let sb = y + 1;
                let st = old(self).spec_tower_top(x as int, z as int, sb as int);
                let fb = old(self).spec_fall_bottom(x as int, z as int, y as int);
                let ft = fb + (st - sb);
                &&& forall|yy: int|
                    fb <= yy <= ft ==> #[trigger] final(self).spec_block(x as int, yy, z as int)
                        == old(self).spec_block(x as int, sb + (yy - fb), z as int)
                &&& forall|yy: int|
                    (if sb > ft + 1 {
                        sb as int
                    } else {
                        ft + 1
                    }) <= yy <= st ==> #[trigger] final(self).spec_block(x as int, yy, z as int)
                        == 0
                &&& (ft < y ==> final(self).spec_block(x as int, y as int, z as int) == 0)
                &&& forall|yy: int|
                    ft < yy < sb && yy != y && 0 <= yy ==> #[trigger] final(self).spec_block(
                        x as int,
                        yy,
                        z as int,
                    ) == old(self).spec_block(x as int, yy, z as int)
                &&& forall|xi: int, yi: int, zi: int|
                    0 <= xi < old(self).size_x && 0 <= yi < old(self).size_y && 0 <= zi < old(
                        self,
                    ).size_z && !(xi == x && zi == z && fb <= yi <= st)
                        ==> #[trigger] final(self).spec_block(xi, yi, zi) == old(self).spec_block(
                        xi,
                        yi,
                        zi,
                    )
            },
    {
        let ghost l0 = *self;
        let ghost sx = self.size_x as int;
        let ghost sz = self.size_z as int;
        let data = BlockState::of(b);
        let mut changes: Vec<Change> = Vec::new();
        if data.fluid && y < self.size_y - 1 {
            let b_above = self.get_block(x, y + 1, z);
            if BlockState::of(b_above).fall {
                // The placed fluid undermines a column of falling blocks.
                let sand_tower_bottom = y + 1;
                let mut sand_tower_top = sand_tower_bottom;
                let mut line: Vec<u8> = Vec::new();
                line.push(b_above);
                let mut done = false;
                while !done && sand_tower_top < self.size_y - 1
                    invariant
                        *self == l0,
                        self.wf(),
                        self.in_bounds(x, y, z),
                        y + 1 == sand_tower_bottom,
                        sand_tower_bottom <= sand_tower_top < self.size_y,
                        line@.len() == sand_tower_top - sand_tower_bottom + 1,
                        forall|i: int|
                            0 <= i < line@.len() ==> #[trigger] line@[i] == self.spec_block(
                                x as int,
                                sand_tower_bottom + i,
                                z as int,
                            ) && valid_block(line@[i]),
                        self.spec_tower_top(x as int, z as int, sand_tower_top as int)
                            == self.spec_tower_top(x as int, z as int, sand_tower_bottom as int),
                        done ==> self.spec_tower_top(x as int, z as int, sand_tower_bottom as int)
                            == sand_tower_top,
                    decreases self.size_y - sand_tower_top + if done { 0int } else { 1int },
                {
                    let nb = self.get_block(x, sand_tower_top + 1, z);
                    if !BlockState::of(nb).fall {
                        done = true;
                    } else {
                        sand_tower_top = sand_tower_top + 1;
                        line.push(nb);
                    }
                }
                let ghost st = sand_tower_top as int;
                proof {
                    assert(self.spec_tower_top(x as int, z as int, sand_tower_bottom as int)
                        == st);
                }
                let mut fallen_tower_bottom = y;
                let mut done2 = false;
                while !done2 && fallen_tower_bottom > 0
                    invariant
                        *self == l0,
                        self.wf(),
                        self.in_bounds(x, y, z),
                        0 <= fallen_tower_bottom <= y,
                        self.spec_fall_bottom(x as int, z as int, fallen_tower_bottom as int)
                            == self.spec_fall_bottom(x as int, z as int, y as int),
                        done2 ==> self.spec_fall_bottom(x as int, z as int, y as int)
                            == fallen_tower_bottom,
                    decreases fallen_tower_bottom + if done2 { 0int } else { 1int },
                {
                    let nb = self.get_block(x, fallen_tower_bottom - 1, z);
                    if !BlockState::of(nb).fluid {
                        done2 = true;
                    } else {
                        fallen_tower_bottom = fallen_tower_bottom - 1;
                    }
                }
                let fallen_tower_top = fallen_tower_bottom + (sand_tower_top - sand_tower_bottom);
                let ghost gap = sand_tower_bottom - fallen_tower_top > 1;
                if sand_tower_bottom - fallen_tower_top > 1 {
                    let ghost cs0 = changes@;
                    let ghost pre = *self;
                    self.set_block(x, y, z, 0);
                    changes.push((x, y, z, 0));
                    proof {
                        lemma_apply_snoc(l0.blocks(), sx, sz, cs0, (x, y, z, 0u8));
                        assert(changes@ == cs0.push((x, y, z, 0u8)));
                        assert(cs0 =~= Seq::<Change>::empty());
                        lemma_update_cells(pre, *self, x as int, y as int, z as int, 0u8);
                    }
                }
                let mut i: usize = 0;
                while i < line.len()
                    invariant
                        self.wf(),
                        self.same_frame(&l0),
                        l0.wf(),
                        l0.in_bounds(x, y, z),
                        y + 1 == sand_tower_bottom,
                        sand_tower_bottom <= sand_tower_top < l0.size_y,
                        self.size_y == l0.size_y,
                        0 <= fallen_tower_bottom <= y,
                        fallen_tower_top == fallen_tower_bottom + (sand_tower_top
                            - sand_tower_bottom),
                        gap == (sand_tower_bottom - fallen_tower_top > 1),
                        line@.len() == sand_tower_top - sand_tower_bottom + 1,
                        forall|k: int|
                            0 <= k < line@.len() ==> #[trigger] line@[k] == l0.spec_block(
                                x as int,
                                sand_tower_bottom + k,
                                z as int,
                            ) && valid_block(line@[k]),
                        0 <= i <= line@.len(),
                        self.blocks() == spec_apply(l0.blocks(), sx, sz, changes@),
                        sx == l0.size_x as int,
                        sz == l0.size_z as int,
                        forall|j: int|
                            0 <= j < changes@.len() ==> (#[trigger] changes@[j]).0 == x
                                && l0.in_bounds(changes@[j].0, changes@[j].1, changes@[j].2)
                                && valid_block(changes@[j].3),
                        distinct_cells(changes@),
                        forall|j: int|
                            0 <= j < changes@.len() ==> (gap && (#[trigger] changes@[j]).1 == y)
                                || (fallen_tower_bottom <= changes@[j].1 < fallen_tower_bottom
                                + i),
                        forall|yy: int|
                            fallen_tower_bottom <= yy < fallen_tower_bottom + i
                                ==> #[trigger] self.spec_block(x as int, yy, z as int)
                                == line@[yy - fallen_tower_bottom],
                        gap ==> self.spec_block(x as int, y as int, z as int) == 0,
                        forall|xi: int, yi: int, zi: int|
                            0 <= xi < l0.size_x && 0 <= yi < l0.size_y && 0 <= zi < l0.size_z
                                && !(xi == x && zi == z && ((fallen_tower_bottom <= yi
                                < fallen_tower_bottom + i) || (gap && yi == y)))
                                ==> #[trigger] self.spec_block(xi, yi, zi) == l0.spec_block(
                                xi,
                                yi,
                                zi,
                            ),
                    decreases line@.len() - i,
                {
                    let yy = fallen_tower_bottom + i as i16;
                    let lb = line[i];
                    if lb != self.get_block(x, yy, z) {
                        let ghost cs0 = changes@;
                        let ghost pre = *self;
                        self.set_block(x, yy, z, lb);
                        changes.push((x, yy, z, lb));
                        proof {
                            lemma_apply_snoc(l0.blocks(), sx, sz, cs0, (x, yy, z, lb));
                            lemma_update_cells(pre, *self, x as int, yy as int, z as int, lb);
                        }
                    }
                    i = i + 1;
                }
                let clear_from = if sand_tower_bottom > fallen_tower_top + 1 {
                    sand_tower_bottom
                } else {
                    fallen_tower_top + 1
                };
                let mut yy = clear_from;
                let ghost entered = changes@.len() as int;
                while yy <= sand_tower_top
                    invariant
                        self.wf(),
                        self.same_frame(&l0),
                        l0.wf(),
                        l0.in_bounds(x, y, z),
                        y + 1 == sand_tower_bottom,
                        sand_tower_bottom <= sand_tower_top < l0.size_y,
                        self.size_y == l0.size_y,
                        0 <= fallen_tower_bottom <= y,
                        fallen_tower_top == fallen_tower_bottom + (sand_tower_top
                            - sand_tower_bottom),
                        gap == (sand_tower_bottom - fallen_tower_top > 1),
                        line@.len() == sand_tower_top - sand_tower_bottom + 1,
                        forall|k: int|
                            0 <= k < line@.len() ==> #[trigger] line@[k] == l0.spec_block(
                                x as int,
                                sand_tower_bottom + k,
                                z as int,
                            ) && valid_block(line@[k]),
                        clear_from == (if sand_tower_bottom > fallen_tower_top + 1 {
                            sand_tower_bottom as int
                        } else {
                            fallen_tower_top + 1
                        }),
                        clear_from <= yy,
                        yy <= sand_tower_top + 1,
                        changes@.len() >= entered + (yy - clear_from),
                        yy > clear_from ==> self.changed,
                        self.blocks() == spec_apply(l0.blocks(), sx, sz, changes@),
                        sx == l0.size_x as int,
                        sz == l0.size_z as int,
                        forall|j: int|
                            0 <= j < changes@.len() ==> (#[trigger] changes@[j]).0 == x
                                && l0.in_bounds(changes@[j].0, changes@[j].1, changes@[j].2)
                                && valid_block(changes@[j].3),
                        distinct_cells(changes@),
                        forall|j: int|
                            0 <= j < changes@.len() ==> (gap && (#[trigger] changes@[j]).1 == y)
                                || (fallen_tower_bottom <= changes@[j].1 <= fallen_tower_top)
                                || (clear_from <= changes@[j].1 < yy),
                        forall|yi: int|
                            fallen_tower_bottom <= yi <= fallen_tower_top
                                ==> #[trigger] self.spec_block(x as int, yi, z as int)
                                == line@[yi - fallen_tower_bottom],
                        gap ==> self.spec_block(x as int, y as int, z as int) == 0,
                        forall|yi: int|
                            clear_from <= yi < yy ==> #[trigger] self.spec_block(
                                x as int,
                                yi,
                                z as int,
                            ) == 0,
                        forall|xi: int, yi: int, zi: int|
                            0 <= xi < l0.size_x && 0 <= yi < l0.size_y && 0 <= zi < l0.size_z
                                && !(xi == x && zi == z && ((fallen_tower_bottom <= yi
                                <= fallen_tower_top) || (gap && yi == y) || (clear_from <= yi
                                < yy))) ==> #[trigger] self.spec_block(xi, yi, zi)
                                == l0.spec_block(xi, yi, zi),
                    decreases sand_tower_top - yy + 1,
                {
                    let ghost cs0 = changes@;
                    let ghost pre = *self;
                    self.set_block(x, yy, z, 0);
                    changes.push((x, yy, z, 0));
                    proof {
                        lemma_apply_snoc(l0.blocks(), sx, sz, cs0, (x, yy, z, 0u8));
                        lemma_update_cells(pre, *self, x as int, yy as int, z as int, 0u8);
                    }
                    yy = yy + 1;
                }
                proof {
                    assert(fallen_tower_top < sand_tower_top);
                    assert(clear_from <= sand_tower_top);
                    assert(changes@.len() >= 1);
                }
                let ghost before_spawn = *self;
                self.reset_spawn();
                proof {
                    assert forall|xi: int, yi: int, zi: int|
                        0 <= xi < l0.size_x && 0 <= yi < l0.size_y && 0 <= zi < l0.size_z
                            implies #[trigger] self.spec_block(xi, yi, zi) == before_spawn.spec_block(
                            xi,
                            yi,
                            zi,
                        ) by {}
                }
                return changes;
            }
        }
        let ghost y0 = y as int;
        let mut y = y;
        let mut b = b;
        if data.fall {
            let mut done3 = false;
            while !done3 && y > 0
                invariant
                    *self == l0,
                    self.wf(),
                    self.in_bounds(x, y, z),
                    0 <= y <= y0,
                    self.spec_fall_bottom(x as int, z as int, y as int)
                        == self.spec_fall_bottom(x as int, z as int, y0),
                    done3 ==> self.spec_fall_bottom(x as int, z as int, y0) == y,
                decreases y + if done3 { 0int } else { 1int },
            {
                let nb = self.get_block(x, y - 1, z);
                if BlockState::of(nb).fluid {
                    y = y - 1;
                } else {
                    done3 = true;
                }
            }
        }
        if data.slab.is_some() && y > 0 {
            if self.get_block(x, y - 1, z) == b {
                b = match data.slab {
                    Some(p) => p,
                    None => b,
                };
                y = y - 1;
            }
        }
        let ghost cs0 = changes@;
        self.set_block(x, y, z, b);
        changes.push((x, y, z, b));
        proof {
            lemma_apply_snoc(l0.blocks(), sx, sz, cs0, (x, y, z, b));
            assert(cs0 =~= Seq::<Change>::empty());
        }
        self.reset_spawn();
        changes
    }
}


/// The number of air cells in a block array.
pub open spec fn count_zeros(s: Seq<u8>) -> nat
    decreases s.len(),
{
    if s.len() == 0 {
        0
    } else {
        count_zeros(s.drop_last()) + if s.last() == 0u8 {
            1nat
        } else {
            0nat
        }
    }
}

proof fn lemma_count_zeros_update(s: Seq<u8>, i: int, v: u8)
    requires
        0 <= i < s.len(),
        s[i] == 0,
        v != 0,
    ensures
        count_zeros(s.update(i, v)) + 1 == count_zeros(s),
    decreases s.len(),
{
    if i == s.len() - 1 {
        assert(s.update(i, v).drop_last() =~= s.drop_last());
        assert(s.update(i, v).last() == v);
    } else {
        assert(s.update(i, v).drop_last() =~= s.drop_last().update(i, v));
        assert(s.update(i, v).last() == s.last());
        lemma_count_zeros_update(s.drop_last(), i, v);
    }
}

/// A vector of `n` air cells.
fn zero_vec(n: usize) -> (v: Vec<u8>)
    ensures
        v@.len() == n,
        forall|i: int| 0 <= i < n ==> v@[i] == 0u8,
{
    let mut v: Vec<u8> = Vec::new();
    let mut k: usize = 0;
    while k < n
        invariant
            k <= n,
            v@.len() == k,
            forall|i: int| 0 <= i < k ==> v@[i] == 0u8,
        decreases n - k,
    {
        v.push(0);
        k = k + 1;
    }
    v
}

/// One step of the water spread: sideways along either axis, or down.
pub open spec fn spec_fill_step(u: (i16, i16, i16), v: (i16, i16, i16)) -> bool {
    ||| (v.0 == u.0 - 1 && v.1 == u.1 && v.2 == u.2)
    ||| (v.0 == u.0 + 1 && v.1 == u.1 && v.2 == u.2)
    ||| (v.0 == u.0 && v.1 == u.1 && v.2 == u.2 - 1)
    ||| (v.0 == u.0 && v.1 == u.1 && v.2 == u.2 + 1)
    ||| (v.0 == u.0 && v.1 == u.1 - 1 && v.2 == u.2)
}

impl Level {
    /// A walk from `start` through in-bounds air cells, each step
    /// sideways or downward.
    pub open spec fn spec_air_path(&self, start: (i16, i16, i16), p: Seq<(i16, i16, i16)>) -> bool {
        &&& p.len() >= 1
        &&& p[0] == start
        &&& forall|i: int|
            0 <= i < p.len() ==> self.in_bounds((#[trigger] p[i]).0, p[i].1, p[i].2)
                && self.spec_block(p[i].0 as int, p[i].1 as int, p[i].2 as int) == 0
        &&& forall|i: int| 0 <= i < p.len() - 1 ==> spec_fill_step(#[trigger] p[i], p[i + 1])
    }

    /// The cell can be reached from `start` through air.
    pub open spec fn spec_fill_reaches(&self, start: (i16, i16, i16), cell: (i16, i16, i16)) -> bool {
        exists|p: Seq<(i16, i16, i16)>| self.spec_air_path(start, p) && p.last() == cell
    }
}

/// A reachable cell's air neighbour is reachable too.
proof fn lemma_fill_reaches_extend(
    l: &Level,
    start: (i16, i16, i16),
    u: (i16, i16, i16),
    v: (i16, i16, i16),
)
    requires
        l.spec_fill_reaches(start, u),
        l.in_bounds(v.0, v.1, v.2),
        l.spec_block(v.0 as int, v.1 as int, v.2 as int) == 0,
        spec_fill_step(u, v),
    ensures
        l.spec_fill_reaches(start, v),
{
    let p = choose|p: Seq<(i16, i16, i16)>| l.spec_air_path(start, p) && p.last() == u;
    let q = p.push(v);
    assert(q[0] == p[0]);
    assert forall|i: int|
        0 <= i < q.len() implies l.in_bounds((#[trigger] q[i]).0, q[i].1, q[i].2)
            && l.spec_block(q[i].0 as int, q[i].1 as int, q[i].2 as int) == 0 by {
        if i < p.len() {
            assert(q[i] == p[i]);
        }
    }
    assert forall|i: int| 0 <= i < q.len() - 1 implies spec_fill_step(#[trigger] q[i], q[i + 1]) by {
        if i < p.len() - 1 {
            assert(q[i] == p[i] && q[i + 1] == p[i + 1]);
        } else {
            assert(q[i] == p.last() && q[i + 1] == v);
        }
    }
    assert(l.spec_air_path(start, q) && q.last() == v);
}

/// Once the filled region is closed under spreading steps, every
/// reachable cell is filled.
proof fn lemma_path_filled(
    l0: &Level,
    lf: &Level,
    b: u8,
    start: (i16, i16, i16),
    p: Seq<(i16, i16, i16)>,
)
    requires
        l0.size_x == lf.size_x && l0.size_y == lf.size_y && l0.size_z == lf.size_z,
        l0.spec_air_path(start, p),
        l0.spec_block(start.0 as int, start.1 as int, start.2 as int) == 0 ==> lf.spec_block(
            start.0 as int,
            start.1 as int,
            start.2 as int,
        ) == b,
        forall|u: (i16, i16, i16), v: (i16, i16, i16)|
            l0.in_bounds(u.0, u.1, u.2) && l0.spec_block(u.0 as int, u.1 as int, u.2 as int) == 0
                && lf.spec_block(u.0 as int, u.1 as int, u.2 as int) == b && l0.in_bounds(
                v.0,
                v.1,
                v.2,
            ) && #[trigger] spec_fill_step(u, v) ==> lf.spec_block(
                v.0 as int,
                v.1 as int,
                v.2 as int,
            ) == b || l0.spec_block(v.0 as int, v.1 as int, v.2 as int) != 0,
    ensures
        lf.spec_block(p.last().0 as int, p.last().1 as int, p.last().2 as int) == b,
    decreases p.len(),
{
    if p.len() == 1 {
        assert(p.last() == start);
    } else {
        let q = p.drop_last();
        assert(q[0] == p[0]);
        assert forall|i: int|
            0 <= i < q.len() implies l0.in_bounds((#[trigger] q[i]).0, q[i].1, q[i].2)
                && l0.spec_block(q[i].0 as int, q[i].1 as int, q[i].2 as int) == 0 by {
            assert(q[i] == p[i]);
        }
        assert forall|i: int|
            0 <= i < q.len() - 1 implies spec_fill_step(#[trigger] q[i], q[i + 1]) by {
            assert(q[i] == p[i] && q[i + 1] == p[i + 1]);
        }
        lemma_path_filled(l0, lf, b, start, q);
        let u = p[p.len() - 2];
        let v = p.last();
        assert(q.last() == u);
        assert(spec_fill_step(u, v));
    }
}

/// The filled region is closed under spreading steps, up to the cells
/// still waiting on the stack: a filled cell's step-neighbour is filled,
/// was never air, or is queued.
#[verifier::opaque]
pub open spec fn spec_fill_frontier(
    l0: Level,
    cur: Level,
    b: u8,
    st: Seq<(i16, i16, i16)>,
) -> bool {
    forall|u: (i16, i16, i16), v: (i16, i16, i16)|
        l0.in_bounds(u.0, u.1, u.2) && l0.spec_block(u.0 as int, u.1 as int, u.2 as int) == 0
            && cur.spec_block(u.0 as int, u.1 as int, u.2 as int) == b && l0.in_bounds(
            v.0,
            v.1,
            v.2,
        ) && #[trigger] spec_fill_step(u, v) ==> cur.spec_block(
            v.0 as int,
            v.1 as int,
            v.2 as int,
        ) == b || l0.spec_block(v.0 as int, v.1 as int, v.2 as int) != 0 || (exists|k: int|
            0 <= k < st.len() && st[k] == v)
}

/// After filling the popped cell and queueing its neighbours, the
/// frontier property holds again.
proof fn lemma_frontier_after_fill(
    l0: Level,
    pre: Level,
    cur: Level,
    b: u8,
    s0: Seq<(i16, i16, i16)>,
    st: Seq<(i16, i16, i16)>,
    top: (i16, i16, i16),
)
    requires
        l0.wf(),
        pre.same_frame(&l0),
        cur.same_frame(&l0),
        b != 0,
        spec_fill_frontier(l0, pre, b, s0),
        s0.len() > 0,
        s0.last() == top,
        l0.in_bounds(top.0, top.1, top.2),
        forall|xi: int, yi: int, zi: int|
            0 <= xi < pre.size_x && 0 <= yi < pre.size_y && 0 <= zi < pre.size_z
                ==> #[trigger] cur.spec_block(xi, yi, zi) == if xi == top.0 as int && yi
                == top.1 as int && zi == top.2 as int {
                b
            } else {
                pre.spec_block(xi, yi, zi)
            },
        st.len() >= s0.len() - 1,
        forall|k: int| 0 <= k < s0.len() - 1 ==> #[trigger] st[k] == s0[k],
        forall|v: (i16, i16, i16)|
            l0.in_bounds(v.0, v.1, v.2) && #[trigger] spec_fill_step(top, v) ==> exists|k: int|
                0 <= k < st.len() && st[k] == v,
    ensures
        spec_fill_frontier(l0, cur, b, st),
{
    reveal(spec_fill_frontier);
    assert forall|u: (i16, i16, i16), v: (i16, i16, i16)|
        l0.in_bounds(u.0, u.1, u.2) && l0.spec_block(u.0 as int, u.1 as int, u.2 as int) == 0
            && cur.spec_block(u.0 as int, u.1 as int, u.2 as int) == b && l0.in_bounds(
            v.0,
            v.1,
            v.2,
        ) && #[trigger] spec_fill_step(u, v) implies cur.spec_block(
        v.0 as int,
        v.1 as int,
        v.2 as int,
    ) == b || l0.spec_block(v.0 as int, v.1 as int, v.2 as int) != 0 || (exists|k: int|
        0 <= k < st.len() && st[k] == v) by {
        if u == top {
            assert(exists|k: int| 0 <= k < st.len() && st[k] == v);
        } else {
            assert(cur.spec_block(u.0 as int, u.1 as int, u.2 as int) == pre.spec_block(
                u.0 as int,
                u.1 as int,
                u.2 as int,
            ));
            assert(pre.spec_block(v.0 as int, v.1 as int, v.2 as int) == b || l0.spec_block(
                v.0 as int,
                v.1 as int,
                v.2 as int,
            ) != 0 || (exists|k: int| 0 <= k < s0.len() && s0[k] == v));
            if pre.spec_block(v.0 as int, v.1 as int, v.2 as int) == b {
                if v == top {
                } else {
                    assert(cur.spec_block(v.0 as int, v.1 as int, v.2 as int) == b);
                }
            } else if l0.spec_block(v.0 as int, v.1 as int, v.2 as int) == 0 {
                if exists|k: int| 0 <= k < s0.len() - 1 && s0[k] == v {
                    let k0 = choose|k: int| 0 <= k < s0.len() - 1 && s0[k] == v;
                    assert(st[k0] == v);
                } else if exists|k: int| 0 <= k < s0.len() && s0[k] == v {
                    let k0 = choose|k: int| 0 <= k < s0.len() && s0[k] == v;
                    assert(k0 == s0.len() - 1 && v == top);
                    assert(cur.spec_block(v.0 as int, v.1 as int, v.2 as int) == b);
                }
            }
        }
    }
}

/// Dropping a stale, already filled entry keeps the frontier property.
proof fn lemma_frontier_after_skip(
    l0: Level,
    cur: Level,
    b: u8,
    s0: Seq<(i16, i16, i16)>,
    st: Seq<(i16, i16, i16)>,
    top: (i16, i16, i16),
)
    requires
        b != 0,
        spec_fill_frontier(l0, cur, b, s0),
        s0.len() > 0,
        s0.last() == top,
        cur.spec_block(top.0 as int, top.1 as int, top.2 as int) == b || l0.spec_block(
            top.0 as int,
            top.1 as int,
            top.2 as int,
        ) != 0,
        st == s0.drop_last(),
    ensures
        spec_fill_frontier(l0, cur, b, st),
{
    reveal(spec_fill_frontier);
    assert forall|u: (i16, i16, i16), v: (i16, i16, i16)|
        l0.in_bounds(u.0, u.1, u.2) && l0.spec_block(u.0 as int, u.1 as int, u.2 as int) == 0
            && cur.spec_block(u.0 as int, u.1 as int, u.2 as int) == b && l0.in_bounds(
            v.0,
            v.1,
            v.2,
        ) && #[trigger] spec_fill_step(u, v) implies cur.spec_block(
        v.0 as int,
        v.1 as int,
        v.2 as int,
    ) == b || l0.spec_block(v.0 as int, v.1 as int, v.2 as int) != 0 || (exists|k: int|
        0 <= k < st.len() && st[k] == v) by {
        if cur.spec_block(v.0 as int, v.1 as int, v.2 as int) != b && l0.spec_block(
            v.0 as int,
            v.1 as int,
            v.2 as int,
        ) == 0 {
            if exists|k: int| 0 <= k < s0.len() - 1 && s0[k] == v {
                let k0 = choose|k: int| 0 <= k < s0.len() - 1 && s0[k] == v;
                assert(st[k0] == v);
            } else if exists|k: int| 0 <= k < s0.len() && s0[k] == v {
                let k0 = choose|k: int| 0 <= k < s0.len() && s0[k] == v;
                assert(k0 == s0.len() - 1 && v == top);
                assert(false);
            }
        }
    }
}

impl Level {
    /// Everything the filling loop keeps true between visits.
    pub open spec fn spec_fill_inv(
        l0: Level,
        cur: Level,
        b: u8,
        start: (i16, i16, i16),
        st: Seq<(i16, i16, i16)>,
    ) -> bool {
        &&& cur.wf()
        &&& cur.same_frame(&l0)
        &&& l0.wf()
        &&& l0.in_bounds(start.0, start.1, start.2)
        &&& valid_block(b)
        &&& b != 0
        &&& cur.spawn_x == l0.spawn_x
        &&& cur.spawn_y == l0.spawn_y
        &&& cur.spawn_z == l0.spawn_z
        &&& (forall|k: int|
            0 <= k < st.len() ==> l0.in_bounds((#[trigger] st[k]).0, st[k].1, st[k].2) && (
            l0.spec_block(st[k].0 as int, st[k].1 as int, st[k].2 as int) == 0
                ==> l0.spec_fill_reaches(start, st[k])))
        &&& (forall|i: int|
            0 <= i < cur.blocks().len() ==> cur.blocks()[i] == l0.blocks()[i] || (l0.blocks()[i]
                == 0 && cur.blocks()[i] == b))
        &&& (forall|c: (i16, i16, i16)|
            l0.in_bounds(c.0, c.1, c.2) && cur.spec_block(c.0 as int, c.1 as int, c.2 as int)
                != l0.spec_block(c.0 as int, c.1 as int, c.2 as int)
                ==> #[trigger] l0.spec_fill_reaches(start, c))
        &&& spec_fill_frontier(l0, cur, b, st)
        &&& (l0.spec_block(start.0 as int, start.1 as int, start.2 as int) == 0
            ==> cur.spec_block(start.0 as int, start.1 as int, start.2 as int) == b || (exists|
            k: int,
        |
            0 <= k < st.len() && st[k] == start))
        &&& (l0.spec_block(start.0 as int, start.1 as int, start.2 as int) != 0 ==> cur.blocks()
            == l0.blocks() && (st.len() == 0 || (st.len() == 1 && st[0] == start)))
        &&& cur.changed == (l0.changed || cur.blocks() != l0.blocks())
    }

    /// Fill the popped cell and queue its spreading neighbours.
    #[verifier::rlimit(100)]
    fn fill_spread(
        &mut self,
        stack: &mut Vec<(i16, i16, i16)>,
        top: (i16, i16, i16),
        b: u8,
        Ghost(l0): Ghost<Level>,
        Ghost(start): Ghost<(i16, i16, i16)>,
        Ghost(s0): Ghost<Seq<(i16, i16, i16)>>,
    )
        requires
            Level::spec_fill_inv(l0, *old(self), b, start, s0),
            s0.len() > 0,
            s0.last() == top,
            old(stack)@ == s0.drop_last(),
            old(self).spec_block(top.0 as int, top.1 as int, top.2 as int) == 0,
        ensures
            Level::spec_fill_inv(l0, *final(self), b, start, final(stack)@),
            count_zeros(final(self).blocks()) < count_zeros(old(self).blocks()),
    {
        let (cx, cy, cz) = top;
        proof {
            lemma_idx_bounds(
                l0.size_x as int,
                l0.size_y as int,
                l0.size_z as int,
                cx as int,
                cy as int,
                cz as int,
            );
        }
        let ghost pre = *self;
        proof {
            assert(l0.spec_block(cx as int, cy as int, cz as int) == 0);
            assert(l0.spec_fill_reaches(start, top));
        }
        self.set_block(cx, cy, cz, b);
        proof {
            lemma_count_zeros_update(
                pre.blocks(),
                l0.idx(cx as int, cy as int, cz as int),
                b,
            );
            lemma_update_cells(pre, *self, cx as int, cy as int, cz as int, b);
            if l0.spec_block(start.0 as int, start.1 as int, start.2 as int) == 0 {
                if l0.idx(cx as int, cy as int, cz as int) == l0.idx(
                    start.0 as int,
                    start.1 as int,
                    start.2 as int,
                ) {
                    lemma_idx_injective(
                        l0.size_x as int,
                        l0.size_y as int,
                        l0.size_z as int,
                        cx as int,
                        cy as int,
                        cz as int,
                        start.0 as int,
                        start.1 as int,
                        start.2 as int,
                    );
                    assert(self.spec_block(start.0 as int, start.1 as int, start.2 as int)
                        == b);
                }
            }
            assert(self.blocks()[l0.idx(cx as int, cy as int, cz as int)] == b);
            assert(l0.blocks()[l0.idx(cx as int, cy as int, cz as int)] == 0);
            assert(self.blocks() != l0.blocks());
        }
        let ghost mut i_xm: int = -1;
        let ghost mut i_xp: int = -1;
        let ghost mut i_zm: int = -1;
        let ghost mut i_zp: int = -1;
        let ghost mut i_ym: int = -1;
        if cx > 0 {
            stack.push((cx - 1, cy, cz));
            proof {
                i_xm = stack@.len() - 1;
                let v: (i16, i16, i16) = ((cx - 1) as i16, cy, cz);
                if l0.spec_block(v.0 as int, v.1 as int, v.2 as int) == 0 {
                    lemma_fill_reaches_extend(&l0, start, top, v);
                }
            }
        }
        if cx < self.size_x - 1 {
            stack.push((cx + 1, cy, cz));
            proof {
                i_xp = stack@.len() - 1;
                let v: (i16, i16, i16) = ((cx + 1) as i16, cy, cz);
                if l0.spec_block(v.0 as int, v.1 as int, v.2 as int) == 0 {
                    lemma_fill_reaches_extend(&l0, start, top, v);
                }
            }
        }
        if cz > 0 {
            stack.push((cx, cy, cz - 1));
            proof {
                i_zm = stack@.len() - 1;
                let v: (i16, i16, i16) = (cx, cy, (cz - 1) as i16);
                if l0.spec_block(v.0 as int, v.1 as int, v.2 as int) == 0 {
                    lemma_fill_reaches_extend(&l0, start, top, v);
                }
            }
        }
        if cz < self.size_z - 1 {
            stack.push((cx, cy, cz + 1));
            proof {
                i_zp = stack@.len() - 1;
                let v: (i16, i16, i16) = (cx, cy, (cz + 1) as i16);
                if l0.spec_block(v.0 as int, v.1 as int, v.2 as int) == 0 {
                    lemma_fill_reaches_extend(&l0, start, top, v);
                }
            }
        }
        if cy > 0 {
            stack.push((cx, cy - 1, cz));
            proof {
                i_ym = stack@.len() - 1;
                let v: (i16, i16, i16) = (cx, (cy - 1) as i16, cz);
                if l0.spec_block(v.0 as int, v.1 as int, v.2 as int) == 0 {
                    lemma_fill_reaches_extend(&l0, start, top, v);
                }
            }
        }
        proof {
            assert forall|v: (i16, i16, i16)|
                l0.in_bounds(v.0, v.1, v.2) && #[trigger] spec_fill_step(top, v)
                    implies exists|k: int| 0 <= k < stack@.len() && stack@[k] == v by {
                if v.0 == cx - 1 && v.1 == cy && v.2 == cz {
                    assert(stack@[i_xm] == v);
                } else if v.0 == cx + 1 && v.1 == cy && v.2 == cz {
                    assert(stack@[i_xp] == v);
                } else if v.0 == cx && v.1 == cy && v.2 == cz - 1 {
                    assert(stack@[i_zm] == v);
                } else if v.0 == cx && v.1 == cy && v.2 == cz + 1 {
                    assert(stack@[i_zp] == v);
                } else {
                    assert(v.0 == cx && v.1 == cy - 1 && v.2 == cz);
                    assert(stack@[i_ym] == v);
                }
            }
            assert forall|k: int| 0 <= k < s0.len() - 1 implies #[trigger] stack@[k] == s0[k] by {}
            lemma_frontier_after_fill(l0, pre, *self, b, s0, stack@, top);
            if l0.spec_block(start.0 as int, start.1 as int, start.2 as int) == 0
                && self.spec_block(start.0 as int, start.1 as int, start.2 as int) != b {
                let k0 = choose|k: int| 0 <= k < s0.len() && s0[k] == start;
                assert(s0[k0] == start);
                if k0 == s0.len() - 1 {
                    assert(top == start);
                    assert(false);
                }
                assert(stack@[k0] == start);
            }
        }
    }

    /// Visit the top of the work stack: fill it if it is still air and
    /// queue its spreading neighbours.
    #[verifier::rlimit(100)]
    fn fill_visit(
        &mut self,
        stack: &mut Vec<(i16, i16, i16)>,
        b: u8,
        Ghost(l0): Ghost<Level>,
        Ghost(start): Ghost<(i16, i16, i16)>,
    )
        requires
            Level::spec_fill_inv(l0, *old(self), b, start, old(stack)@),
            old(stack)@.len() > 0,
        ensures
            Level::spec_fill_inv(l0, *final(self), b, start, final(stack)@),
            count_zeros(final(self).blocks()) < count_zeros(old(self).blocks()) || (count_zeros(
                final(self).blocks(),
            ) == count_zeros(old(self).blocks()) && final(stack)@.len() < old(stack)@.len()),
    {
        let ghost s0 = stack@;
        let top = stack.pop().unwrap();
        let (cx, cy, cz) = top;
        proof {
            assert(s0[s0.len() - 1] == top);
            lemma_idx_bounds(
                l0.size_x as int,
                l0.size_y as int,
                l0.size_z as int,
                cx as int,
                cy as int,
                cz as int,
            );
        }
        if self.get_block(cx, cy, cz) == 0 {
            self.fill_spread(stack, top, b, Ghost(l0), Ghost(start), Ghost(s0));
        } else {
            proof {
                assert(self.spec_block(cx as int, cy as int, cz as int) == b || l0.spec_block(
                    cx as int,
                    cy as int,
                    cz as int,
                ) != 0);
                assert(stack@ =~= s0.drop_last());
                lemma_frontier_after_skip(l0, *self, b, s0, stack@, top);
                if l0.spec_block(start.0 as int, start.1 as int, start.2 as int) == 0
                    && self.spec_block(start.0 as int, start.1 as int, start.2 as int) != b {
                    let k0 = choose|k: int| 0 <= k < s0.len() && s0[k] == start;
                    assert(s0[k0] == start);
                    if k0 == s0.len() - 1 {
                        assert(top == start);
                        assert(self.spec_block(start.0 as int, start.1 as int, start.2 as int)
                            != 0);
                        assert(false);
                    }
                    assert(stack@[k0] == start);
                }
            }
        }
    }

    /// Fill connected air with `b`, spreading sideways and downward:
    /// exactly the cells reachable from the start through air are filled,
    /// and nothing else moves.
    pub fn flood_fill(&mut self, x: i16, y: i16, z: i16, b: u8)
        requires
            old(self).wf(),
            old(self).in_bounds(x, y, z),
            valid_block(b),
            b != 0,
        ensures
            final(self).wf(),
            final(self).same_frame(old(self)),
            final(self).spawn_x == old(self).spawn_x,
            final(self).spawn_y == old(self).spawn_y,
            final(self).spawn_z == old(self).spawn_z,
            forall|i: int|
                0 <= i < final(self).blocks().len() ==> final(self).blocks()[i] == old(
                    self,
                ).blocks()[i] || (old(self).blocks()[i] == 0 && final(self).blocks()[i] == b),
            forall|c: (i16, i16, i16)|
                old(self).in_bounds(c.0, c.1, c.2) && final(self).spec_block(
                    c.0 as int,
                    c.1 as int,
                    c.2 as int,
                ) != old(self).spec_block(c.0 as int, c.1 as int, c.2 as int) ==> #[trigger] old(
                    self,
                ).spec_fill_reaches((x, y, z), c),
            forall|c: (i16, i16, i16)|
                #[trigger] old(self).spec_fill_reaches((x, y, z), c) ==> final(self).spec_block(
                    c.0 as int,
                    c.1 as int,
                    c.2 as int,
                ) == b,
            old(self).spec_block(x as int, y as int, z as int) == 0 ==> final(self).spec_block(
                x as int,
                y as int,
                z as int,
            ) == b,
            final(self).changed == (old(self).changed || old(self).spec_block(
                x as int,
                y as int,
                z as int,
            ) == 0),
    {
        let ghost l0 = *self;
        let ghost start = (x, y, z);
        let mut stack: Vec<(i16, i16, i16)> = Vec::new();
        stack.push((x, y, z));
        proof {
            assert(stack@[0] == (x, y, z));
            if l0.spec_block(x as int, y as int, z as int) == 0 {
                let p = seq![(x, y, z)];
                assert(p[0] == (x, y, z));
                assert(l0.spec_air_path(start, p));
                assert(p.last() == (x, y, z));
                assert(l0.spec_fill_reaches(start, (x, y, z)));
            }
            assert(spec_fill_frontier(l0, *self, b, stack@)) by {
                reveal(spec_fill_frontier);
            }
            assert(Level::spec_fill_inv(l0, *self, b, start, stack@));
        }
        while stack.len() > 0
            invariant
                Level::spec_fill_inv(l0, *self, b, start, stack@),
                start == (x, y, z),
            decreases count_zeros(self.blocks()), stack@.len(),
        {
            self.fill_visit(&mut stack, b, Ghost(l0), Ghost(start));
        }
        proof {
            assert forall|u: (i16, i16, i16), v: (i16, i16, i16)|
                l0.in_bounds(u.0, u.1, u.2) && l0.spec_block(u.0 as int, u.1 as int, u.2 as int)
                    == 0 && self.spec_block(u.0 as int, u.1 as int, u.2 as int) == b
                    && l0.in_bounds(v.0, v.1, v.2) && #[trigger] spec_fill_step(u, v)
                    implies self.spec_block(v.0 as int, v.1 as int, v.2 as int) == b
                    || l0.spec_block(v.0 as int, v.1 as int, v.2 as int) != 0 by {
                reveal(spec_fill_frontier);
            }
            assert forall|c: (i16, i16, i16)|
                #[trigger] l0.spec_fill_reaches(start, c) implies self.spec_block(
                c.0 as int,
                c.1 as int,
                c.2 as int,
            ) == b by {
                let p = choose|p: Seq<(i16, i16, i16)>|
                    l0.spec_air_path(start, p) && p.last() == c;
                lemma_path_filled(&l0, self, b, start, p);
            }
            if l0.spec_block(x as int, y as int, z as int) == 0 {
                let p = seq![(x, y, z)];
                assert(p[0] == (x, y, z));
                assert(l0.spec_air_path(start, p));
                assert(p.last() == (x, y, z));
                assert(l0.spec_fill_reaches(start, (x, y, z)));
                assert(self.spec_block(x as int, y as int, z as int) == b);
                lemma_idx_bounds(
                    l0.size_x as int,
                    l0.size_y as int,
                    l0.size_z as int,
                    x as int,
                    y as int,
                    z as int,
                );
                assert(self.blocks()[l0.idx(x as int, y as int, z as int)] == b);
                assert(l0.blocks()[l0.idx(x as int, y as int, z as int)] == 0);
                assert(self.blocks() != l0.blocks());
            }
        }
    }

    /// The cell is inside the level and holds air.
    pub open spec fn cell_air(&self, xi: int, yi: int, zi: int) -> bool {
        &&& 0 <= xi < self.size_x
        &&& 0 <= yi < self.size_y
        &&& 0 <= zi < self.size_z
        &&& self.spec_block(xi, yi, zi) == 0
    }

    /// Every cell of the half-open box is inside the level and holds air.
    pub open spec fn spec_region_air(
        &self,
        x0: int,
        x1: int,
        y0: int,
        y1: int,
        z0: int,
        z1: int,
    ) -> bool {
        forall|xi: int, yi: int, zi: int|
            x0 <= xi < x1 && y0 <= yi < y1 && z0 <= zi < z1 ==> #[trigger] self.cell_air(xi, yi, zi)
    }

    /// One run of cells along the x axis, all in bounds and air.
    fn row_air(&self, x0: i16, x1: i16, yy: i16, zz: i16) -> (r: bool)
        requires
            self.wf(),
            x0 <= x1,
        ensures
            r == self.spec_region_air(
                x0 as int,
                x1 as int,
                yy as int,
                yy as int + 1,
                zz as int,
                zz as int + 1,
            ),
    {
        let mut xx = x0;
        while xx < x1
            invariant
                self.wf(),
                x0 <= xx <= x1,
                forall|xi: int, yi: int, zi: int|
                    x0 <= xi < xx && yy <= yi < yy + 1 && zz <= zi < zz + 1 ==> #[trigger] self.cell_air(xi, yi, zi),
            decreases x1 - xx,
        {
            if xx < 0 || xx >= self.size_x || yy < 0 || yy >= self.size_y || zz < 0
                || zz >= self.size_z {
                proof {
                    assert(!self.cell_air(xx as int, yy as int, zz as int));
                }
                return false;
            }
            if self.get_block(xx, yy, zz) != 0 {
                proof {
                    assert(!self.cell_air(xx as int, yy as int, zz as int));
                }
                return false;
            }
            proof {
                assert(self.cell_air(xx as int, yy as int, zz as int));
            }
            xx = xx + 1;
        }
        proof {
            assert(xx == x1);
            assert(self.spec_region_air(
                x0 as int,
                x1 as int,
                yy as int,
                yy as int + 1,
                zz as int,
                zz as int + 1,
            ));
        }
        true
    }

    /// One horizontal layer of cells, all in bounds and air.
    fn layer_air(&self, x0: i16, x1: i16, yy: i16, z0: i16, z1: i16) -> (r: bool)
        requires
            self.wf(),
            x0 <= x1,
            z0 <= z1,
        ensures
            r == self.spec_region_air(
                x0 as int,
                x1 as int,
                yy as int,
                yy as int + 1,
                z0 as int,
                z1 as int,
            ),
    {
        let mut zz = z0;
        while zz < z1
            invariant
                self.wf(),
                x0 <= x1,
                z0 <= zz <= z1,
                self.spec_region_air(
                    x0 as int,
                    x1 as int,
                    yy as int,
                    yy as int + 1,
                    z0 as int,
                    zz as int,
                ),
            decreases z1 - zz,
        {
            if !self.row_air(x0, x1, yy, zz) {
                proof {
                    assert(!self.spec_region_air(
                        x0 as int,
                        x1 as int,
                        yy as int,
                        yy as int + 1,
                        zz as int,
                        zz as int + 1,
                    ));
                }
                return false;
            }
            zz = zz + 1;
        }
        true
    }

    /// A half-open box of cells, all in bounds and air.
    fn region_air(&self, x0: i16, x1: i16, y0: i16, y1: i16, z0: i16, z1: i16) -> (r: bool)
        requires
            self.wf(),
            x0 <= x1,
            z0 <= z1,
        ensures
            r == self.spec_region_air(
                x0 as int,
                x1 as int,
                y0 as int,
                y1 as int,
                z0 as int,
                z1 as int,
            ),
    {
        let mut yy = y0;
        if y1 < y0 {
            return true;
        }
        while yy < y1
            invariant
                self.wf(),
                x0 <= x1,
                z0 <= z1,
                y0 <= yy <= y1,
                self.spec_region_air(
                    x0 as int,
                    x1 as int,
                    y0 as int,
                    yy as int,
                    z0 as int,
                    z1 as int,
                ),
            decreases y1 - yy,
        {
            if !self.layer_air(x0, x1, yy, z0, z1) {
                return false;
            }
            yy = yy + 1;
        }
        true
    }

    /// The exact region test of the tree planter: a 3-wide box for the
    /// trunk part and a 5-wide box for the crown must be inside the level
    /// and entirely air.
    pub open spec fn spec_is_space_for_tree(&self, x: int, y: int, z: int, h: int) -> bool {
        &&& self.spec_region_air(x - 1, x + 2, y, y + h - 4, z - 1, z + 2)
        &&& self.spec_region_air(x - 2, x + 3, y + h - 4, y + h, z - 2, z + 3)
    }

    pub fn is_space_for_tree(&self, x: i16, y: i16, z: i16, height: i16) -> (r: bool)
        requires
            self.wf(),
            0 <= height,
            y + height <= i16::MAX,
            -3 <= x && -3 <= y && -3 <= z,
            x <= i16::MAX - 3 && z <= i16::MAX - 3,
        ensures
            r == self.spec_is_space_for_tree(x as int, y as int, z as int, height as int),
    {
        let base_height = height - 4;
        if !self.region_air(x - 1, x + 2, y, y + base_height, z - 1, z + 2) {
            return false;
        }
        if !self.region_air(x - 2, x + 3, y + base_height, y + height, z - 2, z + 3) {
            return false;
        }
        true
    }
}


/// The effect of one cell update, read back through coordinates.
pub proof fn lemma_update_cells(pre: Level, post: Level, x: int, y: int, z: int, b: u8)
    requires
        pre.wf(),
        0 <= x < pre.size_x,
        0 <= y < pre.size_y,
        0 <= z < pre.size_z,
        post.size_x == pre.size_x,
        post.size_y == pre.size_y,
        post.size_z == pre.size_z,
        post.blocks() == pre.blocks().update(pre.idx(x, y, z), b),
    ensures
        forall|xi: int, yi: int, zi: int|
            0 <= xi < pre.size_x && 0 <= yi < pre.size_y && 0 <= zi < pre.size_z
                ==> #[trigger] post.spec_block(xi, yi, zi) == if xi == x && yi == y && zi == z {
                b
            } else {
                pre.spec_block(xi, yi, zi)
            },
{
    lemma_idx_bounds(
        pre.size_x as int,
        pre.size_y as int,
        pre.size_z as int,
        x,
        y,
        z,
    );
    assert forall|xi: int, yi: int, zi: int|
        0 <= xi < pre.size_x && 0 <= yi < pre.size_y && 0 <= zi < pre.size_z
            implies #[trigger] post.spec_block(xi, yi, zi) == if xi == x && yi == y && zi == z {
            b
        } else {
            pre.spec_block(xi, yi, zi)
        } by {
        lemma_idx_bounds(
            pre.size_x as int,
            pre.size_y as int,
            pre.size_z as int,
            xi,
            yi,
            zi,
        );
        if pre.idx(xi, yi, zi) == pre.idx(x, y, z) {
            lemma_idx_injective(
                pre.size_x as int,
                pre.size_y as int,
                pre.size_z as int,
                xi,
                yi,
                zi,
                x,
                y,
                z,
            );
        }
    }
}

/// The block of the flat world at altitude `yy`: lava floor, stone body,
/// three dirt layers and a grass top, air above the midline.
pub open spec fn spec_flat_block(yy: int, sy: int) -> u8 {
    if yy > sy / 2 {
        0u8
    } else if yy == 0 {
        10u8
    } else if yy < sy / 2 - 3 {
        1u8
    } else if yy < sy / 2 {
        3u8
    } else {
        2u8
    }
}

impl Level {
    /// One row of the flat filler, along z at a fixed column and height.
    fn flat_row(&mut self, x: i16, yy: i16, b: u8)
        requires
            old(self).wf(),
            0 <= x < old(self).size_x,
            0 <= yy < old(self).size_y,
            valid_block(b),
        ensures
            final(self).wf(),
            final(self).same_frame(old(self)),
            final(self).spawn_x == old(self).spawn_x,
            final(self).spawn_y == old(self).spawn_y,
            final(self).spawn_z == old(self).spawn_z,
            final(self).spawn_yaw == old(self).spawn_yaw,
            final(self).spawn_pitch == old(self).spawn_pitch,
            final(self).changed == (old(self).changed || old(self).size_z > 0),
            forall|xi: int, yi: int, zi: int|
                0 <= xi < old(self).size_x && 0 <= yi < old(self).size_y && 0 <= zi < old(
                    self,
                ).size_z ==> #[trigger] final(self).spec_block(xi, yi, zi) == if xi == x && yi
                    == yy {
                    b
                } else {
                    old(self).spec_block(xi, yi, zi)
                },
    {
        let ghost l0 = *self;
        let mut zz: i16 = 0;
        while zz < self.size_z
            invariant
                self.wf(),
                self.same_frame(&l0),
                l0.wf(),
                0 <= x < l0.size_x,
                0 <= yy < l0.size_y,
                valid_block(b),
                0 <= zz <= l0.size_z,
                self.spawn_x == l0.spawn_x,
                self.spawn_y == l0.spawn_y,
                self.spawn_z == l0.spawn_z,
                self.spawn_yaw == l0.spawn_yaw,
                self.spawn_pitch == l0.spawn_pitch,
                self.changed == (l0.changed || zz > 0),
                forall|xi: int, yi: int, zi: int|
                    0 <= xi < l0.size_x && 0 <= yi < l0.size_y && 0 <= zi < l0.size_z
                        ==> #[trigger] self.spec_block(xi, yi, zi) == if xi == x && yi == yy && zi
                        < zz {
                        b
                    } else {
                        l0.spec_block(xi, yi, zi)
                    },
            decreases l0.size_z - zz,
        {
            let ghost pre = *self;
            self.set_block(x, yy, zz, b);
            proof {
                lemma_update_cells(pre, *self, x as int, yy as int, zz as int, b);
            }
            zz = zz + 1;
        }
    }

    /// One layer of the flat filler, at a fixed height.
    fn flat_layer(&mut self, yy: i16, b: u8)
        requires
            old(self).wf(),
            0 <= yy < old(self).size_y,
            valid_block(b),
        ensures
            final(self).wf(),
            final(self).same_frame(old(self)),
            final(self).spawn_x == old(self).spawn_x,
            final(self).spawn_y == old(self).spawn_y,
            final(self).spawn_z == old(self).spawn_z,
            final(self).spawn_yaw == old(self).spawn_yaw,
            final(self).spawn_pitch == old(self).spawn_pitch,
            final(self).changed == (old(self).changed || (old(self).size_x > 0 && old(
                self,
            ).size_z > 0)),
            forall|xi: int, yi: int, zi: int|
                0 <= xi < old(self).size_x && 0 <= yi < old(self).size_y && 0 <= zi < old(
                    self,
                ).size_z ==> #[trigger] final(self).spec_block(xi, yi, zi) == if yi == yy {
                    b
                } else {
                    old(self).spec_block(xi, yi, zi)
                },
    {
        let ghost l0 = *self;
        let mut xx: i16 = 0;
        while xx < self.size_x
            invariant
                self.wf(),
                self.same_frame(&l0),
                l0.wf(),
                0 <= yy < l0.size_y,
                valid_block(b),
                0 <= xx <= l0.size_x,
                self.spawn_x == l0.spawn_x,
                self.spawn_y == l0.spawn_y,
                self.spawn_z == l0.spawn_z,
                self.spawn_yaw == l0.spawn_yaw,
                self.spawn_pitch == l0.spawn_pitch,
                self.changed == (l0.changed || (xx > 0 && l0.size_z > 0)),
                forall|xi: int, yi: int, zi: int|
                    0 <= xi < l0.size_x && 0 <= yi < l0.size_y && 0 <= zi < l0.size_z
                        ==> #[trigger] self.spec_block(xi, yi, zi) == if yi == yy && xi < xx {
                        b
                    } else {
                        l0.spec_block(xi, yi, zi)
                    },
            decreases l0.size_x - xx,
        {
            self.flat_row(xx, yy, b);
            xx = xx + 1;
        }
    }

    /// Rebuild the level from its dimensions: air for the empty and the
    /// seed-driven kinds (whose terrain the caller lays on top with the
    /// noise pipeline), the layered flat world otherwise. The only failure
    /// is a negative dimension.
    #[allow(unused_variables)]
    pub fn generate(
        &mut self,
        size_x: i16,
        size_y: i16,
        size_z: i16,
        gen_type: GenerationType,
        seed: u64,
    ) -> (r: Result<(), String>)
        requires
            size_x <= 2046,
            size_y <= 1021,
            size_z <= 2046,
            size_y > 0 ==> size_x > 0 && size_z > 0,
            gen_type == GenerationType::Flat && size_x > 0 && size_z > 0 ==> size_y > 0,
        ensures
            r is Err <==> (size_x < 0 || size_y < 0 || size_z < 0),
            r matches Err(e) ==> e@ == "impossible size"@ && *final(self) == *old(self),
            r is Ok ==> {
                &&& final(self).wf()
                &&& final(self).size_x == size_x
                &&& final(self).size_y == size_y
                &&& final(self).size_z == size_z
                &&& final(self).name@ == old(self).name@
                &&& final(self).spawn_consistent()
                &&& final(self).spawn_yaw == old(self).spawn_yaw
                &&& final(self).spawn_pitch == old(self).spawn_pitch
                &&& forall|xi: int, yi: int, zi: int|
                    0 <= xi < size_x && 0 <= yi < size_y && 0 <= zi < size_z
                        ==> #[trigger] final(self).spec_block(xi, yi, zi) == if gen_type
                        == GenerationType::Flat {
                        spec_flat_block(yi, size_y as int)
                    } else {
                        0u8
                    }
            },
    {
        if size_x < 0 || size_y < 0 || size_z < 0 {
            return Err(String::from_str("impossible size"));
        }
        self.size_x = size_x;
        self.size_y = size_y;
        self.size_z = size_z;
        proof {
            assert(size_x as int * size_y as int <= 2046 * 1021) by (nonlinear_arith)
                requires
                    0 <= size_x <= 2046,
                    0 <= size_y <= 1021,
            ;
            assert((size_x as int * size_y as int) * (size_z as int) <= 2046 * 1021 * 2046)
                by (nonlinear_arith)
                requires
                    0 <= size_x as int * size_y as int <= 2046 * 1021,
                    0 <= size_z <= 2046,
            ;
        }
        let n = size_x as usize * size_y as usize * size_z as usize;
        proof {
            assert(size_x as usize as int * size_y as int == size_x as int * size_y as int)
                by (nonlinear_arith)
                requires
                    0 <= size_x,
                    0 <= size_y,
            ;
            assert((size_x as int * size_y as int) * (size_z as int) == size_x as int
                * size_y as int * size_z as int) by (nonlinear_arith);
        }
        self.data = zero_vec(n);
        proof {
            assert(self.blocks().len() == size_x as int * size_y as int * size_z as int);
            assert forall|xi: int, yi: int, zi: int|
                0 <= xi < size_x && 0 <= yi < size_y && 0 <= zi < size_z
                    implies #[trigger] self.spec_block(xi, yi, zi) == 0u8 by {
                lemma_idx_bounds(
                    size_x as int,
                    size_y as int,
                    size_z as int,
                    xi,
                    yi,
                    zi,
                );
            }
        }
        match gen_type {
            GenerationType::Empty => {},
            GenerationType::Vanilla => {},
            GenerationType::Flat => if size_x > 0 && size_z > 0 {
                let floor = size_y / 2;
                let ghost l1 = *self;
                let mut yy: i16 = 0;
                while yy <= floor
                    invariant
                        self.wf(),
                        self.same_frame(&l1),
                        l1.wf(),
                        self.size_x == size_x,
                        self.size_y == size_y,
                        self.size_z == size_z,
                        floor == size_y as int / 2,
                        size_y > 0,
                        size_x > 0 && size_z > 0 ==> size_y > 0,
                        0 <= yy <= floor + 1,
                        floor < size_y,
                        self.spawn_yaw == l1.spawn_yaw,
                        self.spawn_pitch == l1.spawn_pitch,
                        forall|xi: int, yi: int, zi: int|
                            0 <= xi < size_x && 0 <= yi < size_y && 0 <= zi < size_z
                                ==> #[trigger] self.spec_block(xi, yi, zi) == if yi < yy {
                                spec_flat_block(yi, size_y as int)
                            } else {
                                0u8
                            },
                    decreases floor + 1 - yy,
                {
                    let b: u8 = if yy == 0 {
                        10
                    } else if yy < floor - 3 {
                        1
                    } else if yy < floor {
                        3
                    } else {
                        2
                    };
                    self.flat_layer(yy, b);
                    yy = yy + 1;
                }
            },
        }
        let ghost mid = *self;
        self.reset_spawn();
        proof {
            assert forall|xi: int, yi: int, zi: int|
                0 <= xi < size_x && 0 <= yi < size_y && 0 <= zi < size_z
                    implies #[trigger] self.spec_block(xi, yi, zi) == if gen_type
                    == GenerationType::Flat {
                    spec_flat_block(yi, size_y as int)
                } else {
                    0u8
                } by {
                assert(self.spec_block(xi, yi, zi) == mid.spec_block(xi, yi, zi));
            }
        }
        Ok(())
    }
}


impl Level {
    /// Cells outside the crown box around `(x, y, z)` of height `h`.
    pub open spec fn spec_outside_tree(x: int, y: int, z: int, h: int, xi: int, yi: int, zi: int) -> bool {
        !(x - 2 <= xi <= x + 2 && y <= yi < y + h && z - 2 <= zi <= z + 2)
    }

    /// One cell of the finished tree: wood along the trunk, leaves in the
    /// two 5-wide layers and the 3-wide cap, the diagonal corners kept
    /// only where their coin flip says so, everything else untouched.
    pub open spec fn spec_tree_cell(
        l0: &Level,
        x: int,
        y: int,
        z: int,
        h: int,
        corners: Seq<bool>,
        xi: int,
        yi: int,
        zi: int,
    ) -> u8 {
        if xi == x && zi == z && y <= yi < y + h - 1 {
            17u8
        } else if y + h - 4 <= yi < y + h - 2 && x - 2 <= xi <= x + 2 && z - 2 <= zi <= z + 2 {
            if (xi == x - 2 || xi == x + 2) && (zi == z - 2 || zi == z + 2) {
                if corners[(yi - (y + h - 4)) * 4 + (if zi == z + 2 {
                    2int
                } else {
                    0int
                }) + (if xi == x + 2 {
                    1int
                } else {
                    0int
                })] {
                    18u8
                } else {
                    l0.spec_block(xi, yi, zi)
                }
            } else {
                18u8
            }
        } else if y + h - 2 <= yi < y + h && x - 1 <= xi <= x + 1 && z - 1 <= zi <= z + 1 {
            if (xi == x - 1 || xi == x + 1) && (zi == z - 1 || zi == z + 1) {
                if corners[8 + (yi - (y + h - 2)) * 4 + (if zi == z + 1 {
                    2int
                } else {
                    0int
                }) + (if xi == x + 1 {
                    1int
                } else {
                    0int
                })] {
                    18u8
                } else {
                    l0.spec_block(xi, yi, zi)
                }
            } else {
                18u8
            }
        } else {
            l0.spec_block(xi, yi, zi)
        }
    }

    /// The value a leaf row leaves in one of its cells.
    pub open spec fn spec_leaf_row_cell(
        l0: &Level,
        x: int,
        r: int,
        edge_row: bool,
        base: int,
        corners: Seq<bool>,
        zz_hi: bool,
        xi: int,
        yi: int,
        zi: int,
    ) -> u8 {
        if (xi == x - r || xi == x + r) && edge_row {
            if corners[base + (if zz_hi {
                2int
            } else {
                0int
            }) + (if xi == x + r {
                1int
            } else {
                0int
            })] {
                18u8
            } else {
                l0.spec_block(xi, yi, zi)
            }
        } else {
            18u8
        }
    }

    /// Write one row of a leaf layer: every cell becomes leaves, except
    /// that a diagonal corner keeps its block when its coin flip fails.
    fn tree_leaf_row(
        &mut self,
        x: i16,
        z: i16,
        yy: i16,
        zz_off: i16,
        r: i16,
        base: usize,
        corners: &Vec<bool>,
    )
        requires
            old(self).wf(),
            r == 1 || r == 2,
            -r <= zz_off <= r,
            0 <= x - r && x + r < old(self).size_x,
            0 <= yy < old(self).size_y,
            0 <= z - r && z + r < old(self).size_z,
            base + 4 <= corners@.len(),
        ensures
            final(self).wf(),
            final(self).same_frame(old(self)),
            final(self).spawn_x == old(self).spawn_x,
            final(self).spawn_y == old(self).spawn_y,
            final(self).spawn_z == old(self).spawn_z,
            final(self).changed,
            forall|xi: int, yi: int, zi: int|
                0 <= xi < old(self).size_x && 0 <= yi < old(self).size_y && 0 <= zi < old(
                    self,
                ).size_z ==> #[trigger] final(self).spec_block(xi, yi, zi) == if yi == yy && zi
                    == z + zz_off && x - r <= xi <= x + r {
                    Level::spec_leaf_row_cell(
                        old(self),
                        x as int,
                        r as int,
                        zz_off == -r || zz_off == r,
                        base as int,
                        corners@,
                        zz_off == r,
                        xi,
                        yi,
                        zi,
                    )
                } else {
                    old(self).spec_block(xi, yi, zi)
                },
    {
        let ghost l0 = *self;
        let cz = z + zz_off;
        let edge_row = zz_off == -r || zz_off == r;
        let mut xx = -r;
        while xx <= r
            invariant
                self.wf(),
                self.same_frame(&l0),
                l0.wf(),
                r == 1 || r == 2,
                -r <= zz_off <= r,
                cz == z + zz_off,
                edge_row == (zz_off == -r || zz_off == r),
                0 <= x - r && x + r < l0.size_x,
                0 <= yy < l0.size_y,
                0 <= z - r && z + r < l0.size_z,
                base + 4 <= corners@.len(),
                -r <= xx <= r + 1,
                self.spawn_x == l0.spawn_x,
                self.spawn_y == l0.spawn_y,
                self.spawn_z == l0.spawn_z,
                xx > 0 ==> self.changed,
                forall|xi: int, yi: int, zi: int|
                    0 <= xi < l0.size_x && 0 <= yi < l0.size_y && 0 <= zi < l0.size_z
                        ==> #[trigger] self.spec_block(xi, yi, zi) == if yi == yy && zi == cz && x
                        - r <= xi < x + xx {
                        Level::spec_leaf_row_cell(
                            &l0,
                            x as int,
                            r as int,
                            edge_row,
                            base as int,
                            corners@,
                            zz_off == r,
                            xi,
                            yi,
                            zi,
                        )
                    } else {
                        l0.spec_block(xi, yi, zi)
                    },
            decreases r + 1 - xx,
        {
            let cx = x + xx;
            let corner = (xx == -r || xx == r) && edge_row;
            if corner {
                let cn = corners.len();
                proof {
                    assert(base + 4 <= cn);
                }
                let ci = base + if zz_off == r {
                    2
                } else {
                    0
                } + if xx == r {
                    1
                } else {
                    0
                };
                if corners[ci] {
                    let ghost pre = *self;
                    self.set_block(cx, yy, cz, 18);
                    proof {
                        lemma_update_cells(pre, *self, cx as int, yy as int, cz as int, 18u8);
                    }
                }
            } else {
                let ghost pre = *self;
                self.set_block(cx, yy, cz, 18);
                proof {
                    lemma_update_cells(pre, *self, cx as int, yy as int, cz as int, 18u8);
                }
            }
            xx = xx + 1;
        }
    }

    /// Write one whole leaf layer of half-width `r` at height `yy`.
    fn tree_leaf_layer(&mut self, x: i16, z: i16, yy: i16, r: i16, base: usize, corners: &Vec<bool>)
        requires
            old(self).wf(),
            r == 1 || r == 2,
            0 <= x - r && x + r < old(self).size_x,
            0 <= yy < old(self).size_y,
            0 <= z - r && z + r < old(self).size_z,
            base + 4 <= corners@.len(),
        ensures
            final(self).wf(),
            final(self).same_frame(old(self)),
            final(self).spawn_x == old(self).spawn_x,
            final(self).spawn_y == old(self).spawn_y,
            final(self).spawn_z == old(self).spawn_z,
            final(self).changed,
            forall|xi: int, yi: int, zi: int|
                0 <= xi < old(self).size_x && 0 <= yi < old(self).size_y && 0 <= zi < old(
                    self,
                ).size_z ==> #[trigger] final(self).spec_block(xi, yi, zi) == if yi == yy && z - r
                    <= zi <= z + r && x - r <= xi <= x + r {
                    Level::spec_leaf_row_cell(
                        old(self),
                        x as int,
                        r as int,
                        zi == z - r || zi == z + r,
                        base as int,
                        corners@,
                        zi == z + r,
                        xi,
                        yi,
                        zi,
                    )
                } else {
                    old(self).spec_block(xi, yi, zi)
                },
    {
        let ghost l0 = *self;
        let mut zz = -r;
        while zz <= r
            invariant
                self.wf(),
                self.same_frame(&l0),
                l0.wf(),
                r == 1 || r == 2,
                0 <= x - r && x + r < l0.size_x,
                0 <= yy < l0.size_y,
                0 <= z - r && z + r < l0.size_z,
                base + 4 <= corners@.len(),
                -r <= zz <= r + 1,
                self.spawn_x == l0.spawn_x,
                self.spawn_y == l0.spawn_y,
                self.spawn_z == l0.spawn_z,
                zz > -r ==> self.changed,
                forall|xi: int, yi: int, zi: int|
                    0 <= xi < l0.size_x && 0 <= yi < l0.size_y && 0 <= zi < l0.size_z
                        ==> #[trigger] self.spec_block(xi, yi, zi) == if yi == yy && z - r <= zi
                        < z + zz && x - r <= xi <= x + r {
                        Level::spec_leaf_row_cell(
                            &l0,
                            x as int,
                            r as int,
                            zi == z - r || zi == z + r,
                            base as int,
                            corners@,
                            zi == z + r,
                            xi,
                            yi,
                            zi,
                        )
                    } else {
                        l0.spec_block(xi, yi, zi)
                    },
            decreases r + 1 - zz,
        {
            let ghost pre = *self;
            self.tree_leaf_row(x, z, yy, zz, r, base, corners);
            proof {
                assert forall|xi: int, yi: int, zi: int|
                    0 <= xi < l0.size_x && 0 <= yi < l0.size_y && 0 <= zi < l0.size_z
                        implies #[trigger] self.spec_block(xi, yi, zi) == if yi == yy && z - r
                        <= zi < z + zz + 1 && x - r <= xi <= x + r {
                        Level::spec_leaf_row_cell(
                            &l0,
                            x as int,
                            r as int,
                            zi == z - r || zi == z + r,
                            base as int,
                            corners@,
                            zi == z + r,
                            xi,
                            yi,
                            zi,
                        )
                    } else {
                        l0.spec_block(xi, yi, zi)
                    } by {
                    assert(pre.spec_block(xi, yi, zi) == pre.spec_block(xi, yi, zi));
                }
            }
            zz = zz + 1;
        }
    }

    /// Grow a tree: two 5-wide leaf layers, a 3-wide cap above them, and
    /// a wood trunk through the middle. The booleans decide which
    /// diagonal corner cells keep their leaves, in the order the planter
    /// visits the corners.
    pub fn grow_tree(&mut self, x: i16, y: i16, z: i16, height: i16, corners: &Vec<bool>)
        requires
            old(self).wf(),
            4 <= height,
            2 <= x && x + 2 < old(self).size_x,
            2 <= z && z + 2 < old(self).size_z,
            0 <= y,
            y + height <= old(self).size_y,
            corners@.len() >= 16,
        ensures
            final(self).wf(),
            final(self).same_frame(old(self)),
            final(self).spawn_x == old(self).spawn_x,
            final(self).spawn_y == old(self).spawn_y,
            final(self).spawn_z == old(self).spawn_z,
            final(self).changed,
            forall|xi: int, yi: int, zi: int|
                0 <= xi < old(self).size_x && 0 <= yi < old(self).size_y && 0 <= zi < old(
                    self,
                ).size_z ==> #[trigger] final(self).spec_block(xi, yi, zi) == Level::spec_tree_cell(
                    old(self),
                    x as int,
                    y as int,
                    z as int,
                    height as int,
                    corners@,
                    xi,
                    yi,
                    zi,
                ),
    {
        let ghost l0 = *self;
        let top_start = y + (height - 2);
        let low_start = y + height - 4;
        let mut yy = low_start;
        while yy < top_start
            invariant
                self.wf(),
                self.same_frame(&l0),
                l0.wf(),
                4 <= height,
                2 <= x && x + 2 < l0.size_x,
                2 <= z && z + 2 < l0.size_z,
                0 <= y,
                y + height <= l0.size_y,
                top_start == y + height - 2,
                low_start == y + height - 4,
                low_start <= yy <= top_start,
                corners@.len() >= 16,
                self.spawn_x == l0.spawn_x,
                self.spawn_y == l0.spawn_y,
                self.spawn_z == l0.spawn_z,
                yy > low_start ==> self.changed,
                forall|xi: int, yi: int, zi: int|
                    0 <= xi < l0.size_x && 0 <= yi < l0.size_y && 0 <= zi < l0.size_z
                        ==> #[trigger] self.spec_block(xi, yi, zi) == if low_start <= yi < yy && z
                        - 2 <= zi <= z + 2 && x - 2 <= xi <= x + 2 {
                        Level::spec_leaf_row_cell(
                            &l0,
                            x as int,
                            2,
                            zi == z - 2 || zi == z + 2,
                            (yi - low_start) * 4,
                            corners@,
                            zi == z + 2,
                            xi,
                            yi,
                            zi,
                        )
                    } else {
                        l0.spec_block(xi, yi, zi)
                    },
            decreases top_start - yy,
        {
            let base = ((yy - low_start) as usize) * 4;
            let ghost pre = *self;
            self.tree_leaf_layer(x, z, yy, 2, base, corners);
            proof {
                assert forall|xi: int, yi: int, zi: int|
                    0 <= xi < l0.size_x && 0 <= yi < l0.size_y && 0 <= zi < l0.size_z
                        implies #[trigger] self.spec_block(xi, yi, zi) == if low_start <= yi < yy
                        + 1 && z - 2 <= zi <= z + 2 && x - 2 <= xi <= x + 2 {
                        Level::spec_leaf_row_cell(
                            &l0,
                            x as int,
                            2,
                            zi == z - 2 || zi == z + 2,
                            (yi - low_start) * 4,
                            corners@,
                            zi == z + 2,
                            xi,
                            yi,
                            zi,
                        )
                    } else {
                        l0.spec_block(xi, yi, zi)
                    } by {
                    assert(pre.spec_block(xi, yi, zi) == pre.spec_block(xi, yi, zi));
                }
            }
            yy = yy + 1;
        }
        let mut yy = top_start;
        while yy < y + height
            invariant
                self.wf(),
                self.same_frame(&l0),
                l0.wf(),
                4 <= height,
                2 <= x && x + 2 < l0.size_x,
                2 <= z && z + 2 < l0.size_z,
                0 <= y,
                y + height <= l0.size_y,
                top_start == y + height - 2,
                low_start == y + height - 4,
                top_start <= yy <= y + height,
                corners@.len() >= 16,
                self.spawn_x == l0.spawn_x,
                self.spawn_y == l0.spawn_y,
                self.spawn_z == l0.spawn_z,
                self.changed,
                forall|xi: int, yi: int, zi: int|
                    0 <= xi < l0.size_x && 0 <= yi < l0.size_y && 0 <= zi < l0.size_z
                        ==> #[trigger] self.spec_block(xi, yi, zi) == if low_start <= yi
                        < top_start && z - 2 <= zi <= z + 2 && x - 2 <= xi <= x + 2 {
                        Level::spec_leaf_row_cell(
                            &l0,
                            x as int,
                            2,
                            zi == z - 2 || zi == z + 2,
                            (yi - low_start) * 4,
                            corners@,
                            zi == z + 2,
                            xi,
                            yi,
                            zi,
                        )
                    } else if top_start <= yi < yy && z - 1 <= zi <= z + 1 && x - 1 <= xi <= x
                        + 1 {
                        Level::spec_leaf_row_cell(
                            &l0,
                            x as int,
                            1,
                            zi == z - 1 || zi == z + 1,
                            8 + (yi - top_start) * 4,
                            corners@,
                            zi == z + 1,
                            xi,
                            yi,
                            zi,
                        )
                    } else {
                        l0.spec_block(xi, yi, zi)
                    },
            decreases y + height - yy,
        {
            let base = 8 + ((yy - top_start) as usize) * 4;
            let ghost pre = *self;
            self.tree_leaf_layer(x, z, yy, 1, base, corners);
            proof {
                assert forall|xi: int, yi: int, zi: int|
                    0 <= xi < l0.size_x && 0 <= yi < l0.size_y && 0 <= zi < l0.size_z
                        implies #[trigger] self.spec_block(xi, yi, zi) == if low_start <= yi
                        < top_start && z - 2 <= zi <= z + 2 && x - 2 <= xi <= x + 2 {
                        Level::spec_leaf_row_cell(
                            &l0,
                            x as int,
                            2,
                            zi == z - 2 || zi == z + 2,
                            (yi - low_start) * 4,
                            corners@,
                            zi == z + 2,
                            xi,
                            yi,
                            zi,
                        )
                    } else if top_start <= yi < yy + 1 && z - 1 <= zi <= z + 1 && x - 1 <= xi
                        <= x + 1 {
                        Level::spec_leaf_row_cell(
                            &l0,
                            x as int,
                            1,
                            zi == z - 1 || zi == z + 1,
                            8 + (yi - top_start) * 4,
                            corners@,
                            zi == z + 1,
                            xi,
                            yi,
                            zi,
                        )
                    } else {
                        l0.spec_block(xi, yi, zi)
                    } by {
                    assert(pre.spec_block(xi, yi, zi) == pre.spec_block(xi, yi, zi));
                }
            }
            yy = yy + 1;
        }
        let ghost after_leaves = *self;
        let mut yy = y;
        while yy < y + height - 1
            invariant
                self.wf(),
                self.same_frame(&l0),
                l0.wf(),
                4 <= height,
                2 <= x && x + 2 < l0.size_x,
                2 <= z && z + 2 < l0.size_z,
                0 <= y,
                y + height <= l0.size_y,
                top_start == y + height - 2,
                low_start == y + height - 4,
                y <= yy <= y + height - 1,
                self.changed,
                self.spawn_x == l0.spawn_x,
                self.spawn_y == l0.spawn_y,
                self.spawn_z == l0.spawn_z,
                forall|xi: int, yi: int, zi: int|
                    0 <= xi < l0.size_x && 0 <= yi < l0.size_y && 0 <= zi < l0.size_z
                        ==> #[trigger] self.spec_block(xi, yi, zi) == if xi == x && zi == z && y
                        <= yi < yy {
                        17u8
                    } else {
                        after_leaves.spec_block(xi, yi, zi)
                    },
            decreases y + height - 1 - yy,
        {
            let ghost pre = *self;
            self.set_block(x, yy, z, 17);
            proof {
                lemma_update_cells(pre, *self, x as int, yy as int, z as int, 17u8);
            }
            yy = yy + 1;
        }
        let ghost pre = *self;
        self.set_block(x, y, z, 17);
        proof {
            lemma_update_cells(pre, *self, x as int, y as int, z as int, 17u8);
            assert forall|xi: int, yi: int, zi: int|
                0 <= xi < l0.size_x && 0 <= yi < l0.size_y && 0 <= zi < l0.size_z
                    implies #[trigger] self.spec_block(xi, yi, zi) == Level::spec_tree_cell(
                    &l0,
                    x as int,
                    y as int,
                    z as int,
                    height as int,
                    corners@,
                    xi,
                    yi,
                    zi,
                ) by {
                assert(after_leaves.spec_block(xi, yi, zi) == after_leaves.spec_block(xi, yi, zi));
                assert(pre.spec_block(xi, yi, zi) == pre.spec_block(xi, yi, zi));
            }
        }
    }
}




/// What a gzip stream decodes to, if it decodes at all.
pub uninterp spec fn gunzip_of(b: Seq<u8>) -> Option<Seq<u8>>;

/// Relies on flate2's GzEncoder: the stream it produces decodes back to
/// exactly the bytes that were written into it, and writing into an
/// in-memory buffer cannot fail.
#[verifier::external_body]
fn gzip_compress(data: &Vec<u8>, fast: bool) -> (r: Option<Vec<u8>>)
    ensures
        r is Some,
        r matches Some(v) ==> gunzip_of(v@) == Some(data@),
{
    let mut e = flate2::write::GzEncoder::new(
        Vec::new(),
        if fast {
            flate2::Compression::fast()
        } else {
            flate2::Compression::default()
        },
    );
    if std::io::Write::write_all(&mut e, data).is_err() {
        return None;
    }
    e.finish().ok()
}

/// Relies on flate2's GzDecoder: decoding a gzip stream is a function of
/// the stream's bytes alone.
#[verifier::external_body]
fn gzip_decompress(data: &Vec<u8>) -> (r: Option<Vec<u8>>)
    ensures
        r matches Some(v) ==> gunzip_of(data@) == Some(v@),
        r is None ==> gunzip_of(data@) is None,
{
    let mut gz = flate2::read::GzDecoder::new(&data[..]);
    let mut out = Vec::new();
    match std::io::Read::read_to_end(&mut gz, &mut out) {
        Ok(_) => Some(out),
        Err(_) => None,
    }
}

impl Level {
    /// The uncompressed disk form: three big-endian dimensions, then the
    /// block bytes.
    pub open spec fn disk_payload(&self) -> Seq<u8> {
        spec_be16(self.size_x) + spec_be16(self.size_y) + spec_be16(self.size_z) + self.blocks()
    }

    /// The uncompressed network form: the big-endian cell count, then the
    /// block bytes.
    pub open spec fn network_payload(&self) -> Seq<u8> {
        spec_be32((self.size_x as int * self.size_y as int * self.size_z as int) as u32)
            + self.blocks()
    }
}

/// Reading the disk form back: dimensions must be positive and small
/// enough for the spawn arithmetic, the byte count must match them, and
/// every block byte must name a catalogued block.
pub open spec fn spec_parse_disk(p: Seq<u8>) -> Option<(i16, i16, i16, Seq<u8>)> {
    if p.len() < 6 {
        None
    } else {
        let sx = spec_i16_from_be(p[0], p[1]);
        let sy = spec_i16_from_be(p[2], p[3]);
        let sz = spec_i16_from_be(p[4], p[5]);
        if sx <= 0 || sy <= 0 || sz <= 0 {
            None
        } else if !size_limits(sx as int, sy as int, sz as int) {
            None
        } else if p.len() - 6 != sx as int * sy as int * sz as int {
            None
        } else if exists|i: int| 6 <= i < p.len() && !valid_block(#[trigger] p[i]) {
            None
        } else {
            Some((sx, sy, sz, p.subrange(6, p.len() as int)))
        }
    }
}

/// Saving the disk form and loading it yields the level back.
pub proof fn lemma_disk_round_trip(l: Level)
    requires
        l.wf(),
        l.size_x > 0,
        l.size_y > 0,
        l.size_z > 0,
    ensures
        spec_parse_disk(l.disk_payload()) == Some(
            (l.size_x, l.size_y, l.size_z, l.blocks()),
        ),
{
    let p = l.disk_payload();
    lemma_be16_round_trip(l.size_x);
    lemma_be16_round_trip(l.size_y);
    lemma_be16_round_trip(l.size_z);
    assert(p[0] == spec_be16(l.size_x)[0]);
    assert(p[1] == spec_be16(l.size_x)[1]);
    assert(p[2] == spec_be16(l.size_y)[0]);
    assert(p[3] == spec_be16(l.size_y)[1]);
    assert(p[4] == spec_be16(l.size_z)[0]);
    assert(p[5] == spec_be16(l.size_z)[1]);
    assert(spec_i16_from_be(p[0], p[1]) == l.size_x);
    assert(spec_i16_from_be(p[2], p[3]) == l.size_y);
    assert(spec_i16_from_be(p[4], p[5]) == l.size_z);
    assert(forall|i: int| 6 <= i < p.len() ==> valid_block(#[trigger] p[i]));
    assert(p.subrange(6, p.len() as int) =~= l.blocks());
}

impl Level {
    /// The gzip container of the level, in either of its two forms.
    pub fn get_gzip(&self, savetype: SaveType) -> (r: Result<Vec<u8>, String>)
        requires
            self.wf(),
        ensures
            r is Ok,
            r matches Ok(v) ==> gunzip_of(v@) == Some(
                match savetype {
                    SaveType::Network => self.network_payload(),
                    SaveType::Disk => self.disk_payload(),
                },
            ),
    {
        let mut payload: Vec<u8> = Vec::new();
        let fast = match savetype {
            SaveType::Network => {
                proof {
                    assert(self.size_x as int * self.size_y as int <= 2046 * 1021)
                        by (nonlinear_arith)
                        requires
                            0 <= self.size_x <= 2046,
                            0 <= self.size_y <= 1021,
                    ;
                    assert((self.size_x as int * self.size_y as int) * (self.size_z as int)
                        <= 2046 * 1021 * 2046) by (nonlinear_arith)
                        requires
                            0 <= self.size_x as int * self.size_y as int <= 2046 * 1021,
                            0 <= self.size_z <= 2046,
                    ;
                }
                let count = self.size_x as u32 * self.size_y as u32 * self.size_z as u32;
                let mut header = u32_to_be(count);
                payload.append(&mut header);
                proof {
                    assert((self.size_x as int * self.size_y as int) * (self.size_z as int)
                        == self.size_x as int * self.size_y as int * self.size_z as int)
                        by (nonlinear_arith);
                    assert(self.size_x as u32 as int * self.size_y as int
                        == self.size_x as int * self.size_y as int) by (nonlinear_arith)
                        requires
                            0 <= self.size_x,
                            0 <= self.size_y,
                    ;
                }
                true
            },
            SaveType::Disk => {
                let (a, b) = i16_to_be(self.size_x);
                let (c, d) = i16_to_be(self.size_y);
                let (e, f) = i16_to_be(self.size_z);
                payload.push(a);
                payload.push(b);
                payload.push(c);
                payload.push(d);
                payload.push(e);
                payload.push(f);
                false
            },
        };
        let ghost header_view = payload@;
        let mut i: usize = 0;
        let n = self.data.len();
        while i < n
            invariant
                self.wf(),
                n == self.blocks().len(),
                0 <= i <= n,
                payload@ == header_view + self.blocks().subrange(0, i as int),
            decreases n - i,
        {
            let b = self.data[i];
            payload.push(b);
            proof {
                assert(payload@ =~= header_view + self.blocks().subrange(0, i + 1));
            }
            i = i + 1;
        }
        proof {
            assert(self.blocks().subrange(0, n as int) =~= self.blocks());
            match savetype {
                SaveType::Network => {
                    assert(payload@ =~= self.network_payload());
                },
                SaveType::Disk => {
                    assert(payload@ =~= self.disk_payload());
                },
            }
        }
        match gzip_compress(&payload, fast) {
            Some(v) => Ok(v),
            None => Err(String::from_str("could not gzip world")),
        }
    }

    /// Rebuild the level from the gzip disk form. On any malformed input
    /// the level is left as it was.
    pub fn load(&mut self, bytes: &Vec<u8>) -> (r: Result<(), String>)
        requires
            old(self).wf(),
        ensures
            final(self).wf(),
            r is Ok <==> (gunzip_of(bytes@) matches Some(p) && spec_parse_disk(p) is Some),
            r is Ok ==> {
                let p = gunzip_of(bytes@)->0;
                let parsed = spec_parse_disk(p)->0;
                &&& final(self).size_x == parsed.0
                &&& final(self).size_y == parsed.1
                &&& final(self).size_z == parsed.2
                &&& final(self).blocks() == parsed.3
                &&& final(self).name@ == old(self).name@
                &&& final(self).changed == old(self).changed
                &&& final(self).spawn_yaw == old(self).spawn_yaw
                &&& final(self).spawn_pitch == old(self).spawn_pitch
                &&& final(self).spawn_consistent()
            },
            r is Err ==> *final(self) == *old(self),
    {
        let p = match gzip_decompress(bytes) {
            Some(p) => p,
            None => {
                return Err(String::from_str("invalid size"));
            },
        };
        if p.len() < 6 {
            return Err(String::from_str("invalid size"));
        }
        let sx = i16_from_be(p[0], p[1]);
        let sy = i16_from_be(p[2], p[3]);
        let sz = i16_from_be(p[4], p[5]);
        if sx <= 0 || sy <= 0 || sz <= 0 {
            return Err(String::from_str("invalid size"));
        }
        if sx > 2046 || sy > 1021 || sz > 2046 {
            return Err(String::from_str("invalid size"));
        }
        proof {
            assert(sx as int * sy as int <= 2046 * 1021) by (nonlinear_arith)
                requires
                    0 <= sx <= 2046,
                    0 <= sy <= 1021,
            ;
            assert((sx as int * sy as int) * (sz as int) <= 2046 * 1021 * 2046)
                by (nonlinear_arith)
                requires
                    0 <= sx as int * sy as int <= 2046 * 1021,
                    0 <= sz <= 2046,
            ;
            assert(sx as usize as int * sy as int == sx as int * sy as int) by (nonlinear_arith)
                requires
                    0 <= sx,
                    0 <= sy,
            ;
            assert((sx as int * sy as int) * (sz as int) == sx as int * sy as int * sz as int)
                by (nonlinear_arith);
        }
        let want = sx as usize * sy as usize * sz as usize;
        if p.len() - 6 != want {
            return Err(String::from_str("size and length does not match"));
        }
        let mut data: Vec<u8> = Vec::new();
        let mut i: usize = 6;
        while i < p.len()
            invariant
                *self == *old(self),
                old(self).wf(),
                gunzip_of(bytes@) == Some(p@),
                p@.len() >= 6,
                6 <= i <= p@.len(),
                data@ == p@.subrange(6, i as int),
                forall|k: int| 0 <= k < data@.len() ==> valid_block(#[trigger] data@[k]),
            decreases p@.len() - i,
        {
            let b = p[i];
            if b >= 50 {
                proof {
                    assert(!valid_block(p@[i as int]));
                }
                return Err(String::from_str("invalid block data"));
            }
            data.push(b);
            proof {
                assert(data@ =~= p@.subrange(6, i + 1));
            }
            i = i + 1;
        }
        proof {
            assert(data@ =~= p@.subrange(6, p@.len() as int));
            assert forall|k: int| 6 <= k < p@.len() implies valid_block(#[trigger] p@[k]) by {
                assert(p@[k] == data@[k - 6]);
            }
            assert(spec_parse_disk(p@) is Some);
        }
        self.size_x = sx;
        self.size_y = sy;
        self.size_z = sz;
        self.data = data;
        self.reset_spawn();
        Ok(())
    }
}

} // verus!
