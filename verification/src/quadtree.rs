//! The quadtree of square tiles: node identifiers, node rectangles, the
//! planner that sizes the pyramid over a bounding box, and the enumeration
//! of the nodes of a level.

use vstd::prelude::*;
use vstd::arithmetic::power2::*;
use crate::point_data::Aabb;

verus! {

/// 4 to the power `n`, the number of nodes `n` levels below a quadtree node.
pub open spec fn pow4(n: nat) -> nat {
    pow2(2 * n)
}

pub proof fn lemma_pow4_unfold(n: nat)
    requires
        n >= 1,
    ensures
        pow4(n) == 4 * pow4((n - 1) as nat),
{
    lemma_pow2_adds(2, (2 * (n - 1)) as nat);
    lemma2_to64();
}

pub proof fn lemma_pow4_pos(n: nat)
    ensures
        pow4(n) >= 1,
{
    lemma_pow2_pos(2 * n);
}

/// Which of the four quadrants of a node a child occupies.  Bit 1 selects
/// east over west, bit 0 selects north over south.
#[derive(Clone, Copy, Debug, PartialEq, Eq, Structural)]
pub struct ChildIndex {
    pub index: u8,
}

impl ChildIndex {
    pub open spec fn wf(self) -> bool {
        self.index < 4
    }

    pub fn from_u8(index: u8) -> (c: ChildIndex)
        requires
            index < 4,
        ensures
            c.index == index,
            c.wf(),
    {
        ChildIndex { index }
    }
}

/// Identifies a quadtree node by its depth (`level`, 0 at the root of the
/// whole quadtree) and its position in the row-major order of that level.
#[derive(Clone, Copy, Debug, PartialEq, Eq, Hash, Structural)]
pub struct NodeId {
    pub level: u8,
    pub index: u64,
}

impl NodeId {
    /// A well-formed id is at most 31 levels deep and its index addresses
    /// one of the `4^level` nodes of its level.
    pub open spec fn wf(self) -> bool {
        self.level <= 31 && (self.index as nat) < pow4(self.level as nat)
    }

    /// The id of the parent node, `None` at the root.
    pub open spec fn parent_id_spec(self) -> Option<NodeId> {
        if self.level == 0 {
            Option::None
        } else {
            Option::Some(NodeId { level: (self.level - 1) as u8, index: self.index / 4 })
        }
    }

    pub fn new(level: u8, index: u64) -> (id: NodeId)
        ensures
            id == (NodeId { level, index }),
    {
        NodeId { level, index }
    }

    pub fn level(&self) -> (l: u8)
        ensures
            l == self.level,
    {
        self.level
    }

    /// The id of the parent node, `None` at the root.
    pub fn parent_id(&self) -> (p: Option<NodeId>)
        ensures
            p == self.parent_id_spec(),
            self.wf() && self.level > 0 ==> p.is_some() && p.unwrap().wf(),
    {
        if self.level == 0 {
            Option::None
        } else {
            proof {
                if self.wf() {
                    lemma_pow4_unfold(self.level as nat);
                }
            }
            Option::Some(NodeId { level: self.level - 1, index: self.index / 4 })
        }
    }

    /// The id of the child in quadrant `child_index`; the child of the
    /// returned id is this id again.
    pub fn get_child_id(&self, child_index: &ChildIndex) -> (c: NodeId)
        requires
            self.wf(),
            self.level < 31,
            child_index.wf(),
        ensures
            c.wf(),
            c.level == self.level + 1,
            c.index == self.index * 4 + child_index.index,
            c.parent_id_spec() == Option::Some(*self),
    {
        proof {
            lemma_pow4_unfold((self.level + 1) as nat);
            if 2 * (self.level + 1) < 62 {
                lemma_pow2_strictly_increases((2 * (self.level + 1)) as nat, 62);
            }
            lemma2_to64_rest();
            assert(pow4((self.level + 1) as nat) <= pow2(62));
            assert(((self.index * 4 + child_index.index) as nat) < pow4((self.level + 1) as nat))
                by (nonlinear_arith)
                requires
                    (self.index as nat) < pow4(self.level as nat),
                    child_index.index < 4,
                    pow4((self.level + 1) as nat) == 4 * pow4(self.level as nat),
            ;
        }
        let c = NodeId { level: self.level + 1, index: self.index * 4 + (child_index.index as u64) };
        assert(c.index / 4 == self.index);
        c
    }
}

/// A square axis-aligned footprint on the ground, in integer world units.
#[derive(Clone, Copy, Debug, PartialEq, Eq, Structural)]
pub struct Rect {
    pub min_x: i64,
    pub min_y: i64,
    pub edge_length: u64,
}

impl Rect {
    pub open spec fn wf(self) -> bool {
        self.edge_length >= 1
    }

    pub fn new(min_x: i64, min_y: i64, edge_length: u64) -> (r: Rect)
        ensures
            r == (Rect { min_x, min_y, edge_length }),
    {
        Rect { min_x, min_y, edge_length }
    }

    /// The east corner coordinate.
    pub fn max_x(&self) -> (r: i64)
        requires
            self.min_x + self.edge_length <= i64::MAX,
        ensures
            r == self.min_x + self.edge_length,
    {
        ((self.min_x as i128) + (self.edge_length as i128)) as i64
    }

    /// The north corner coordinate.
    pub fn max_y(&self) -> (r: i64)
        requires
            self.min_y + self.edge_length <= i64::MAX,
        ensures
            r == self.min_y + self.edge_length,
    {
        ((self.min_y as i128) + (self.edge_length as i128)) as i64
    }
}

/// The quadrant footprint of a child: quadrant bit 1 moves east, quadrant
/// bit 0 moves north, each by half the parent edge.
pub open spec fn child_rect_spec(parent: Rect, child: int) -> Rect {
    let half = parent.edge_length as int / 2;
    Rect {
        min_x: if child >= 2 {
            (parent.min_x + half) as i64
        } else {
            parent.min_x
        },
        min_y: if child % 2 == 1 {
            (parent.min_y + half) as i64
        } else {
            parent.min_y
        },
        edge_length: half as u64,
    }
}

/// A quadtree node: its id and its ground footprint.
#[derive(Clone, Copy, Debug, PartialEq, Eq, Structural)]
pub struct Node {
    pub id: NodeId,
    pub bounding_rect: Rect,
}

impl Node {
    pub open spec fn wf(self) -> bool {
        self.id.wf() && self.bounding_rect.wf()
    }

    pub fn new(id: NodeId, bounding_rect: Rect) -> (n: Node)
        ensures
            n == (Node { id, bounding_rect }),
    {
        Node { id, bounding_rect }
    }

    /// The child node in quadrant `child_index`: its id under this node's id
    /// and the matching quadrant of this node's footprint.
    pub fn get_child(&self, child_index: &ChildIndex) -> (c: Node)
        requires
            self.wf(),
            self.id.level < 31,
            child_index.wf(),
            self.bounding_rect.edge_length % 2 == 0,
            self.bounding_rect.edge_length >= 2,
            self.bounding_rect.min_x + self.bounding_rect.edge_length <= i64::MAX,
            self.bounding_rect.min_y + self.bounding_rect.edge_length <= i64::MAX,
        ensures
            c.wf(),
            c.id.level == self.id.level + 1,
            c.id.index == self.id.index * 4 + child_index.index,
            c.id.parent_id_spec() == Option::Some(self.id),
            c.bounding_rect == child_rect_spec(self.bounding_rect, child_index.index as int),
    {
        let id = self.id.get_child_id(child_index);
        let half = self.bounding_rect.edge_length / 2;
        proof {
            assert(half <= self.bounding_rect.edge_length);
        }
        let min_x = if child_index.index >= 2 {
            proof {
                assert(child_index.index as int / 2 == 1);
            }
            ((self.bounding_rect.min_x as i128) + (half as i128)) as i64
        } else {
            proof {
                assert(child_index.index as int / 2 == 0);
            }
            self.bounding_rect.min_x
        };
        let min_y = if child_index.index % 2 == 1 {
            proof {
                assert(child_index.index as int % 2 == 1);
            }
            ((self.bounding_rect.min_y as i128) + (half as i128)) as i64
        } else {
            proof {
                assert(child_index.index as int % 2 == 0);
            }
            self.bounding_rect.min_y
        };
        let rect = Rect { min_x, min_y, edge_length: half };
        proof {
            let want = child_rect_spec(self.bounding_rect, child_index.index as int);
            assert(rect.min_x == want.min_x);
            assert(rect.min_y == want.min_y);
            assert(rect.edge_length == want.edge_length);
            assert(rect == want);
        }
        Node { id, bounding_rect: rect }
    }
}

/// Plans the pyramid footprint: the square anchored at the bounding box
/// minimum corner whose edge is the smallest power-of-2 multiple of the
/// ground size of one tile that covers the box in x and y, together with
/// the quadtree level at which one tile spans exactly the tile ground size.
pub fn find_quadtree_bounding_rect_and_levels(
    bbox: &Aabb,
    tile_size_px: u32,
    pixel_size: u64,
) -> (r: (Rect, u8))
    requires
        bbox.wf(),
        1 <= tile_size_px <= 65536,
        1 <= pixel_size <= 32768,
        bbox.diag_x() <= tile_size_px * pixel_size * pow2(31),
        bbox.diag_y() <= tile_size_px * pixel_size * pow2(31),
    ensures
        r.0.min_x == bbox.min.x,
        r.0.min_y == bbox.min.y,
        r.1 <= 31,
        r.0.edge_length == tile_size_px * pixel_size * pow2(r.1 as nat),
        r.0.edge_length >= bbox.diag_x(),
        r.0.edge_length >= bbox.diag_y(),
        r.1 > 0 ==> tile_size_px * pixel_size * pow2((r.1 - 1) as nat) < bbox.diag_x()
            || tile_size_px * pixel_size * pow2((r.1 - 1) as nat) < bbox.diag_y(),
        r.0.wf(),
{
    proof {
        assert((tile_size_px as int) * (pixel_size as int) <= 65536 * 32768) by (nonlinear_arith)
            requires
                1 <= tile_size_px <= 65536,
                1 <= pixel_size <= 32768,
        ;
        assert((tile_size_px as int) * (pixel_size as int) >= 1) by (nonlinear_arith)
            requires
                1 <= tile_size_px,
                1 <= pixel_size,
        ;
    }
    let tile_size_m: u64 = (tile_size_px as u64) * pixel_size;
    let diag_x: u64 = bbox.diag_x_exec();
    let diag_y: u64 = bbox.diag_y_exec();
    let mut levels: u8 = 0;
    let mut cur_size: u64 = tile_size_m;
    proof {
        lemma2_to64();
    }
    while cur_size < diag_x || cur_size < diag_y
        invariant
            tile_size_m == tile_size_px * pixel_size,
            1 <= tile_size_m <= 0x80000000,
            diag_x == bbox.diag_x(),
            diag_y == bbox.diag_y(),
            diag_x <= tile_size_m * pow2(31),
            diag_y <= tile_size_m * pow2(31),
            levels <= 31,
            cur_size == tile_size_m * pow2(levels as nat),
            levels > 0 ==> tile_size_m * pow2((levels - 1) as nat) < diag_x
                || tile_size_m * pow2((levels - 1) as nat) < diag_y,
        decreases 64u64 - levels,
    {
        proof {
            lemma2_to64();
            lemma2_to64_rest();
            assert(tile_size_m * pow2(levels as nat) < tile_size_m * pow2(31));
            assert(pow2(levels as nat) < pow2(31)) by (nonlinear_arith)
                requires
                    tile_size_m >= 1,
                    tile_size_m * pow2(levels as nat) < tile_size_m * pow2(31),
            ;
            if levels >= 31 {
                lemma_pow2_strictly_increases(31, levels as nat);
                assert(false);
            }
            lemma_pow2_unfold((levels + 1) as nat);
            assert(pow2((levels + 1) as nat) == 2 * pow2(levels as nat));
            assert(tile_size_m * pow2((levels + 1) as nat) == 2 * (tile_size_m * pow2(
                levels as nat,
            ))) by (nonlinear_arith)
                requires
                    pow2((levels + 1) as nat) == 2 * pow2(levels as nat),
            ;
            if levels + 1 < 31 {
                lemma_pow2_strictly_increases((levels + 1) as nat, 31);
            }
            assert(pow2((levels + 1) as nat) <= pow2(31));
            assert(tile_size_m * pow2((levels + 1) as nat) <= 0x80000000 * 0x80000000)
                by (nonlinear_arith)
                requires
                    tile_size_m <= 0x80000000,
                    0 <= pow2((levels + 1) as nat) <= 0x80000000,
            ;
        }
        cur_size = cur_size * 2;
        levels = levels + 1;
    }
    (Rect { min_x: bbox.min.x, min_y: bbox.min.y, edge_length: cur_size }, levels)
}

/// No smaller power-of-2 multiple of the tile ground size covers the box:
/// every level below the planned one leaves one of the two extents uncovered.
pub proof fn lemma_planned_edge_minimal(
    tile_size_m: int,
    diag_x: int,
    diag_y: int,
    levels: nat,
    k: nat,
)
    requires
        tile_size_m >= 1,
        k < levels,
        tile_size_m * pow2((levels - 1) as nat) < diag_x || tile_size_m * pow2(
            (levels - 1) as nat,
        ) < diag_y,
    ensures
        tile_size_m * pow2(k) < diag_x || tile_size_m * pow2(k) < diag_y,
{
    if k < (levels - 1) as nat {
        lemma_pow2_strictly_increases(k, (levels - 1) as nat);
        assert(tile_size_m * pow2(k) <= tile_size_m * pow2((levels - 1) as nat))
            by (nonlinear_arith)
            requires
                tile_size_m >= 1,
                pow2(k) <= pow2((levels - 1) as nat),
        ;
    }
}

} // verus!

use vstd::arithmetic::div_mod::{
    lemma_fundamental_div_mod, lemma_mod_multiples_basic, lemma_div_multiples_vanish,
};

verus! {

/// How many nodes of the target level a subtree rooted `level - n.id.level`
/// levels above it contains.
pub open spec fn node_weight(level: int, n: Node) -> int {
    pow4((level - n.id.level) as nat) as int
}

/// How many nodes a subtree holds between its root and the target level.
pub open spec fn subtree_total(d: nat) -> int
    decreases d,
{
    if d == 0 {
        1
    } else {
        1 + 4 * subtree_total((d - 1) as nat)
    }
}

pub open spec fn node_potential(level: int, n: Node) -> int {
    subtree_total((level - n.id.level) as nat)
}

/// What the traversal stack needs of each node on it: well-formed, above the
/// target level, its edge halvable down to that level, and its corners
/// representable.
pub open spec fn stack_node_ok(level: int, n: Node) -> bool {
    &&& n.wf()
    &&& n.id.level <= level
    &&& (n.bounding_rect.edge_length as int) % (pow2((level - n.id.level) as nat) as int) == 0
    &&& n.bounding_rect.min_x + n.bounding_rect.edge_length <= i64::MAX
    &&& n.bounding_rect.min_y + n.bounding_rect.edge_length <= i64::MAX
}

/// The number of target-level nodes under all the subtrees on the stack.
pub open spec fn weight_sum(s: Seq<Node>, level: int) -> int
    decreases s.len(),
{
    if s.len() == 0 {
        0
    } else {
        weight_sum(s.drop_last(), level) + node_weight(level, s.last())
    }
}

/// The number of nodes left to visit under all the subtrees on the stack.
pub open spec fn potential_sum(s: Seq<Node>, level: int) -> int
    decreases s.len(),
{
    if s.len() == 0 {
        0
    } else {
        potential_sum(s.drop_last(), level) + node_potential(level, s.last())
    }
}

proof fn lemma_subtree_total_pos(d: nat)
    ensures
        subtree_total(d) >= 1,
    decreases d,
{
    if d > 0 {
        lemma_subtree_total_pos((d - 1) as nat);
    }
}

proof fn lemma_potential_sum_nonneg(s: Seq<Node>, level: int)
    requires
        forall|j: int| 0 <= j < s.len() ==> stack_node_ok(level, #[trigger] s[j]),
    ensures
        potential_sum(s, level) >= 0,
    decreases s.len(),
{
    if s.len() > 0 {
        assert(s.drop_last() =~= s.subrange(0, s.len() - 1));
        lemma_potential_sum_nonneg(s.drop_last(), level);
        lemma_subtree_total_pos((level - s.last().id.level) as nat);
    }
}

proof fn lemma_sums_push(s: Seq<Node>, x: Node, level: int)
    ensures
        weight_sum(s.push(x), level) == weight_sum(s, level) + node_weight(level, x),
        potential_sum(s.push(x), level) == potential_sum(s, level) + node_potential(level, x),
{
    assert(s.push(x).drop_last() =~= s);
    assert(s.push(x).last() == x);
}

/// A positive multiple of `pow2(d)` with `d >= 1` is even, at least
/// `pow2(d)`, and its half is a multiple of `pow2(d - 1)`.
proof fn lemma_halve_divisible(e: int, d: nat)
    requires
        d >= 1,
        e >= 1,
        e % (pow2(d) as int) == 0,
    ensures
        e % 2 == 0,
        e >= pow2(d),
        pow2(d) >= 2,
        (e / 2) % (pow2((d - 1) as nat) as int) == 0,
        e / 2 >= pow2((d - 1) as nat),
{
    let m = pow2(d) as int;
    let m2 = pow2((d - 1) as nat) as int;
    lemma_pow2_unfold(d);
    assert(m == 2 * m2);
    lemma_pow2_pos((d - 1) as nat);
    assert(m2 >= 1);
    assert(m >= 2);
    lemma_fundamental_div_mod(e, m);
    let k = e / m;
    assert(e == m * k);
    assert(k >= 1) by (nonlinear_arith)
        requires
            e >= 1,
            e == m * k,
            m >= 2,
    ;
    assert(e >= m) by (nonlinear_arith)
        requires
            e == m * k,
            k >= 1,
            m >= 2,
    ;
    assert(e == 2 * (m2 * k)) by (nonlinear_arith)
        requires
            e == m * k,
            m == 2 * m2,
    ;
    lemma_mod_multiples_basic(m2 * k, 2);
    assert((2 * (m2 * k)) % 2 == 0) by {
        assert(2 * (m2 * k) == (m2 * k) * 2);
    }
    lemma_div_multiples_vanish(m2 * k, 2);
    assert(e / 2 == m2 * k);
    lemma_mod_multiples_basic(k, m2);
    assert((k * m2) % m2 == 0);
    assert(m2 * k == k * m2);
    assert(e / 2 >= m2) by (nonlinear_arith)
        requires
            e / 2 == m2 * k,
            k >= 1,
            m2 >= 1,
    ;
}

/// Collects every node of the subtree under `root_node` that sits at
/// `level`; there are exactly `4^(level - root_node.id.level)` of them.
pub fn get_nodes_at_level(root_node: &Node, level: u8) -> (r: Vec<Node>)
    requires
        level <= 31,
        root_node.id.level <= level,
        stack_node_ok(level as int, *root_node),
    ensures
        r@.len() == node_weight(level as int, *root_node),
        forall|j: int| 0 <= j < r@.len() ==> (#[trigger] r@[j]).wf() && r@[j].id.level == level,
{
    let ghost lev = level as int;
    let mut nodes_at_level: Vec<Node> = Vec::new();
    let mut nodes_to_traverse: Vec<Node> = Vec::new();
    nodes_to_traverse.push(*root_node);
    proof {
        assert(nodes_to_traverse@.drop_last() =~= Seq::<Node>::empty());
        assert(nodes_to_traverse@.last() == *root_node);
        assert(weight_sum(Seq::<Node>::empty(), lev) == 0);
        assert(potential_sum(Seq::<Node>::empty(), lev) == 0);
        assert(weight_sum(nodes_to_traverse@, lev) == node_weight(lev, *root_node));
        lemma_potential_sum_nonneg(nodes_to_traverse@, lev);
    }
    while nodes_to_traverse.len() > 0
        invariant
            level <= 31,
            lev == level as int,
            forall|j: int|
                0 <= j < nodes_to_traverse@.len() ==> stack_node_ok(
                    lev,
                    #[trigger] nodes_to_traverse@[j],
                ),
            forall|j: int|
                0 <= j < nodes_at_level@.len() ==> (#[trigger] nodes_at_level@[j]).wf()
                    && nodes_at_level@[j].id.level == level,
            nodes_at_level@.len() + weight_sum(nodes_to_traverse@, lev) == node_weight(
                lev,
                *root_node,
            ),
            potential_sum(nodes_to_traverse@, lev) >= 0,
        decreases potential_sum(nodes_to_traverse@, lev),
    {
        let ghost pre_stack = nodes_to_traverse@;
        let node = nodes_to_traverse.pop().unwrap();
        proof {
            assert(pre_stack.drop_last() =~= nodes_to_traverse@);
            assert(pre_stack.last() == node);
            assert(stack_node_ok(lev, pre_stack[pre_stack.len() - 1]));
            assert forall|j: int| 0 <= j < nodes_to_traverse@.len() implies stack_node_ok(
                lev,
                #[trigger] nodes_to_traverse@[j],
            ) by {
                assert(nodes_to_traverse@[j] == pre_stack[j]);
                assert(stack_node_ok(lev, pre_stack[j]));
            }
            lemma_potential_sum_nonneg(nodes_to_traverse@, lev);
        }
        if node.id.level() == level {
            proof {
                lemma2_to64();
                assert(node_weight(lev, node) == pow4(0));
                assert(node_potential(lev, node) == subtree_total(0));
            }
            nodes_at_level.push(node);
        } else {
            proof {
                let d = (lev - node.id.level) as nat;
                lemma_halve_divisible(node.bounding_rect.edge_length as int, d);
                lemma_pow4_unfold(d);
            }
            let mut i: u8 = 0;
            let ghost base = nodes_to_traverse@;
            while i < 4
                invariant
                    0 <= i <= 4,
                    stack_node_ok(lev, node),
                    node.id.level < level <= 31,
                    node.bounding_rect.edge_length % 2 == 0,
                    node.bounding_rect.edge_length >= 2,
                    lev == level as int,
                    nodes_to_traverse@.len() == base.len() + i,
                    forall|j: int|
                        0 <= j < base.len() ==> #[trigger] nodes_to_traverse@[j] == base[j],
                    forall|j: int|
                        0 <= j < nodes_to_traverse@.len() ==> stack_node_ok(
                            lev,
                            #[trigger] nodes_to_traverse@[j],
                        ),
                    weight_sum(nodes_to_traverse@, lev) == weight_sum(base, lev) + i * pow4(
                        (lev - node.id.level - 1) as nat,
                    ),
                    potential_sum(nodes_to_traverse@, lev) == potential_sum(base, lev) + i
                        * subtree_total((lev - node.id.level - 1) as nat),
                decreases 4 - i,
            {
                let child = node.get_child(&ChildIndex::from_u8(i));
                proof {
                    let d = (lev - node.id.level) as nat;
                    let dc = (lev - node.id.level - 1) as nat;
                    lemma_halve_divisible(node.bounding_rect.edge_length as int, d);
                    assert(child.bounding_rect.edge_length as int == (
                    node.bounding_rect.edge_length as int) / 2);
                    assert(stack_node_ok(lev, child));
                    lemma_sums_push(nodes_to_traverse@, child, lev);
                    assert(node_weight(lev, child) == pow4(dc));
                    assert(node_potential(lev, child) == subtree_total(dc));
                    assert(((i + 1) as int) * (pow4(dc) as int) == (i as int) * (pow4(dc) as int)
                        + pow4(dc)) by (nonlinear_arith);
                    assert(((i + 1) as int) * subtree_total(dc) == (i as int) * subtree_total(dc)
                        + subtree_total(dc)) by (nonlinear_arith);
                }
                nodes_to_traverse.push(child);
                i = i + 1;
            }
            proof {
                let d = (lev - node.id.level) as nat;
                let dc = (lev - node.id.level - 1) as nat;
                lemma_pow4_unfold(d);
                assert(weight_sum(nodes_to_traverse@, lev) == weight_sum(base, lev) + 4 * pow4(dc));
                assert(node_potential(lev, node) == 1 + 4 * subtree_total(dc));
                lemma_potential_sum_nonneg(nodes_to_traverse@, lev);
            }
        }
    }
    proof {
        assert(weight_sum(nodes_to_traverse@, lev) == 0);
    }
    nodes_at_level
}

/// Whether `ids` holds `id`.
fn contains_id(ids: &Vec<NodeId>, id: NodeId) -> (r: bool)
    ensures
        r == ids@.contains(id),
{
    let n = ids.len();
    let mut i: usize = 0;
    while i < n
        invariant
            0 <= i <= n,
            n == ids@.len(),
            forall|j: int| 0 <= j < i ==> ids@[j] != id,
        decreases n - i,
    {
        if ids[i].level == id.level && ids[i].index == id.index {
            assert(ids@[i as int] == id);
            return true;
        }
        i = i + 1;
    }
    false
}

/// The id of the parent of a non-root node.
pub open spec fn parent_of(n: NodeId) -> NodeId {
    NodeId { level: (n.level - 1) as u8, index: n.index / 4 }
}

/// Whether `id` is the parent of one of `nodes`.
pub open spec fn is_parent_from(id: NodeId, nodes: Seq<NodeId>) -> bool {
    exists|a: int| 0 <= a < nodes.len() && (#[trigger] nodes[a]).level > 0 && id == parent_of(nodes[a])
}

/// The ids of the parents of `nodes`, each listed once; the roots among
/// `nodes` have no parent and contribute nothing.
pub fn parents_of(nodes: &Vec<NodeId>) -> (r: Vec<NodeId>)
    ensures
        forall|i: int, j: int| 0 <= i < j < r@.len() ==> r@[i] != r@[j],
        forall|i: int|
            0 <= i < nodes@.len() && (#[trigger] nodes@[i]).level > 0 ==> r@.contains(
                parent_of(nodes@[i]),
            ),
        forall|j: int| 0 <= j < r@.len() ==> is_parent_from(#[trigger] r@[j], nodes@),
{
    let mut r: Vec<NodeId> = Vec::new();
    let n = nodes.len();
    let mut i: usize = 0;
    while i < n
        invariant
            0 <= i <= n,
            n == nodes@.len(),
            forall|a: int, b: int| 0 <= a < b < r@.len() ==> r@[a] != r@[b],
            forall|a: int|
                0 <= a < i && (#[trigger] nodes@[a]).level > 0 ==> r@.contains(
                    parent_of(nodes@[a]),
                ),
            forall|b: int| 0 <= b < r@.len() ==> is_parent_from(#[trigger] r@[b], nodes@),
        decreases n - i,
    {
        let node = nodes[i];
        if node.level > 0 {
            let p = NodeId { level: node.level - 1, index: node.index / 4 };
            proof {
                assert(p == parent_of(nodes@[i as int]));
            }
            if !contains_id(&r, p) {
                let ghost pre = r@;
                r.push(p);
                proof {
                    assert(r@[r@.len() - 1] == p);
                    assert(forall|b: int| 0 <= b < pre.len() ==> r@[b] == pre[b]);
                    assert(nodes@[i as int].level > 0 && p == parent_of(nodes@[i as int]));
                    assert(is_parent_from(p, nodes@));
                }
            }
            proof {
                assert(r@.contains(parent_of(nodes@[i as int])));
            }
        }
        i = i + 1;
    }
    r
}

} // verus!
