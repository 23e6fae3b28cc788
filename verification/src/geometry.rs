//! Scene-local geometry and the **region grammar** — the one shape
//! every spatial query accepts.
//!
//! Coordinates are integer millimetres in the site frame (x = east,
//! y = north, z = up), so every containment test below is exact.

use vstd::prelude::*;
use vstd::string::StringExecFns;

verus! {

/// A point in scene-local millimetres: x = east, y = north, z = up.
#[derive(Clone, Copy, PartialEq, Eq, Structural, Debug)]
pub struct LocalPoint {
    pub x: i32,
    pub y: i32,
    pub z: i32,
}

/// Axis-aligned bounding box in scene-local millimetres.
#[derive(Clone, Copy, PartialEq, Eq, Structural, Debug)]
pub struct BBox {
    pub min_x: i32,
    pub min_y: i32,
    pub max_x: i32,
    pub max_y: i32,
}

/// `p` lies in the closed box `b` (horizontally).
pub open spec fn bbox_contains(b: BBox, p: LocalPoint) -> bool {
    b.min_x <= p.x <= b.max_x && b.min_y <= p.y <= b.max_y
}

/// `b` is the smallest box holding every point of `points` (its bounds
/// are attained by some point).
pub open spec fn is_bbox_of(b: BBox, points: Seq<LocalPoint>) -> bool {
    &&& forall|i: int| 0 <= i < points.len() ==> #[trigger] bbox_contains(b, points[i])
    &&& exists|i: int| 0 <= i < points.len() && #[trigger] points[i].x == b.min_x
    &&& exists|i: int| 0 <= i < points.len() && #[trigger] points[i].y == b.min_y
    &&& exists|i: int| 0 <= i < points.len() && #[trigger] points[i].x == b.max_x
    &&& exists|i: int| 0 <= i < points.len() && #[trigger] points[i].y == b.max_y
}

/// The horizontal area of a box in square millimetres.
pub open spec fn bbox_area(b: BBox) -> int {
    (b.max_x - b.min_x) * (b.max_y - b.min_y)
}

impl BBox {
    pub fn contains(&self, p: LocalPoint) -> (r: bool)
        ensures
            r == bbox_contains(*self, p),
    {
        p.x >= self.min_x && p.x <= self.max_x && p.y >= self.min_y && p.y <= self.max_y
    }

    /// The bounding box of a point set; `None` for an empty slice.
    pub fn of(points: &[LocalPoint]) -> (r: Option<BBox>)
        ensures
            points@.len() == 0 <==> r is None,
            r matches Some(b) ==> is_bbox_of(b, points@),
    {
        if points.len() == 0 {
            return None;
        }
        let first = points[0];
        let mut b = BBox { min_x: first.x, min_y: first.y, max_x: first.x, max_y: first.y };
        let mut i: usize = 1;
        assert(points@[0].x == b.min_x);
        while i < points.len()
            invariant
                1 <= i <= points@.len(),
                forall|k: int| 0 <= k < i ==> #[trigger] bbox_contains(b, points@[k]),
                exists|k: int| 0 <= k < i && #[trigger] points@[k].x == b.min_x,
                exists|k: int| 0 <= k < i && #[trigger] points@[k].y == b.min_y,
                exists|k: int| 0 <= k < i && #[trigger] points@[k].x == b.max_x,
                exists|k: int| 0 <= k < i && #[trigger] points@[k].y == b.max_y,
            decreases points@.len() - i,
        {
            let p = points[i];
            let ghost old_b = b;
            if p.x < b.min_x {
                b.min_x = p.x;
            }
            if p.y < b.min_y {
                b.min_y = p.y;
            }
            if p.x > b.max_x {
                b.max_x = p.x;
            }
            if p.y > b.max_y {
                b.max_y = p.y;
            }
            assert forall|k: int| 0 <= k < i + 1 implies #[trigger] bbox_contains(b, points@[k]) by {
                if k < i {
                    assert(bbox_contains(old_b, points@[k]));
                }
            }
            i = i + 1;
        }
        Some(b)
    }

    /// The horizontal area of the box in square millimetres (zero or
    /// more for a box with `min <= max`).
    pub fn area(&self) -> (r: i128)
        ensures
            r == bbox_area(*self),
    {
        let w = self.max_x as i128 - self.min_x as i128;
        let h = self.max_y as i128 - self.min_y as i128;
        proof {
            lemma_small_product(w as int, h as int);
        }
        w * h
    }
}

/// Products of two values below 2^33 in magnitude fit well inside `i128`.
proof fn lemma_small_product(a: int, b: int)
    requires
        -0x2_0000_0000 <= a <= 0x2_0000_0000,
        -0x2_0000_0000 <= b <= 0x2_0000_0000,
    ensures
        -0x4_0000_0000_0000_0000 <= a * b <= 0x4_0000_0000_0000_0000,
{
    assert(-0x4_0000_0000_0000_0000 <= a * b <= 0x4_0000_0000_0000_0000) by (nonlinear_arith)
        requires
            -0x2_0000_0000 <= a <= 0x2_0000_0000,
            -0x2_0000_0000 <= b <= 0x2_0000_0000,
    ;
}

/// The horizontal ray from `p` towards +x crosses the edge from `a` to
/// `b`: the edge straddles `p.y` (half-open, so a vertex is counted for
/// one of its two edges) and meets the line `y = p.y` strictly to the
/// right of `p` — compared exactly, over the rationals.
pub open spec fn edge_crosses(p: LocalPoint, a: LocalPoint, b: LocalPoint) -> bool {
    &&& (a.y > p.y) != (b.y > p.y)
    &&& if b.y > a.y {
        (p.x - a.x) * (b.y - a.y) < (b.x - a.x) * (p.y - a.y)
    } else {
        (p.x - a.x) * (b.y - a.y) > (b.x - a.x) * (p.y - a.y)
    }
}

/// The index of the vertex before vertex `i` on the closed ring.
pub open spec fn ring_prev(len: int, i: int) -> int {
    if i == 0 {
        len - 1
    } else {
        i - 1
    }
}

/// How many of the first `k` edges of the closed ring (edge `i` joins
/// vertex `i` to the vertex before it) the ray from `p` crosses.
pub open spec fn crossings(p: LocalPoint, ring: Seq<LocalPoint>, k: int) -> nat
    decreases k,
{
    if k <= 0 {
        0
    } else {
        crossings(p, ring, k - 1) + if edge_crosses(p, ring[k - 1], ring[ring_prev(ring.len() as int, k - 1)]) {
            1nat
        } else {
            0nat
        }
    }
}

/// Even-odd containment of `p` in the closed polygon `ring` (the ring
/// is auto-closed; fewer than 3 vertices contain nothing).
pub open spec fn polygon_contains(ring: Seq<LocalPoint>, p: LocalPoint) -> bool {
    ring.len() >= 3 && crossings(p, ring, ring.len() as int) % 2 == 1
}

fn crosses(p: LocalPoint, a: LocalPoint, b: LocalPoint) -> (r: bool)
    ensures
        r == edge_crosses(p, a, b),
{
    if (a.y > p.y) == (b.y > p.y) {
        return false;
    }
    let lhs_a = p.x as i128 - a.x as i128;
    let lhs_b = b.y as i128 - a.y as i128;
    let rhs_a = b.x as i128 - a.x as i128;
    let rhs_b = p.y as i128 - a.y as i128;
    proof {
        lemma_small_product(lhs_a as int, lhs_b as int);
        lemma_small_product(rhs_a as int, rhs_b as int);
    }
    let lhs = lhs_a * lhs_b;
    let rhs = rhs_a * rhs_b;
    if b.y > a.y {
        lhs < rhs
    } else {
        lhs > rhs
    }
}

/// Ray-casting point-in-polygon test. The ring is auto-closed (the
/// first vertex should not be repeated at the end).
pub fn point_in_polygon(p: LocalPoint, ring: &[LocalPoint]) -> (inside: bool)
    ensures
        inside == polygon_contains(ring@, p),
{
    let n = ring.len();
    if n < 3 {
        return false;
    }
    let mut inside = false;
    let mut j = n - 1;
    let mut i: usize = 0;
    while i < n
        invariant
            n == ring@.len(),
            n >= 3,
            i <= n,
            j == ring_prev(n as int, i as int),
            inside == (crossings(p, ring@, i as int) % 2 == 1),
        decreases n - i,
    {
        if crosses(p, ring[i], ring[j]) {
            inside = !inside;
        }
        j = i;
        i = i + 1;
    }
    inside
}

/// A resolved, queryable region.
#[derive(Debug)]
pub enum Region {
    All,
    BBox(BBox),
    /// Points within `radius_m` millimetres of `center` (horizontally).
    Within { center: LocalPoint, radius_m: i32 },
    Polygon(Vec<LocalPoint>),
}

/// `p` lies within horizontal distance `radius` of `center`.
pub open spec fn within_radius(center: LocalPoint, radius: int, p: LocalPoint) -> bool {
    let dx = p.x - center.x;
    let dy = p.y - center.y;
    radius >= 0 && dx * dx + dy * dy <= radius * radius
}

/// Membership of a point in a region.
pub open spec fn region_contains(region: &Region, p: LocalPoint) -> bool {
    match region {
        Region::All => true,
        Region::BBox(b) => bbox_contains(*b, p),
        Region::Within { center, radius_m } => within_radius(*center, *radius_m as int, p),
        Region::Polygon(ring) => polygon_contains(ring@, p),
    }
}

fn is_within(center: LocalPoint, radius: i32, p: LocalPoint) -> (r: bool)
    ensures
        r == within_radius(center, radius as int, p),
{
    if radius < 0 {
        return false;
    }
    let dx = p.x as i128 - center.x as i128;
    let dy = p.y as i128 - center.y as i128;
    let r = radius as i128;
    proof {
        lemma_small_product(dx as int, dx as int);
        lemma_small_product(dy as int, dy as int);
        lemma_small_product(r as int, r as int);
    }
    dx * dx + dy * dy <= r * r
}

impl Region {
    pub fn contains(&self, p: LocalPoint) -> (r: bool)
        ensures
            r == region_contains(self, p),
    {
        match self {
            Region::All => true,
            Region::BBox(b) => b.contains(p),
            Region::Within { center, radius_m } => is_within(*center, *radius_m, p),
            Region::Polygon(ring) => point_in_polygon(p, ring.as_slice()),
        }
    }
}

/// Wire form of a region argument. Exactly one of the shapes must be
/// present: `all`, `bbox` (`[minx, miny, maxx, maxy]`), `within_m`
/// together with `point`, or `polygon`.
#[derive(Debug, Default)]
pub struct RegionSpec {
    pub all: Option<bool>,
    pub bbox: Option<[i32; 4]>,
    pub within_m: Option<i32>,
    pub point: Option<LocalPoint>,
    pub polygon: Option<Vec<LocalPoint>>,
}

/// How many of the four shapes a region argument names (`within_m` and
/// `point` count as one shape).
pub open spec fn shape_count(s: &RegionSpec) -> int {
    (if s.all is Some { 1int } else { 0int })
        + (if s.bbox is Some { 1int } else { 0int })
        + (if s.within_m is Some || s.point is Some { 1int } else { 0int })
        + (if s.polygon is Some { 1int } else { 0int })
}

/// The guidance returned when a region names zero or several shapes.
pub open spec fn shape_count_message() -> Seq<char> {
    "region must be exactly one of: {\"all\": true} | {\"bbox\": [minx,miny,maxx,maxy]} | {\"within_m\": r, \"point\": {\"x\",\"y\"}} | {\"polygon\": [{\"x\",\"y\"},…]}"@
}

pub open spec fn bbox_order_message() -> Seq<char> {
    "bbox must be [minx, miny, maxx, maxy] with min <= max"@
}

pub open spec fn within_pair_message() -> Seq<char> {
    "within_m and point must be supplied together"@
}

pub open spec fn negative_radius_message() -> Seq<char> {
    "within_m must be non-negative"@
}

pub open spec fn polygon_size_message() -> Seq<char> {
    "polygon needs at least 3 vertices"@
}

pub open spec fn all_false_message() -> Seq<char> {
    "region {\"all\": false} is not a shape — use {\"all\": true}"@
}

/// The outcome of resolving a region argument: the region, or the
/// guidance text explaining why it is not one.
pub open spec fn resolves_to(s: RegionSpec, r: Result<Region, String>) -> bool {
    if shape_count(&s) != 1 {
        r matches Err(e) && e@ == shape_count_message()
    } else if s.all == Some(true) {
        r == Ok::<Region, String>(Region::All)
    } else if s.bbox is Some {
        let b = s.bbox.unwrap();
        if b[0] > b[2] || b[1] > b[3] {
            r matches Err(e) && e@ == bbox_order_message()
        } else {
            r == Ok::<Region, String>(
                Region::BBox(BBox { min_x: b[0], min_y: b[1], max_x: b[2], max_y: b[3] }),
            )
        }
    } else if s.within_m is Some || s.point is Some {
        if s.within_m is None || s.point is None {
            r matches Err(e) && e@ == within_pair_message()
        } else if s.within_m.unwrap() < 0 {
            r matches Err(e) && e@ == negative_radius_message()
        } else {
            r == Ok::<Region, String>(
                Region::Within { center: s.point.unwrap(), radius_m: s.within_m.unwrap() },
            )
        }
    } else if s.polygon is Some {
        if s.polygon.unwrap()@.len() < 3 {
            r matches Err(e) && e@ == polygon_size_message()
        } else {
            r == Ok::<Region, String>(Region::Polygon(s.polygon.unwrap()))
        }
    } else {
        r matches Err(e) && e@ == all_false_message()
    }
}

impl RegionSpec {
    /// Validate that exactly one shape was supplied and resolve it.
    /// Errors are structured guidance, never a stack trace.
    pub fn resolve(self) -> (r: Result<Region, String>)
        ensures
            resolves_to(self, r),
    {
        let mut count: u8 = 0;
        if self.all.is_some() {
            count = count + 1;
        }
        if self.bbox.is_some() {
            count = count + 1;
        }
        if self.within_m.is_some() || self.point.is_some() {
            count = count + 1;
        }
        if self.polygon.is_some() {
            count = count + 1;
        }
        if count != 1 {
            return Err(String::from_str(
                "region must be exactly one of: {\"all\": true} | {\"bbox\": [minx,miny,maxx,maxy]} | {\"within_m\": r, \"point\": {\"x\",\"y\"}} | {\"polygon\": [{\"x\",\"y\"},…]}",
            ));
        }
        if self.all == Some(true) {
            return Ok(Region::All);
        }
        if let Some(b) = self.bbox {
            if b[0] > b[2] || b[1] > b[3] {
                return Err(String::from_str("bbox must be [minx, miny, maxx, maxy] with min <= max"));
            }
            return Ok(Region::BBox(BBox { min_x: b[0], min_y: b[1], max_x: b[2], max_y: b[3] }));
        }
        if self.within_m.is_some() || self.point.is_some() {
            match (self.within_m, self.point) {
                (Some(radius_m), Some(center)) => {
                    if radius_m < 0 {
                        return Err(String::from_str("within_m must be non-negative"));
                    }
                    return Ok(Region::Within { center, radius_m });
                },
                _ => {
                    return Err(String::from_str("within_m and point must be supplied together"));
                },
            }
        }
        match self.polygon {
            Some(ring) => {
                if ring.len() < 3 {
                    return Err(String::from_str("polygon needs at least 3 vertices"));
                }
                Ok(Region::Polygon(ring))
            },
            None => Err(String::from_str("region {\"all\": false} is not a shape — use {\"all\": true}")),
        }
    }
}

/// A bbox argument `[minx, miny, maxx, maxy]` with ordered bounds
/// resolves to a region holding exactly the points with
/// `minx <= x <= maxx` and `miny <= y <= maxy`.
pub proof fn law_bbox_region_is_the_box(s: RegionSpec, r: Result<Region, String>, p: LocalPoint)
    requires
        resolves_to(s, r),
        s.bbox is Some,
        s.all is None,
        s.within_m is None,
        s.point is None,
        s.polygon is None,
        s.bbox.unwrap()[0] <= s.bbox.unwrap()[2],
        s.bbox.unwrap()[1] <= s.bbox.unwrap()[3],
    ensures
        r is Ok,
        r matches Ok(region) ==> (region_contains(&region, p) <==> (s.bbox.unwrap()[0] <= p.x <= s.bbox.unwrap()[2]
            && s.bbox.unwrap()[1] <= p.y <= s.bbox.unwrap()[3])),
{
}

} // verus!
