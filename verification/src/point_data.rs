//! Points, bounding boxes and attribute arrays as the library consumes them.
//!
//! World coordinates are integer world units chosen by the caller; fractional
//! quantities (bin sizes, intensities) are fixed-point numbers with
//! `FIXED_ONE` as the unit.

use vstd::prelude::*;

verus! {

/// The fixed-point unit: fractional quantities carry this denominator.
pub const FIXED_ONE: i64 = 65536;

/// A 3D point in integer world units.
#[derive(Clone, Copy, Debug, PartialEq, Eq, Structural)]
pub struct Point3i {
    pub x: i64,
    pub y: i64,
    pub z: i64,
}

impl Point3i {
    pub fn new(x: i64, y: i64, z: i64) -> (p: Point3i)
        ensures
            p == (Point3i { x, y, z }),
    {
        Point3i { x, y, z }
    }
}

/// A discretized point: the pixel column and z-bucket a point fell into.
#[derive(Clone, Copy, Debug, PartialEq, Eq, Structural)]
pub struct Point3u {
    pub x: u32,
    pub y: u32,
    pub z: u32,
}

impl Point3u {
    pub fn new(x: u32, y: u32, z: u32) -> (p: Point3u)
        ensures
            p == (Point3u { x, y, z }),
    {
        Point3u { x, y, z }
    }
}

/// An RGB triple, the form in which point colors arrive.
#[derive(Clone, Copy, Debug, PartialEq, Eq, Structural)]
pub struct Rgb8 {
    pub red: u8,
    pub green: u8,
    pub blue: u8,
}

/// An axis-aligned bounding box in integer world units.
#[derive(Clone, Copy, Debug, PartialEq, Eq, Structural)]
pub struct Aabb {
    pub min: Point3i,
    pub max: Point3i,
}

impl Aabb {
    pub open spec fn wf(self) -> bool {
        self.min.x <= self.max.x && self.min.y <= self.max.y && self.min.z <= self.max.z
    }

    pub open spec fn diag_x(self) -> int {
        self.max.x - self.min.x
    }

    pub open spec fn diag_y(self) -> int {
        self.max.y - self.min.y
    }

    pub open spec fn diag_z(self) -> int {
        self.max.z - self.min.z
    }

    pub fn new(min: Point3i, max: Point3i) -> (b: Aabb)
        ensures
            b == (Aabb { min, max }),
    {
        Aabb { min, max }
    }

    pub fn diag_x_exec(&self) -> (r: u64)
        requires
            self.wf(),
        ensures
            r == self.diag_x(),
    {
        (self.max.x as i128 - self.min.x as i128) as u64
    }

    pub fn diag_y_exec(&self) -> (r: u64)
        requires
            self.wf(),
        ensures
            r == self.diag_y(),
    {
        (self.max.y as i128 - self.min.y as i128) as u64
    }

    pub fn diag_z_exec(&self) -> (r: u64)
        requires
            self.wf(),
        ensures
            r == self.diag_z(),
    {
        (self.max.z as i128 - self.min.z as i128) as u64
    }
}

/// A one-dimensional attribute array.  Scalar attributes that are fractional
/// at the source arrive as fixed-point numbers in `FIXED_ONE` units.
#[derive(Clone, Debug)]
pub enum AttributeData {
    U8(Vec<u8>),
    I64(Vec<i64>),
    U64(Vec<u64>),
    Fixed(Vec<i64>),
    U8Vec3(Vec<Rgb8>),
}

impl AttributeData {
    pub open spec fn len_spec(self) -> nat {
        match self {
            AttributeData::U8(v) => v@.len(),
            AttributeData::I64(v) => v@.len(),
            AttributeData::U64(v) => v@.len(),
            AttributeData::Fixed(v) => v@.len(),
            AttributeData::U8Vec3(v) => v@.len(),
        }
    }

    pub fn len(&self) -> (r: usize)
        ensures
            r == self.len_spec(),
    {
        match self {
            AttributeData::U8(v) => v.len(),
            AttributeData::I64(v) => v.len(),
            AttributeData::U64(v) => v.len(),
            AttributeData::Fixed(v) => v.len(),
            AttributeData::U8Vec3(v) => v.len(),
        }
    }
}

/// The first attribute of the given name, if any.
pub open spec fn lookup_attribute(
    attrs: Seq<(String, AttributeData)>,
    name: Seq<char>,
) -> Option<AttributeData>
    decreases attrs.len(),
{
    if attrs.len() == 0 {
        Option::None
    } else if attrs[0].0@ == name {
        Option::Some(attrs[0].1)
    } else {
        lookup_attribute(attrs.drop_first(), name)
    }
}

/// A found attribute is one of the batch's entries.
pub proof fn lemma_lookup_is_element(attrs: Seq<(String, AttributeData)>, name: Seq<char>)
    requires
        lookup_attribute(attrs, name) is Some,
    ensures
        exists|i: int|
            0 <= i < attrs.len() && (#[trigger] attrs[i]).1 == lookup_attribute(
                attrs,
                name,
            ).unwrap(),
    decreases attrs.len(),
{
    if attrs.len() > 0 {
        if attrs[0].0@ == name {
            assert(attrs[0].1 == lookup_attribute(attrs, name).unwrap());
        } else {
            lemma_lookup_is_element(attrs.drop_first(), name);
            let i = choose|i: int|
                0 <= i < attrs.drop_first().len() && (#[trigger] attrs.drop_first()[i]).1
                    == lookup_attribute(attrs.drop_first(), name).unwrap();
            assert(attrs[i + 1] == attrs.drop_first()[i]);
        }
    }
}

/// A batch of points as the source yields them: positions plus named
/// attribute arrays of the same length.
pub struct PointsBatch {
    pub position: Vec<Point3i>,
    pub attributes: Vec<(String, AttributeData)>,
}

impl PointsBatch {
    /// Every attribute array runs parallel to the positions.
    pub open spec fn wf(self) -> bool {
        forall|i: int|
            0 <= i < self.attributes@.len() ==> self.attributes@[i].1.len_spec()
                == self.position@.len()
    }

    /// Looks up an attribute array by name.
    pub fn get_attribute(&self, name: &String) -> (r: Option<&AttributeData>)
        ensures
            match r {
                Option::Some(d) => lookup_attribute(self.attributes@, name@) == Option::Some(*d),
                Option::None => lookup_attribute(self.attributes@, name@) == Option::<
                    AttributeData,
                >::None,
            },
    {
        let n = self.attributes.len();
        let mut i: usize = 0;
        proof {
            assert(self.attributes@.skip(0) =~= self.attributes@);
        }
        while i < n
            invariant
                0 <= i <= n,
                n == self.attributes@.len(),
                lookup_attribute(self.attributes@, name@) == lookup_attribute(
                    self.attributes@.skip(i as int),
                    name@,
                ),
            decreases n - i,
        {
            proof {
                assert(self.attributes@.skip(i as int)[0] == self.attributes@[i as int]);
            }
            if self.attributes[i].0.eq(name) {
                proof {
                    assert(lookup_attribute(self.attributes@.skip(i as int), name@)
                        == Option::Some(self.attributes@[i as int].1));
                }
                return Option::Some(&self.attributes[i].1);
            }
            proof {
                assert(self.attributes@.skip(i as int).drop_first() =~= self.attributes@.skip(
                    i as int + 1,
                ));
            }
            i = i + 1;
        }
        Option::None
    }
}

/// Floor division of `a` by a positive `b`.
pub fn floor_div(a: i128, b: i128) -> (r: i128)
    requires
        1 <= b,
        -0x40000000000000000000000000000000 <= a,
    ensures
        r == a as int / b as int,
{
    if a >= 0 {
        let q = ((a as u128) / (b as u128)) as i128;
        proof {
            vstd::arithmetic::div_mod::lemma_fundamental_div_mod(a as int, b as int);
            vstd::arithmetic::div_mod::lemma_fundamental_div_mod((a as u128) as int, (b as u128) as int);
        }
        q
    } else {
        let na = (-a) as u128;
        let qu = na / (b as u128);
        let ru = na % (b as u128);
        let q = if ru == 0 {
            -(qu as i128)
        } else {
            -(qu as i128) - 1
        };
        proof {
            let ai = a as int;
            let bi = b as int;
            let nai = na as int;
            let qi = qu as int;
            let ri = ru as int;
            vstd::arithmetic::div_mod::lemma_fundamental_div_mod(nai, bi);
            vstd::arithmetic::div_mod::lemma_mod_bound(nai, bi);
            assert(nai == -ai);
            assert(nai == bi * qi + ri);
            assert(ai == -(bi * qi + ri));
            assert(0 <= ri < bi);
            if ri == 0 {
                assert(ai == bi * (-qi)) by (nonlinear_arith)
                    requires
                        ai == -(bi * qi + 0),
                ;
                vstd::arithmetic::div_mod::lemma_div_multiples_vanish(-qi, bi);
                assert(ai / bi == -qi);
            } else {
                assert(ai == bi * (-qi - 1) + (bi - ri)) by (nonlinear_arith)
                    requires
                        ai == -(bi * qi + ri),
                ;
                vstd::arithmetic::div_mod::lemma_div_multiples_vanish_fancy(-qi - 1, bi - ri, bi);
                assert(ai / bi == -qi - 1);
            }
            assert(q as int == ai / bi);
        }
        q
    }
}

} // verus!
