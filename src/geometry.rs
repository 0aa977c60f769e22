use vstd::prelude::*;

verus! {

/// A point or vector in the plane.
#[derive(Debug, Clone)]
pub struct Vec2<T> {
    pub x: T,
    pub y: T,
}

/// A point or vector in space.
#[derive(Debug, Clone)]
pub struct Vec3<T> {
    pub x: T,
    pub y: T,
    pub z: T,
}

/// The point (x, y).
pub open spec fn vec2i_spec(x: i32, y: i32) -> Vec2<i32> {
    Vec2 { x, y }
}

pub fn vec2i(x: i32, y: i32) -> (v: Vec2<i32>)
    ensures
        v == vec2i_spec(x, y),
{
    Vec2 { x, y }
}

pub fn vec3i(x: i32, y: i32, z: i32) -> (v: Vec3<i32>)
    ensures
        v.x == x,
        v.y == y,
        v.z == z,
{
    Vec3 { x, y, z }
}

} // verus!
