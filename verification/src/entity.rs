//! Where the faces of an entity model's cuboid sit in its texture.

use vstd::prelude::*;

verus! {

/// A face's rectangle in the texture, as two corners.
pub type FaceUV = ((u16, u16), (u16, u16));

/// The texture rectangles of a cuboid's six faces.
#[derive(Clone, Copy, Debug)]
pub struct CuboidUV {
    pub west: FaceUV,
    pub east: FaceUV,
    pub north: FaceUV,
    pub south: FaceUV,
    pub up: FaceUV,
    pub down: FaceUV,
}

/// The faces of a cuboid whose texture starts at `(u, v)` and which is `w` by `h` by `d` texels,
/// in Minecraft's box layout: the top and bottom in the first row, `d` texels tall; the four sides
/// below them, `h` texels tall, west, north, east and south from left to right.
pub open spec fn spec_cuboid_uv(u: int, v: int, w: int, h: int, d: int) -> CuboidUV {
    CuboidUV {
        west: (((u + w) as u16, (v + (d + h)) as u16), (u as u16, (v + d) as u16)),
        east: (((u + w * 3) as u16, (v + d + h) as u16), ((u + w * 2) as u16, (v + d) as u16)),
        north: (((u + w * 2) as u16, (v + d + h) as u16), ((u + w) as u16, (v + d) as u16)),
        south: (((u + w * 4) as u16, (v + (d + h)) as u16), ((u + w * 3) as u16, (v + d) as u16)),
        up: (((u + w * 3) as u16, (v + d) as u16), ((u + w * 2) as u16, v as u16)),
        down: (((u + w * 2) as u16, (v + d) as u16), ((u + w) as u16, v as u16)),
    }
}

/// The texture rectangles of a cuboid's faces, from where its texture starts and its size in
/// texels.
pub fn cuboid_uv(pos: [u16; 2], dimensions: [u16; 3]) -> (uv: CuboidUV)
    requires
        pos[0] + dimensions[0] * 4 <= u16::MAX,
        pos[1] + dimensions[2] + dimensions[1] <= u16::MAX,
    ensures
        uv == spec_cuboid_uv(
            pos[0] as int,
            pos[1] as int,
            dimensions[0] as int,
            dimensions[1] as int,
            dimensions[2] as int,
        ),
{
    let u = pos[0];
    let v = pos[1];
    let w = dimensions[0];
    let h = dimensions[1];
    let d = dimensions[2];
    CuboidUV {
        west: ((u + w, v + (d + h)), (u, v + d)),
        east: ((u + (w * 3), v + d + h), ((u + (w * 2)), v + d)),
        north: ((u + (w * 2), v + d + h), (u + w, v + d)),
        south: (((u + (w * 4)), v + (d + h)), ((u + (w * 3)), v + d)),
        up: (((u + (w * 3)), v + (d)), ((u + (w * 2)), v)),
        down: ((u + (w * 2), v + d), (u + w, v)),
    }
}

/// A face's width in the texture.
pub open spec fn face_width(f: FaceUV) -> int {
    f.0.0 - f.1.0
}

/// A face's height in the texture.
pub open spec fn face_height(f: FaceUV) -> int {
    f.0.1 - f.1.1
}

/// Minecraft's box layout, as the faces sit in the texture: every face is as wide as the cuboid;
/// the bottom and then the top sit side by side in the first row, starting one width in, and are
/// as tall as the cuboid is deep; the four sides sit in the row below, west, north, east and south
/// edge to edge from the texture's origin, and are as tall as the cuboid.
pub proof fn lemma_faces_follow_the_box_layout(u: u16, v: u16, w: u16, h: u16, d: u16)
    requires
        u + w * 4 <= u16::MAX,
        v + d + h <= u16::MAX,
    ensures
        ({
            let c = spec_cuboid_uv(u as int, v as int, w as int, h as int, d as int);
            &&& face_width(c.west) == w && face_width(c.north) == w && face_width(c.east) == w
                && face_width(c.south) == w && face_width(c.up) == w && face_width(c.down) == w
            &&& c.down.1 == (((u + w) as u16, v))
            &&& c.up.1.0 == c.down.0.0 && c.up.1.1 == v
            &&& face_height(c.down) == d && face_height(c.up) == d
            &&& c.west.1 == ((u, (v + d) as u16))
            &&& c.north.1 == ((c.west.0.0, (v + d) as u16))
            &&& c.east.1 == ((c.north.0.0, (v + d) as u16))
            &&& c.south.1 == ((c.east.0.0, (v + d) as u16))
            &&& face_height(c.west) == h && face_height(c.north) == h && face_height(c.east) == h
                && face_height(c.south) == h
        }),
{
}

} // verus!
