//! Handle of a texture atlas that the graphics back end has loaded.

use vstd::prelude::*;

verus! {

/// A loaded texture: the name it was registered under, the identifier the
/// graphics back end gave it, and a tint that starts out black.
pub struct Texture {
    pub tex_name: String,
    pub tex_id: u32,
    pub tex_r: u32,
    pub tex_g: u32,
    pub tex_b: u32,
}

impl Texture {
    /// A texture handle for `name` with identifier `tex_id` and a zero tint.
    pub fn new(name: &str, tex_id: u32) -> (t: Self)
        ensures
            t.tex_name@ == name@,
            t.tex_id == tex_id,
            t.tex_r == 0,
            t.tex_g == 0,
            t.tex_b == 0,
    {
        Texture { tex_name: name.to_owned(), tex_id: tex_id, tex_r: 0, tex_g: 0, tex_b: 0 }
    }
}

} // verus!
