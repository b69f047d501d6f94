use vstd::prelude::*;

verus! {

/// A color with 8-bit red, green, blue and alpha channels.
#[derive(Clone, Copy, Debug, PartialEq, Eq, Structural)]
pub struct Color {
    pub r: u8,
    pub g: u8,
    pub b: u8,
    pub a: u8,
}

impl Color {
    /// The opaque color with these channels.
    pub fn from_rgb(r: u8, g: u8, b: u8) -> (c: Color)
        ensures
            c == (Color { r, g, b, a: 255 }),
    {
        Color { r, g, b, a: 255 }
    }
}

/// A sprite of the asset store, by number.
#[derive(Clone, Copy, Debug, PartialEq, Eq, Structural)]
pub struct SpriteId(pub u64);

/// How the back of an element is filled: a color, and a sprite drawn over
/// it if there is one.
#[derive(Clone, Copy, Debug, PartialEq, Eq, Structural)]
pub struct Background {
    color: Color,
    img: Option<SpriteId>,
}

impl View for Background {
    type V = (Color, Option<SpriteId>);

    closed spec fn view(&self) -> (Color, Option<SpriteId>) {
        (self.color, self.img)
    }
}

impl Default for Background {
    /// A dark grey with no sprite.
    fn default() -> (r: Background)
        ensures
            r@ == (Color { r: 24, g: 24, b: 24, a: 255 }, None::<SpriteId>),
    {
        Background { color: Color::from_rgb(24, 24, 24), img: None }
    }
}

impl Background {
    pub fn new(color: Color, img: Option<SpriteId>) -> (r: Background)
        ensures
            r@ == (color, img),
    {
        Background { color, img }
    }

    pub fn get_color_mut(&mut self) -> (r: &mut Color)
        ensures
            *r == old(self)@.0,
            final(self)@ == (*final(r), old(self)@.1),
    {
        &mut self.color
    }

    pub fn get_color(&self) -> (r: &Color)
        ensures
            *r == self@.0,
    {
        &self.color
    }

    pub fn get_img_mut(&mut self) -> (r: Option<&mut SpriteId>)
        ensures
            old(self)@.1 is None ==> r is None && final(self)@ == old(self)@,
            old(self)@.1 matches Some(s) ==> (r matches Some(m) && *m == s && final(self)@ == (
                old(self)@.0,
                Some(*final(m)),
            )),
    {
        match &mut self.img {
            Some(s) => Some(s),
            None => None,
        }
    }

    pub fn get_img(&self) -> (r: Option<&SpriteId>)
        ensures
            self@.1 is None ==> r is None,
            self@.1 matches Some(s) ==> r == Some(&s),
    {
        match &self.img {
            Some(s) => Some(s),
            None => None,
        }
    }
}

} // verus!
