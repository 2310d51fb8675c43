//! Tags: named, colored labels. A tag is identified by its name alone; two
//! tags with the same name are the same tag whatever their colors.

use vstd::prelude::*;
use crate::color::Color;
use crate::color::default_color;

verus! {

/// A named, colored label.
#[derive(Clone, Debug)]
pub struct Tag {
    pub name: String,
    pub color: Color,
}

impl Tag {
    /// A tag with the given name and color.
    pub fn new(name: String, color: Color) -> (t: Tag)
        ensures
            t.name@ == name@,
            t.color == color,
    {
        Tag { name, color }
    }

    /// A tag with the given name and a color drawn at random from the
    /// palette; the default color when the palette is empty.
    pub fn random(name: String, colors: &Vec<Color>) -> (t: Tag)
        ensures
            t.name@ == name@,
            colors@.len() > 0 ==> colors@.contains(t.color),
            colors@.len() == 0 ==> t.color == Color::BrightWhite,
    {
        let picked = choose_color(colors);
        match picked {
            Some(c) => Tag { name, color: c },
            None => Tag { name, color: default_color() },
        }
    }

    /// The tag's name.
    pub fn name(&self) -> (r: &str)
        ensures
            r@ == self.name@,
    {
        self.name.as_str()
    }

    /// The tag's color.
    pub fn color(&self) -> (r: &Color)
        ensures
            r == self.color,
    {
        &self.color
    }

    /// Changes the color; the name, and so the identity, stays.
    pub fn set_color(&mut self, color: &Color)
        ensures
            final(self).name@ == old(self).name@,
            final(self).color == color,
    {
        self.color = *color;
    }

    /// Consumes the tag, returning its name.
    pub fn into_name(self) -> (r: String)
        ensures
            r@ == self.name@,
    {
        self.name
    }

    /// A copy with the same name and color.
    pub fn duplicate(&self) -> (r: Tag)
        ensures
            r.name@ == self.name@,
            r.color == self.color,
    {
        Tag { name: self.name.clone(), color: self.color }
    }
}

/// In executable code `==` on tags compares the names alone.
impl PartialEq for Tag {
    fn eq(&self, other: &Tag) -> (r: bool) {
        self.name == other.name
    }
}

impl Eq for Tag {

}

impl vstd::std_specs::cmp::PartialEqSpecImpl for Tag {
    open spec fn obeys_eq_spec() -> bool {
        true
    }

    open spec fn eq_spec(&self, other: &Tag) -> bool {
        self.name@ == other.name@
    }
}

/// Relies on rand's `SliceRandom::choose`: returns a random element of the
/// slice, or `None` exactly when the slice is empty.
#[verifier::external_body]
fn choose_color(colors: &Vec<Color>) -> (r: Option<Color>)
    ensures
        r is Some <==> colors@.len() > 0,
        r matches Some(c) ==> colors@.contains(c),
{
    let mut rng = rand::thread_rng();
    rand::seq::SliceRandom::choose(colors.as_slice(), &mut rng).cloned()
}

} // verus!
