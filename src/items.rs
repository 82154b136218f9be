//! Catalogue items offered by the facade.
use vstd::prelude::*;

verus! {

/// The size of a shirt.
#[derive(Debug, Clone, Copy, PartialEq, Eq, Structural)]
pub enum Size {
    Small,
    Medium,
    Large,
}

/// A shirt: its colour and its size.
#[derive(Debug, Clone)]
pub struct Shirt {
    pub color: String,
    pub size: Size,
}

impl Default for Shirt {
    fn default() -> (r: Shirt)
        ensures
            r.color@ == Seq::<char>::empty(),
            r.size == Size::Small,
    {
        Shirt { color: String::new(), size: Size::Small }
    }
}

impl Shirt {
    pub fn set_size(&mut self, size: Size)
        ensures
            final(self).size == size,
            final(self).color == old(self).color,
    {
        self.size = size;
    }
}

/// A large shirt of the given colour.
pub fn create_large_shirt(color: String) -> (r: Shirt)
    ensures
        r.color == color,
        r.size == Size::Large,
{
    let mut shirt = Shirt::default();
    shirt.color = color;
    shirt.set_size(Size::Large);
    shirt
}

} // verus!
