use vstd::prelude::*;

verus! {

/// Where a box narrower than a target width is placed: padding goes to the
/// right (`Left`), to the left (`Right`), or is split (`Center`).
#[derive(Clone, Copy)]
pub enum Horizontal {
    Left,
    Center,
    Right,
}

/// Where a box shorter than a target height is placed: padding goes below
/// (`Top`), above (`Bottom`), or is split (`Center`).
#[derive(Clone, Copy)]
pub enum Vertical {
    Top,
    Center,
    Bottom,
}

impl Default for Horizontal {
    /// The default horizontal alignment is `Center`.
    fn default() -> (r: Self)
        ensures
            r == Horizontal::Center,
    {
        Horizontal::Center
    }
}

impl Default for Vertical {
    /// The default vertical alignment is `Center`.
    fn default() -> (r: Self)
        ensures
            r == Vertical::Center,
    {
        Vertical::Center
    }
}

} // verus!
