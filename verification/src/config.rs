use vstd::prelude::*;

verus! {

/// The value the `yolo` setting takes when a configuration file leaves it out.
pub fn default_yolo() -> (r: bool)
    ensures
        r == false,
{
    false
}

} // verus!
