//! Marks the wait strategies of this library.

use vstd::prelude::*;

verus! {

/// Only the library's own wait strategies are sealed.
pub trait Sealed {

}

} // verus!
