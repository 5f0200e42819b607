//! The private half of the capability marker traits: only the three markers
//! of the library can ever implement them, so a register handle's operation
//! set is fixed at compile time.

use vstd::prelude::*;

use crate::common::{R, RW, W};

verus! {

/// Implemented exactly for the library's three access markers.
pub trait Access {

}

impl Access for R {

}

impl Access for W {

}

impl Access for RW {

}

} // verus!
