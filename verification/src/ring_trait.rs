use vstd::prelude::*;

use crate::group_trait::{AdditiveGroup, MulSupport, MultiplicativeIdentity};

verus! {

/// What the polynomial engine asks of a coefficient type: an additive group
/// with a multiplicative identity and multiplication.
pub trait Ring: AdditiveGroup + MultiplicativeIdentity + MulSupport {

}

} // verus!
