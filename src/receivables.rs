use vstd::prelude::*;

use crate::amount::Amount;
use crate::base_types::{Date, Entity};

verus! {

/// A value that is due to be received from somebody or an organisation
#[derive(Debug, Clone)]
pub struct Receivable {
    pub entity: Entity,
    pub amount: Amount,
    pub data: Date,
}

} // verus!
