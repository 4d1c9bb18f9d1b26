//! An answer record whose payload type is chosen by the caller.

use crate::resource::{ResourceClass, ResourceType};
use vstd::prelude::*;

verus! {

/// One answer: the name it is about, its type and class, how long it may be
/// kept, the declared length of its payload, and the payload itself.
pub struct Answer<T> {
    pub domain_name: String,
    pub record_type: ResourceType,
    pub record_class: ResourceClass,
    pub ttl: u32,
    pub data_length: u16,
    pub value: T,
}

} // verus!
