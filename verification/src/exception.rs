//! Why an automatic partition plan could not be made.
use vstd::prelude::*;

verus! {

#[derive(Debug, Clone)]
pub enum TealinuxAutoPartitionErr {
    /// Something the plan needs could not be read from the system.
    InternalErr(String),
    /// The selected disk is too small for the plan.
    InsufficientStorage(String),
}

impl TealinuxAutoPartitionErr {
    /// The message that the error carries.
    pub fn message(&self) -> (r: String)
        ensures
            r@ == (match self {
                TealinuxAutoPartitionErr::InternalErr(m) => m@,
                TealinuxAutoPartitionErr::InsufficientStorage(m) => m@,
            }),
    {
        match self {
            TealinuxAutoPartitionErr::InternalErr(m) => m.clone(),
            TealinuxAutoPartitionErr::InsufficientStorage(m) => m.clone(),
        }
    }
}

}
