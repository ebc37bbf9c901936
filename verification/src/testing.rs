use vstd::prelude::*;
use crate::config::TypeConfig;

verus! {

/// Zero-sized write-payload placeholder, for exercising the type system
/// without real application data.
#[derive(Clone)]
pub struct Req {
}

/// Zero-sized read-payload placeholder, for exercising the type system
/// without real application data.
#[derive(Clone)]
pub struct Resp {
}

/// A minimal instantiation of the configuration contract: empty payload
/// types and a plain numeric identifier. Its existence shows that the
/// active capability contract is satisfiable by a trivial deployment.
pub struct Config {
}

impl TypeConfig for Config {
    type D = Req;

    type R = Resp;

    type NodeId = u64;
}

} // verus!
