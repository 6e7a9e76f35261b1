//! The request and response values of the service's RPC surface, and the
//! dispatch that computes a response; transport and serialization live
//! outside the library.

use vstd::prelude::*;

verus! {

/// Arguments of the example call.
pub struct ExampleArgs {
    pub a: i32,
    pub b: i32,
}

/// Result of the example call.
pub struct ExampleResultArgs {
    pub res: i32,
}

/// A decoded request.
pub enum RpcRequest {
    Example(ExampleArgs),
}

/// The response a request is answered with.
pub enum RpcResponse {
    ExampleResult(ExampleResultArgs),
}

/// Computes the response to a request: the example call always answers
/// with result ten.
pub fn handle_rpc(request: &RpcRequest) -> (response: RpcResponse)
    ensures
        response matches RpcResponse::ExampleResult(r) && r.res == 10,
{
    match request {
        RpcRequest::Example(_args) => RpcResponse::ExampleResult(ExampleResultArgs { res: 10 }),
    }
}

} // verus!
