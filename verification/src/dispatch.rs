//! The resource-dispatch handshake: descriptors that bind a URI path
//! and allowed methods to a handler slot, the per-request context that
//! crosses the dispatch boundary, and the decision which resource an
//! inbound request addresses.
//!
//! The engine itself decides only; invoking the chosen handler and
//! moving bytes on the network stay with the surrounding runtime.

use vstd::prelude::*;
use crate::codes::CoapMethod;
use crate::error::CoapPacketError;
use crate::packet::{uri_of, CoapPacket};

verus! {

/// A remote endpoint as plain values: its address bytes and port.
pub struct UdpEndpoint {
    pub addr: Vec<u8>,
    pub port: u16,
}

/// The per-request context carried across one dispatch: the remote
/// endpoint the request came from, and, once dispatch has decided, the
/// index of the originating resource in the table it was matched
/// against.  It lives for a single request/response exchange.
pub struct CoapRequestContext {
    pub remote: UdpEndpoint,
    pub resource_index: Option<usize>,
}

impl CoapRequestContext {
    /// A fresh context for one exchange with the given remote endpoint.
    pub fn new(remote: UdpEndpoint) -> (c: Self)
        ensures
            c.remote == remote,
            c.resource_index is None,
    {
        CoapRequestContext { remote, resource_index: None }
    }

    /// The remote endpoint of the request.
    pub fn get_remote_udp(&self) -> (r: &UdpEndpoint)
        ensures
            r == &self.remote,
    {
        &self.remote
    }

    /// The resource the dispatch decision bound this request to: its
    /// index in the resource table, or `None` before dispatch.
    pub fn get_context(&self) -> (r: Option<usize>)
        ensures
            r == self.resource_index,
    {
        self.resource_index
    }
}

/// A registered resource: the URI path it answers under and the mask of
/// methods it allows, one bit per method.  Long-lived and immutable
/// after registration; the handler itself lives with the runtime that
/// owns the table.
pub struct CoapResource {
    pub path: Vec<u8>,
    pub methods: u16,
}

impl CoapResource {
    /// A descriptor for the given slash-separated path and
    /// allowed-method mask.
    pub fn new(path: Vec<u8>, methods: u16) -> (r: Self)
        ensures
            r.path@ == path@,
            r.methods == methods,
    {
        CoapResource { path, methods }
    }

    /// Whether the mask allows the method.
    pub open spec fn spec_allows(self, m: CoapMethod) -> bool {
        self.methods & m.spec_flag() != 0
    }

    /// Whether the mask allows the method.
    pub fn allows(&self, m: CoapMethod) -> (b: bool)
        ensures
            b == self.spec_allows(m),
    {
        self.methods & m.to_flag() != 0
    }

    /// Whether this resource answers a request for `uri` with method
    /// `m`: the path matches exactly and the method is allowed.
    pub open spec fn spec_matches(self, uri: Seq<u8>, m: CoapMethod) -> bool {
        self.path@ == uri && self.spec_allows(m)
    }
}

/// Whether two byte strings hold the same bytes.
fn bytes_equal(a: &[u8], b: &[u8]) -> (r: bool)
    ensures
        r == (a@ == b@),
{
    if a.len() != b.len() {
        proof {
            assert(a@.len() != b@.len());
        }
        return false;
    }
    let n = a.len();
    let mut i: usize = 0;
    while i < n
        invariant
            i <= n,
            n == a@.len() == b@.len(),
            forall|j: int| 0 <= j < i ==> a@[j] == b@[j],
        decreases n - i,
    {
        if a[i] != b[i] {
            return false;
        }
        i = i + 1;
    }
    proof {
        assert(a@ =~= b@);
    }
    true
}

impl CoapPacket {
    /// Decides which resource of the given table answers this request:
    /// the first whose path equals the request's URI and whose mask
    /// allows the request's method.  On a match the context records the
    /// resource's index and the index is returned, for the caller to
    /// invoke the bound handler.  A message whose code is no request
    /// method, and a request no resource matches, are both
    /// [`CoapPacketError::NoRequestError`]; the context is then left as
    /// it was.
    pub fn tree_handler(&self, ctx: &mut CoapRequestContext, resources: &Vec<CoapResource>) -> (r:
        Result<usize, CoapPacketError>)
        requires
            self.wf(),
        ensures
            final(ctx).remote == old(ctx).remote,
            CoapMethod::spec_from_wire(self.spec_code() as u32) is Err ==> r == Err::<
                usize,
                CoapPacketError,
            >(CoapPacketError::NoRequestError) && final(ctx).resource_index == old(
                ctx,
            ).resource_index,
            CoapMethod::spec_from_wire(self.spec_code() as u32) matches Ok(m) ==> {
                &&& (r is Ok <==> exists|j: int|
                    0 <= j < resources@.len() && (#[trigger] resources@[j]).spec_matches(
                        uri_of(self.options_view()),
                        m,
                    ))
                &&& (r matches Ok(i) ==> {
                    &&& i < resources@.len()
                    &&& resources@[i as int].spec_matches(uri_of(self.options_view()), m)
                    &&& forall|j: int|
                        0 <= j < i ==> !(#[trigger] resources@[j]).spec_matches(
                            uri_of(self.options_view()),
                            m,
                        )
                    &&& final(ctx).resource_index == Some(i)
                })
                &&& (r is Err ==> r == Err::<usize, CoapPacketError>(
                    CoapPacketError::NoRequestError,
                ) && final(ctx).resource_index == old(ctx).resource_index)
            },
    {
        let code = self.get_message_code_byte();
        let m = match CoapMethod::from_c(code as u32) {
            Ok(m) => m,
            Err(_) => {
                return Err(CoapPacketError::NoRequestError);
            },
        };
        let uri = self.uri_path();
        let count = resources.len();
        let mut i: usize = 0;
        while i < count
            invariant
                i <= count,
                count == resources@.len(),
                uri@ == uri_of(self.options_view()),
                *ctx == *old(ctx),
                CoapMethod::spec_from_wire(self.spec_code() as u32) == Ok::<
                    CoapMethod,
                    CoapPacketError,
                >(m),
                forall|j: int|
                    0 <= j < i ==> !(#[trigger] resources@[j]).spec_matches(
                        uri_of(self.options_view()),
                        m,
                    ),
            decreases count - i,
        {
            let res = &resources[i];
            if bytes_equal(res.path.as_slice(), uri.as_slice()) && res.allows(m) {
                ctx.resource_index = Some(i);
                return Ok(i);
            }
            i = i + 1;
        }
        Err(CoapPacketError::NoRequestError)
    }

    /// The raw code byte of the packet.
    pub fn get_message_code_byte(&self) -> (c: u8)
        requires
            self.wf(),
        ensures
            c == self.spec_code(),
    {
        self.buffer[1]
    }
}

} // verus!
