//! The saved-response representation: exactly what the idempotency cache
//! keeps for a completed request, and what is replayed byte for byte.

use vstd::prelude::*;
use vstd::string::StringSliceAdditionalSpecFns;

verus! {

/// Mathematical view of a saved response: the status code, the headers as
/// an ordered sequence of (name, value) byte pairs, and the body bytes.
#[verifier::ext_equal]
pub struct RespV {
    pub status: u16,
    pub headers: Seq<(Seq<u8>, Seq<u8>)>,
    pub body: Seq<u8>,
}

/// A response as the cache stores it. Replaying a saved response means
/// handing back a value with the same view, byte for byte.
#[derive(Debug)]
pub struct SavedResponse {
    pub status: u16,
    pub headers: Vec<(Vec<u8>, Vec<u8>)>,
    pub body: Vec<u8>,
}

impl View for SavedResponse {
    type V = RespV;

    open spec fn view(&self) -> RespV {
        RespV {
            status: self.status,
            headers: self.headers@.map_values(|p: (Vec<u8>, Vec<u8>)| (p.0@, p.1@)),
            body: self.body@,
        }
    }
}

/// The bytes of the `Location` header name.
pub open spec fn spec_location_name() -> Seq<u8> {
    seq![76u8, 111u8, 99u8, 97u8, 116u8, 105u8, 111u8, 110u8]
}

/// The view of a redirect that sends the client to `location`: status 303,
/// one `Location` header, empty body.
pub open spec fn spec_see_other(location: Seq<u8>) -> RespV {
    RespV { status: 303, headers: seq![(spec_location_name(), location)], body: Seq::empty() }
}

impl SavedResponse {
    /// A 303 See Other redirect to `location`, the response shape the
    /// publish flow saves and replays.
    pub fn see_other(location: &str) -> (r: SavedResponse)
        ensures
            r@ =~= spec_see_other(location.spec_bytes()),
    {
        let mut name: Vec<u8> = Vec::new();
        name.push(76);
        name.push(111);
        name.push(99);
        name.push(97);
        name.push(116);
        name.push(105);
        name.push(111);
        name.push(110);
        proof {
            assert(name@ =~= spec_location_name());
        }
        let value: Vec<u8> = vstd::slice::slice_to_vec(location.as_bytes());
        let mut headers: Vec<(Vec<u8>, Vec<u8>)> = Vec::new();
        headers.push((name, value));
        SavedResponse { status: 303, headers, body: Vec::new() }
    }

    /// A 303 See Other redirect whose location is handed over as raw
    /// bytes, as the login flow builds it.
    pub fn see_other_raw(location: Vec<u8>) -> (r: SavedResponse)
        ensures
            r@ =~= spec_see_other(location@),
    {
        let mut name: Vec<u8> = Vec::new();
        name.push(76);
        name.push(111);
        name.push(99);
        name.push(97);
        name.push(116);
        name.push(105);
        name.push(111);
        name.push(110);
        proof {
            assert(name@ =~= spec_location_name());
        }
        let mut headers: Vec<(Vec<u8>, Vec<u8>)> = Vec::new();
        headers.push((name, location));
        SavedResponse { status: 303, headers, body: Vec::new() }
    }

    /// An empty-bodied response with only a status code.
    pub fn with_status(status: u16) -> (r: SavedResponse)
        ensures
            r@ =~= (RespV { status, headers: Seq::empty(), body: Seq::empty() }),
    {
        SavedResponse { status, headers: Vec::new(), body: Vec::new() }
    }

    /// A deep copy: the same response, byte for byte.
    pub fn duplicate(&self) -> (r: SavedResponse)
        ensures
            r@ =~= self@,
    {
        let mut headers: Vec<(Vec<u8>, Vec<u8>)> = Vec::new();
        let n = self.headers.len();
        let mut i: usize = 0;
        while i < n
            invariant
                0 <= i <= n,
                n == self.headers.len(),
                headers@.len() == i,
                forall|j: int|
                    0 <= j < i ==> (#[trigger] headers@[j]).0@ == self.headers@[j].0@
                        && headers@[j].1@ == self.headers@[j].1@,
            decreases n - i,
        {
            let name = self.headers[i].0.clone();
            let value = self.headers[i].1.clone();
            proof {
                assert(name@ =~= self.headers@[i as int].0@);
                assert(value@ =~= self.headers@[i as int].1@);
            }
            headers.push((name, value));
            i += 1;
        }
        let body = self.body.clone();
        proof {
            assert(body@ =~= self.body@);
        }
        let r = SavedResponse { status: self.status, headers, body };
        proof {
            assert forall|j: int| 0 <= j < n implies #[trigger] r@.headers[j] == self@.headers[j] by {
                assert(r@.headers[j].0 == r.headers@[j].0@);
            }
        }
        r
    }

    /// Byte-for-byte equality of two responses.
    pub fn same_as(&self, other: &SavedResponse) -> (r: bool)
        ensures
            r == (self@ =~= other@),
    {
        if self.status != other.status {
            return false;
        }
        if self.headers.len() != other.headers.len() {
            proof {
                assert(self@.headers.len() == self.headers@.len());
                assert(other@.headers.len() == other.headers@.len());
            }
            return false;
        }
        let n = self.headers.len();
        let mut i: usize = 0;
        while i < n
            invariant
                0 <= i <= n,
                n == self.headers.len() == other.headers.len(),
                self.status == other.status,
                forall|j: int|
                    0 <= j < i ==> (#[trigger] self.headers@[j]).0@ == other.headers@[j].0@
                        && self.headers@[j].1@ == other.headers@[j].1@,
            decreases n - i,
        {
            if !(self.headers[i].0 == other.headers[i].0) {
                proof {
                    assert(self@.headers[i as int].0 == self.headers@[i as int].0@);
                }
                return false;
            }
            if !(self.headers[i].1 == other.headers[i].1) {
                proof {
                    assert(self@.headers[i as int].1 == self.headers@[i as int].1@);
                }
                return false;
            }
            proof {
                assert(self.headers@[i as int].0@ =~= other.headers@[i as int].0@);
                assert(self.headers@[i as int].1@ =~= other.headers@[i as int].1@);
            }
            i += 1;
        }
        if !(self.body == other.body) {
            return false;
        }
        proof {
            assert forall|j: int| 0 <= j < n implies #[trigger] self@.headers[j]
                == other@.headers[j] by {
                assert(self@.headers[j].0 == self.headers@[j].0@);
                assert(other@.headers[j].0 == other.headers@[j].0@);
            }
        }
        true
    }
}

} // verus!
