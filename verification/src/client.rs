//! The client's protocol state: the permanent header set merged into every
//! request, and the exact request bytes a `send` writes.
//!
//! Opening a transport, writing these bytes, and reading the reply bytes is
//! the caller's concern; none of it changes what stands here.
use vstd::prelude::*;

use crate::headers::find_key;
use crate::headers::merged_pairs;
use crate::headers::map_of_pairs;
use crate::headers::HeaderPair;
use crate::headers::HeaderSet;
use crate::methods::Method;
use crate::request::request_head_bytes;
use crate::request::serialize_request_head;
use crate::wire::dec_chars_of;
use crate::wire::digits_string;

verus! {

/// The pairs of an optional per-request header set.
pub open spec fn explicit_pairs(header: Option<&HeaderSet>) -> Seq<HeaderPair> {
    match header {
        Some(h) => h.pairs(),
        None => Seq::empty(),
    }
}

/// The view of an optional byte-slice body.
pub open spec fn spec_data(data: Option<&[u8]>) -> Option<Seq<u8>> {
    match data {
        Some(d) => Some(d@),
        None => None,
    }
}

/// A per-request pair sequence with `Content-Length` bound to the decimal
/// rendering of `n`: the existing pair is replaced, or one is appended.
pub open spec fn with_content_length(explicit: Seq<HeaderPair>, n: nat) -> Seq<HeaderPair> {
    let cl = ("Content-Length"@, dec_chars_of(n));
    let i = find_key(explicit, "Content-Length"@);
    if i < 0 {
        explicit.push(cl)
    } else {
        explicit.update(i, cl)
    }
}

/// The bytes one `send` writes: the request head over the merged headers,
/// then the body when one is given — and then `Content-Length`, worth the
/// body's exact byte length, stands in the per-request set first.
pub open spec fn spec_request_bytes(
    perm: Seq<HeaderPair>,
    m: Method,
    path: Seq<char>,
    explicit: Seq<HeaderPair>,
    data: Option<Seq<u8>>,
) -> Seq<u8> {
    match data {
        None => request_head_bytes(m, path, merged_pairs(perm, explicit)),
        Some(d) => request_head_bytes(m, path, merged_pairs(perm, with_content_length(explicit, d.len())))
            + d,
    }
}

/// A client's protocol state: the permanent headers that are merged into
/// every request it serializes.
pub struct Client {
    header: HeaderSet,
}

impl Client {
    /// The permanent header mapping.
    pub closed spec fn spec_header(&self) -> Map<Seq<char>, Seq<char>> {
        self.header@
    }

    /// The permanent header pairs, in storage order.
    pub closed spec fn spec_header_pairs(&self) -> Seq<HeaderPair> {
        self.header.pairs()
    }

    /// Well-formedness: the permanent header names are distinct.
    pub closed spec fn wf(&self) -> bool {
        self.header.wf() && self.spec_header() == map_of_pairs(self.spec_header_pairs())
    }

    /// A client with no permanent headers.
    pub fn new() -> (r: Client)
        ensures
            r.wf(),
            r.spec_header() == Map::<Seq<char>, Seq<char>>::empty(),
            r.spec_header_pairs() == Seq::<HeaderPair>::empty(),
    {
        Client { header: HeaderSet::new() }
    }

    /// The permanent header named `key`, when one is set.
    pub fn get_property(&self, key: &String) -> (r: Option<&String>)
        requires
            self.wf(),
        ensures
            (match r {
                Some(v) => self.spec_header().contains_key(key@) && v@ == self.spec_header()[key@],
                None => !self.spec_header().contains_key(key@),
            }),
    {
        self.header.get(key)
    }

    /// Set a permanent header; it is merged into every later request unless
    /// the request overrides it. Never touches the network.
    pub fn set_property(&mut self, key: String, value: String)
        requires
            old(self).wf(),
        ensures
            final(self).wf(),
            final(self).spec_header() == old(self).spec_header().insert(key@, value@),
            !old(self).spec_header().contains_key(key@) ==> final(self).spec_header_pairs() == old(
                self,
            ).spec_header_pairs().push((key@, value@)),
            old(self).spec_header().contains_key(key@) ==> final(self).spec_header_pairs() == old(
                self,
            ).spec_header_pairs().update(
                find_key(old(self).spec_header_pairs(), key@),
                (key@, value@),
            ),
    {
        self.header.set(key, value);
    }

    /// Drop a permanent header; later requests no longer carry it. Never
    /// touches the network.
    pub fn unset_property(&mut self, key: &String)
        requires
            old(self).wf(),
        ensures
            final(self).wf(),
            final(self).spec_header() == old(self).spec_header().remove(key@),
            !old(self).spec_header().contains_key(key@) ==> final(self).spec_header_pairs() == old(
                self,
            ).spec_header_pairs(),
            old(self).spec_header().contains_key(key@) ==> final(self).spec_header_pairs() == old(
                self,
            ).spec_header_pairs().remove(find_key(old(self).spec_header_pairs(), key@)),
    {
        self.header.unset(key);
    }

    /// The permanent header names, in storage order.
    pub fn get_properties_name(&self) -> (r: Vec<String>)
        ensures
            r@.len() == self.spec_header_pairs().len(),
            forall|i: int|
                0 <= i < r@.len() ==> (#[trigger] r@[i])@ == self.spec_header_pairs()[i].0,
    {
        self.header.keys()
    }

    /// The permanent headers as (name, value) pairs, in storage order.
    pub fn iter(&self) -> (r: Vec<(String, String)>)
        ensures
            r@.len() == self.spec_header_pairs().len(),
            forall|i: int|
                0 <= i < r@.len() ==> ((#[trigger] r@[i]).0@ == self.spec_header_pairs()[i].0
                    && r@[i].1@ == self.spec_header_pairs()[i].1),
    {
        self.header.to_pairs()
    }

    /// The permanent headers merged with a per-request set: an explicit
    /// per-request value always wins over the permanent value for the same
    /// name, and the permanent set is never changed by merging.
    pub fn update_properties(&self, header: Option<&HeaderSet>) -> (r: HeaderSet)
        requires
            self.wf(),
            (match header {
                Some(h) => h.wf(),
                None => true,
            }),
        ensures
            r.wf(),
            r.pairs() == merged_pairs(self.spec_header_pairs(), explicit_pairs(header)),
            forall|k: Seq<char>| #[trigger]
                r@.contains_key(k) <==> self.spec_header().contains_key(k) || map_of_pairs(
                    explicit_pairs(header),
                ).contains_key(k),
            forall|k: Seq<char>|
                map_of_pairs(explicit_pairs(header)).contains_key(k) ==> #[trigger] r@[k]
                    == map_of_pairs(explicit_pairs(header))[k],
            forall|k: Seq<char>|
                !map_of_pairs(explicit_pairs(header)).contains_key(k) && self.spec_header(
                ).contains_key(k) ==> #[trigger] r@[k] == self.spec_header()[k],
    {
        match header {
            Some(h) => self.header.merge(h),
            None => {
                let empty = HeaderSet::new();
                let r = self.header.merge(&empty);
                proof {
                    assert(map_of_pairs(Seq::<HeaderPair>::empty()) == Map::<
                        Seq<char>,
                        Seq<char>,
                    >::empty());
                }
                r
            },
        }
    }

    /// The bytes `send_stream` writes before the caller streams a body: the
    /// request line and the merged header block.
    pub fn request_head(&self, method: Method, path: &str, header: Option<&HeaderSet>) -> (r: Vec<
        u8,
    >)
        requires
            self.wf(),
            (match header {
                Some(h) => h.wf(),
                None => true,
            }),
        ensures
            r@ == request_head_bytes(
                method,
                path@,
                merged_pairs(self.spec_header_pairs(), explicit_pairs(header)),
            ),
    {
        let merged = self.update_properties(header);
        serialize_request_head(method, path, &merged)
    }

    /// The bytes one whole `send` writes: the request head, with
    /// `Content-Length` put into the per-request set when a body is given,
    /// and then the body bytes themselves.
    pub fn request_bytes(
        &self,
        method: Method,
        path: &str,
        header: Option<&HeaderSet>,
        data: Option<&[u8]>,
    ) -> (r: Vec<u8>)
        requires
            self.wf(),
            (match header {
                Some(h) => h.wf(),
                None => true,
            }),
        ensures
            r@ == spec_request_bytes(
                self.spec_header_pairs(),
                method,
                path@,
                explicit_pairs(header),
                spec_data(data),
            ),
    {
        match data {
            None => self.request_head(method, path, header),
            Some(d) => {
                let mut explicit = match header {
                    Some(h) => h.duplicate(),
                    None => HeaderSet::new(),
                };
                let ghost epairs = explicit.pairs();
                let key: String = String::from_str("Content-Length");
                let value = digits_string(d.len());
                proof {
                    crate::headers::lemma_map_of_pairs(epairs);
                    crate::headers::lemma_find_key(epairs, "Content-Length"@);
                }
                explicit.set(key, value);
                proof {
                    assert(explicit.pairs() == with_content_length(epairs, d@.len()));
                }
                let mut out = self.request_head(method, path, Some(&explicit));
                out.extend_from_slice(d);
                out
            },
        }
    }
}

} // verus!
