//! Request serialization: the request line and the header block, as the
//! exact bytes written to the transport.
use vstd::prelude::*;
use vstd::string::StringSliceAdditionalSpecFns;
use vstd::utf8::encode_utf8;

use crate::headers::HeaderPair;
use crate::headers::HeaderSet;
use crate::methods::method_token;
use crate::methods::Method;

verus! {

/// The two line-terminator bytes CR LF.
pub open spec fn crlf() -> Seq<u8> {
    seq![13u8, 10u8]
}

/// The bytes of one header line: `<name>: <value>\r\n`.
pub open spec fn header_line_bytes(k: Seq<char>, v: Seq<char>) -> Seq<u8> {
    encode_utf8(k) + seq![58u8, 32u8] + encode_utf8(v) + crlf()
}

/// The bytes of a header block: one line per pair, in order, each pair
/// exactly once.
pub open spec fn header_block_bytes(pairs: Seq<HeaderPair>) -> Seq<u8>
    decreases pairs.len(),
{
    if pairs.len() == 0 {
        Seq::empty()
    } else {
        header_block_bytes(pairs.drop_last()) + header_line_bytes(pairs.last().0, pairs.last().1)
    }
}

/// The bytes of a whole request head: `<METHOD> <path>\r\n`, the header
/// block, and the terminating blank line. No version token is emitted on the
/// request line.
pub open spec fn request_head_bytes(m: Method, path: Seq<char>, pairs: Seq<HeaderPair>) -> Seq<
    u8,
> {
    encode_utf8(method_token(m)) + seq![32u8] + encode_utf8(path) + crlf() + header_block_bytes(
        pairs,
    ) + crlf()
}

/// Serialize the request head for a method, a path, and an already-merged
/// header set: exactly `request_head_bytes` of the set's pairs.
pub fn serialize_request_head(method: Method, path: &str, headers: &HeaderSet) -> (r: Vec<u8>)
    ensures
        r@ == request_head_bytes(method, path@, headers.pairs()),
{
    let mut out: Vec<u8> = Vec::new();
    out.extend_from_slice(method.as_bytes());
    out.push(32u8);
    out.extend_from_slice(path.as_bytes());
    out.push(13u8);
    out.push(10u8);
    let ghost head0 = encode_utf8(method_token(method)) + seq![32u8] + encode_utf8(path@) + crlf();
    proof {
        assert(out@ =~= head0 + header_block_bytes(headers.pairs().take(0)));
    }
    let n = headers.len();
    let mut i: usize = 0;
    while i < n
        invariant
            n == headers.pairs().len(),
            0 <= i <= n,
            head0 == encode_utf8(method_token(method)) + seq![32u8] + encode_utf8(path@) + crlf(),
            out@ == head0 + header_block_bytes(headers.pairs().take(i as int)),
        decreases n - i,
    {
        out.extend_from_slice(headers.name_at(i).as_str().as_bytes());
        out.push(58u8);
        out.push(32u8);
        out.extend_from_slice(headers.value_at(i).as_str().as_bytes());
        out.push(13u8);
        out.push(10u8);
        proof {
            assert(headers.pairs().take(i + 1).drop_last() =~= headers.pairs().take(i as int));
            assert(headers.pairs().take(i + 1).last() == headers.pairs()[i as int]);
            assert(out@ =~= head0 + header_block_bytes(headers.pairs().take(i + 1)));
        }
        i += 1;
    }
    out.push(13u8);
    out.push(10u8);
    proof {
        assert(headers.pairs().take(n as int) =~= headers.pairs());
        assert(out@ =~= request_head_bytes(method, path@, headers.pairs()));
    }
    out
}

} // verus!
