//! HTTP replies: the parser for the status line and header block, and the
//! reader for the `Content-Length`-delimited body.
use vstd::prelude::*;
use vstd::utf8::decode_utf8;
use vstd::utf8::valid_utf8;

use crate::errors::HttpError;
use crate::headers::HeaderPair;
use crate::headers::HeaderSet;
use crate::wire::all_digits_bytes;
use crate::wire::all_digits_chars;
use crate::wire::dec_chars_of;
use crate::wire::dec_val_bytes;
use crate::wire::dec_val_chars;
use crate::wire::digits_string;
use crate::wire::find_byte;
use crate::wire::find_byte_in;
use crate::wire::find_byte_range;
use crate::wire::lemma_find_byte;
use crate::wire::lemma_trim_end_from;
use crate::wire::parse_u32_range;
use crate::wire::parse_usize_str;
use crate::wire::string_from_utf8;
use crate::wire::trim_end_from;
use crate::wire::trim_end_in;

verus! {

/// What one reply carries at the specification level: the parsed status
/// line, the header mapping, and the raw body bytes.
pub struct ReplyModel {
    /// The HTTP version token, e.g. `HTTP/1.1`.
    pub version: Seq<char>,
    /// The numeric status code.
    pub code: u32,
    /// The status text: the rest of the status line.
    pub status: Seq<char>,
    /// The header mapping; a later line for the same name wins.
    pub header: Map<Seq<char>, Seq<char>>,
    /// Every byte after the blank line that ends the header block.
    pub body: Seq<u8>,
}

/// The first index at or after `from` where the two-byte separator `": "`
/// starts, or the length when there is none.
pub open spec fn find_sep(t: Seq<u8>, from: int) -> int
    decreases t.len() - from,
{
    if from < 0 || from + 1 >= t.len() {
        t.len() as int
    } else if t[from] == 58 && t[from + 1] == 32 {
        from
    } else {
        find_sep(t, from + 1)
    }
}

/// What `find_sep` returns: the first `": "` occurrence, or the length.
pub proof fn lemma_find_sep(t: Seq<u8>, from: int)
    requires
        0 <= from <= t.len(),
    ensures
        from <= find_sep(t, from) <= t.len(),
        find_sep(t, from) < t.len() ==> find_sep(t, from) + 1 < t.len() && t[find_sep(t, from)]
            == 58 && t[find_sep(t, from) + 1] == 32,
        forall|j: int|
            from <= j < find_sep(t, from) && j + 1 < t.len() ==> !((#[trigger] t[j]) == 58 && t[j
                + 1] == 32),
    decreases t.len() - from,
{
    if from + 1 < t.len() && !(t[from] == 58 && t[from + 1] == 32) {
        lemma_find_sep(t, from + 1);
    }
}

/// The parse of a trimmed status line: the version token (the bytes before
/// the first space, which must not be empty), the numeric code (the bytes
/// between the first and second spaces: non-empty decimal digits whose value
/// fits a `u32`), and the status text (the rest of the line, possibly empty
/// and possibly holding further spaces). `None` when the line has no space,
/// an empty version, a bad code, or text that is not UTF-8.
pub open spec fn spec_status_line(t: Seq<u8>) -> Option<(Seq<char>, u32, Seq<char>)> {
    let i = find_byte(t, 32, 0);
    if i == t.len() || i == 0 {
        None
    } else {
        let version = t.subrange(0, i);
        let j = find_byte(t, 32, i + 1);
        let code = t.subrange(i + 1, j);
        let status = if j == t.len() {
            Seq::<u8>::empty()
        } else {
            t.subrange(j + 1, t.len() as int)
        };
        if code.len() > 0 && all_digits_bytes(code) && dec_val_bytes(code) <= u32::MAX
            && valid_utf8(version) && valid_utf8(status) {
            Some((decode_utf8(version), dec_val_bytes(code) as u32, decode_utf8(status)))
        } else {
            None
        }
    }
}

/// The parse of one trimmed, non-empty header line: the name before the
/// first `": "`, the value after it up to the end of the line. `None` when
/// the line has no `": "` or either side is not UTF-8.
pub open spec fn spec_header_line(t: Seq<u8>) -> Option<(Seq<char>, Seq<char>)> {
    let i = find_sep(t, 0);
    if i == t.len() {
        None
    } else {
        let name = t.subrange(0, i);
        let value = t.subrange(i + 2, t.len() as int);
        if valid_utf8(name) && valid_utf8(value) {
            Some((decode_utf8(name), decode_utf8(value)))
        } else {
            None
        }
    }
}

/// The parse of the header block of `s` starting at `from`, on top of the
/// headers `acc` already read: the final mapping and the index where the
/// body begins. Lines end at LF or at the end of input; a line that trims to
/// nothing ends the block, as does the end of input. `None` when some line
/// is malformed.
pub open spec fn spec_headers(s: Seq<u8>, from: int, acc: Map<Seq<char>, Seq<char>>) -> Option<
    (Map<Seq<char>, Seq<char>>, int),
>
    decreases s.len() - from,
    via spec_headers_decreases
{
    if from < 0 || from >= s.len() {
        Some((acc, s.len() as int))
    } else {
        let nl = find_byte(s, 10, from);
        let te = trim_end_from(s, from, nl);
        let next = if nl < s.len() {
            nl + 1
        } else {
            s.len() as int
        };
        if te == from {
            Some((acc, next))
        } else {
            match spec_header_line(s.subrange(from, te)) {
                None => None,
                Some(kv) => spec_headers(s, next, acc.insert(kv.0, kv.1)),
            }
        }
    }
}

#[via_fn]
proof fn spec_headers_decreases(s: Seq<u8>, from: int, acc: Map<Seq<char>, Seq<char>>) {
    if !(from < 0 || from >= s.len()) {
        lemma_find_byte(s, 10, from);
    }
}

/// The parse of a whole reply byte stream: the status line, then header
/// lines up to a blank line (or the end of input), then the body as the
/// remaining bytes. A bad status line is `MalformedStatusLine`; a bad header
/// line is `MalformedHeaderLine`; nothing else fails, and no partial reply
/// exists.
pub open spec fn spec_parse_reply(s: Seq<u8>) -> Result<ReplyModel, HttpError> {
    let nl = find_byte(s, 10, 0);
    let te = trim_end_from(s, 0, nl);
    match spec_status_line(s.subrange(0, te)) {
        None => Err(HttpError::MalformedStatusLine),
        Some(vcs) => {
            let hstart = if nl < s.len() {
                nl + 1
            } else {
                s.len() as int
            };
            match spec_headers(s, hstart, Map::empty()) {
                None => Err(HttpError::MalformedHeaderLine),
                Some(hb) => Ok(
                    ReplyModel {
                        version: vcs.0,
                        code: vcs.1,
                        status: vcs.2,
                        header: hb.0,
                        body: s.subrange(hb.1, s.len() as int),
                    },
                ),
            }
        },
    }
}

/// The declared `Content-Length` of a header mapping: absent is
/// `MissingContentLength`; present but empty, not all decimal digits, or too
/// large for `usize` is `InvalidContentLength`.
pub open spec fn spec_get_length(h: Map<Seq<char>, Seq<char>>) -> Result<usize, HttpError> {
    if !h.contains_key("Content-Length"@) {
        Err(HttpError::MissingContentLength)
    } else {
        let v = h["Content-Length"@];
        if v.len() > 0 && all_digits_chars(v) && dec_val_chars(v) <= usize::MAX {
            Ok(dec_val_chars(v) as usize)
        } else {
            Err(HttpError::InvalidContentLength)
        }
    }
}

/// The first index in `[lo, hi)` where the two-byte separator `": "` starts,
/// or `hi` when there is none.
fn find_sep_range(s: &[u8], lo: usize, hi: usize) -> (r: usize)
    requires
        lo <= hi,
        hi <= s@.len(),
    ensures
        lo <= r <= hi,
        r < hi ==> (r + 1 < hi && s@[r as int] == 58 && s@[r as int + 1] == 32),
        forall|j: int|
            lo <= j < r && j + 1 < hi ==> !((#[trigger] s@[j]) == 58 && s@[j + 1] == 32),
{
    if hi == lo {
        return hi;
    }
    let mut i: usize = lo;
    while i < hi - 1
        invariant
            lo < hi,
            lo <= i <= hi,
            hi <= s@.len(),
            forall|j: int|
                lo <= j < i && j + 1 < hi ==> !((#[trigger] s@[j]) == 58 && s@[j + 1] == 32),
        decreases hi - i,
    {
        if *vstd::slice::slice_index_get(s, i) == 58 && *vstd::slice::slice_index_get(s, i + 1)
            == 32 {
            return i;
        }
        i += 1;
    }
    hi
}

/// Whether a buffered reply prefix already ends in the blank line that
/// closes a header block, so that the head can be parsed without reading
/// further: it ends with CR LF CR LF, or with LF LF.
pub open spec fn head_complete(s: Seq<u8>) -> bool {
    let n = s.len() as int;
    (n >= 4 && s[n - 4] == 13 && s[n - 3] == 10 && s[n - 2] == 13 && s[n - 1] == 10) || (n >= 2
        && s[n - 2] == 10 && s[n - 1] == 10)
}

/// Whether the buffered bytes already end in a blank line, closing the
/// header block they hold.
pub fn head_is_complete(s: &[u8]) -> (r: bool)
    ensures
        r == head_complete(s@),
{
    let n = s.len();
    if n >= 4 && *vstd::slice::slice_index_get(s, n - 4) == 13 && *vstd::slice::slice_index_get(
        s,
        n - 3,
    ) == 10 && *vstd::slice::slice_index_get(s, n - 2) == 13 && *vstd::slice::slice_index_get(
        s,
        n - 1,
    ) == 10 {
        return true;
    }
    if n >= 2 && *vstd::slice::slice_index_get(s, n - 2) == 10 && *vstd::slice::slice_index_get(
        s,
        n - 1,
    ) == 10 {
        return true;
    }
    false
}

/// The yet-unread bytes of a reply body, with the read position.
///
/// The parser hands it every byte that followed the header block; the code
/// that drives the transport may supply more as they arrive.
pub struct BodyReader {
    data: Vec<u8>,
    pos: usize,
}

impl BodyReader {
    /// Every body byte handed to this reader, read or not.
    pub closed spec fn all_bytes(&self) -> Seq<u8> {
        self.data@
    }

    /// How many bytes have been read already.
    pub closed spec fn position(&self) -> int {
        self.pos as int
    }

    /// Well-formedness: the position lies within the bytes.
    pub open spec fn wf(&self) -> bool {
        0 <= self.position() <= self.all_bytes().len()
    }

    /// The bytes not yet read.
    pub open spec fn remaining(&self) -> Seq<u8>
        recommends
            self.wf(),
    {
        self.all_bytes().subrange(self.position(), self.all_bytes().len() as int)
    }

    /// A reader over the given bytes, positioned at their start.
    pub fn new(data: Vec<u8>) -> (r: BodyReader)
        ensures
            r.wf(),
            r.all_bytes() == data@,
            r.position() == 0,
    {
        BodyReader { data, pos: 0 }
    }

    /// How many bytes were handed over in all, read or not.
    pub fn total_len(&self) -> (r: usize)
        ensures
            r == self.all_bytes().len(),
    {
        self.data.len()
    }

    /// How many bytes are left to read.
    pub fn remaining_len(&self) -> (r: usize)
        requires
            self.wf(),
        ensures
            r == self.remaining().len(),
    {
        self.data.len() - self.pos
    }

    /// Read the next `n` bytes, or all that are left when fewer than `n`
    /// remain (the stream ends there).
    pub fn read_up_to(&mut self, n: usize) -> (r: Vec<u8>)
        requires
            old(self).wf(),
        ensures
            final(self).wf(),
            final(self).all_bytes() == old(self).all_bytes(),
            r@ == (if n <= old(self).remaining().len() {
                old(self).remaining().take(n as int)
            } else {
                old(self).remaining()
            }),
            final(self).position() == old(self).position() + r@.len(),
    {
        let rem = self.data.len() - self.pos;
        let k = if n < rem {
            n
        } else {
            rem
        };
        let out = vstd::slice::slice_to_vec(
            vstd::slice::slice_subrange(self.data.as_slice(), self.pos, self.pos + k),
        );
        self.pos = self.pos + k;
        proof {
            if n <= rem {
                assert(out@ =~= old(self).remaining().take(n as int));
            } else {
                assert(out@ =~= old(self).remaining());
            }
        }
        out
    }

    /// Read everything that is left.
    pub fn read_to_end(&mut self) -> (r: Vec<u8>)
        requires
            old(self).wf(),
        ensures
            final(self).wf(),
            final(self).all_bytes() == old(self).all_bytes(),
            r@ == old(self).remaining(),
            final(self).position() == old(self).all_bytes().len(),
    {
        let n = self.remaining_len();
        let out = self.read_up_to(n);
        proof {
            assert(out@ =~= old(self).remaining());
        }
        out
    }

    /// Hand the reader more body bytes, as read from the transport.
    pub fn supply(&mut self, chunk: &[u8])
        requires
            old(self).wf(),
        ensures
            final(self).wf(),
            final(self).all_bytes() == old(self).all_bytes() + chunk@,
            final(self).position() == old(self).position(),
    {
        self.data.extend_from_slice(chunk);
    }
}

/// A parsed HTTP reply: its status line and header block as structured
/// fields, and a reader over the body bytes.
pub struct HttpReply {
    version: String,
    code: u32,
    status: String,
    header: HeaderSet,
    reader: BodyReader,
}

impl HttpReply {
    /// Parse a reply byte stream into its status line, header mapping, and
    /// body, exactly as `spec_parse_reply` describes it: a malformed status
    /// or header line is the corresponding error, and then no reply at all.
    pub fn parse(input: &[u8]) -> (r: Result<HttpReply, HttpError>)
        ensures
            (match r {
                Ok(reply) => {
                    &&& spec_parse_reply(input@) is Ok
                    &&& reply.wf()
                    &&& reply.matches(spec_parse_reply(input@).unwrap())
                },
                Err(e) => spec_parse_reply(input@) == Err::<ReplyModel, HttpError>(e),
            }),
    {
        let ghost s = input@;
        let n = input.len();
        let nl = find_byte_in(input, 10, 0);
        let te = trim_end_in(input, 0, nl);
        let ghost t = s.subrange(0, te as int);
        proof {
            lemma_find_byte(s, 10, 0);
            lemma_trim_end_from(s, 0, nl as int);
            assert(forall|j: int| 0 <= j < te ==> #[trigger] t[j] == s[j]);
        }
        let sp1 = find_byte_range(input, 32, 0, te);
        proof {
            lemma_find_byte(t, 32, 0);
            if sp1 as int != find_byte(t, 32, 0) {
                let v = find_byte(t, 32, 0);
                if v < sp1 as int {
                    assert(s[v] == 32);
                } else {
                    assert(t[sp1 as int] == 32);
                }
            }
        }
        if sp1 == te || sp1 == 0 {
            return Err(HttpError::MalformedStatusLine);
        }
        let vbytes = vstd::slice::slice_to_vec(vstd::slice::slice_subrange(input, 0, sp1));
        proof {
            assert(vbytes@ =~= t.subrange(0, sp1 as int));
        }
        let version = match string_from_utf8(vbytes) {
            Some(v) => v,
            None => {
                return Err(HttpError::MalformedStatusLine);
            },
        };
        let sp2 = find_byte_range(input, 32, sp1 + 1, te);
        proof {
            lemma_find_byte(t, 32, sp1 as int + 1);
            if sp2 as int != find_byte(t, 32, sp1 as int + 1) {
                let v = find_byte(t, 32, sp1 as int + 1);
                if v < sp2 as int {
                    assert(s[v] == 32);
                } else {
                    assert(t[sp2 as int] == 32);
                }
            }
            assert(s.subrange(sp1 as int + 1, sp2 as int) =~= t.subrange(
                sp1 as int + 1,
                sp2 as int,
            ));
        }
        let code = match parse_u32_range(input, sp1 + 1, sp2) {
            Some(c) => c,
            None => {
                return Err(HttpError::MalformedStatusLine);
            },
        };
        let sbytes = if sp2 < te {
            vstd::slice::slice_to_vec(vstd::slice::slice_subrange(input, sp2 + 1, te))
        } else {
            Vec::new()
        };
        proof {
            if sp2 < te {
                assert(sbytes@ =~= t.subrange(sp2 as int + 1, te as int));
            } else {
                assert(sbytes@ =~= Seq::<u8>::empty());
            }
        }
        let status = match string_from_utf8(sbytes) {
            Some(v) => v,
            None => {
                return Err(HttpError::MalformedStatusLine);
            },
        };
        proof {
            assert(spec_status_line(t) == Some((version@, code, status@)));
        }
        let hstart = if nl < n {
            nl + 1
        } else {
            n
        };
        let ghost gversion = version@;
        let ghost gcode = code;
        let ghost gstatus = status@;
        proof {
            assert(spec_parse_reply(s) == (match spec_headers(
                s,
                hstart as int,
                Map::<Seq<char>, Seq<char>>::empty(),
            ) {
                None => Err::<ReplyModel, HttpError>(HttpError::MalformedHeaderLine),
                Some(hb) => Ok::<ReplyModel, HttpError>(
                    ReplyModel {
                        version: gversion,
                        code: gcode,
                        status: gstatus,
                        header: hb.0,
                        body: s.subrange(hb.1, s.len() as int),
                    },
                ),
            }));
        }
        let mut hdr = HeaderSet::new();
        let mut pos: usize = hstart;
        let mut body_start: usize = n;
        loop
            invariant_except_break
                n == s.len(),
                input@ == s,
                pos <= n,
                hdr.wf(),
                spec_headers(s, hstart as int, Map::<Seq<char>, Seq<char>>::empty())
                    == spec_headers(s, pos as int, hdr@),
                spec_parse_reply(s) == (match spec_headers(
                    s,
                    hstart as int,
                    Map::<Seq<char>, Seq<char>>::empty(),
                ) {
                    None => Err::<ReplyModel, HttpError>(HttpError::MalformedHeaderLine),
                    Some(hb) => Ok::<ReplyModel, HttpError>(
                        ReplyModel {
                            version: gversion,
                            code: gcode,
                            status: gstatus,
                            header: hb.0,
                            body: s.subrange(hb.1, s.len() as int),
                        },
                    ),
                }),
            ensures
                n == s.len(),
                hdr.wf(),
                body_start <= n,
                spec_headers(s, hstart as int, Map::<Seq<char>, Seq<char>>::empty()) == Some(
                    (hdr@, body_start as int),
                ),
                spec_parse_reply(s) == Ok::<ReplyModel, HttpError>(
                    ReplyModel {
                        version: gversion,
                        code: gcode,
                        status: gstatus,
                        header: hdr@,
                        body: s.subrange(body_start as int, s.len() as int),
                    },
                ),
            decreases n - pos,
        {
            if pos >= n {
                body_start = n;
                break ;
            }
            let lnl = find_byte_in(input, 10, pos);
            let lte = trim_end_in(input, pos, lnl);
            proof {
                lemma_find_byte(s, 10, pos as int);
                lemma_trim_end_from(s, pos as int, lnl as int);
            }
            let next = if lnl < n {
                lnl + 1
            } else {
                n
            };
            if lte == pos {
                body_start = next;
                break ;
            }
            let ghost lt = s.subrange(pos as int, lte as int);
            proof {
                assert(forall|j: int| 0 <= j < lt.len() ==> #[trigger] lt[j] == s[pos + j]);
            }
            let sep = find_sep_range(input, pos, lte);
            proof {
                lemma_find_sep(lt, 0);
                if sep as int - pos as int != find_sep(lt, 0) {
                    let v = find_sep(lt, 0);
                    if v < sep - pos {
                        assert(lt[v] == 58 && lt[v + 1] == 32);
                        assert(s[pos + v] == 58 && s[pos + v + 1] == 32);
                    } else {
                        assert(sep < lte);
                        assert(lt[sep - pos] == 58 && lt[sep - pos + 1] == 32);
                    }
                }
            }
            if sep == lte {
                proof {
                    assert(spec_header_line(lt) is None);
                    assert(spec_headers(s, pos as int, hdr@) is None);
                }
                return Err(HttpError::MalformedHeaderLine);
            }
            let kbytes = vstd::slice::slice_to_vec(vstd::slice::slice_subrange(input, pos, sep));
            proof {
                assert(kbytes@ =~= lt.subrange(0, sep - pos));
            }
            let key = match string_from_utf8(kbytes) {
                Some(k) => k,
                None => {
                    proof {
                        assert(spec_header_line(lt) is None);
                        assert(spec_headers(s, pos as int, hdr@) is None);
                    }
                    return Err(HttpError::MalformedHeaderLine);
                },
            };
            let wbytes = vstd::slice::slice_to_vec(
                vstd::slice::slice_subrange(input, sep + 2, lte),
            );
            proof {
                assert(wbytes@ =~= lt.subrange(sep - pos + 2, lt.len() as int));
            }
            let value = match string_from_utf8(wbytes) {
                Some(w) => w,
                None => {
                    proof {
                        assert(spec_header_line(lt) is None);
                        assert(spec_headers(s, pos as int, hdr@) is None);
                    }
                    return Err(HttpError::MalformedHeaderLine);
                },
            };
            proof {
                assert(spec_header_line(lt) == Some((key@, value@)));
                assert(spec_headers(s, pos as int, hdr@) == spec_headers(
                    s,
                    next as int,
                    hdr@.insert(key@, value@),
                ));
            }
            hdr.set(key, value);
            pos = next;
        }
        let body = vstd::slice::slice_to_vec(vstd::slice::slice_subrange(input, body_start, n));
        let reader = BodyReader::new(body);
        let reply = HttpReply { version, code, status, header: hdr, reader };
        proof {
            assert(reply.wf());
            assert(reply.matches(spec_parse_reply(s).unwrap()));
        }
        Ok(reply)
    }

    /// The HTTP version token of the status line.
    pub closed spec fn spec_version(&self) -> Seq<char> {
        self.version@
    }

    /// The numeric status code.
    pub closed spec fn spec_code(&self) -> u32 {
        self.code
    }

    /// The status text.
    pub closed spec fn spec_status(&self) -> Seq<char> {
        self.status@
    }

    /// The header mapping.
    pub closed spec fn spec_header(&self) -> Map<Seq<char>, Seq<char>> {
        self.header@
    }

    /// The header pairs in storage order.
    pub closed spec fn spec_header_pairs(&self) -> Seq<HeaderPair> {
        self.header.pairs()
    }

    /// Every body byte handed over, read or not.
    pub closed spec fn spec_body(&self) -> Seq<u8> {
        self.reader.all_bytes()
    }

    /// How many body bytes have been read already.
    pub closed spec fn spec_body_pos(&self) -> int {
        self.reader.position()
    }

    /// The body bytes not yet read.
    pub open spec fn remaining_body(&self) -> Seq<u8> {
        self.spec_body().subrange(self.spec_body_pos(), self.spec_body().len() as int)
    }

    /// Well-formedness: distinct header names, body position in range.
    pub closed spec fn wf(&self) -> bool {
        self.header.wf() && self.reader.wf() && self.spec_header()
            == crate::headers::map_of_pairs(self.spec_header_pairs())
    }

    /// Whether this reply carries exactly the given parsed data, with its
    /// body still unread.
    pub open spec fn matches(&self, m: ReplyModel) -> bool {
        &&& self.spec_version() == m.version
        &&& self.spec_code() == m.code
        &&& self.spec_status() == m.status
        &&& self.spec_header() == m.header
        &&& self.spec_body() == m.body
        &&& self.spec_body_pos() == 0
    }

    /// Whether the parsed fields and the body bytes agree with `other`'s;
    /// only the read position may differ.
    pub open spec fn same_head_and_body(&self, other: &HttpReply) -> bool {
        &&& self.spec_version() == other.spec_version()
        &&& self.spec_code() == other.spec_code()
        &&& self.spec_status() == other.spec_status()
        &&& self.spec_header() == other.spec_header()
        &&& self.spec_header_pairs() == other.spec_header_pairs()
        &&& self.spec_body() == other.spec_body()
    }

    /// The HTTP version from the reply, e.g. `"HTTP/1.1"`.
    pub fn get_version(&self) -> (r: &String)
        ensures
            r@ == self.spec_version(),
    {
        &self.version
    }

    /// The status code from the reply.
    pub fn get_code(&self) -> (r: u32)
        ensures
            r == self.spec_code(),
    {
        self.code
    }

    /// The status text from the reply.
    pub fn get_status(&self) -> (r: &String)
        ensures
            r@ == self.spec_status(),
    {
        &self.status
    }

    /// The value of the reply header named `key`, when one was sent.
    pub fn get_property(&self, key: &String) -> (r: Option<&String>)
        requires
            self.wf(),
        ensures
            (match r {
                Some(v) => self.spec_header().contains_key(key@) && v@ == self.spec_header()[key@],
                None => !self.spec_header().contains_key(key@),
            }),
    {
        self.header.get(key)
    }

    /// The names of the reply headers, in parse order.
    pub fn get_properties_name(&self) -> (r: Vec<String>)
        ensures
            r@.len() == self.spec_header_pairs().len(),
            forall|i: int| 0 <= i < r@.len() ==> (#[trigger] r@[i])@ == self.spec_header_pairs()[i].0,
    {
        self.header.keys()
    }

    /// The reply headers as (name, value) pairs, in parse order.
    pub fn iter(&self) -> (r: Vec<(String, String)>)
        ensures
            r@.len() == self.spec_header_pairs().len(),
            forall|i: int|
                0 <= i < r@.len() ==> ((#[trigger] r@[i]).0@ == self.spec_header_pairs()[i].0
                    && r@[i].1@ == self.spec_header_pairs()[i].1),
    {
        self.header.to_pairs()
    }

    /// The reader over the reply's body bytes, for reading them directly.
    pub fn get_reader(&mut self) -> (r: &mut BodyReader)
        ensures
            *r == *old(self).spec_reader(),
            final(self).spec_version() == old(self).spec_version(),
            final(self).spec_code() == old(self).spec_code(),
            final(self).spec_status() == old(self).spec_status(),
            final(self).spec_header() == old(self).spec_header(),
            final(self).spec_header_pairs() == old(self).spec_header_pairs(),
            *final(self).spec_reader() == *final(r),
    {
        &mut self.reader
    }

    /// The body reader, for specification purposes.
    pub closed spec fn spec_reader(&self) -> &BodyReader {
        &self.reader
    }

    /// The declared `Content-Length` of the reply: absent is
    /// `MissingContentLength`, not a `usize`-sized digit string is
    /// `InvalidContentLength`.
    pub fn get_length(&self) -> (r: Result<usize, HttpError>)
        requires
            self.wf(),
        ensures
            r == spec_get_length(self.spec_header()),
    {
        let key: String = String::from_str("Content-Length");
        match self.header.get(&key) {
            None => Err(HttpError::MissingContentLength),
            Some(v) => match parse_usize_str(v) {
                Some(n) => Ok(n),
                None => Err(HttpError::InvalidContentLength),
            },
        }
    }

    /// How many more body bytes the declared `Content-Length` still calls
    /// for, given what has already been handed over: zero when enough bytes
    /// are there, and zero when no valid length is declared.
    pub fn body_bytes_missing(&self) -> (r: usize)
        requires
            self.wf(),
        ensures
            r == (match spec_get_length(self.spec_header()) {
                Ok(len) => (if len > self.spec_body().len() {
                    len - self.spec_body().len()
                } else {
                    0
                }),
                Err(_) => 0,
            }),
    {
        match self.get_length() {
            Ok(len) => {
                let have = self.reader.total_len();
                if len > have {
                    len - have
                } else {
                    0
                }
            },
            Err(_) => 0,
        }
    }

    /// The reply's summary as text: version, code, status, and the declared
    /// length when there is a valid one.
    pub fn describe(&self) -> (r: String)
        requires
            self.wf(),
        ensures
            r@ == describe_chars(
                self.spec_version(),
                self.spec_code(),
                self.spec_status(),
                spec_get_length(self.spec_header()),
            ),
    {
        let mut out: String = String::from_str("\tversion = ");
        out.append(self.version.as_str());
        out.append("\n\tcode = ");
        let code_digits = digits_string(self.code as usize);
        out.append(code_digits.as_str());
        out.append("\n\tstatus = ");
        out.append(self.status.as_str());
        out.append("\n");
        match self.get_length() {
            Ok(l) => {
                out.append("\tLength = ");
                let length_digits = digits_string(l);
                out.append(length_digits.as_str());
                out.append("\n");
            },
            Err(_) => {},
        }
        proof {
            assert(out@ =~= describe_chars(
                self.spec_version(),
                self.spec_code(),
                self.spec_status(),
                spec_get_length(self.spec_header()),
            ));
        }
        out
    }

    /// Read the declared `Content-Length` worth of body bytes, or all that
    /// remain when the stream ended short of it; without a valid declared
    /// length nothing is read and its error is returned.
    pub fn read_all(&mut self) -> (r: Result<Vec<u8>, HttpError>)
        requires
            old(self).wf(),
        ensures
            final(self).wf(),
            final(self).same_head_and_body(old(self)),
            (match spec_get_length(old(self).spec_header()) {
                Err(e) => r == Err::<Vec<u8>, HttpError>(e) && final(self).spec_body_pos() == old(
                    self,
                ).spec_body_pos(),
                Ok(len) => {
                    &&& r is Ok
                    &&& r.unwrap()@ == (if len <= old(self).remaining_body().len() {
                        old(self).remaining_body().take(len as int)
                    } else {
                        old(self).remaining_body()
                    })
                    &&& final(self).spec_body_pos() == old(self).spec_body_pos()
                        + r.unwrap()@.len()
                },
            }),
    {
        let len = match self.get_length() {
            Ok(l) => l,
            Err(e) => {
                return Err(e);
            },
        };
        Ok(self.reader.read_up_to(len))
    }

    /// Read the declared `Content-Length` worth of body bytes as a UTF-8
    /// string; bytes that are not valid UTF-8 are `InvalidBodyEncoding` (and
    /// count as read), and without a valid declared length nothing is read.
    pub fn read_string(&mut self) -> (r: Result<String, HttpError>)
        requires
            old(self).wf(),
        ensures
            final(self).wf(),
            final(self).same_head_and_body(old(self)),
            (match spec_get_length(old(self).spec_header()) {
                Err(e) => r == Err::<String, HttpError>(e) && final(self).spec_body_pos() == old(
                    self,
                ).spec_body_pos(),
                Ok(len) => {
                    let taken = if len <= old(self).remaining_body().len() {
                        old(self).remaining_body().take(len as int)
                    } else {
                        old(self).remaining_body()
                    };
                    &&& final(self).spec_body_pos() == old(self).spec_body_pos() + taken.len()
                    &&& (if valid_utf8(taken) {
                        r is Ok && r.unwrap()@ == decode_utf8(taken)
                    } else {
                        r == Err::<String, HttpError>(HttpError::InvalidBodyEncoding)
                    })
                },
            }),
    {
        let data = match self.read_all() {
            Ok(d) => d,
            Err(e) => {
                return Err(e);
            },
        };
        match string_from_utf8(data) {
            Some(s) => Ok(s),
            None => Err(HttpError::InvalidBodyEncoding),
        }
    }
}

/// The summary text of a reply: its version, code, and status on one
/// indented line each, then the declared length when there is a valid one.
pub open spec fn describe_chars(
    version: Seq<char>,
    code: u32,
    status: Seq<char>,
    length: Result<usize, HttpError>,
) -> Seq<char> {
    let head = "\tversion = "@ + version + "\n\tcode = "@ + dec_chars_of(code as nat)
        + "\n\tstatus = "@ + status + "\n"@;
    match length {
        Ok(l) => head + "\tLength = "@ + dec_chars_of(l as nat) + "\n"@,
        Err(_) => head,
    }
}

/// Law: parsing is a pure function of the received byte stream — two parses
/// of the same bytes yield the same status data, header mapping, and body,
/// or the same error.
pub proof fn lemma_parse_deterministic(b1: Seq<u8>, b2: Seq<u8>)
    requires
        b1 == b2,
    ensures
        spec_parse_reply(b1) == spec_parse_reply(b2),
{
}

} // verus!
