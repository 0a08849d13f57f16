use vstd::prelude::*;
use vstd::string::StrSliceExecFns;
use vstd::string::StringExecFns;

use crate::decimal::parse_u32;
use crate::decimal::spec_dec_digits;
use crate::decimal::spec_parse_u32;
use crate::decimal::u64_to_dec;

verus! {

/// One header line: a key/value pair of text.
#[derive(Debug, Clone)]
pub struct Header {
    pub key: String,
    pub value: String,
}

impl View for Header {
    type V = (Seq<char>, Seq<char>);

    open spec fn view(&self) -> (Seq<char>, Seq<char>) {
        (self.key@, self.value@)
    }
}

pub type Headers = Vec<Header>;

/// The key/value text of a whole header list, in order.
pub open spec fn spec_headers_view(hs: Seq<Header>) -> Seq<(Seq<char>, Seq<char>)> {
    hs.map_values(|h: Header| h@)
}

/// The five request methods this engine accepts.
#[derive(Clone, Copy, Debug, PartialEq, Eq, Structural)]
pub enum Method {
    GET,
    POST,
    PUT,
    DELETE,
    PATCH,
}

/// The method a token names, if it is one of the five accepted, case-exact.
pub open spec fn spec_method_from(s: Seq<char>) -> Option<Method> {
    if s == "GET"@ {
        Some(Method::GET)
    } else if s == "POST"@ {
        Some(Method::POST)
    } else if s == "PUT"@ {
        Some(Method::PUT)
    } else if s == "DELETE"@ {
        Some(Method::DELETE)
    } else if s == "PATCH"@ {
        Some(Method::PATCH)
    } else {
        None
    }
}

/// True exactly when `a` and `b` hold the same characters.
fn str_eq(a: &str, b: &str) -> (r: bool)
    ensures
        r == (a@ == b@),
{
    let x = a.to_owned();
    let y = b.to_owned();
    x.eq(&y)
}

impl Method {
    /// Decode a method token; anything but the five exact names is refused.
    pub fn from(s: &str) -> (r: Result<Method, &'static str>)
        ensures
            r is Ok <==> spec_method_from(s@) is Some,
            r is Ok ==> Some(r->Ok_0) == spec_method_from(s@),
            r is Err ==> r->Err_0@ == "Invalid HTTP Method"@,
    {
        if str_eq(s, "GET") {
            Ok(Method::GET)
        } else if str_eq(s, "POST") {
            Ok(Method::POST)
        } else if str_eq(s, "PUT") {
            Ok(Method::PUT)
        } else if str_eq(s, "DELETE") {
            Ok(Method::DELETE)
        } else if str_eq(s, "PATCH") {
            Ok(Method::PATCH)
        } else {
            Err("Invalid HTTP Method")
        }
    }
}

/// Scheme, host and path of a request target.
#[derive(Debug)]
pub struct URL {
    pub scheme: String,
    pub host: String,
    pub path: String,
}

impl URL {
    pub fn empty() -> (u: URL)
        ensures
            u.scheme@ == Seq::<char>::empty(),
            u.host@ == Seq::<char>::empty(),
            u.path@ == Seq::<char>::empty(),
    {
        URL { scheme: String::new(), host: String::new(), path: String::new() }
    }

    /// The textual form `scheme://host` followed by the path.
    pub fn to_string(&self) -> (r: String)
        ensures
            r@ == self.scheme@ + "://"@ + self.host@ + self.path@,
    {
        let mut s = String::from_str(self.scheme.as_str());
        s.append("://");
        s.append(self.host.as_str());
        s.append(self.path.as_str());
        s
    }
}

/// A request assembled from a stream's frames, independent of the wire form.
#[derive(Debug)]
pub struct Request {
    pub url: URL,
    pub method: Method,
    pub headers: Headers,
    pub len: u32,
    pub body: Vec<u8>,
}

/// The mathematical content of a `Request`: its text fields as character
/// sequences and its body as a byte sequence.
#[verifier::ext_equal]
pub ghost struct ReqModel {
    pub scheme: Seq<char>,
    pub host: Seq<char>,
    pub path: Seq<char>,
    pub method: Method,
    pub headers: Seq<(Seq<char>, Seq<char>)>,
    pub len: u32,
    pub body: Seq<u8>,
}

impl View for Request {
    type V = ReqModel;

    open spec fn view(&self) -> ReqModel {
        ReqModel {
            scheme: self.url.scheme@,
            host: self.url.host@,
            path: self.url.path@,
            method: self.method,
            headers: spec_headers_view(self.headers@),
            len: self.len,
            body: self.body@,
        }
    }
}

/// The request an empty header block would yield.
pub open spec fn spec_req_empty() -> ReqModel {
    ReqModel {
        scheme: Seq::<char>::empty(),
        host: Seq::<char>::empty(),
        path: Seq::<char>::empty(),
        method: Method::GET,
        headers: Seq::<(Seq<char>, Seq<char>)>::empty(),
        len: 0,
        body: Seq::<u8>::empty(),
    }
}

/// One header folded into the request under construction: the four
/// pseudo-headers and `content-length` set their field, everything else is
/// forwarded to the header list in order; an unparsable method or length
/// fails the whole fold with the named error text.
pub open spec fn spec_apply_header(m: ReqModel, h: (Seq<char>, Seq<char>)) -> Result<
    ReqModel,
    Seq<char>,
> {
    if h.0 == ":path"@ {
        Ok(ReqModel { path: h.1, ..m })
    } else if h.0 == ":authority"@ {
        Ok(ReqModel { host: h.1, ..m })
    } else if h.0 == ":scheme"@ {
        Ok(ReqModel { scheme: h.1, ..m })
    } else if h.0 == ":method"@ {
        match spec_method_from(h.1) {
            Some(me) => Ok(ReqModel { method: me, ..m }),
            None => Err("Invalid HTTP Method"@),
        }
    } else if h.0 == "content-length"@ {
        match spec_parse_u32(h.1) {
            Some(v) => Ok(ReqModel { len: v, ..m }),
            None => Err("invalid content-length value"@),
        }
    } else {
        Ok(ReqModel { headers: m.headers.push(h), ..m })
    }
}

pub open spec fn spec_fold_headers(
    m: Result<ReqModel, Seq<char>>,
    hs: Seq<(Seq<char>, Seq<char>)>,
) -> Result<ReqModel, Seq<char>>
    decreases hs.len(),
{
    match m {
        Err(e) => Err(e),
        Ok(mm) => if hs.len() == 0 {
            Ok(mm)
        } else {
            spec_fold_headers(spec_apply_header(mm, hs[0]), hs.drop_first())
        },
    }
}

/// What decoding a header block into a request means: fold every pair, in
/// order, into the empty request; the first failing pair's error stands.
pub open spec fn spec_from_h2_headers(hs: Seq<(Seq<char>, Seq<char>)>) -> Result<
    ReqModel,
    Seq<char>,
> {
    spec_fold_headers(Ok(spec_req_empty()), hs)
}

proof fn lemma_fold_snoc(
    m: Result<ReqModel, Seq<char>>,
    hs: Seq<(Seq<char>, Seq<char>)>,
    h: (Seq<char>, Seq<char>),
)
    ensures
        spec_fold_headers(m, hs) is Err ==> spec_fold_headers(m, hs.push(h)) == spec_fold_headers(
            m,
            hs,
        ),
        spec_fold_headers(m, hs) is Ok ==> spec_fold_headers(m, hs.push(h)) == spec_apply_header(
            spec_fold_headers(m, hs)->Ok_0,
            h,
        ),
    decreases hs.len(),
{
    match m {
        Err(e) => {
            assert(spec_fold_headers(m, hs.push(h)) == Err::<ReqModel, Seq<char>>(e));
            assert(spec_fold_headers(m, hs) == Err::<ReqModel, Seq<char>>(e));
        },
        Ok(mm) => {
            if hs.len() == 0 {
                assert(hs.push(h)[0] == h);
                assert(hs.push(h).drop_first() =~= Seq::<(Seq<char>, Seq<char>)>::empty());
                match spec_apply_header(mm, h) {
                    Err(e) => {
                        assert(spec_fold_headers(
                            spec_apply_header(mm, h),
                            hs.push(h).drop_first(),
                        ) == Err::<ReqModel, Seq<char>>(e));
                    },
                    Ok(x) => {
                        assert(spec_fold_headers(
                            spec_apply_header(mm, h),
                            hs.push(h).drop_first(),
                        ) == Ok::<ReqModel, Seq<char>>(x));
                    },
                }
            } else {
                assert(hs.push(h)[0] == hs[0]);
                assert(hs.push(h).drop_first() =~= hs.drop_first().push(h));
                lemma_fold_snoc(spec_apply_header(mm, hs[0]), hs.drop_first(), h);
            }
        },
    }
}

/// Once some prefix of the fold has failed, the whole fold has failed, with
/// that prefix's error.
proof fn lemma_prefix_err_ends_fold(hs: Seq<(Seq<char>, Seq<char>)>, i: int)
    requires
        0 <= i < hs.len(),
        spec_fold_headers(Ok(spec_req_empty()), hs.subrange(0, i + 1)) is Err,
    ensures
        spec_from_h2_headers(hs) == spec_fold_headers(Ok(spec_req_empty()), hs.subrange(0, i + 1)),
{
    lemma_fold_append(
        Ok(spec_req_empty()),
        hs.subrange(0, i + 1),
        hs.subrange(i + 1, hs.len() as int),
    );
    assert(hs.subrange(0, i + 1) + hs.subrange(i + 1, hs.len() as int) =~= hs);
}

proof fn lemma_fold_append(
    m: Result<ReqModel, Seq<char>>,
    a: Seq<(Seq<char>, Seq<char>)>,
    b: Seq<(Seq<char>, Seq<char>)>,
)
    ensures
        spec_fold_headers(m, a + b) == spec_fold_headers(spec_fold_headers(m, a), b),
    decreases a.len(),
{
    match m {
        Err(e) => {
            assert(spec_fold_headers(m, a + b) == Err::<ReqModel, Seq<char>>(e));
            assert(spec_fold_headers(m, a) == Err::<ReqModel, Seq<char>>(e));
        },
        Ok(mm) => {
            if a.len() == 0 {
                assert(a + b =~= b);
            } else {
                assert((a + b)[0] == a[0]);
                assert((a + b).drop_first() =~= a.drop_first() + b);
                lemma_fold_append(spec_apply_header(mm, a[0]), a.drop_first(), b);
            }
        },
    }
}

impl Request {
    pub fn empty() -> (r: Request)
        ensures
            r.url.scheme@ == Seq::<char>::empty(),
            r.url.host@ == Seq::<char>::empty(),
            r.url.path@ == Seq::<char>::empty(),
            r.method == Method::GET,
            r.headers@ =~= Seq::<Header>::empty(),
            r.len == 0,
            r.body@ == Seq::<u8>::empty(),
    {
        Request {
            url: URL::empty(),
            method: Method::GET,
            headers: Vec::new(),
            len: 0,
            body: Vec::new(),
        }
    }

    /// Build a request from a decoded header block, folding each pair in
    /// order as `spec_from_h2_headers` describes. Fails exactly when a
    /// `:method` value is not one of the five accepted tokens or a
    /// `content-length` value is not an unsigned 32-bit decimal.
    pub fn from_h2_headers(h2headers: Headers) -> (r: Result<Request, &'static str>)
        ensures
            r is Ok <==> spec_from_h2_headers(spec_headers_view(h2headers@)) is Ok,
            r is Ok ==> spec_from_h2_headers(spec_headers_view(h2headers@)) == Ok::<
                ReqModel,
                Seq<char>,
            >(r->Ok_0@),
            r is Err ==> spec_from_h2_headers(spec_headers_view(h2headers@)) == Err::<
                ReqModel,
                Seq<char>,
            >(r->Err_0@),
    {
        let ghost hs = spec_headers_view(h2headers@);
        let mut req = Request::empty();
        proof {
            assert(req@ =~= spec_req_empty());
        }
        let n = h2headers.len();
        let mut i: usize = 0;
        while i < n
            invariant
                0 <= i <= n,
                n == h2headers@.len(),
                hs == spec_headers_view(h2headers@),
                spec_fold_headers(Ok(spec_req_empty()), hs.subrange(0, i as int)) == Ok::<
                    ReqModel,
                    Seq<char>,
                >(req@),
            decreases n - i,
        {
            let ghost prev = req@;
            let h = &h2headers[i];
            proof {
                assert(hs[i as int] == h@);
            }
            if str_eq(h.key.as_str(), ":path") {
                req.url.path = h.value.clone();
            } else if str_eq(h.key.as_str(), ":authority") {
                req.url.host = h.value.clone();
            } else if str_eq(h.key.as_str(), ":scheme") {
                req.url.scheme = h.value.clone();
            } else if str_eq(h.key.as_str(), ":method") {
                match Method::from(h.value.as_str()) {
                    Ok(m) => {
                        req.method = m;
                    },
                    Err(e) => {
                        proof {
                            lemma_fold_snoc(
                                Ok(spec_req_empty()),
                                hs.subrange(0, i as int),
                                hs[i as int],
                            );
                            assert(hs.subrange(0, i + 1) =~= hs.subrange(0, i as int).push(
                                hs[i as int],
                            ));
                            lemma_prefix_err_ends_fold(hs, i as int);
                        }
                        return Err(e);
                    },
                }
            } else if str_eq(h.key.as_str(), "content-length") {
                match parse_u32(h.value.as_str()) {
                    Some(v) => {
                        req.len = v;
                    },
                    None => {
                        proof {
                            lemma_fold_snoc(
                                Ok(spec_req_empty()),
                                hs.subrange(0, i as int),
                                hs[i as int],
                            );
                            assert(hs.subrange(0, i + 1) =~= hs.subrange(0, i as int).push(
                                hs[i as int],
                            ));
                            lemma_prefix_err_ends_fold(hs, i as int);
                        }
                        return Err("invalid content-length value");
                    },
                }
            } else {
                req.headers.push(Header { key: h.key.clone(), value: h.value.clone() });
                proof {
                    assert(spec_headers_view(req.headers@) =~= prev.headers.push(h@));
                }
            }
            proof {
                lemma_fold_snoc(Ok(spec_req_empty()), hs.subrange(0, i as int), hs[i as int]);
                assert(hs.subrange(0, i + 1) =~= hs.subrange(0, i as int).push(hs[i as int]));
                assert(req@ =~= spec_apply_header(prev, hs[i as int])->Ok_0);
            }
            i = i + 1;
        }
        proof {
            assert(hs.subrange(0, n as int) =~= hs);
        }
        Ok(req)
    }

    /// Attach the accumulated body; the caller must already have checked it
    /// against the announced content length.
    pub fn set_body(&mut self, buf: Vec<u8>)
        requires
            old(self).len == buf@.len(),
        ensures
            final(self).body == buf,
            final(self).url == old(self).url,
            final(self).method == old(self).method,
            final(self).headers == old(self).headers,
            final(self).len == old(self).len,
    {
        self.body = buf
    }

    pub fn body(&self) -> (r: &Vec<u8>)
        ensures
            r == &self.body,
    {
        &self.body
    }
}

/// A response the application hands back, to be serialized onto a stream.
#[derive(Debug)]
pub struct Response {
    pub status: u16,
    pub headers: Headers,
    pub body: Vec<u8>,
}

impl Response {
    /// The header list to put on the wire: the caller's headers in order,
    /// then a `:status` entry with the decimal status code, then a
    /// `content-length` entry with the decimal body length. Both are always
    /// appended, even beside an existing `content-length`.
    pub fn h2headers(&self) -> (r: Headers)
        ensures
            spec_headers_view(r@) == spec_headers_view(self.headers@) + seq![
                (":status"@, spec_dec_digits(self.status as nat)),
                ("content-length"@, spec_dec_digits(self.body@.len() as nat)),
            ],
    {
        let mut h2headers: Headers = Vec::new();
        let n = self.headers.len();
        let mut i: usize = 0;
        while i < n
            invariant
                0 <= i <= n,
                n == self.headers@.len(),
                h2headers@.len() == i,
                spec_headers_view(h2headers@) == spec_headers_view(self.headers@.subrange(0, i as int)),
            decreases n - i,
        {
            let h = &self.headers[i];
            let ghost prior = h2headers@;
            h2headers.push(Header { key: h.key.clone(), value: h.value.clone() });
            proof {
                assert(h2headers@[i as int]@ == self.headers@[i as int]@);
                assert forall|j: int| 0 <= j <= i implies spec_headers_view(h2headers@)[j]
                    == spec_headers_view(self.headers@.subrange(0, i + 1))[j] by {
                    if j < i {
                        assert(h2headers@[j] == prior[j]);
                        assert(spec_headers_view(prior)[j] == spec_headers_view(
                            self.headers@.subrange(0, i as int),
                        )[j]);
                    }
                }
                assert(spec_headers_view(h2headers@) =~= spec_headers_view(
                    self.headers@.subrange(0, i + 1),
                ));
            }
            i = i + 1;
        }
        proof {
            assert(self.headers@.subrange(0, n as int) =~= self.headers@);
        }
        h2headers.push(Header { key: String::from_str(":status"), value: u64_to_dec(self.status as u64) });
        h2headers.push(
            Header { key: String::from_str("content-length"), value: u64_to_dec(self.body.len() as u64) },
        );
        proof {
            assert(spec_headers_view(h2headers@) =~= spec_headers_view(self.headers@) + seq![
                (":status"@, spec_dec_digits(self.status as nat)),
                ("content-length"@, spec_dec_digits(self.body@.len() as nat)),
            ]);
        }
        h2headers
    }
}

} // verus!
