//! The data model of a parsed request file: methods, versions, URLs,
//! header sets, authentication directives, bodies, multipart forms and
//! the request descriptor itself, together with the mathematical view
//! of each type.

use vstd::prelude::*;

use crate::text::fold_seq;

verus! {

/// A recognized HTTP method.
#[derive(Debug, Clone, Copy, PartialEq, Eq, Structural)]
pub enum Method {
    Get,
    Post,
    Put,
    Delete,
    Head,
    Options,
    Connect,
    Patch,
    Trace,
}

/// The method named by a request-line token, if the token is one of
/// the recognized method names (matched exactly, upper case).
pub open spec fn spec_method_of(tok: Seq<char>) -> Option<Method> {
    if tok == "GET"@ {
        Some(Method::Get)
    } else if tok == "POST"@ {
        Some(Method::Post)
    } else if tok == "PUT"@ {
        Some(Method::Put)
    } else if tok == "DELETE"@ {
        Some(Method::Delete)
    } else if tok == "HEAD"@ {
        Some(Method::Head)
    } else if tok == "OPTIONS"@ {
        Some(Method::Options)
    } else if tok == "CONNECT"@ {
        Some(Method::Connect)
    } else if tok == "PATCH"@ {
        Some(Method::Patch)
    } else if tok == "TRACE"@ {
        Some(Method::Trace)
    } else {
        None
    }
}

impl Method {
    pub fn from_token(tok: &[char]) -> (r: Option<Method>)
        ensures
            r == spec_method_of(tok@),
    {
        let words: [&str; 9] = [
            "GET",
            "POST",
            "PUT",
            "DELETE",
            "HEAD",
            "OPTIONS",
            "CONNECT",
            "PATCH",
            "TRACE",
        ];
        let methods: [Method; 9] = [
            Method::Get,
            Method::Post,
            Method::Put,
            Method::Delete,
            Method::Head,
            Method::Options,
            Method::Connect,
            Method::Patch,
            Method::Trace,
        ];
        let mut i: usize = 0;
        while i < 9
            invariant
                0 <= i <= 9,
                (words[0])@ == "GET"@ && methods[0] == Method::Get,
                (words[1])@ == "POST"@ && methods[1] == Method::Post,
                (words[2])@ == "PUT"@ && methods[2] == Method::Put,
                (words[3])@ == "DELETE"@ && methods[3] == Method::Delete,
                (words[4])@ == "HEAD"@ && methods[4] == Method::Head,
                (words[5])@ == "OPTIONS"@ && methods[5] == Method::Options,
                (words[6])@ == "CONNECT"@ && methods[6] == Method::Connect,
                (words[7])@ == "PATCH"@ && methods[7] == Method::Patch,
                (words[8])@ == "TRACE"@ && methods[8] == Method::Trace,
                forall|j: int| 0 <= j < i ==> tok@ != (#[trigger] words[j])@,
            decreases 9 - i,
    {
            let w = crate::text::to_char_vec(words[i]);
            if crate::text::eq_chars(tok, w.as_slice()) {
                return Some(methods[i]);
            }
            i = i + 1;
        }
        None
    }

    /// The method's request-line token.
    pub fn token(&self) -> (r: &'static str)
        ensures
            spec_method_of(r@) == Some(*self),
    {
        broadcast use vstd::string::group_string_axioms;

        proof {
            reveal_strlit("GET");
            reveal_strlit("POST");
            reveal_strlit("PUT");
            reveal_strlit("DELETE");
            reveal_strlit("HEAD");
            reveal_strlit("OPTIONS");
            reveal_strlit("CONNECT");
            reveal_strlit("PATCH");
            reveal_strlit("TRACE");
            assert("GET"@.len() == 3 && "GET"@[0] == 'G');
            assert("POST"@.len() == 4 && "POST"@[0] == 'P');
            assert("PUT"@.len() == 3 && "PUT"@[0] == 'P');
            assert("DELETE"@.len() == 6 && "DELETE"@[0] == 'D');
            assert("HEAD"@.len() == 4 && "HEAD"@[0] == 'H');
            assert("OPTIONS"@.len() == 7 && "OPTIONS"@[0] == 'O');
            assert("CONNECT"@.len() == 7 && "CONNECT"@[0] == 'C');
            assert("PATCH"@.len() == 5 && "PATCH"@[0] == 'P');
            assert("TRACE"@.len() == 5 && "TRACE"@[0] == 'T');
        }
        match *self {
            Method::Get => "GET",
            Method::Post => "POST",
            Method::Put => "PUT",
            Method::Delete => "DELETE",
            Method::Head => "HEAD",
            Method::Options => "OPTIONS",
            Method::Connect => "CONNECT",
            Method::Patch => "PATCH",
            Method::Trace => "TRACE",
        }
    }
}

/// An HTTP protocol version.
#[derive(Debug, Clone, Copy, PartialEq, Eq, Structural)]
pub enum Version {
    Http09,
    Http10,
    Http11,
    Http2,
    Http3,
}

/// A parsed absolute URL: the text exactly as written in the request
/// line, and the scheme that the URL parser derived from it. The
/// remaining components stay with the transport's own URL parser,
/// which re-reads `raw` when the request is sent.
#[derive(Debug, Clone)]
pub struct Url {
    pub raw: String,
    pub scheme: String,
}

#[verifier::ext_equal]
pub struct UrlV {
    pub raw: Seq<char>,
    pub scheme: Seq<char>,
}

impl View for Url {
    type V = UrlV;

    open spec fn view(&self) -> UrlV {
        UrlV { raw: self.raw@, scheme: self.scheme@ }
    }
}

/// An authentication directive recovered from an `Authorization`
/// header, or `Absent` when the request carries none.
#[derive(Debug, Clone)]
pub enum AuthDirective {
    Absent,
    Bearer(String),
    Basic(String, String),
}

pub enum AuthV {
    Absent,
    Bearer(Seq<char>),
    Basic(Seq<char>, Seq<char>),
}

impl View for AuthDirective {
    type V = AuthV;

    open spec fn view(&self) -> AuthV {
        match self {
            AuthDirective::Absent => AuthV::Absent,
            AuthDirective::Bearer(t) => AuthV::Bearer(t@),
            AuthDirective::Basic(u, p) => AuthV::Basic(u@, p@),
        }
    }
}

/// An ordered header map: entries keep insertion order and their keys
/// as written, but a key matches an existing entry case-insensitively,
/// and inserting over a match replaces that entry in place.
#[derive(Debug, Clone)]
pub struct Headers {
    entries: Vec<(String, String)>,
}

/// What inserting `(k, v)` does to a header sequence: the first entry
/// whose key folds equal is replaced in place, and with no such entry
/// the pair is appended.
pub open spec fn headers_insert(
    m: Seq<(Seq<char>, Seq<char>)>,
    k: Seq<char>,
    v: Seq<char>,
) -> Seq<(Seq<char>, Seq<char>)>
    decreases m.len(),
{
    if m.len() == 0 {
        seq![(k, v)]
    } else if fold_seq(m[0].0) == fold_seq(k) {
        seq![(k, v)] + m.drop_first()
    } else {
        seq![m[0]] + headers_insert(m.drop_first(), k, v)
    }
}

/// No two entries have case-insensitively equal keys.
pub open spec fn headers_wf(m: Seq<(Seq<char>, Seq<char>)>) -> bool {
    forall|i: int, j: int|
        0 <= i < j < m.len() ==> fold_seq(#[trigger] m[i].0) != fold_seq(#[trigger] m[j].0)
}

/// The value stored under the first key that matches `k`
/// case-insensitively, if any.
pub open spec fn headers_lookup(
    m: Seq<(Seq<char>, Seq<char>)>,
    k: Seq<char>,
) -> Option<Seq<char>>
    decreases m.len(),
{
    if m.len() == 0 {
        None
    } else if fold_seq(m[0].0) == fold_seq(k) {
        Some(m[0].1)
    } else {
        headers_lookup(m.drop_first(), k)
    }
}

pub proof fn lemma_headers_insert_wf(m: Seq<(Seq<char>, Seq<char>)>, k: Seq<char>, v: Seq<char>)
    requires
        headers_wf(m),
    ensures
        headers_wf(headers_insert(m, k, v)),
        headers_insert(m, k, v).len() >= m.len(),
        forall|i: int|
            0 <= i < headers_insert(m, k, v).len() ==> (fold_seq(
                #[trigger] headers_insert(m, k, v)[i].0,
            ) == fold_seq(k) || (0 <= i < m.len() && headers_insert(m, k, v)[i] == m[i])),
    decreases m.len(),
{
    let r = headers_insert(m, k, v);
    if m.len() == 0 {
    } else if fold_seq(m[0].0) == fold_seq(k) {
        assert(forall|i: int| 1 <= i < r.len() ==> r[i] == m[i]);
    } else {
        let t = m.drop_first();
        assert(headers_wf(t));
        lemma_headers_insert_wf(t, k, v);
        let rt = headers_insert(t, k, v);
        assert(r[0] == m[0]);
        assert(forall|i: int| 1 <= i < r.len() ==> r[i] == rt[i - 1]);
        assert(forall|i: int, j: int|
            0 <= i < j < r.len() ==> fold_seq(#[trigger] r[i].0) != fold_seq(#[trigger] r[j].0))
            by {
            assert forall|i: int, j: int| 0 <= i < j < r.len() implies fold_seq(
                #[trigger] r[i].0,
            ) != fold_seq(#[trigger] r[j].0) by {
                if i == 0 {
                    if fold_seq(rt[j - 1].0) == fold_seq(k) {
                    } else {
                        assert(0 <= j - 1 < t.len() && rt[j - 1] == t[j - 1]);
                        assert(t[j - 1] == m[j]);
                    }
                }
            }
        }
    }
}

impl View for Headers {
    type V = Seq<(Seq<char>, Seq<char>)>;

    closed spec fn view(&self) -> Seq<(Seq<char>, Seq<char>)> {
        Seq::new(self.entries@.len(), |i: int| (self.entries@[i].0@, self.entries@[i].1@))
    }
}

impl Headers {
    pub fn new() -> (r: Headers)
        ensures
            r@ == Seq::<(Seq<char>, Seq<char>)>::empty(),
    {
        let r = Headers { entries: Vec::new() };
        proof {
            assert(r@ =~= Seq::<(Seq<char>, Seq<char>)>::empty());
        }
        r
    }

    pub fn len(&self) -> (r: usize)
        ensures
            r == self@.len(),
    {
        self.entries.len()
    }

    /// The key and value of the entry at `i`, in insertion order.
    pub fn entry(&self, i: usize) -> (r: (&String, &String))
        requires
            i < self@.len(),
        ensures
            r.0@ == self@[i as int].0,
            r.1@ == self@[i as int].1,
    {
        let e = &self.entries[i];
        (&e.0, &e.1)
    }

    /// The value stored under `key`, matched case-insensitively.
    pub fn get(&self, key: &str) -> (r: Option<&String>)
        ensures
            match r {
                Some(v) => headers_lookup(self@, key@) == Some(v@),
                None => headers_lookup(self@, key@) is None,
            },
    {
        let ghost m = self@;
        let kc = crate::text::to_char_vec(key);
        let fk = crate::text::fold_vec(kc.as_slice());
        let n: usize = self.entries.len();
        let mut i: usize = 0;
        proof {
            assert(m.skip(0) =~~= m);
        }
        while i < n
            invariant
                0 <= i <= n,
                n == self.entries@.len(),
                m == self@,
                fk@ == fold_seq(key@),
                headers_lookup(m, key@) == headers_lookup(m.skip(i as int), key@),
            decreases n - i,
        {
            proof {
                assert(m.skip(i as int)[0] == m[i as int]);
                assert(m.skip(i as int).drop_first() =~~= m.skip(i + 1));
                assert(m[i as int] == (self.entries@[i as int].0@, self.entries@[i as int].1@));
            }
            let ekc = crate::text::to_char_vec(self.entries[i].0.as_str());
            let fek = crate::text::fold_vec(ekc.as_slice());
            if crate::text::eq_chars(fek.as_slice(), fk.as_slice()) {
                return Some(&self.entries[i].1);
            }
            i = i + 1;
        }
        proof {
            assert(m.skip(n as int) =~~= Seq::<(Seq<char>, Seq<char>)>::empty());
        }
        None
    }

    pub fn insert(&mut self, k: String, v: String)
        ensures
            final(self)@ == headers_insert(old(self)@, k@, v@),
    {
        let ghost m = self@;
        let kc = crate::text::to_char_vec(k.as_str());
        let fk = crate::text::fold_vec(kc.as_slice());
        let n: usize = self.entries.len();
        let mut out: Vec<(String, String)> = Vec::new();
        let mut i: usize = 0;
        let mut replaced: bool = false;
        proof {
            assert(m.skip(0) =~~= m);
            assert(Seq::new(out@.len(), |j: int| (out@[j].0@, out@[j].1@)) =~~= Seq::<
                (Seq<char>, Seq<char>),
            >::empty());
        }
        while i < n
            invariant
                0 <= i <= n,
                n == self.entries@.len(),
                m == self@,
                fk@ == fold_seq(k@),
                ({
                    let outv = Seq::new(out@.len(), |j: int| (out@[j].0@, out@[j].1@));
                    if replaced {
                        headers_insert(m, k@, v@) =~~= outv + m.skip(i as int)
                    } else {
                        headers_insert(m, k@, v@) =~~= outv + headers_insert(
                            m.skip(i as int),
                            k@,
                            v@,
                        )
                    }
                }),
            decreases n - i,
        {
            let ghost outv0 = Seq::new(out@.len(), |j: int| (out@[j].0@, out@[j].1@));
            proof {
                assert(m.skip(i as int).len() > 0);
                assert(m.skip(i as int)[0] == m[i as int]);
                assert(m.skip(i as int).drop_first() =~~= m.skip(i + 1));
                assert(m[i as int] == (self.entries@[i as int].0@, self.entries@[i as int].1@));
            }
            if !replaced {
                let ekc = crate::text::to_char_vec(self.entries[i].0.as_str());
                let fek = crate::text::fold_vec(ekc.as_slice());
                if crate::text::eq_chars(fek.as_slice(), fk.as_slice()) {
                    out.push((k.clone(), v.clone()));
                    replaced = true;
                    proof {
                        let outv = Seq::new(out@.len(), |j: int| (out@[j].0@, out@[j].1@));
                        assert(outv =~~= outv0.push((k@, v@)));
                        assert(headers_insert(m.skip(i as int), k@, v@) =~~= seq![(k@, v@)]
                            + m.skip(i + 1));
                        assert(headers_insert(m, k@, v@) =~~= outv + m.skip(i + 1));
                    }
                } else {
                    let e = &self.entries[i];
                    out.push((e.0.clone(), e.1.clone()));
                    proof {
                        let outv = Seq::new(out@.len(), |j: int| (out@[j].0@, out@[j].1@));
                        assert(outv =~~= outv0.push(m[i as int]));
                        assert(headers_insert(m.skip(i as int), k@, v@) =~~= seq![m[i as int]]
                            + headers_insert(m.skip(i + 1), k@, v@));
                        assert(headers_insert(m, k@, v@) =~~= outv + headers_insert(
                            m.skip(i + 1),
                            k@,
                            v@,
                        ));
                    }
                }
            } else {
                let e = &self.entries[i];
                out.push((e.0.clone(), e.1.clone()));
                proof {
                    let outv = Seq::new(out@.len(), |j: int| (out@[j].0@, out@[j].1@));
                    assert(outv =~~= outv0.push(m[i as int]));
                    assert(headers_insert(m, k@, v@) =~~= outv + m.skip(i + 1));
                }
            }
            i = i + 1;
        }
        if !replaced {
            proof {
                assert(m.skip(n as int) =~~= Seq::<(Seq<char>, Seq<char>)>::empty());
            }
            let ghost outv0 = Seq::new(out@.len(), |j: int| (out@[j].0@, out@[j].1@));
            out.push((k, v));
            proof {
                let outv = Seq::new(out@.len(), |j: int| (out@[j].0@, out@[j].1@));
                assert(outv =~~= outv0.push((k@, v@)));
                assert(headers_insert(m, k@, v@) =~~= outv);
            }
        } else {
            proof {
                assert(m.skip(n as int) =~~= Seq::<(Seq<char>, Seq<char>)>::empty());
            }
        }
        self.entries = out;
        proof {
            assert(self@ =~~= Seq::new(
                self.entries@.len(),
                |j: int| (self.entries@[j].0@, self.entries@[j].1@),
            ));
            assert(self@ =~~= headers_insert(m, k@, v@));
        }
    }
}

/// Why a request file was rejected. Variants that carry a `String`
/// hold the offending fragment of the input.
#[derive(Debug, Clone, PartialEq, Eq)]
pub enum Error {
    /// The input is blank once comment lines are stripped.
    EmptyRequest,
    /// No request line could be located (defensive: a non-blank input
    /// always has one).
    NoRequestLine,
    /// The request line has fewer than two space-separated tokens.
    NotEnoughParts(String),
    /// The first token is not a recognized HTTP method.
    InvalidMethod(String),
    /// The second token does not parse as an absolute URL.
    InvalidUrl(String),
    /// A header or disposition line lacks its separator, or Basic
    /// credentials are malformed.
    InvalidHeader(String),
    /// `multipart/form-data` was declared without a usable boundary.
    FormDataBoundaryMissing(String),
    /// A multipart segment has no `name` in its disposition header.
    FormPartNameMissing,
    /// A form part carries neither text, bytes nor a file reference
    /// (defensive: assembly always chooses one of the three).
    EmptyBody,
}

pub enum ErrorV {
    EmptyRequest,
    NoRequestLine,
    NotEnoughParts(Seq<char>),
    InvalidMethod(Seq<char>),
    InvalidUrl(Seq<char>),
    InvalidHeader(Seq<char>),
    FormDataBoundaryMissing(Seq<char>),
    FormPartNameMissing,
    EmptyBody,
}

impl View for Error {
    type V = ErrorV;

    open spec fn view(&self) -> ErrorV {
        match self {
            Error::EmptyRequest => ErrorV::EmptyRequest,
            Error::NoRequestLine => ErrorV::NoRequestLine,
            Error::NotEnoughParts(s) => ErrorV::NotEnoughParts(s@),
            Error::InvalidMethod(s) => ErrorV::InvalidMethod(s@),
            Error::InvalidUrl(s) => ErrorV::InvalidUrl(s@),
            Error::InvalidHeader(s) => ErrorV::InvalidHeader(s@),
            Error::FormDataBoundaryMissing(s) => ErrorV::FormDataBoundaryMissing(s@),
            Error::FormPartNameMissing => ErrorV::FormPartNameMissing,
            Error::EmptyBody => ErrorV::EmptyBody,
        }
    }
}

/// The content of one multipart form part: literal text, raw bytes,
/// or a reference to an external file that the transport streams from
/// the resolved path when the request is sent.
#[derive(Debug, Clone)]
pub enum PartContent {
    Text(String),
    Bytes(Vec<u8>),
    FileReference(String),
}

pub enum PartContentV {
    Text(Seq<char>),
    Bytes(Seq<u8>),
    FileReference(Seq<char>),
}

impl View for PartContent {
    type V = PartContentV;

    open spec fn view(&self) -> PartContentV {
        match self {
            PartContent::Text(s) => PartContentV::Text(s@),
            PartContent::Bytes(b) => PartContentV::Bytes(b@),
            PartContent::FileReference(p) => PartContentV::FileReference(p@),
        }
    }
}

/// One named unit of a multipart form body: its content, an optional
/// filename and an optional map of its remaining raw headers.
#[derive(Debug, Clone)]
pub struct Part {
    pub content: PartContent,
    pub filename: Option<String>,
    pub headers: Option<Headers>,
}

#[verifier::ext_equal]
pub struct PartV {
    pub content: PartContentV,
    pub filename: Option<Seq<char>>,
    pub headers: Option<Seq<(Seq<char>, Seq<char>)>>,
}

impl View for Part {
    type V = PartV;

    open spec fn view(&self) -> PartV {
        PartV {
            content: self.content@,
            filename: match &self.filename {
                Some(f) => Some(f@),
                None => None,
            },
            headers: match &self.headers {
                Some(h) => Some(h@),
                None => None,
            },
        }
    }
}

impl Part {
    /// A part holding literal text.
    pub fn text(value: String) -> (r: Self)
        ensures
            r@.content == PartContentV::Text(value@),
            r@.filename is None,
            r@.headers is None,
    {
        Part { content: PartContent::Text(value), filename: None, headers: None }
    }

    /// A part holding raw bytes.
    pub fn bytes(value: Vec<u8>) -> (r: Self)
        ensures
            r@.content == PartContentV::Bytes(value@),
            r@.filename is None,
            r@.headers is None,
    {
        Part { content: PartContent::Bytes(value), filename: None, headers: None }
    }

    /// A part whose content is read from the file at the resolved
    /// path; the transport opens and streams it when the request is
    /// sent.
    pub fn reader(path: String) -> (r: Self)
        ensures
            r@.content == PartContentV::FileReference(path@),
            r@.filename is None,
            r@.headers is None,
    {
        Part { content: PartContent::FileReference(path), filename: None, headers: None }
    }

    /// The same part with its filename set.
    pub fn file_name(self, value: String) -> (r: Self)
        ensures
            r@.content == self@.content,
            r@.filename == Some(value@),
            r@.headers == self@.headers,
    {
        Part { filename: Some(value), ..self }
    }

    /// The same part with its header map set.
    pub fn headers(self, value: Headers) -> (r: Self)
        ensures
            r@.content == self@.content,
            r@.filename == self@.filename,
            r@.headers == Some(value@),
    {
        Part { headers: Some(value), ..self }
    }
}

/// What inserting a part under `name` does to a form: the first part
/// with exactly that name is replaced in place, and with no such part
/// the pair is appended.
pub open spec fn form_insert(m: Seq<(Seq<char>, PartV)>, name: Seq<char>, p: PartV) -> Seq<
    (Seq<char>, PartV),
>
    decreases m.len(),
{
    if m.len() == 0 {
        seq![(name, p)]
    } else if m[0].0 == name {
        seq![(name, p)] + m.drop_first()
    } else {
        seq![m[0]] + form_insert(m.drop_first(), name, p)
    }
}

/// The part stored under `name`, if any.
pub open spec fn form_lookup(m: Seq<(Seq<char>, PartV)>, name: Seq<char>) -> Option<PartV>
    decreases m.len(),
{
    if m.len() == 0 {
        None
    } else if m[0].0 == name {
        Some(m[0].1)
    } else {
        form_lookup(m.drop_first(), name)
    }
}

proof fn lemma_form_insert_update(m: Seq<(Seq<char>, PartV)>, name: Seq<char>, p: PartV, i: int)
    requires
        0 <= i < m.len(),
        m[i].0 == name,
        forall|j: int| 0 <= j < i ==> (#[trigger] m[j]).0 != name,
    ensures
        form_insert(m, name, p) == m.update(i, (name, p)),
    decreases m.len(),
{
    if i == 0 {
        assert(form_insert(m, name, p) =~~= m.update(0, (name, p)));
    } else {
        let t = m.drop_first();
        assert(t[i - 1].0 == name);
        assert(forall|j: int| 0 <= j < i - 1 ==> (#[trigger] t[j]).0 != name) by {
            assert(forall|j: int| 0 <= j < i - 1 ==> t[j] == m[j + 1]);
        }
        lemma_form_insert_update(t, name, p, i - 1);
        assert(form_insert(m, name, p) =~~= seq![m[0]] + t.update(i - 1, (name, p)));
        assert(seq![m[0]] + t.update(i - 1, (name, p)) =~~= m.update(i, (name, p)));
        assert(form_insert(m, name, p) =~~= m.update(i, (name, p)));
    }
}

proof fn lemma_form_insert_append(m: Seq<(Seq<char>, PartV)>, name: Seq<char>, p: PartV)
    requires
        forall|j: int| 0 <= j < m.len() ==> (#[trigger] m[j]).0 != name,
    ensures
        form_insert(m, name, p) == m.push((name, p)),
    decreases m.len(),
{
    if m.len() == 0 {
        assert(form_insert(m, name, p) =~~= m.push((name, p)));
    } else {
        let t = m.drop_first();
        assert(forall|j: int| 0 <= j < t.len() ==> (#[trigger] t[j]).0 != name) by {
            assert(forall|j: int| 0 <= j < t.len() ==> t[j] == m[j + 1]);
        }
        lemma_form_insert_append(t, name, p);
        assert(form_insert(m, name, p) =~~= seq![m[0]] + t.push((name, p)));
        assert(seq![m[0]] + t.push((name, p)) =~~= m.push((name, p)));
        assert(form_insert(m, name, p) =~~= m.push((name, p)));
    }
}

pub proof fn lemma_form_insert_wf(m: Seq<(Seq<char>, PartV)>, name: Seq<char>, p: PartV)
    requires
        form_wf(m),
    ensures
        form_wf(form_insert(m, name, p)),
    decreases m.len(),
{
    let r = form_insert(m, name, p);
    if m.len() == 0 {
    } else if m[0].0 == name {
        assert(forall|i: int| 1 <= i < r.len() ==> r[i] == m[i]);
    } else {
        let t = m.drop_first();
        assert(forall|i: int, j: int|
            0 <= i < j < t.len() ==> (#[trigger] t[i]).0 != (#[trigger] t[j]).0) by {
            assert(forall|i: int| 0 <= i < t.len() ==> t[i] == m[i + 1]);
        }
        lemma_form_insert_wf(t, name, p);
        let rt = form_insert(t, name, p);
        assert(forall|i: int| 1 <= i < r.len() ==> r[i] == rt[i - 1]);
        assert(r[0] == m[0]);
        assert forall|i: int, j: int| 0 <= i < j < r.len() implies (#[trigger] r[i]).0 != (
        #[trigger] r[j]).0 by {
            if i == 0 {
                lemma_form_insert_keys(t, name, p, j - 1);
            }
        }
    }
}

/// Every key of an inserted form is either the inserted name or a key
/// that was already present.
proof fn lemma_form_insert_keys(m: Seq<(Seq<char>, PartV)>, name: Seq<char>, p: PartV, i: int)
    requires
        0 <= i < form_insert(m, name, p).len(),
    ensures
        form_insert(m, name, p)[i].0 == name || exists|j: int|
            0 <= j < m.len() && (#[trigger] m[j]).0 == form_insert(m, name, p)[i].0,
    decreases m.len(),
{
    let r = form_insert(m, name, p);
    if m.len() == 0 {
    } else if m[0].0 == name {
        if i > 0 {
            assert(r[i] == m[i]);
        }
    } else {
        if i == 0 {
            assert(r[0] == m[0]);
        } else {
            let t = m.drop_first();
            lemma_form_insert_keys(t, name, p, i - 1);
            assert(r[i] == form_insert(t, name, p)[i - 1]);
            if form_insert(t, name, p)[i - 1].0 != name {
                let j = choose|j: int|
                    0 <= j < t.len() && (#[trigger] t[j]).0 == form_insert(t, name, p)[i - 1].0;
                assert(m[j + 1] == t[j]);
            }
        }
    }
}

/// A multipart form: a mapping from part names to parts. Insertion
/// order is kept for the wire encoding, but names are unique — adding
/// a part under an existing name replaces that part.
#[derive(Debug)]
pub struct Form {
    parts: Vec<(String, Part)>,
}

impl View for Form {
    type V = Seq<(Seq<char>, PartV)>;

    closed spec fn view(&self) -> Seq<(Seq<char>, PartV)> {
        Seq::new(self.parts@.len(), |i: int| (self.parts@[i].0@, self.parts@[i].1@))
    }
}

/// No two parts have the same name.
pub open spec fn form_wf(m: Seq<(Seq<char>, PartV)>) -> bool {
    forall|i: int, j: int| 0 <= i < j < m.len() ==> (#[trigger] m[i]).0 != (#[trigger] m[j]).0
}

impl Form {
    pub fn new() -> (r: Form)
        ensures
            r@ == Seq::<(Seq<char>, PartV)>::empty(),
    {
        let r = Form { parts: Vec::new() };
        proof {
            assert(r@ =~~= Seq::<(Seq<char>, PartV)>::empty());
        }
        r
    }

    /// Add `part` under `name`, replacing any part already stored
    /// under exactly that name.
    pub fn part(&mut self, name: String, part: Part)
        ensures
            final(self)@ == form_insert(old(self)@, name@, part@),
    {
        let ghost m = old(self)@;
        let n: usize = self.parts.len();
        let mut i: usize = 0;
        while i < n
            invariant
                0 <= i <= n,
                n == self.parts@.len(),
                m == self@,
                m == old(self)@,
                forall|j: int| 0 <= j < i ==> (#[trigger] m[j]).0 != name@,
            decreases n - i,
        {
            proof {
                assert(m[i as int] == (self.parts@[i as int].0@, self.parts@[i as int].1@));
            }
            if crate::text::str_eq(self.parts[i].0.as_str(), name.as_str()) {
                let ghost nv = name@;
                let ghost pv = part@;
                self.parts.remove(i);
                self.parts.insert(i, (name, part));
                proof {
                    lemma_form_insert_update(m, nv, pv, i as int);
                    assert(self@ =~~= m.update(i as int, (nv, pv)));
                }
                return ;
            }
            i = i + 1;
        }
        let ghost nv = name@;
        let ghost pv = part@;
        self.parts.push((name, part));
        proof {
            lemma_form_insert_append(m, nv, pv);
            assert(self@ =~~= m.push((nv, pv)));
        }
    }

    pub fn len(&self) -> (r: usize)
        ensures
            r == self@.len(),
    {
        self.parts.len()
    }

    /// The name and part at position `i`, in insertion order.
    pub fn entry(&self, i: usize) -> (r: (&String, &Part))
        requires
            i < self@.len(),
        ensures
            r.0@ == self@[i as int].0,
            r.1@ == self@[i as int].1,
    {
        let e = &self.parts[i];
        (&e.0, &e.1)
    }

    /// The part stored under `name`, if any.
    pub fn get(&self, name: &str) -> (r: Option<&Part>)
        ensures
            match r {
                Some(p) => form_lookup(self@, name@) == Some(p@),
                None => form_lookup(self@, name@) is None,
            },
    {
        let ghost m = self@;
        let n: usize = self.parts.len();
        let mut i: usize = 0;
        proof {
            assert(m.skip(0) =~~= m);
        }
        while i < n
            invariant
                0 <= i <= n,
                n == self.parts@.len(),
                m == self@,
                form_lookup(m, name@) == form_lookup(m.skip(i as int), name@),
            decreases n - i,
        {
            proof {
                assert(m.skip(i as int)[0] == m[i as int]);
                assert(m.skip(i as int).drop_first() =~~= m.skip(i + 1));
                assert(m[i as int] == (self.parts@[i as int].0@, self.parts@[i as int].1@));
            }
            if crate::text::str_eq(self.parts[i].0.as_str(), name) {
                return Some(&self.parts[i].1);
            }
            i = i + 1;
        }
        proof {
            assert(m.skip(n as int) =~~= Seq::<(Seq<char>, PartV)>::empty());
        }
        None
    }
}

/// The body of a request, selected by the declared content type.
/// Text-bearing variants carry the body text; the transport encodes
/// it as UTF-8 bytes on the wire.
#[derive(Debug)]
pub enum Body {
    Raw(String),
    Json(String),
    UrlEncodedForm(String),
    Multipart(Form),
}

pub enum BodyV {
    Raw(Seq<char>),
    Json(Seq<char>),
    UrlEncodedForm(Seq<char>),
    Multipart(Seq<(Seq<char>, PartV)>),
}

impl View for Body {
    type V = BodyV;

    open spec fn view(&self) -> BodyV {
        match self {
            Body::Raw(s) => BodyV::Raw(s@),
            Body::Json(s) => BodyV::Json(s@),
            Body::UrlEncodedForm(s) => BodyV::UrlEncodedForm(s@),
            Body::Multipart(f) => BodyV::Multipart(f@),
        }
    }
}

/// A fully parsed request, ready for a transport to send without
/// further interpretation. `content_type` is the declared content
/// type exactly as written (the `Content-Type` header is diverted
/// here and re-emitted by the transport); `body` is present exactly
/// when a content type was declared.
#[derive(Debug)]
pub struct RequestDescriptor {
    pub method: Method,
    pub url: Url,
    pub version: Version,
    pub headers: Headers,
    pub auth: AuthDirective,
    pub content_type: Option<String>,
    pub body: Option<Body>,
}

#[verifier::ext_equal]
pub struct DescV {
    pub method: Method,
    pub url: UrlV,
    pub version: Version,
    pub headers: Seq<(Seq<char>, Seq<char>)>,
    pub auth: AuthV,
    pub content_type: Option<Seq<char>>,
    pub body: Option<BodyV>,
}

impl View for RequestDescriptor {
    type V = DescV;

    open spec fn view(&self) -> DescV {
        DescV {
            method: self.method,
            url: self.url@,
            version: self.version,
            headers: self.headers@,
            auth: self.auth@,
            content_type: match &self.content_type {
                Some(c) => Some(c@),
                None => None,
            },
            body: match &self.body {
                Some(b) => Some(b@),
                None => None,
            },
        }
    }
}

} // verus!
