//! The request-file parser: comment lines are stripped, the first
//! non-blank line is read as `METHOD URL [VERSION]`, the remainder is
//! split at the first empty line into a header block and a body, and
//! the declared content type selects how the body is represented.

use vstd::prelude::*;

use crate::headers::HeaderScanState;
use crate::headers::spec_header_scan;
use crate::model::AuthV;
use crate::model::Body;
use crate::model::BodyV;
use crate::model::DescV;
use crate::model::Error;
use crate::model::ErrorV;
use crate::model::Method;
use crate::model::RequestDescriptor;
use crate::model::UrlV;
use crate::model::Version;
use crate::model::form_wf;
use crate::model::headers_wf;
use crate::model::spec_method_of;
use crate::text::find_char_from;
use crate::text::first_empty_from;
use crate::text::first_nonblank_from;
use crate::text::fold_seq;
use crate::text::join_lines;
use crate::text::lines_spec;
use crate::text::split_on_spec;
use crate::text::starts_with;
use crate::text::trim_spec;
use crate::urlparse::url_scheme_of;

verus! {

/// Comment lines — those beginning with `//` or `#` — removed from a
/// line sequence.
pub open spec fn spec_strip_comments(ls: Seq<Seq<char>>) -> Seq<Seq<char>>
    decreases ls.len(),
{
    if ls.len() == 0 {
        Seq::empty()
    } else {
        let pre = spec_strip_comments(ls.drop_last());
        let l = ls.last();
        if starts_with(l, "//"@) || starts_with(l, "#"@) {
            pre
        } else {
            pre.push(l)
        }
    }
}

fn strip_comment_lines(lines: &Vec<Vec<char>>) -> (r: Vec<Vec<char>>)
    ensures
        r.deep_view() == spec_strip_comments(lines.deep_view()),
{
    let ghost lv = lines.deep_view();
    let slash = crate::text::to_char_vec("//");
    let hash = crate::text::to_char_vec("#");
    let n: usize = lines.len();
    let mut r: Vec<Vec<char>> = Vec::new();
    let mut i: usize = 0;
    proof {
        assert(lv.take(0int) =~~= Seq::<Seq<char>>::empty());
        assert(r.deep_view() =~~= spec_strip_comments(lv.take(0int)));
    }
    while i < n
        invariant
            0 <= i <= n,
            n == lines@.len(),
            lv == lines.deep_view(),
            slash@ == "//"@,
            hash@ == "#"@,
            r.deep_view() == spec_strip_comments(lv.take(i as int)),
        decreases n - i,
    {
        proof {
            assert(lv[i as int] =~= lines@[i as int]@);
            assert(lv.take(i + 1).drop_last() =~~= lv.take(i as int));
            assert(lv.take(i + 1).last() == lv[i as int]);
        }
        let line = &lines[i];
        let ghost r0 = r.deep_view();
        if !crate::text::has_prefix(line.as_slice(), slash.as_slice()) && !crate::text::has_prefix(
            line.as_slice(),
            hash.as_slice(),
        ) {
            r.push(crate::text::copy_chars(line.as_slice()));
            proof {
                assert(r.deep_view() =~~= r0.push(lv[i as int]));
            }
        }
        i = i + 1;
    }
    proof {
        assert(lv.take(n as int) =~~= lv);
    }
    r
}

/// The version named by a request-line token, matched after trimming
/// and case folding; an unrecognized token falls back to HTTP/1.1.
pub open spec fn spec_version_of(s: Seq<char>) -> Version {
    let f = fold_seq(trim_spec(s));
    if f == "http/0.9"@ {
        Version::Http09
    } else if f == "http/1.0"@ {
        Version::Http10
    } else if f == "http/2.0"@ || f == "http/2"@ {
        Version::Http2
    } else if f == "http/3.0"@ || f == "http/3"@ {
        Version::Http3
    } else {
        Version::Http11
    }
}

/// Map a protocol-version token to a version, permissively: anything
/// unrecognized is HTTP/1.1.
pub fn map_version(v: &str) -> (r: Version)
    ensures
        r == spec_version_of(v@),
{
    let vc = crate::text::to_char_vec(v);
    let t = crate::text::trim(vc.as_slice());
    let f = crate::text::fold_vec(t.as_slice());
    let l09 = crate::text::to_char_vec("http/0.9");
    if crate::text::eq_chars(f.as_slice(), l09.as_slice()) {
        return Version::Http09;
    }
    let l10 = crate::text::to_char_vec("http/1.0");
    if crate::text::eq_chars(f.as_slice(), l10.as_slice()) {
        return Version::Http10;
    }
    let l20 = crate::text::to_char_vec("http/2.0");
    let l2 = crate::text::to_char_vec("http/2");
    if crate::text::eq_chars(f.as_slice(), l20.as_slice()) || crate::text::eq_chars(
        f.as_slice(),
        l2.as_slice(),
    ) {
        return Version::Http2;
    }
    let l30 = crate::text::to_char_vec("http/3.0");
    let l3 = crate::text::to_char_vec("http/3");
    if crate::text::eq_chars(f.as_slice(), l30.as_slice()) || crate::text::eq_chars(
        f.as_slice(),
        l3.as_slice(),
    ) {
        return Version::Http3;
    }
    Version::Http11
}

/// A body holds a well-formed form when it is multipart; other bodies
/// carry no structure to constrain.
pub open spec fn body_wf(b: BodyV) -> bool {
    match b {
        BodyV::Multipart(f) => form_wf(f),
        _ => true,
    }
}

/// The body selected by the declared content type: the primary token
/// (before the first `;`, trimmed) picks JSON passthrough, a literal
/// pre-encoded form string, multipart assembly, or raw bytes of the
/// body text.
pub open spec fn spec_dispatch(ct: Seq<char>, body: Seq<char>, dir: Seq<char>) -> Result<
    BodyV,
    ErrorV,
> {
    let primary = trim_spec(
        match find_char_from(ct, ';', 0) {
            None => ct,
            Some(i) => ct.take(i),
        },
    );
    if primary == "application/json"@ {
        Ok(BodyV::Json(body))
    } else if primary == "application/x-www-form-urlencoded"@ {
        Ok(BodyV::UrlEncodedForm(body))
    } else if primary == "multipart/form-data"@ {
        match crate::form::spec_parse_form_data(ct, body, dir) {
            Err(e) => Err(e),
            Ok(f) => Ok(BodyV::Multipart(f)),
        }
    } else {
        Ok(BodyV::Raw(body))
    }
}

/// Build the body representation for the declared content type,
/// resolving multipart file references against `directory`.
pub fn attach_body(content_type: String, content: String, directory: &str) -> (r: Result<
    Body,
    Error,
>)
    ensures
        match r {
            Ok(b) => spec_dispatch(content_type@, content@, directory@) == Ok::<BodyV, ErrorV>(b@)
                && body_wf(b@),
            Err(e) => spec_dispatch(content_type@, content@, directory@) == Err::<BodyV, ErrorV>(
                e@,
            ),
        },
{
    let ctc = crate::text::to_char_vec(content_type.as_str());
    let primary = match crate::text::find_ch(ctc.as_slice(), ';') {
        None => crate::text::copy_chars(ctc.as_slice()),
        Some(i) => {
            proof {
                crate::text::lemma_find_char_from_bounds(content_type@, ';', 0);
            }
            let p = crate::text::sub_chars(ctc.as_slice(), 0, i);
            proof {
                assert(p@ =~= content_type@.take(i as int));
            }
            p
        },
    };
    let primary = crate::text::trim(primary.as_slice());
    let json = crate::text::to_char_vec("application/json");
    if crate::text::eq_chars(primary.as_slice(), json.as_slice()) {
        return Ok(Body::Json(content));
    }
    let urlenc = crate::text::to_char_vec("application/x-www-form-urlencoded");
    if crate::text::eq_chars(primary.as_slice(), urlenc.as_slice()) {
        return Ok(Body::UrlEncodedForm(content));
    }
    let multi = crate::text::to_char_vec("multipart/form-data");
    if crate::text::eq_chars(primary.as_slice(), multi.as_slice()) {
        match crate::form::parse_form_data(content_type, content, directory) {
            Err(e) => {
                return Err(e);
            },
            Ok(f) => {
                return Ok(Body::Multipart(f));
            },
        }
    }
    Ok(Body::Raw(content))
}

/// The parse of a whole request file: comments stripped, the first
/// non-blank line read as `METHOD URL [VERSION]`, the rest split at
/// the first empty line into header block and body. The version
/// defaults by scheme — HTTP/2.0 for `https`, HTTP/1.1 otherwise —
/// when the third token is absent.
pub open spec fn spec_parse_request(text: Seq<char>, dir: Seq<char>) -> Result<DescV, ErrorV> {
    let ls = spec_strip_comments(lines_spec(text));
    match first_nonblank_from(ls, 0) {
        None => Err(ErrorV::EmptyRequest),
        Some(ri) => {
            let rl = ls[ri];
            let toks = split_on_spec(rl, seq![' ']);
            if toks.len() < 2 {
                Err(ErrorV::NotEnoughParts(rl))
            } else {
                match spec_method_of(toks[0]) {
                    None => Err(ErrorV::InvalidMethod(toks[0])),
                    Some(m) => {
                        if url_scheme_of(toks[1]).len() == 0 {
                            Err(ErrorV::InvalidUrl(toks[1]))
                        } else {
                            let version = if toks.len() >= 3 {
                                spec_version_of(toks[2])
                            } else if url_scheme_of(toks[1]) == "https"@ {
                                Version::Http2
                            } else {
                                Version::Http11
                            };
                            let hb = match first_empty_from(ls, ri + 1) {
                                None => (ls.skip(ri + 1), Seq::<Seq<char>>::empty()),
                                Some(bi) => (ls.subrange(ri + 1, bi), ls.skip(bi + 1)),
                            };
                            match spec_header_scan(
                                hb.0,
                                0,
                                HeaderScanState {
                                    content_type: None,
                                    auth: AuthV::Absent,
                                    headers: Seq::empty(),
                                },
                            ) {
                                Err(e) => Err(e),
                                Ok(st) => match st.content_type {
                                    None => Ok(
                                        DescV {
                                            method: m,
                                            url: UrlV {
                                                raw: toks[1],
                                                scheme: url_scheme_of(toks[1]),
                                            },
                                            version,
                                            headers: st.headers,
                                            auth: st.auth,
                                            content_type: None,
                                            body: None,
                                        },
                                    ),
                                    Some(ctv) => match spec_dispatch(
                                        ctv,
                                        join_lines(hb.1),
                                        dir,
                                    ) {
                                        Err(e) => Err(e),
                                        Ok(b) => Ok(
                                            DescV {
                                                method: m,
                                                url: UrlV {
                                                    raw: toks[1],
                                                    scheme: url_scheme_of(toks[1]),
                                                },
                                                version,
                                                headers: st.headers,
                                                auth: st.auth,
                                                content_type: Some(ctv),
                                                body: Some(b),
                                            },
                                        ),
                                    },
                                },
                            }
                        }
                    },
                }
            }
        },
    }
}

/// Whether a parsed descriptor is internally well formed: its header
/// set has case-insensitively unique keys and a multipart body has
/// uniquely named parts.
pub open spec fn desc_wf(d: DescV) -> bool {
    headers_wf(d.headers) && match d.body {
        Some(b) => body_wf(b),
        None => true,
    }
}

/// Parse a request file into a request descriptor, resolving any
/// multipart file references against `directory`, the directory that
/// holds the request file.
pub fn parse_request(content: &str, directory: &str) -> (r: Result<RequestDescriptor, Error>)
    ensures
        match r {
            Ok(d) => spec_parse_request(content@, directory@) == Ok::<DescV, ErrorV>(d@) && desc_wf(
                d@,
            ),
            Err(e) => spec_parse_request(content@, directory@) == Err::<DescV, ErrorV>(e@),
        },
{
    let cc = crate::text::to_char_vec(content);
    let all = crate::text::lines_of(cc.as_slice());
    let ls = strip_comment_lines(&all);
    let ghost lv = ls.deep_view();
    proof {
        assert(lv == spec_strip_comments(lines_spec(content@)));
    }
    let ri = match crate::text::first_nonblank(&ls, 0) {
        None => {
            return Err(Error::EmptyRequest);
        },
        Some(ri) => ri,
    };
    proof {
        crate::text::lemma_first_nonblank_from_bounds(lv, 0);
    }
    let sp: Vec<char> = vec![' '];
    proof {
        assert(sp@ =~= seq![' ']);
    }
    let toks = crate::text::split_on(ls[ri].as_slice(), sp.as_slice());
    let ghost tv = toks.deep_view();
    proof {
        assert(lv[ri as int] =~= ls@[ri as int]@);
        assert(tv == split_on_spec(lv[ri as int], seq![' ']));
    }
    if toks.len() < 2 {
        return Err(Error::NotEnoughParts(crate::text::from_chars(ls[ri].as_slice())));
    }
    proof {
        assert(tv[0] =~= toks@[0]@);
        assert(tv[1] =~= toks@[1]@);
    }
    let m = match Method::from_token(toks[0].as_slice()) {
        None => {
            return Err(Error::InvalidMethod(crate::text::from_chars(toks[0].as_slice())));
        },
        Some(m) => m,
    };
    let urlstr = crate::text::from_chars(toks[1].as_slice());
    let u = match crate::urlparse::parse_absolute_url(urlstr.as_str()) {
        None => {
            return Err(Error::InvalidUrl(urlstr));
        },
        Some(u) => u,
    };
    let version = if toks.len() >= 3 {
        proof {
            assert(tv[2] =~= toks@[2]@);
        }
        let vs = crate::text::from_chars(toks[2].as_slice());
        map_version(vs.as_str())
    } else {
        if crate::text::str_eq(u.scheme.as_str(), "https") {
            Version::Http2
        } else {
            Version::Http11
        }
    };
    let n: usize = ls.len();
    let hb = match crate::text::first_empty(&ls, ri + 1) {
        None => {
            proof {
                crate::text::lemma_first_empty_from_bounds(lv, ri + 1);
            }
            let h = crate::text::sub_lines(&ls, ri + 1, n);
            proof {
                assert(h.deep_view() =~~= lv.skip(ri + 1));
            }
            (h, Vec::<Vec<char>>::new())
        },
        Some(bi) => {
            proof {
                crate::text::lemma_first_empty_from_bounds(lv, ri + 1);
            }
            let h = crate::text::sub_lines(&ls, ri + 1, bi);
            let b = crate::text::sub_lines(&ls, bi + 1, n);
            proof {
                assert(b.deep_view() =~~= lv.skip(bi + 1));
            }
            (h, b)
        },
    };
    let ghost hdrv = hb.0.deep_view();
    let ghost bodyv = hb.1.deep_view();
    proof {
        assert(bodyv =~~= (match first_empty_from(lv, ri + 1) {
            None => Seq::<Seq<char>>::empty(),
            Some(bi) => lv.skip(bi + 1),
        }));
    }
    let (ct, auth, hs) = match crate::headers::scan_header_lines(&hb.0) {
        Err(e) => {
            return Err(e);
        },
        Ok(t) => t,
    };
    match ct {
        None => {
            let d = RequestDescriptor {
                method: m,
                url: u,
                version,
                headers: hs,
                auth,
                content_type: None,
                body: None,
            };
            Ok(d)
        },
        Some(ctv) => {
            let body_text = crate::text::join(&hb.1);
            let body_string = crate::text::from_chars(body_text.as_slice());
            match attach_body(ctv.clone(), body_string, directory) {
                Err(e) => {
                    return Err(e);
                },
                Ok(b) => {
                    let d = RequestDescriptor {
                        method: m,
                        url: u,
                        version,
                        headers: hs,
                        auth,
                        content_type: Some(ctv),
                        body: Some(b),
                    };
                    Ok(d)
                },
            }
        },
    }
}

} // verus!
