//! The header-section parser and the authentication-directive
//! resolver: each line of the block between the request line and the
//! body is split at its first `:`, the content type and authorization
//! headers are diverted, and every other header is stored with its key
//! as written.

use vstd::prelude::*;

use crate::model::AuthDirective;
use crate::model::AuthV;
use crate::model::Error;
use crate::model::ErrorV;
use crate::model::Headers;
use crate::model::headers_insert;
use crate::model::headers_wf;
use crate::model::lemma_headers_insert_wf;
use crate::text::find_char_from;
use crate::text::fold_seq;
use crate::text::is_blank;
use crate::text::lines_spec;
use crate::text::starts_with;
use crate::text::trim_spec;

verus! {

/// The directive named by an `Authorization` header value: `Bearer`
/// takes the trimmed remainder as the token; `Basic` splits the
/// trimmed remainder at its first space into username and password,
/// and fails when no space is present; any other scheme yields no
/// directive, so the header passes through unmodified.
pub open spec fn spec_resolve_auth(value: Seq<char>) -> Result<Option<AuthV>, ErrorV> {
    let t = trim_spec(value);
    if starts_with(t, "Bearer"@) {
        Ok(Some(AuthV::Bearer(trim_spec(t.skip("Bearer"@.len() as int)))))
    } else if starts_with(t, "Basic"@) {
        let rest = trim_spec(t.skip("Basic"@.len() as int));
        match find_char_from(rest, ' ', 0) {
            None => Err(ErrorV::InvalidHeader(value)),
            Some(i) => Ok(
                Some(AuthV::Basic(trim_spec(rest.take(i)), trim_spec(rest.skip(i + 1)))),
            ),
        }
    } else {
        Ok(None)
    }
}

pub fn resolve_auth(value: &[char]) -> (r: Result<Option<AuthDirective>, Error>)
    ensures
        match r {
            Ok(d) => spec_resolve_auth(value@) == Ok::<Option<AuthV>, ErrorV>(
                match d {
                    Some(a) => Some(a@),
                    None => None,
                },
            ),
            Err(e) => spec_resolve_auth(value@) == Err::<Option<AuthV>, ErrorV>(e@),
        },
{
    broadcast use vstd::string::group_string_axioms;

    let t = crate::text::trim(value);
    let bearer = crate::text::to_char_vec("Bearer");
    let bl: usize = bearer.len();
    proof {
        reveal_strlit("Bearer");
        assert("Bearer"@.len() == 6);
    }
    if crate::text::has_prefix(t.as_slice(), bearer.as_slice()) {
        let rest = crate::text::sub_chars(t.as_slice(), bl, t.len());
        proof {
            assert(rest@ =~= trim_spec(value@).skip("Bearer"@.len() as int));
        }
        let tok = crate::text::trim(rest.as_slice());
        return Ok(Some(AuthDirective::Bearer(crate::text::from_chars(tok.as_slice()))));
    }
    let basic = crate::text::to_char_vec("Basic");
    let sl: usize = basic.len();
    proof {
        reveal_strlit("Basic");
        assert("Basic"@.len() == 5);
    }
    if crate::text::has_prefix(t.as_slice(), basic.as_slice()) {
        let rest0 = crate::text::sub_chars(t.as_slice(), sl, t.len());
        proof {
            assert(rest0@ =~= trim_spec(value@).skip("Basic"@.len() as int));
        }
        let rest = crate::text::trim(rest0.as_slice());
        match crate::text::find_ch(rest.as_slice(), ' ') {
            None => {
                return Err(Error::InvalidHeader(crate::text::from_chars(value)));
            },
            Some(si) => {
                proof {
                    crate::text::lemma_find_char_from_bounds(rest@, ' ', 0);
                }
                let user0 = crate::text::sub_chars(rest.as_slice(), 0, si);
                let pass0 = crate::text::sub_chars(rest.as_slice(), si + 1, rest.len());
                proof {
                    assert(user0@ =~= rest@.take(si as int));
                    assert(pass0@ =~= rest@.skip(si + 1));
                }
                let user = crate::text::trim(user0.as_slice());
                let pass = crate::text::trim(pass0.as_slice());
                return Ok(
                    Some(
                        AuthDirective::Basic(
                            crate::text::from_chars(user.as_slice()),
                            crate::text::from_chars(pass.as_slice()),
                        ),
                    ),
                );
            },
        }
    }
    Ok(None)
}

/// The accumulator of the header-section scan.
#[verifier::ext_equal]
pub struct HeaderScanState {
    pub content_type: Option<Seq<char>>,
    pub auth: AuthV,
    pub headers: Seq<(Seq<char>, Seq<char>)>,
}

/// What one line of the header block does to the scan state: blank
/// lines are skipped; a non-blank line must hold a `:`; the key and
/// value are trimmed around the first `:`; `content-type` (matched
/// case-insensitively) captures the value, `authorization` resolves a
/// directive when its scheme is recognized, and every other line is
/// stored, the last occurrence of a case-insensitively equal key
/// winning.
pub open spec fn spec_header_line(st: HeaderScanState, line: Seq<char>) -> Result<
    HeaderScanState,
    ErrorV,
> {
    if is_blank(line) {
        Ok(st)
    } else {
        match find_char_from(line, ':', 0) {
            None => Err(ErrorV::InvalidHeader(line)),
            Some(ci) => {
                let k = trim_spec(line.take(ci));
                let v = trim_spec(line.skip(ci + 1));
                if fold_seq(k) == "content-type"@ {
                    Ok(HeaderScanState { content_type: Some(v), ..st })
                } else if fold_seq(k) == "authorization"@ {
                    match spec_resolve_auth(v) {
                        Err(e) => Err(ErrorV::InvalidHeader(line)),
                        Ok(Some(a)) => Ok(HeaderScanState { auth: a, ..st }),
                        Ok(None) => Ok(
                            HeaderScanState { headers: headers_insert(st.headers, k, v), ..st },
                        ),
                    }
                } else {
                    Ok(HeaderScanState { headers: headers_insert(st.headers, k, v), ..st })
                }
            },
        }
    }
}

/// The header-block scan from line `i` onward.
pub open spec fn spec_header_scan(lines: Seq<Seq<char>>, i: int, st: HeaderScanState) -> Result<
    HeaderScanState,
    ErrorV,
>
    recommends
        0 <= i,
    decreases lines.len() - i,
{
    if i < 0 || i >= lines.len() {
        Ok(st)
    } else {
        match spec_header_line(st, lines[i]) {
            Err(e) => Err(e),
            Ok(st2) => spec_header_scan(lines, i + 1, st2),
        }
    }
}

/// The parse of a whole header block.
pub open spec fn spec_extract_headers(s: Seq<char>) -> Result<HeaderScanState, ErrorV> {
    spec_header_scan(
        lines_spec(s),
        0,
        HeaderScanState {
            content_type: None,
            auth: AuthV::Absent,
            headers: Seq::empty(),
        },
    )
}

pub open spec fn opt_string_view(o: Option<String>) -> Option<Seq<char>> {
    match o {
        Some(s) => Some(s@),
        None => None,
    }
}

/// The scan of a block of header lines, already split into lines.
pub(crate) fn scan_header_lines(lines: &Vec<Vec<char>>) -> (r: Result<
    (Option<String>, AuthDirective, Headers),
    Error,
>)
    ensures
        match r {
            Ok(t) => spec_header_scan(
                lines.deep_view(),
                0,
                HeaderScanState {
                    content_type: None,
                    auth: AuthV::Absent,
                    headers: Seq::empty(),
                },
            ) == Ok::<HeaderScanState, ErrorV>(
                HeaderScanState {
                    content_type: opt_string_view(t.0),
                    auth: t.1@,
                    headers: t.2@,
                },
            ) && headers_wf(t.2@),
            Err(e) => spec_header_scan(
                lines.deep_view(),
                0,
                HeaderScanState {
                    content_type: None,
                    auth: AuthV::Absent,
                    headers: Seq::empty(),
                },
            ) == Err::<HeaderScanState, ErrorV>(e@),
        },
{
    let ghost lv = lines.deep_view();
    let n: usize = lines.len();
    let mut ct: Option<String> = None;
    let mut auth: AuthDirective = AuthDirective::Absent;
    let mut hs: Headers = Headers::new();
    let mut i: usize = 0;
    proof {
        assert(hs@ =~= Seq::<(Seq<char>, Seq<char>)>::empty());
    }
    while i < n
        invariant
            0 <= i <= n,
            n == lines@.len(),
            lv == lines.deep_view(),
            headers_wf(hs@),
            spec_header_scan(
                lv,
                0,
                HeaderScanState {
                    content_type: None,
                    auth: AuthV::Absent,
                    headers: Seq::empty(),
                },
            ) == spec_header_scan(
                lv,
                i as int,
                HeaderScanState {
                    content_type: opt_string_view(ct),
                    auth: auth@,
                    headers: hs@,
                },
            ),
        decreases n - i,
    {
        let ghost st0 = HeaderScanState {
            content_type: opt_string_view(ct),
            auth: auth@,
            headers: hs@,
        };
        let line = &lines[i];
        proof {
            assert(lv[i as int] =~= lines@[i as int]@);
        }
        if !crate::text::blank(line.as_slice()) {
            match crate::text::find_ch(line.as_slice(), ':') {
                None => {
                    proof {
                        assert(spec_header_line(st0, lv[i as int]) == Err::<
                            HeaderScanState,
                            ErrorV,
                        >(ErrorV::InvalidHeader(lv[i as int])));
                    }
                    return Err(Error::InvalidHeader(crate::text::from_chars(line.as_slice())));
                },
                Some(ci) => {
                    proof {
                        crate::text::lemma_find_char_from_bounds(lv[i as int], ':', 0);
                    }
                    let ll: usize = line.len();
                    let kraw = crate::text::sub_chars(line.as_slice(), 0, ci);
                    let vraw = crate::text::sub_chars(line.as_slice(), ci + 1, ll);
                    proof {
                        assert(kraw@ =~= lv[i as int].take(ci as int));
                        assert(vraw@ =~= lv[i as int].skip(ci + 1));
                    }
                    let k = crate::text::trim(kraw.as_slice());
                    let v = crate::text::trim(vraw.as_slice());
                    let fk = crate::text::fold_vec(k.as_slice());
                    let ctlit = crate::text::to_char_vec("content-type");
                    if crate::text::eq_chars(fk.as_slice(), ctlit.as_slice()) {
                        ct = Some(crate::text::from_chars(v.as_slice()));
                        proof {
                            assert(spec_header_line(st0, lv[i as int]) == Ok::<
                                HeaderScanState,
                                ErrorV,
                            >(
                                HeaderScanState {
                                    content_type: opt_string_view(ct),
                                    auth: auth@,
                                    headers: hs@,
                                },
                            ));
                        }
                    } else {
                        let authlit = crate::text::to_char_vec("authorization");
                        if crate::text::eq_chars(fk.as_slice(), authlit.as_slice()) {
                            match resolve_auth(v.as_slice()) {
                                Err(_) => {
                                    proof {
                                        assert(spec_header_line(st0, lv[i as int]) == Err::<
                                            HeaderScanState,
                                            ErrorV,
                                        >(ErrorV::InvalidHeader(lv[i as int])));
                                    }
                                    return Err(
                                        Error::InvalidHeader(
                                            crate::text::from_chars(line.as_slice()),
                                        ),
                                    );
                                },
                                Ok(Some(a)) => {
                                    auth = a;
                                    proof {
                                        assert(spec_header_line(st0, lv[i as int]) == Ok::<
                                            HeaderScanState,
                                            ErrorV,
                                        >(
                                            HeaderScanState {
                                                content_type: opt_string_view(ct),
                                                auth: auth@,
                                                headers: hs@,
                                            },
                                        ));
                                    }
                                },
                                Ok(None) => {
                                    proof {
                                        lemma_headers_insert_wf(hs@, k@, v@);
                                    }
                                    hs.insert(
                                        crate::text::from_chars(k.as_slice()),
                                        crate::text::from_chars(v.as_slice()),
                                    );
                                    proof {
                                        assert(spec_header_line(st0, lv[i as int]) == Ok::<
                                            HeaderScanState,
                                            ErrorV,
                                        >(
                                            HeaderScanState {
                                                content_type: opt_string_view(ct),
                                                auth: auth@,
                                                headers: hs@,
                                            },
                                        ));
                                    }
                                },
                            }
                        } else {
                            proof {
                                lemma_headers_insert_wf(hs@, k@, v@);
                            }
                            hs.insert(
                                crate::text::from_chars(k.as_slice()),
                                crate::text::from_chars(v.as_slice()),
                            );
                            proof {
                                assert(spec_header_line(st0, lv[i as int]) == Ok::<
                                    HeaderScanState,
                                    ErrorV,
                                >(
                                    HeaderScanState {
                                        content_type: opt_string_view(ct),
                                        auth: auth@,
                                        headers: hs@,
                                    },
                                ));
                            }
                        }
                    }
                },
            }
        }
        i = i + 1;
    }
    Ok((ct, auth, hs))
}

/// Parse the header block between the request line and the body,
/// yielding the declared content type (if any), the authentication
/// directive and the remaining headers.
pub fn extract_headers(headers_raw: String) -> (r: Result<
    (Option<String>, AuthDirective, Headers),
    Error,
>)
    ensures
        match r {
            Ok(t) => spec_extract_headers(headers_raw@) == Ok::<HeaderScanState, ErrorV>(
                HeaderScanState {
                    content_type: opt_string_view(t.0),
                    auth: t.1@,
                    headers: t.2@,
                },
            ) && headers_wf(t.2@),
            Err(e) => spec_extract_headers(headers_raw@) == Err::<HeaderScanState, ErrorV>(e@),
        },
{
    let chars = crate::text::to_char_vec(headers_raw.as_str());
    let lines = crate::text::lines_of(chars.as_slice());
    proof {
        assert(lines.deep_view() == lines_spec(headers_raw@));
    }
    scan_header_lines(&lines)
}

} // verus!
