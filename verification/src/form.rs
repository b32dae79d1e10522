//! The multipart form assembler: a body declared
//! `multipart/form-data` is split on the boundary taken from the
//! content type, each segment's header block is scanned for its
//! `Content-Disposition` name and filename, and the segment's body
//! becomes the part's content — literal text, or a reference to an
//! external file named by a leading `<`.

use vstd::prelude::*;

use crate::model::Error;
use crate::model::Form;
use crate::model::ErrorV;
use crate::model::Headers;
use crate::model::Part;
use crate::model::PartContent;
use crate::model::PartContentV;
use crate::model::PartV;
use crate::model::form_insert;
use crate::model::form_wf;
use crate::model::headers_insert;
use crate::model::headers_wf;
use crate::model::lemma_headers_insert_wf;
use crate::text::find_char_from;
use crate::text::fold_seq;
use crate::text::is_blank;
use crate::text::join_lines;
use crate::text::lines_spec;
use crate::text::split_on_spec;
use crate::text::starts_with;
use crate::text::trim_spec;

verus! {

/// One layer of surrounding double quotes removed: the first and last
/// characters are dropped when both are `"`.
pub open spec fn spec_unquote(v: Seq<char>) -> Seq<char> {
    if v.len() >= 2 && v[0] == '"' && v.last() == '"' {
        v.subrange(1, v.len() - 1)
    } else {
        v
    }
}

fn unquote(v: &[char]) -> (r: Vec<char>)
    ensures
        r@ == spec_unquote(v@),
{
    let n: usize = v.len();
    if n >= 2 && v[0] == '"' && v[n - 1] == '"' {
        crate::text::sub_chars(v, 1, n - 1)
    } else {
        crate::text::copy_chars(v)
    }
}

/// The `name` and `filename` captured from the `;`-separated
/// parameters of a disposition value, scanning from parameter `i`
/// with the captures seen so far: each parameter holding `=` is split
/// once, its key trimmed and its value trimmed and unquoted; `name`
/// and `filename` keys are captured (a later occurrence winning), and
/// every other parameter is discarded.
pub open spec fn spec_disposition_params(
    ps: Seq<Seq<char>>,
    i: int,
    name: Option<Seq<char>>,
    filename: Option<Seq<char>>,
) -> (Option<Seq<char>>, Option<Seq<char>>)
    recommends
        0 <= i,
    decreases ps.len() - i,
{
    if i < 0 || i >= ps.len() {
        (name, filename)
    } else {
        let p = ps[i];
        match find_char_from(p, '=', 0) {
            None => spec_disposition_params(ps, i + 1, name, filename),
            Some(ei) => {
                let k = trim_spec(p.take(ei));
                let v = spec_unquote(trim_spec(p.skip(ei + 1)));
                if k == "name"@ {
                    spec_disposition_params(ps, i + 1, Some(v), filename)
                } else if k == "filename"@ {
                    spec_disposition_params(ps, i + 1, name, Some(v))
                } else {
                    spec_disposition_params(ps, i + 1, name, filename)
                }
            },
        }
    }
}

/// The accumulator of a part's header scan.
#[verifier::ext_equal]
pub struct PartHeaderState {
    pub headers: Seq<(Seq<char>, Seq<char>)>,
    pub name: Option<Seq<char>>,
    pub filename: Option<Seq<char>>,
}

/// What one header line of a multipart segment does to the scan
/// state: blank lines are skipped; a non-blank line must hold a `:`;
/// a line whose folded, trimmed text starts with `content-type` is
/// ignored entirely; one starting with `content-disposition` has the
/// text after its first `:` scanned for `name`/`filename` parameters;
/// every other line is stored with key and value trimmed.
pub open spec fn spec_part_header_line(st: PartHeaderState, line: Seq<char>) -> Result<
    PartHeaderState,
    ErrorV,
> {
    if is_blank(line) {
        Ok(st)
    } else {
        match find_char_from(line, ':', 0) {
            None => Err(ErrorV::InvalidHeader(line)),
            Some(ci) => {
                let folded = fold_seq(trim_spec(line));
                if starts_with(folded, "content-type"@) {
                    Ok(st)
                } else if starts_with(folded, "content-disposition"@) {
                    let params = split_on_spec(line.skip(ci + 1), seq![';']);
                    let np = spec_disposition_params(params, 0, st.name, st.filename);
                    Ok(PartHeaderState { name: np.0, filename: np.1, ..st })
                } else {
                    let k = trim_spec(line.take(ci));
                    let v = trim_spec(line.skip(ci + 1));
                    Ok(PartHeaderState { headers: headers_insert(st.headers, k, v), ..st })
                }
            },
        }
    }
}

/// The scan of a segment's header lines from line `i` onward.
pub open spec fn spec_part_headers_scan(
    lines: Seq<Seq<char>>,
    i: int,
    st: PartHeaderState,
) -> Result<PartHeaderState, ErrorV>
    recommends
        0 <= i,
    decreases lines.len() - i,
{
    if i < 0 || i >= lines.len() {
        Ok(st)
    } else {
        match spec_part_header_line(st, lines[i]) {
            Err(e) => Err(e),
            Ok(st2) => spec_part_headers_scan(lines, i + 1, st2),
        }
    }
}

pub open spec fn part_headers_init() -> PartHeaderState {
    PartHeaderState { headers: Seq::empty(), name: None, filename: None }
}

/// The two-state line scanner that splits one multipart segment into
/// its header lines and its body lines: empty lines before the first
/// header line are skipped, an empty line after at least one header
/// line is the separator, and once in the body every line is kept
/// verbatim.
pub open spec fn spec_scan_segment(
    lines: Seq<Seq<char>>,
    i: int,
    in_body: bool,
    hdrs: Seq<Seq<char>>,
    body: Seq<Seq<char>>,
) -> (Seq<Seq<char>>, Seq<Seq<char>>)
    recommends
        0 <= i,
    decreases lines.len() - i,
{
    if i < 0 || i >= lines.len() {
        (hdrs, body)
    } else {
        let line = lines[i];
        if in_body {
            spec_scan_segment(lines, i + 1, true, hdrs, body.push(line))
        } else if line.len() == 0 {
            if hdrs.len() == 0 {
                spec_scan_segment(lines, i + 1, false, hdrs, body)
            } else {
                spec_scan_segment(lines, i + 1, true, hdrs, body)
            }
        } else {
            spec_scan_segment(lines, i + 1, false, hdrs.push(line), body)
        }
    }
}

fn scan_segment(lines: &Vec<Vec<char>>) -> (r: (Vec<Vec<char>>, Vec<Vec<char>>))
    ensures
        ({
            let p = spec_scan_segment(lines.deep_view(), 0, false, Seq::empty(), Seq::empty());
            r.0.deep_view() == p.0 && r.1.deep_view() == p.1
        }),
{
    let ghost lv = lines.deep_view();
    let n: usize = lines.len();
    let mut in_body: bool = false;
    let mut hdrs: Vec<Vec<char>> = Vec::new();
    let mut body: Vec<Vec<char>> = Vec::new();
    let mut i: usize = 0;
    proof {
        assert(hdrs.deep_view() =~~= Seq::<Seq<char>>::empty());
        assert(body.deep_view() =~~= Seq::<Seq<char>>::empty());
    }
    while i < n
        invariant
            0 <= i <= n,
            n == lines@.len(),
            lv == lines.deep_view(),
            spec_scan_segment(lv, 0, false, Seq::empty(), Seq::empty()) == spec_scan_segment(
                lv,
                i as int,
                in_body,
                hdrs.deep_view(),
                body.deep_view(),
            ),
        decreases n - i,
    {
        proof {
            assert(lv[i as int] =~= lines@[i as int]@);
        }
        let ghost h0 = hdrs.deep_view();
        let ghost b0 = body.deep_view();
        if in_body {
            body.push(crate::text::copy_chars(lines[i].as_slice()));
            proof {
                assert(body.deep_view() =~~= b0.push(lv[i as int]));
            }
        } else if lines[i].len() == 0 {
            if hdrs.len() > 0 {
                in_body = true;
            }
        } else {
            hdrs.push(crate::text::copy_chars(lines[i].as_slice()));
            proof {
                assert(hdrs.deep_view() =~~= h0.push(lv[i as int]));
            }
        }
        i = i + 1;
    }
    (hdrs, body)
}

/// The content of a form part built from a segment's body text: a
/// body whose first character is `<` names an external file, whose
/// path is the trimmed remainder resolved against the directory of
/// the request file; any other body (the empty body included) is kept
/// as literal text.
pub open spec fn spec_resolve_content(body: Seq<char>, dir: Seq<char>) -> PartContentV {
    if body.len() > 0 && body[0] == '<' {
        PartContentV::FileReference(dir + seq!['/'] + trim_spec(body.skip(1)))
    } else {
        PartContentV::Text(body)
    }
}

fn resolve_content(body: &[char], directory: &str) -> (r: PartContent)
    ensures
        r@ == spec_resolve_content(body@, directory@),
{
    let n: usize = body.len();
    if n > 0 && body[0] == '<' {
        let rest = crate::text::sub_chars(body, 1, n);
        proof {
            assert(rest@ =~= body@.skip(1));
        }
        let tail = crate::text::trim(rest.as_slice());
        let mut path = crate::text::to_char_vec(directory);
        path.push('/');
        crate::text::append_chars(&mut path, tail.as_slice());
        proof {
            assert(path@ =~= directory@ + seq!['/'] + trim_spec(body@.skip(1)));
        }
        PartContent::FileReference(crate::text::from_chars(path.as_slice()))
    } else {
        PartContent::Text(crate::text::from_chars(body))
    }
}

fn part_headers_scan(lines: &Vec<Vec<char>>) -> (r: Result<
    (Headers, Option<String>, Option<String>),
    Error,
>)
    ensures
        match r {
            Ok(t) => spec_part_headers_scan(lines.deep_view(), 0, part_headers_init()) == Ok::<
                PartHeaderState,
                ErrorV,
            >(
                PartHeaderState {
                    headers: t.0@,
                    name: crate::headers::opt_string_view(t.1),
                    filename: crate::headers::opt_string_view(t.2),
                },
            ) && headers_wf(t.0@),
            Err(e) => spec_part_headers_scan(lines.deep_view(), 0, part_headers_init()) == Err::<
                PartHeaderState,
                ErrorV,
            >(e@),
        },
{
    broadcast use vstd::string::group_string_axioms;

    let ghost lv = lines.deep_view();
    let n: usize = lines.len();
    let mut hs: Headers = Headers::new();
    let mut name: Option<String> = None;
    let mut filename: Option<String> = None;
    let mut i: usize = 0;
    proof {
        assert(hs@ =~= part_headers_init().headers);
    }
    while i < n
        invariant
            0 <= i <= n,
            n == lines@.len(),
            lv == lines.deep_view(),
            headers_wf(hs@),
            spec_part_headers_scan(lv, 0, part_headers_init()) == spec_part_headers_scan(
                lv,
                i as int,
                PartHeaderState {
                    headers: hs@,
                    name: crate::headers::opt_string_view(name),
                    filename: crate::headers::opt_string_view(filename),
                },
            ),
        decreases n - i,
    {
        let ghost st0 = PartHeaderState {
            headers: hs@,
            name: crate::headers::opt_string_view(name),
            filename: crate::headers::opt_string_view(filename),
        };
        let line = &lines[i];
        proof {
            assert(lv[i as int] =~= lines@[i as int]@);
        }
        if !crate::text::blank(line.as_slice()) {
            match crate::text::find_ch(line.as_slice(), ':') {
                None => {
                    proof {
                        assert(spec_part_header_line(st0, lv[i as int]) == Err::<
                            PartHeaderState,
                            ErrorV,
                        >(ErrorV::InvalidHeader(lv[i as int])));
                    }
                    return Err(Error::InvalidHeader(crate::text::from_chars(line.as_slice())));
                },
                Some(ci) => {
                    proof {
                        crate::text::lemma_find_char_from_bounds(lv[i as int], ':', 0);
                    }
                    let ll: usize = line.len();
                    let trimmed = crate::text::trim(line.as_slice());
                    let folded = crate::text::fold_vec(trimmed.as_slice());
                    let ctlit = crate::text::to_char_vec("content-type");
                    let cdlit = crate::text::to_char_vec("content-disposition");
                    if crate::text::has_prefix(folded.as_slice(), ctlit.as_slice()) {
                        proof {
                            assert(spec_part_header_line(st0, lv[i as int]) == Ok::<
                                PartHeaderState,
                                ErrorV,
                            >(st0));
                        }
                    } else if crate::text::has_prefix(folded.as_slice(), cdlit.as_slice()) {
                        let value = crate::text::sub_chars(line.as_slice(), ci + 1, ll);
                        proof {
                            assert(value@ =~= lv[i as int].skip(ci + 1));
                        }
                        let semi: Vec<char> = vec![';'];
                        proof {
                            assert(semi@ =~= seq![';']);
                        }
                        let params = crate::text::split_on(value.as_slice(), semi.as_slice());
                        let ghost pv = params.deep_view();
                        let pn: usize = params.len();
                        let ghost n0 = crate::headers::opt_string_view(name);
                        let ghost f0 = crate::headers::opt_string_view(filename);
                        let mut j: usize = 0;
                        while j < pn
                            invariant
                                0 <= j <= pn,
                                pn == params@.len(),
                                pv == params.deep_view(),
                                spec_disposition_params(pv, 0, n0, f0) == spec_disposition_params(
                                    pv,
                                    j as int,
                                    crate::headers::opt_string_view(name),
                                    crate::headers::opt_string_view(filename),
                                ),
                            decreases pn - j,
                        {
                            proof {
                                assert(pv[j as int] =~= params@[j as int]@);
                            }
                            let p = &params[j];
                            match crate::text::find_ch(p.as_slice(), '=') {
                                None => {},
                                Some(ei) => {
                                    proof {
                                        crate::text::lemma_find_char_from_bounds(
                                            pv[j as int],
                                            '=',
                                            0,
                                        );
                                    }
                                    let pl: usize = p.len();
                                    let kraw = crate::text::sub_chars(p.as_slice(), 0, ei);
                                    let vraw = crate::text::sub_chars(p.as_slice(), ei + 1, pl);
                                    proof {
                                        assert(kraw@ =~= pv[j as int].take(ei as int));
                                        assert(vraw@ =~= pv[j as int].skip(ei + 1));
                                    }
                                    let k = crate::text::trim(kraw.as_slice());
                                    let vtrim = crate::text::trim(vraw.as_slice());
                                    let v = unquote(vtrim.as_slice());
                                    let namelit = crate::text::to_char_vec("name");
                                    let filelit = crate::text::to_char_vec("filename");
                                    if crate::text::eq_chars(k.as_slice(), namelit.as_slice()) {
                                        name = Some(crate::text::from_chars(v.as_slice()));
                                    } else if crate::text::eq_chars(
                                        k.as_slice(),
                                        filelit.as_slice(),
                                    ) {
                                        filename = Some(crate::text::from_chars(v.as_slice()));
                                    }
                                },
                            }
                            j = j + 1;
                        }
                        proof {
                            assert(spec_part_header_line(st0, lv[i as int]) == Ok::<
                                PartHeaderState,
                                ErrorV,
                            >(
                                PartHeaderState {
                                    headers: hs@,
                                    name: crate::headers::opt_string_view(name),
                                    filename: crate::headers::opt_string_view(filename),
                                },
                            ));
                        }
                    } else {
                        let kraw = crate::text::sub_chars(line.as_slice(), 0, ci);
                        let vraw = crate::text::sub_chars(line.as_slice(), ci + 1, ll);
                        proof {
                            assert(kraw@ =~= lv[i as int].take(ci as int));
                            assert(vraw@ =~= lv[i as int].skip(ci + 1));
                        }
                        let k = crate::text::trim(kraw.as_slice());
                        let v = crate::text::trim(vraw.as_slice());
                        proof {
                            lemma_headers_insert_wf(hs@, k@, v@);
                        }
                        hs.insert(
                            crate::text::from_chars(k.as_slice()),
                            crate::text::from_chars(v.as_slice()),
                        );
                        proof {
                            assert(spec_part_header_line(st0, lv[i as int]) == Ok::<
                                PartHeaderState,
                                ErrorV,
                            >(
                                PartHeaderState {
                                    headers: hs@,
                                    name: crate::headers::opt_string_view(name),
                                    filename: crate::headers::opt_string_view(filename),
                                },
                            ));
                        }
                    }
                },
            }
        }
        i = i + 1;
    }
    Ok((hs, name, filename))
}

/// Parse the header lines of one multipart segment into its generic
/// header map and the `name` and `filename` captured from its
/// `Content-Disposition` line.
pub fn extract_part_headers(headers: Vec<String>) -> (r: Result<
    (Headers, Option<String>, Option<String>),
    Error,
>)
    ensures
        match r {
            Ok(t) => spec_part_headers_scan(headers.deep_view(), 0, part_headers_init()) == Ok::<
                PartHeaderState,
                ErrorV,
            >(
                PartHeaderState {
                    headers: t.0@,
                    name: crate::headers::opt_string_view(t.1),
                    filename: crate::headers::opt_string_view(t.2),
                },
            ) && headers_wf(t.0@),
            Err(e) => spec_part_headers_scan(headers.deep_view(), 0, part_headers_init()) == Err::<
                PartHeaderState,
                ErrorV,
            >(e@),
        },
{
    let n: usize = headers.len();
    let mut lines: Vec<Vec<char>> = Vec::new();
    let mut i: usize = 0;
    while i < n
        invariant
            0 <= i <= n,
            n == headers@.len(),
            lines.deep_view() =~~= headers.deep_view().take(i as int),
        decreases n - i,
    {
        let ghost l0 = lines.deep_view();
        lines.push(crate::text::to_char_vec(headers[i].as_str()));
        proof {
            assert(lines.deep_view() =~~= l0.push(headers@[i as int]@));
            assert(lines.deep_view() =~~= headers.deep_view().take(i + 1));
        }
        i = i + 1;
    }
    proof {
        assert(lines.deep_view() =~~= headers.deep_view());
    }
    part_headers_scan(&lines)
}

/// Build the content of one form part from a segment's body lines,
/// joined by newlines: a leading `<` names an external file resolved
/// against `directory`, anything else is literal text. The resolution
/// itself cannot fail; opening a referenced file is the transport's
/// step and fails there with an I/O error.
pub fn extract_form_part(content: Vec<String>, directory: &str) -> (r: Result<Part, Error>)
    ensures
        r matches Ok(p) && p@ == (PartV {
            content: spec_resolve_content(join_lines(content.deep_view()), directory@),
            filename: None,
            headers: None,
        }),
{
    let n: usize = content.len();
    let mut lines: Vec<Vec<char>> = Vec::new();
    let mut i: usize = 0;
    while i < n
        invariant
            0 <= i <= n,
            n == content@.len(),
            lines.deep_view() =~~= content.deep_view().take(i as int),
        decreases n - i,
    {
        let ghost l0 = lines.deep_view();
        lines.push(crate::text::to_char_vec(content[i].as_str()));
        proof {
            assert(lines.deep_view() =~~= l0.push(content@[i as int]@));
            assert(lines.deep_view() =~~= content.deep_view().take(i + 1));
        }
        i = i + 1;
    }
    proof {
        assert(lines.deep_view() =~~= content.deep_view());
    }
    let body = crate::text::join(&lines);
    let c = resolve_content(body.as_slice(), directory);
    Ok(Part { content: c, filename: None, headers: None })
}

/// The boundary carried by one parameter of a content type: the
/// parameter is trimmed, its key matched case-insensitively against
/// `boundary=`, and the rest of the parameter is the value, verbatim.
pub open spec fn spec_boundary_param(p: Seq<char>) -> Option<Seq<char>> {
    let t = trim_spec(p);
    if starts_with(fold_seq(t), "boundary="@) {
        Some(t.skip("boundary="@.len() as int))
    } else {
        None
    }
}

/// The first `boundary=` parameter at or after `i` in the
/// `;`-separated parameter list, whatever its position among the
/// other parameters.
pub open spec fn spec_find_boundary(ps: Seq<Seq<char>>, i: int) -> Option<Seq<char>>
    recommends
        0 <= i,
    decreases ps.len() - i,
{
    if i < 0 || i >= ps.len() {
        None
    } else {
        match spec_boundary_param(ps[i]) {
            Some(b) => Some(b),
            None => spec_find_boundary(ps, i + 1),
        }
    }
}

fn find_boundary(params: &Vec<Vec<char>>) -> (r: Option<Vec<char>>)
    ensures
        match r {
            Some(b) => spec_find_boundary(params.deep_view(), 0) == Some(b@),
            None => spec_find_boundary(params.deep_view(), 0) is None,
        },
{
    broadcast use vstd::string::group_string_axioms;

    let ghost pv = params.deep_view();
    let blit = crate::text::to_char_vec("boundary=");
    let bn: usize = blit.len();
    proof {
        reveal_strlit("boundary=");
        assert("boundary="@.len() == 9);
    }
    let n: usize = params.len();
    let mut i: usize = 0;
    while i < n
        invariant
            0 <= i <= n,
            n == params@.len(),
            pv == params.deep_view(),
            blit@ == "boundary="@,
            bn == 9,
            "boundary="@.len() == 9,
            spec_find_boundary(pv, 0) == spec_find_boundary(pv, i as int),
        decreases n - i,
    {
        proof {
            assert(pv[i as int] =~= params@[i as int]@);
        }
        let t = crate::text::trim(params[i].as_slice());
        let f = crate::text::fold_vec(t.as_slice());
        if crate::text::has_prefix(f.as_slice(), blit.as_slice()) {
            proof {
                assert(fold_seq(t@).len() == t@.len());
            }
            let b = crate::text::sub_chars(t.as_slice(), bn, t.len());
            proof {
                assert(b@ =~= trim_spec(pv[i as int]).skip("boundary="@.len() as int));
            }
            return Some(b);
        }
        i = i + 1;
    }
    None
}

/// One multipart segment: its lines are scanned into a header block
/// and a body; a segment whose header block yields neither a name nor
/// any headers is dropped silently; one with headers but no name
/// fails the whole assembly; otherwise the body becomes a part stored
/// under the name, carrying the filename (if one was captured) and
/// the remaining headers.
pub open spec fn spec_segment(seg: Seq<char>, dir: Seq<char>) -> Result<
    Option<(Seq<char>, PartV)>,
    ErrorV,
> {
    let lines = lines_spec(seg);
    let hb = spec_scan_segment(lines, 0, false, Seq::empty(), Seq::empty());
    match spec_part_headers_scan(hb.0, 0, part_headers_init()) {
        Err(e) => Err(e),
        Ok(st) => {
            if st.name is None && st.headers.len() == 0 {
                Ok(None)
            } else if st.name is None {
                Err(ErrorV::FormPartNameMissing)
            } else {
                Ok(
                    Some(
                        (
                            st.name->0,
                            PartV {
                                content: spec_resolve_content(join_lines(hb.1), dir),
                                filename: st.filename,
                                headers: Some(st.headers),
                            },
                        ),
                    ),
                )
            }
        },
    }
}

/// The assembly of the split segments from index `i` onward:
/// whitespace-only segments and segments starting with `--` (the
/// closing delimiter) are the preamble and epilogue and are dropped;
/// each remaining segment becomes a part, a later part overwriting an
/// earlier one of the same name.
pub open spec fn spec_assemble(
    segs: Seq<Seq<char>>,
    i: int,
    form: Seq<(Seq<char>, PartV)>,
    dir: Seq<char>,
) -> Result<Seq<(Seq<char>, PartV)>, ErrorV>
    recommends
        0 <= i,
    decreases segs.len() - i,
{
    if i < 0 || i >= segs.len() {
        Ok(form)
    } else {
        let seg = segs[i];
        if is_blank(seg) || starts_with(seg, "--"@) {
            spec_assemble(segs, i + 1, form, dir)
        } else {
            match spec_segment(seg, dir) {
                Err(e) => Err(e),
                Ok(None) => spec_assemble(segs, i + 1, form, dir),
                Ok(Some(np)) => spec_assemble(segs, i + 1, form_insert(form, np.0, np.1), dir),
            }
        }
    }
}

/// The whole multipart assembly: the boundary is taken from the
/// content type, the body is split on the literal `--boundary`, and
/// the segments are assembled into a form.
pub open spec fn spec_parse_form_data(ct: Seq<char>, content: Seq<char>, dir: Seq<char>) -> Result<
    Seq<(Seq<char>, PartV)>,
    ErrorV,
> {
    match spec_find_boundary(split_on_spec(ct, seq![';']), 0) {
        None => Err(ErrorV::FormDataBoundaryMissing(ct)),
        Some(b) => spec_assemble(split_on_spec(content, "--"@ + b), 0, Seq::empty(), dir),
    }
}

/// Assemble the body of a `multipart/form-data` request into a form,
/// using the `boundary=` parameter of the declared content type and
/// resolving file references against `directory`.
pub fn parse_form_data(content_type: String, content: String, directory: &str) -> (r: Result<
    Form,
    Error,
>)
    ensures
        match r {
            Ok(f) => spec_parse_form_data(content_type@, content@, directory@) == Ok::<
                Seq<(Seq<char>, PartV)>,
                ErrorV,
            >(f@) && form_wf(f@),
            Err(e) => spec_parse_form_data(content_type@, content@, directory@) == Err::<
                Seq<(Seq<char>, PartV)>,
                ErrorV,
            >(e@),
        },
{
    broadcast use vstd::string::group_string_axioms;

    let ctc = crate::text::to_char_vec(content_type.as_str());
    let semi: Vec<char> = vec![';'];
    proof {
        assert(semi@ =~= seq![';']);
    }
    let params = crate::text::split_on(ctc.as_slice(), semi.as_slice());
    let b = match find_boundary(&params) {
        None => {
            return Err(Error::FormDataBoundaryMissing(content_type));
        },
        Some(b) => b,
    };
    let mut delim = crate::text::to_char_vec("--");
    crate::text::append_chars(&mut delim, b.as_slice());
    proof {
        reveal_strlit("--");
        assert("--"@.len() == 2);
        assert(delim@ == "--"@ + b@);
    }
    let cc = crate::text::to_char_vec(content.as_str());
    let segs = crate::text::split_on(cc.as_slice(), delim.as_slice());
    let ghost sv = segs.deep_view();
    proof {
        assert(sv == split_on_spec(content@, "--"@ + b@));
    }
    let dd = crate::text::to_char_vec("--");
    let n: usize = segs.len();
    let mut form = Form::new();
    let mut i: usize = 0;
    while i < n
        invariant
            0 <= i <= n,
            n == segs@.len(),
            sv == segs.deep_view(),
            dd@ == "--"@,
            form_wf(form@),
            spec_parse_form_data(content_type@, content@, directory@) == spec_assemble(
                sv,
                i as int,
                form@,
                directory@,
            ),
        decreases n - i,
    {
        proof {
            assert(sv[i as int] =~= segs@[i as int]@);
        }
        let seg = &segs[i];
        if !crate::text::blank(seg.as_slice()) && !crate::text::has_prefix(
            seg.as_slice(),
            dd.as_slice(),
        ) {
            let slines = crate::text::lines_of(seg.as_slice());
            let hb = scan_segment(&slines);
            match part_headers_scan(&hb.0) {
                Err(e) => {
                    proof {
                        assert(spec_segment(sv[i as int], directory@) == Err::<
                            Option<(Seq<char>, PartV)>,
                            ErrorV,
                        >(e@));
                    }
                    return Err(e);
                },
                Ok((hs, nameo, fileo)) => {
                    match nameo {
                        None => {
                            if hs.len() == 0 {
                                proof {
                                    assert(spec_segment(sv[i as int], directory@) == Ok::<
                                        Option<(Seq<char>, PartV)>,
                                        ErrorV,
                                    >(None));
                                }
                            } else {
                                proof {
                                    assert(spec_segment(sv[i as int], directory@) == Err::<
                                        Option<(Seq<char>, PartV)>,
                                        ErrorV,
                                    >(ErrorV::FormPartNameMissing));
                                }
                                return Err(Error::FormPartNameMissing);
                            }
                        },
                        Some(nm) => {
                            let body = crate::text::join(&hb.1);
                            let c = resolve_content(body.as_slice(), directory);
                            let part = Part { content: c, filename: fileo, headers: Some(hs) };
                            let ghost nv = nm@;
                            let ghost pvw = part@;
                            proof {
                                crate::model::lemma_form_insert_wf(form@, nv, pvw);
                                assert(spec_segment(sv[i as int], directory@) == Ok::<
                                    Option<(Seq<char>, PartV)>,
                                    ErrorV,
                                >(Some((nv, pvw))));
                            }
                            form.part(nm, part);
                        },
                    }
                },
            }
        }
        i = i + 1;
    }
    Ok(form)
}

} // verus!
