//! Statements of the parser's general guarantees, proved from the
//! specifications that the executable functions are verified against.

use vstd::prelude::*;

use crate::form::PartHeaderState;
use crate::form::part_headers_init;
use crate::form::spec_assemble;
use crate::form::spec_boundary_param;
use crate::form::spec_find_boundary;
use crate::form::spec_part_header_line;
use crate::form::spec_parse_form_data;
use crate::form::spec_part_headers_scan;
use crate::form::spec_resolve_content;
use crate::form::spec_scan_segment;
use crate::form::spec_segment;
use crate::headers::HeaderScanState;
use crate::headers::spec_header_line;
use crate::headers::spec_header_scan;
use crate::model::ErrorV;
use crate::model::PartContentV;
use crate::model::PartV;
use crate::model::Version;
use crate::model::spec_method_of;
use crate::parse::spec_parse_request;
use crate::parse::spec_strip_comments;
use crate::text::find_char_from;
use crate::text::fold_seq;
use crate::text::first_nonblank_from;
use crate::text::is_blank;
use crate::text::lines_spec;
use crate::text::split_on_spec;
use crate::text::starts_with;
use crate::text::trim_spec;
use crate::urlparse::url_scheme_of;

verus! {

/// On any input whose first non-blank line (after comment stripping)
/// has at least two tokens, a recognized method and a URL the URL
/// parser accepts, parsing never fails for a request-line reason, and
/// when it succeeds the descriptor's method and raw URL are exactly
/// the first line's tokens. An input with no non-blank line is
/// rejected as an empty request.
pub proof fn lemma_request_line_reflected(text: Seq<char>, dir: Seq<char>)
    ensures
        ({
            let ls = spec_strip_comments(lines_spec(text));
            match first_nonblank_from(ls, 0) {
                Some(ri) => {
                    let toks = split_on_spec(ls[ri], seq![' ']);
                    (toks.len() >= 2 && spec_method_of(toks[0]) is Some && url_scheme_of(
                        toks[1],
                    ).len() > 0) ==> (match spec_parse_request(text, dir) {
                        Ok(d) => spec_method_of(toks[0]) == Some(d.method) && d.url.raw == toks[1]
                            && d.url.scheme == url_scheme_of(toks[1]),
                        Err(e) => e is InvalidHeader || e is FormDataBoundaryMissing
                            || e is FormPartNameMissing,
                    })
                },
                None => spec_parse_request(text, dir) == Err::<crate::model::DescV, ErrorV>(
                    ErrorV::EmptyRequest,
                ),
            }
        }),
{
    let ls = spec_strip_comments(lines_spec(text));
    match first_nonblank_from(ls, 0) {
        Some(ri) => {
            let toks = split_on_spec(ls[ri], seq![' ']);
            if toks.len() >= 2 && spec_method_of(toks[0]) is Some && url_scheme_of(toks[1]).len()
                > 0 {
                let hb = match crate::text::first_empty_from(ls, ri + 1) {
                    None => (ls.skip(ri + 1), Seq::<Seq<char>>::empty()),
                    Some(bi) => (ls.subrange(ri + 1, bi), ls.skip(bi + 1)),
                };
                let scanned = spec_header_scan(
                    hb.0,
                    0,
                    HeaderScanState {
                        content_type: None,
                        auth: crate::model::AuthV::Absent,
                        headers: Seq::empty(),
                    },
                );
                match scanned {
                    Err(e) => {
                        lemma_header_scan_errors(hb.0, 0, HeaderScanState {
                            content_type: None,
                            auth: crate::model::AuthV::Absent,
                            headers: Seq::empty(),
                        });
                    },
                    Ok(st) => {
                        match st.content_type {
                            None => {},
                            Some(ctv) => {
                                lemma_dispatch_errors(ctv, crate::text::join_lines(hb.1), dir);
                            },
                        }
                    },
                }
            }
        },
        None => {},
    }
}

/// Every error of the header-section scan is an `InvalidHeader`.
pub proof fn lemma_header_scan_errors(lines: Seq<Seq<char>>, i: int, st: HeaderScanState)
    ensures
        spec_header_scan(lines, i, st) matches Err(e) ==> e is InvalidHeader,
    decreases lines.len() - i,
{
    if i < 0 || i >= lines.len() {
    } else {
        match spec_header_line(st, lines[i]) {
            Err(e) => {},
            Ok(st2) => {
                lemma_header_scan_errors(lines, i + 1, st2);
            },
        }
    }
}

/// Every error of a part's header scan is an `InvalidHeader`.
pub proof fn lemma_part_scan_errors(lines: Seq<Seq<char>>, i: int, st: PartHeaderState)
    ensures
        spec_part_headers_scan(lines, i, st) matches Err(e) ==> e is InvalidHeader,
    decreases lines.len() - i,
{
    if i < 0 || i >= lines.len() {
    } else {
        match spec_part_header_line(st, lines[i]) {
            Err(e) => {},
            Ok(st2) => {
                lemma_part_scan_errors(lines, i + 1, st2);
            },
        }
    }
}

/// Every error of the body dispatch is an `InvalidHeader`, a missing
/// boundary, or a missing part name.
pub proof fn lemma_dispatch_errors(ct: Seq<char>, body: Seq<char>, dir: Seq<char>)
    ensures
        crate::parse::spec_dispatch(ct, body, dir) matches Err(e) ==> e is InvalidHeader
            || e is FormDataBoundaryMissing || e is FormPartNameMissing,
{
    match spec_find_boundary(split_on_spec(ct, seq![';']), 0) {
        None => {},
        Some(b) => {
            lemma_assemble_errors(split_on_spec(body, "--"@ + b), 0, Seq::empty(), dir);
        },
    }
}

/// Every error of the segment assembly is an `InvalidHeader` or a
/// missing part name.
pub proof fn lemma_assemble_errors(
    segs: Seq<Seq<char>>,
    i: int,
    form: Seq<(Seq<char>, PartV)>,
    dir: Seq<char>,
)
    ensures
        spec_assemble(segs, i, form, dir) matches Err(e) ==> e is InvalidHeader
            || e is FormPartNameMissing,
    decreases segs.len() - i,
{
    if i < 0 || i >= segs.len() {
    } else {
        let seg = segs[i];
        if is_blank(seg) || starts_with(seg, "--"@) {
            lemma_assemble_errors(segs, i + 1, form, dir);
        } else {
            let lines = lines_spec(seg);
            let hb = spec_scan_segment(lines, 0, false, Seq::empty(), Seq::empty());
            lemma_part_scan_errors(hb.0, 0, part_headers_init());
            match spec_segment(seg, dir) {
                Err(e) => {},
                Ok(None) => {
                    lemma_assemble_errors(segs, i + 1, form, dir);
                },
                Ok(Some(np)) => {
                    lemma_assemble_errors(
                        segs,
                        i + 1,
                        crate::model::form_insert(form, np.0, np.1),
                        dir,
                    );
                },
            }
        }
    }
}

/// When the request line has exactly two tokens, the version defaults
/// by the URL's scheme: HTTP/2.0 for `https`, HTTP/1.1 for all
/// others.
pub proof fn lemma_version_default(text: Seq<char>, dir: Seq<char>)
    requires
        spec_parse_request(text, dir) is Ok,
    ensures
        ({
            let ls = spec_strip_comments(lines_spec(text));
            let ri = first_nonblank_from(ls, 0)->0;
            let toks = split_on_spec(ls[ri], seq![' ']);
            let d = spec_parse_request(text, dir)->Ok_0;
            toks.len() == 2 ==> d.version == (if url_scheme_of(toks[1]) == "https"@ {
                Version::Http2
            } else {
                Version::Http11
            })
        }),
{
}

/// A non-blank line without a `:` in the header block makes the whole
/// header scan fail with `InvalidHeader`, wherever the line stands
/// and whatever came before it.
pub proof fn lemma_missing_colon_header_block(lines: Seq<Seq<char>>, j: int, st: HeaderScanState, i: int)
    requires
        0 <= j <= i < lines.len(),
        !is_blank(lines[i]),
        find_char_from(lines[i], ':', 0) is None,
    ensures
        spec_header_scan(lines, j, st) matches Err(e) && e is InvalidHeader,
    decreases i - j,
{
    if j == i {
    } else {
        match spec_header_line(st, lines[j]) {
            Err(e) => {},
            Ok(st2) => {
                lemma_missing_colon_header_block(lines, j + 1, st2, i);
            },
        }
    }
}

/// The same holds inside a multipart part: a non-blank header line
/// without a `:` makes the part's header scan fail with
/// `InvalidHeader`.
pub proof fn lemma_missing_colon_part_headers(
    lines: Seq<Seq<char>>,
    j: int,
    st: PartHeaderState,
    i: int,
)
    requires
        0 <= j <= i < lines.len(),
        !is_blank(lines[i]),
        find_char_from(lines[i], ':', 0) is None,
    ensures
        spec_part_headers_scan(lines, j, st) matches Err(e) && e is InvalidHeader,
    decreases i - j,
{
    if j == i {
    } else {
        match spec_part_header_line(st, lines[j]) {
            Err(e) => {},
            Ok(st2) => {
                lemma_missing_colon_part_headers(lines, j + 1, st2, i);
            },
        }
    }
}

/// Boundary extraction is case-insensitive in the parameter key: any
/// spelling `k` that folds to `boundary=`, followed by the value `v`,
/// is recognized and yields exactly `v`.
pub proof fn lemma_boundary_key_case_insensitive(k: Seq<char>, v: Seq<char>)
    requires
        fold_seq(k) == "boundary="@,
        trim_spec(k + v) == k + v,
    ensures
        spec_boundary_param(k + v) == Some(v),
{
    let t = k + v;
    assert(fold_seq(k).len() == k.len());
    assert(fold_seq(t).take(k.len() as int) =~= fold_seq(k));
    assert(starts_with(fold_seq(t), "boundary="@));
    assert(t.skip(k.len() as int) =~= v);
}

/// The boundary comes from the first matching parameter, wherever it
/// stands in the `;`-separated parameter list.
pub proof fn lemma_boundary_position_independent(ps: Seq<Seq<char>>, i: int)
    requires
        0 <= i < ps.len(),
        spec_boundary_param(ps[i]) is Some,
        forall|j: int| 0 <= j < i ==> spec_boundary_param(#[trigger] ps[j]) is None,
    ensures
        spec_find_boundary(ps, 0) == spec_boundary_param(ps[i]),
    decreases i,
{
    if i > 0 {
        lemma_find_boundary_step(ps, 0, i);
    }
}

proof fn lemma_find_boundary_step(ps: Seq<Seq<char>>, j: int, i: int)
    requires
        0 <= j <= i < ps.len(),
        spec_boundary_param(ps[i]) is Some,
        forall|m: int| 0 <= m < i ==> spec_boundary_param(#[trigger] ps[m]) is None,
    ensures
        spec_find_boundary(ps, j) == spec_boundary_param(ps[i]),
    decreases i - j,
{
    if j < i {
        lemma_find_boundary_step(ps, j + 1, i);
    }
}

/// A segment whose header block yields headers but no `name` fails
/// the whole assembly with `FormPartNameMissing` rather than being
/// dropped.
pub proof fn lemma_unnamed_part_fails(seg: Seq<char>, dir: Seq<char>)
    requires
        ({
            let lines = lines_spec(seg);
            let hb = spec_scan_segment(lines, 0, false, Seq::empty(), Seq::empty());
            match spec_part_headers_scan(hb.0, 0, part_headers_init()) {
                Ok(st) => st.name is None && st.headers.len() > 0,
                Err(_) => false,
            }
        }),
    ensures
        spec_segment(seg, dir) == Err::<Option<(Seq<char>, PartV)>, ErrorV>(
            ErrorV::FormPartNameMissing,
        ),
{
}

/// If the assembly of the segments from `j` onward succeeds, then
/// every non-preamble, non-epilogue segment among them was itself
/// parsed successfully — no failing segment is silently dropped.
pub proof fn lemma_assemble_ok_means_segments_ok(
    segs: Seq<Seq<char>>,
    j: int,
    form: Seq<(Seq<char>, PartV)>,
    dir: Seq<char>,
    i: int,
)
    requires
        0 <= j <= i < segs.len(),
        spec_assemble(segs, j, form, dir) is Ok,
        !is_blank(segs[i]),
        !starts_with(segs[i], "--"@),
    ensures
        spec_segment(segs[i], dir) is Ok,
    decreases i - j,
{
    if j == i {
    } else {
        let seg = segs[j];
        if is_blank(seg) || starts_with(seg, "--"@) {
            lemma_assemble_ok_means_segments_ok(segs, j + 1, form, dir, i);
        } else {
            match spec_segment(seg, dir) {
                Err(e) => {},
                Ok(None) => {
                    lemma_assemble_ok_means_segments_ok(segs, j + 1, form, dir, i);
                },
                Ok(Some(np)) => {
                    lemma_assemble_ok_means_segments_ok(
                        segs,
                        j + 1,
                        crate::model::form_insert(form, np.0, np.1),
                        dir,
                        i,
                    );
                },
            }
        }
    }
}

/// A newline occurs in `s` at `i` exactly when the character at `i`
/// is a newline.
proof fn lemma_match_nl(s: Seq<char>, i: int)
    ensures
        crate::text::match_at(s, seq!['\n'], i) <==> (0 <= i && i + 1 <= s.len() && s[i] == '\n'),
{
    if 0 <= i && i + 1 <= s.len() {
        assert(s.subrange(i, i + 1) =~= seq![s[i]]);
        if s[i] == '\n' {
            assert(s.subrange(i, i + 1) =~= seq!['\n']);
        } else {
            assert(seq![s[i]][0] != seq!['\n'][0]);
        }
    }
}

/// How a segment of the canonical shape — a leading blank line, one
/// header line, a blank separator and a single-line body — splits
/// into lines and scans into its header and body blocks.
proof fn lemma_segment_shape(h: Seq<char>, v: Seq<char>)
    requires
        h.len() > 0,
        !is_blank(h),
        forall|i: int| 0 <= i < h.len() ==> h[i] != '\n' && #[trigger] h[i] != '\r',
        v.len() > 0,
        forall|i: int| 0 <= i < v.len() ==> v[i] != '\n' && #[trigger] v[i] != '\r',
    ensures
        ({
            let p = seq!['\n'] + h + seq!['\n', '\n'] + v + seq!['\n'];
            &&& lines_spec(p) =~~= seq![Seq::<char>::empty(), h, Seq::<char>::empty(), v]
            &&& spec_scan_segment(
                seq![Seq::<char>::empty(), h, Seq::<char>::empty(), v],
                0,
                false,
                Seq::empty(),
                Seq::empty(),
            ) == (seq![h], seq![v])
            &&& !is_blank(p)
            &&& !starts_with(p, "--"@)
        }),
{
    let nl = seq!['\n'];
    let p = seq!['\n'] + h + seq!['\n', '\n'] + v + seq!['\n'];
    let hl = h.len() as int;
    let vl = v.len() as int;

    assert forall|i: int| crate::text::match_at(p, nl, i) implies (0 <= i && i + 1 <= p.len()
        && p[i] == '\n') by {
        lemma_match_nl(p, i);
    }
    assert forall|i: int| (0 <= i && i + 1 <= p.len() && p[i] == '\n') implies crate::text::match_at(
        p,
        nl,
        i,
    ) by {
        lemma_match_nl(p, i);
    }

    // The newline positions of p are 0, hl + 1, hl + 2 and p.len() - 1.
    assert(p.len() == hl + vl + 4);
    assert(p[0] == '\n');
    assert(forall|i: int| 1 <= i < 1 + hl ==> p[i] == h[i - 1] && #[trigger] p[i] != '\n');
    assert(p[hl + 1] == '\n');
    assert(p[hl + 2] == '\n');
    assert(forall|i: int|
        hl + 3 <= i < hl + 3 + vl ==> p[i] == v[i - hl - 3] && #[trigger] p[i] != '\n');
    assert(p[hl + vl + 3] == '\n');

    crate::text::lemma_split_on_step(p, nl, 0);
    let t1 = p.subrange(1, p.len() as int);
    assert(t1 =~= h + seq!['\n', '\n'] + v + seq!['\n']);
    assert forall|i: int| 0 <= i < hl implies !(#[trigger] crate::text::match_at(t1, nl, i)) by {
        lemma_match_nl(t1, i);
        assert(t1[i] == h[i]);
    }
    assert(crate::text::match_at(t1, nl, hl)) by {
        lemma_match_nl(t1, hl);
        assert(t1[hl] == '\n');
    }
    crate::text::lemma_split_on_step(t1, nl, hl);
    assert(t1.subrange(0, hl) =~= h);
    let t2 = t1.subrange(hl + 1, t1.len() as int);
    assert(t2 =~= seq!['\n'] + v + seq!['\n']);
    assert(crate::text::match_at(t2, nl, 0)) by {
        lemma_match_nl(t2, 0);
    }
    crate::text::lemma_split_on_step(t2, nl, 0);
    assert(t2.subrange(0, 0) =~= Seq::<char>::empty());
    let t3 = t2.subrange(1, t2.len() as int);
    assert(t3 =~= v + seq!['\n']);
    assert forall|i: int| 0 <= i < vl implies !(#[trigger] crate::text::match_at(t3, nl, i)) by {
        lemma_match_nl(t3, i);
        assert(t3[i] == v[i]);
    }
    assert(crate::text::match_at(t3, nl, vl)) by {
        lemma_match_nl(t3, vl);
        assert(t3[vl] == '\n');
    }
    crate::text::lemma_split_on_step(t3, nl, vl);
    assert(t3.subrange(0, vl) =~= v);
    let t4 = t3.subrange(vl + 1, t3.len() as int);
    assert(t4 =~= Seq::<char>::empty());
    assert forall|i: int| 0 <= i implies !(#[trigger] crate::text::match_at(t4, nl, i)) by {
        lemma_match_nl(t4, i);
    }
    crate::text::lemma_split_on_single(t4, nl);

    let ps = split_on_spec(p, nl);
    assert(ps =~~= seq![Seq::<char>::empty(), h, Seq::<char>::empty(), v, Seq::<char>::empty()]);

    // lines_spec: the final empty piece is dropped; no line ends with
    // a carriage return.
    assert(ps.last().len() == 0);
    let qs = ps.drop_last();
    assert(qs =~~= seq![Seq::<char>::empty(), h, Seq::<char>::empty(), v]);
    let stripped = qs.map_values(|l: Seq<char>| crate::text::strip_cr(l));
    assert(crate::text::strip_cr(h) == h);
    assert(crate::text::strip_cr(v) == v);
    assert(crate::text::strip_cr(Seq::<char>::empty()) == Seq::<char>::empty());
    assert(stripped =~~= seq![Seq::<char>::empty(), h, Seq::<char>::empty(), v]);
    assert(lines_spec(p) =~~= seq![Seq::<char>::empty(), h, Seq::<char>::empty(), v]);

    // The scanner: skip the leading blank, take the header line, cross
    // the separator, keep the body line.
    let lines = seq![Seq::<char>::empty(), h, Seq::<char>::empty(), v];
    assert(spec_scan_segment(lines, 0, false, Seq::empty(), Seq::empty()) == spec_scan_segment(
        lines,
        1,
        false,
        Seq::<Seq<char>>::empty(),
        Seq::<Seq<char>>::empty(),
    ));
    assert(Seq::<Seq<char>>::empty().push(h) =~~= seq![h]);
    assert(spec_scan_segment(lines, 1, false, Seq::empty(), Seq::empty()) == spec_scan_segment(
        lines,
        2,
        false,
        seq![h],
        Seq::<Seq<char>>::empty(),
    ));
    assert(spec_scan_segment(lines, 2, false, seq![h], Seq::empty()) == spec_scan_segment(
        lines,
        3,
        true,
        seq![h],
        Seq::<Seq<char>>::empty(),
    ));
    assert(Seq::<Seq<char>>::empty().push(v) =~~= seq![v]);
    assert(spec_scan_segment(lines, 3, true, seq![h], Seq::empty()) == spec_scan_segment(
        lines,
        4,
        true,
        seq![h],
        seq![v],
    ));

    // The segment is not blank (its header line is not), and cannot
    // start with the closing delimiter (it starts with a newline).
    let wi = choose|i: int| 0 <= i < h.len() && !crate::text::is_ws(h[i]);
    assert(!crate::text::is_ws(p[1 + wi]));
    assert(!is_blank(p));
    reveal_strlit("--");
    assert("--"@.len() == 2 && "--"@[0] == '-');
    if starts_with(p, "--"@) {
        assert(p.subrange(0, 2)[0] == '-');
        assert(false);
    }
}

/// Round trip for a body holding two named text parts: a multipart
/// body built from a boundary and two canonical segments — each a
/// disposition line naming the part, a blank separator and a
/// single-line text body — assembles into exactly the two named
/// parts, each carrying exactly its body text; both names and both
/// bodies are preserved.
#[verifier::rlimit(100)]
#[verifier::spinoff_prover]
pub proof fn lemma_two_text_parts_round_trip(
    ct: Seq<char>,
    b: Seq<char>,
    h1: Seq<char>,
    n1: Seq<char>,
    v1: Seq<char>,
    h2: Seq<char>,
    n2: Seq<char>,
    v2: Seq<char>,
    dir: Seq<char>,
)
    requires
        spec_find_boundary(split_on_spec(ct, seq![';']), 0) == Some(b),
        spec_part_headers_scan(seq![h1], 0, part_headers_init()) == Ok::<PartHeaderState, ErrorV>(
            PartHeaderState { headers: Seq::empty(), name: Some(n1), filename: None },
        ),
        spec_part_headers_scan(seq![h2], 0, part_headers_init()) == Ok::<PartHeaderState, ErrorV>(
            PartHeaderState { headers: Seq::empty(), name: Some(n2), filename: None },
        ),
        n1 != n2,
        h1.len() > 0,
        !is_blank(h1),
        forall|i: int| 0 <= i < h1.len() ==> h1[i] != '\n' && #[trigger] h1[i] != '\r',
        h2.len() > 0,
        !is_blank(h2),
        forall|i: int| 0 <= i < h2.len() ==> h2[i] != '\n' && #[trigger] h2[i] != '\r',
        v1.len() > 0,
        v1[0] != '<',
        forall|i: int| 0 <= i < v1.len() ==> v1[i] != '\n' && #[trigger] v1[i] != '\r',
        v2.len() > 0,
        v2[0] != '<',
        forall|i: int| 0 <= i < v2.len() ==> v2[i] != '\n' && #[trigger] v2[i] != '\r',
        ({
            let d = "--"@ + b;
            let p1 = seq!['\n'] + h1 + seq!['\n', '\n'] + v1 + seq!['\n'];
            let p2 = seq!['\n'] + h2 + seq!['\n', '\n'] + v2 + seq!['\n'];
            let body = d + p1 + d + p2 + d + "--"@;
            forall|j: int|
                #[trigger] crate::text::match_at(body, d, j) ==> (j == 0 || j == d.len()
                    + p1.len() || j == 2 * d.len() + p1.len() + p2.len())
        }),
    ensures
        ({
            let d = "--"@ + b;
            let p1 = seq!['\n'] + h1 + seq!['\n', '\n'] + v1 + seq!['\n'];
            let p2 = seq!['\n'] + h2 + seq!['\n', '\n'] + v2 + seq!['\n'];
            let body = d + p1 + d + p2 + d + "--"@;
            spec_parse_form_data(ct, body, dir) == Ok::<Seq<(Seq<char>, PartV)>, ErrorV>(
                seq![
                    (
                        n1,
                        PartV {
                            content: PartContentV::Text(v1),
                            filename: None,
                            headers: Some(Seq::<(Seq<char>, Seq<char>)>::empty()),
                        },
                    ),
                    (
                        n2,
                        PartV {
                            content: PartContentV::Text(v2),
                            filename: None,
                            headers: Some(Seq::<(Seq<char>, Seq<char>)>::empty()),
                        },
                    ),
                ],
            )
        }),
{
    let d = "--"@ + b;
    let p1 = seq!['\n'] + h1 + seq!['\n', '\n'] + v1 + seq!['\n'];
    let p2 = seq!['\n'] + h2 + seq!['\n', '\n'] + v2 + seq!['\n'];
    let q = "--"@;
    let body = d + p1 + d + p2 + d + q;
    reveal_strlit("--");
    assert("--"@.len() == 2 && "--"@[0] == '-' && "--"@[1] == '-');
    let dl = d.len() as int;
    let a1 = dl + p1.len() as int;
    let a2 = 2 * dl + p1.len() + p2.len() as int;

    // The three designated delimiter occurrences are real.
    assert(body.subrange(0, dl) =~= d);
    assert(crate::text::match_at(body, d, 0));
    assert(body.subrange(a1, a1 + dl) =~= d);
    assert(crate::text::match_at(body, d, a1));
    assert(body.subrange(a2, a2 + dl) =~= d);
    assert(crate::text::match_at(body, d, a2));

    // Split the body at each occurrence in turn.
    crate::text::lemma_split_on_step(body, d, 0);
    assert(body.subrange(0, 0) =~= Seq::<char>::empty());
    let r1 = body.subrange(dl, body.len() as int);
    assert(r1 =~= p1 + d + p2 + d + q);
    assert forall|i: int| 0 <= i < p1.len() implies !(#[trigger] crate::text::match_at(
        r1,
        d,
        i,
    )) by {
        crate::text::lemma_match_at_shift(body, dl, d, i);
    }
    assert(crate::text::match_at(r1, d, p1.len() as int)) by {
        crate::text::lemma_match_at_shift(body, dl, d, p1.len() as int);
    }
    crate::text::lemma_split_on_step(r1, d, p1.len() as int);
    assert(r1.subrange(0, p1.len() as int) =~= p1);
    let r2 = r1.subrange(p1.len() + dl, r1.len() as int);
    assert(r2 =~= p2 + d + q);
    assert(r2 =~= body.subrange(a1 + dl, body.len() as int));
    assert forall|i: int| 0 <= i < p2.len() implies !(#[trigger] crate::text::match_at(
        r2,
        d,
        i,
    )) by {
        crate::text::lemma_match_at_shift(body, a1 + dl, d, i);
    }
    assert(crate::text::match_at(r2, d, p2.len() as int)) by {
        crate::text::lemma_match_at_shift(body, a1 + dl, d, p2.len() as int);
    }
    crate::text::lemma_split_on_step(r2, d, p2.len() as int);
    assert(r2.subrange(0, p2.len() as int) =~= p2);
    let r3 = r2.subrange(p2.len() + dl, r2.len() as int);
    assert(r3 =~= q);
    assert(r3 =~= body.subrange(a2 + dl, body.len() as int));
    assert forall|i: int| 0 <= i implies !(#[trigger] crate::text::match_at(r3, d, i)) by {
        if i + d.len() <= r3.len() {
            crate::text::lemma_match_at_shift(body, a2 + dl, d, i);
        }
    }
    crate::text::lemma_split_on_single(r3, d);
    let segs = split_on_spec(body, d);
    assert(segs =~~= seq![Seq::<char>::empty(), p1, p2, q]);

    // The preamble is blank and the closer starts with `--`; the two
    // real segments each become the expected part.
    lemma_segment_shape(h1, v1);
    lemma_segment_shape(h2, v2);
    let pv1 = PartV {
        content: PartContentV::Text(v1),
        filename: None,
        headers: Some(Seq::<(Seq<char>, Seq<char>)>::empty()),
    };
    let pv2 = PartV {
        content: PartContentV::Text(v2),
        filename: None,
        headers: Some(Seq::<(Seq<char>, Seq<char>)>::empty()),
    };
    assert(spec_segment(p1, dir) == Ok::<Option<(Seq<char>, PartV)>, ErrorV>(Some((n1, pv1)))) by {
        let lines = lines_spec(p1);
        assert(lines =~~= seq![Seq::<char>::empty(), h1, Seq::<char>::empty(), v1]);
        let hb = spec_scan_segment(lines, 0, false, Seq::empty(), Seq::empty());
        assert(hb == (seq![h1], seq![v1]));
        assert(crate::text::join_lines(seq![v1]) == v1);
        assert(spec_part_headers_scan(seq![h1], 0, part_headers_init()) == Ok::<
            PartHeaderState,
            ErrorV,
        >(PartHeaderState { headers: Seq::empty(), name: Some(n1), filename: None }));
    }
    assert(spec_segment(p2, dir) == Ok::<Option<(Seq<char>, PartV)>, ErrorV>(Some((n2, pv2))));

    assert(is_blank(Seq::<char>::empty()));
    assert(starts_with(q, "--"@)) by {
        assert(q.subrange(0, 2) =~= q);
    }
    assert(!is_blank(p1) && !starts_with(p1, "--"@));
    assert(!is_blank(p2) && !starts_with(p2, "--"@));

    // Assemble the four segments.
    let e: Seq<(Seq<char>, PartV)> = Seq::empty();
    assert(spec_assemble(segs, 0, e, dir) == spec_assemble(segs, 1, e, dir));
    let f1 = crate::model::form_insert(e, n1, pv1);
    assert(f1 =~~= seq![(n1, pv1)]);
    assert(spec_assemble(segs, 1, e, dir) == spec_assemble(segs, 2, f1, dir));
    let f2 = crate::model::form_insert(f1, n2, pv2);
    assert(f2 =~~= seq![(n1, pv1), (n2, pv2)]) by {
        assert(f1[0].0 == n1 && n1 != n2);
        assert(crate::model::form_insert(f1.drop_first(), n2, pv2) =~~= seq![(n2, pv2)]);
    }
    assert(spec_assemble(segs, 2, f1, dir) == spec_assemble(segs, 3, f2, dir));
    assert(spec_assemble(segs, 3, f2, dir) == spec_assemble(segs, 4, f2, dir));
    assert(spec_assemble(segs, 4, f2, dir) == Ok::<Seq<(Seq<char>, PartV)>, ErrorV>(f2));
}

/// A body whose first character is `<` always resolves to a file
/// reference whose path is the request file's directory, a `/`, and
/// the trimmed remainder of the body.
pub proof fn lemma_file_reference_resolution(body: Seq<char>, dir: Seq<char>)
    requires
        body.len() > 0,
        body[0] == '<',
    ensures
        spec_resolve_content(body, dir) == PartContentV::FileReference(
            dir + seq!['/'] + trim_spec(body.skip(1)),
        ),
{
}

} // verus!
