//! What a parse gives back of a message that was built and serialized.

use vstd::prelude::*;
use vstd::utf8::{encode_utf8, encode_utf8_decode_utf8, encode_utf8_valid_utf8};

use crate::chars::decode_text;
use crate::rtsp::headers::{
    insert_header, insert_if_absent, key_index, keys_unique, lemma_insert_unique, lemma_key_index,
    HeaderSeq,
};
use crate::rtsp::messages::{
    body_headers, byte_len, fold_headers, header_entry, header_line, headers_text, method_from_name,
    method_name, parse_request_bytes, parse_request_text, parse_response_bytes,
    parse_response_text, request_text, response_text, rtsp_version, split_header_body,
    RequestView, ResponseView, RtspMethod, MAX_MESSAGE_SIZE,
};
use crate::text::{
    crlf, decimal, find, find_from, is_digit, is_trimmed, is_ws, lacks, lemma_decimal_roundtrip,
    lemma_find_first, lemma_find_shift, lemma_find_skip, lemma_lines_crlf, lemma_lines_single,
    lemma_split_once_at, lemma_trim_end_ws, lemma_trim_start_ws, lemma_trim_trimmed, lines,
    matches_at, parse_bounded, split_once, splitn3, trim, trim_end, trim_start,
};

verus! {

/// Pieces joined with `sep` between them.
pub open spec fn joined<T>(ls: Seq<Seq<T>>, sep: Seq<T>) -> Seq<T>
    decreases ls.len(),
{
    if ls.len() == 0 {
        Seq::empty()
    } else if ls.len() == 1 {
        ls[0]
    } else {
        ls[0] + sep + joined(ls.drop_first(), sep)
    }
}

/// Lines joined with CR LF between them.
pub open spec fn sep_join(ls: Seq<Seq<char>>) -> Seq<char> {
    joined(ls, crlf())
}

/// A header field as a line, without its line ending.
pub open spec fn field_line(e: (Seq<char>, Seq<char>)) -> Seq<char> {
    e.0 + seq![':', ' '] + e.1
}

/// The header fields as lines.
pub open spec fn field_lines(hs: HeaderSeq) -> Seq<Seq<char>> {
    hs.map_values(|e: (Seq<char>, Seq<char>)| field_line(e))
}

/// A header name that reads back as written: no colon, no line feed, no
/// white space at either end.
pub open spec fn key_ok(k: Seq<char>) -> bool {
    lacks(k, ':') && lacks(k, '\n') && is_trimmed(k)
}

/// A header value that reads back as written: no line feed, no white space
/// at either end.
pub open spec fn value_ok(v: Seq<char>) -> bool {
    lacks(v, '\n') && is_trimmed(v)
}

/// Header fields that read back as written.
pub open spec fn fields_ok(hs: HeaderSeq) -> bool {
    &&& keys_unique(hs)
    &&& forall|i: int| 0 <= i < hs.len() ==> key_ok(#[trigger] hs[i].0) && value_ok(hs[i].1)
}

/// A request that reads back as written: a URI without spaces or line feeds,
/// header fields that read back, and a body without white space at either end.
pub open spec fn sendable_request(r: RequestView) -> bool {
    &&& lacks(r.uri, ' ')
    &&& lacks(r.uri, '\n')
    &&& fields_ok(r.headers)
    &&& is_trimmed(r.body)
}

/// A response that reads back as written: a reason without line feeds, header
/// fields that read back, and a body without white space at either end.
pub open spec fn sendable_response(r: ResponseView) -> bool {
    &&& lacks(r.reason, '\n')
    &&& fields_ok(r.headers)
    &&& is_trimmed(r.body)
}

/// The request line.
pub open spec fn request_line(r: RequestView) -> Seq<char> {
    method_name(r.method) + seq![' '] + r.uri + seq![' '] + rtsp_version()
}

/// The status line.
pub open spec fn status_line(r: ResponseView) -> Seq<char> {
    rtsp_version() + seq![' '] + decimal(r.status_code as nat) + seq![' '] + r.reason
}

/// Each method's name reads back as that method.
pub proof fn law_method_name_roundtrip(m: RtspMethod)
    ensures
        method_from_name(method_name(m)) == Some(m),
        method_name(m).len() > 0,
        lacks(method_name(m), ' '),
        lacks(method_name(m), '\n'),
{
    reveal_strlit("OPTIONS");
    reveal_strlit("GET_PARAMETER");
    reveal_strlit("SET_PARAMETER");
    reveal_strlit("SETUP");
    reveal_strlit("PLAY");
    reveal_strlit("PAUSE");
    reveal_strlit("TEARDOWN");
    let o = "OPTIONS"@;
    let g = "GET_PARAMETER"@;
    let st = "SET_PARAMETER"@;
    let su = "SETUP"@;
    let pl = "PLAY"@;
    let pa = "PAUSE"@;
    let td = "TEARDOWN"@;
    assert(o.len() == 7 && g.len() == 13 && st.len() == 13 && su.len() == 5 && pl.len() == 4
        && pa.len() == 5 && td.len() == 8);
    assert(g[0] != st[0]);
    assert(su[0] != pa[0]);
    assert(o != g && o != st && o != su && o != pl && o != pa && o != td);
    assert(g != st && g != su && g != pl && g != pa && g != td);
    assert(st != su && st != pl && st != pa && st != td);
    assert(su != pl && su != pa && su != td);
    assert(pl != pa && pl != td);
    assert(pa != td);
}

proof fn lemma_version()
    ensures
        rtsp_version().len() == 8,
        lacks(rtsp_version(), ' '),
        lacks(rtsp_version(), '\n'),
        rtsp_version()[0] != '\r',
{
    reveal_strlit("RTSP/1.0");
}

proof fn lemma_sep_join_push(ls: Seq<Seq<char>>, x: Seq<char>)
    requires
        ls.len() >= 1,
    ensures
        sep_join(ls.push(x)) == sep_join(ls) + crlf() + x,
    decreases ls.len(),
{
    let lx = ls.push(x);
    assert(lx[0] == ls[0]);
    assert(lx.len() >= 2);
    if ls.len() == 1 {
        assert(lx.drop_first() =~= seq![x]);
        assert(joined(lx.drop_first(), crlf()) == x);
    } else {
        assert(lx.drop_first() =~= ls.drop_first().push(x));
        lemma_sep_join_push(ls.drop_first(), x);
        assert(ls[0] + crlf() + (sep_join(ls.drop_first()) + crlf() + x) =~= ls[0] + crlf()
            + sep_join(ls.drop_first()) + crlf() + x);
    }
}

proof fn lemma_header_line(e: (Seq<char>, Seq<char>))
    ensures
        header_line(e) == field_line(e) + crlf(),
{
    reveal_strlit(": ");
    reveal_strlit("\r\n");
    assert(header_line(e) =~= field_line(e) + crlf());
}

/// The text of the start line and the header lines, joined.
proof fn lemma_head_text(a: Seq<char>, hs: HeaderSeq)
    ensures
        a + crlf() + headers_text(hs) == sep_join(seq![a] + field_lines(hs)) + crlf(),
    decreases hs.len(),
{
    if hs.len() == 0 {
        assert(seq![a] + field_lines(hs) =~= seq![a]);
        assert(headers_text(hs) =~= Seq::<char>::empty());
        assert(a + crlf() + Seq::<char>::empty() =~= a + crlf());
    } else {
        let init = hs.drop_last();
        lemma_head_text(a, init);
        lemma_header_line(hs.last());
        let ls = seq![a] + field_lines(init);
        assert(ls.push(field_line(hs.last())) =~= seq![a] + field_lines(hs));
        lemma_sep_join_push(ls, field_line(hs.last()));
        assert(a + crlf() + headers_text(hs) =~= (a + crlf() + headers_text(init)) + (field_line(
            hs.last(),
        ) + crlf()));
        assert(sep_join(ls) + crlf() + (field_line(hs.last()) + crlf()) =~= sep_join(ls) + crlf()
            + field_line(hs.last()) + crlf());
    }
}

/// Lines that can follow a CR LF without forming a blank line.
pub open spec fn lines_ok(ls: Seq<Seq<char>>) -> bool {
    &&& ls.len() >= 1
    &&& forall|i: int| 0 <= i < ls.len() ==> lacks(#[trigger] ls[i], '\n') && ls[i].len() > 0
    &&& forall|i: int| 1 <= i < ls.len() ==> #[trigger] ls[i][0] != '\r'
}

proof fn lemma_lines_sep_join(ls: Seq<Seq<char>>)
    requires
        lines_ok(ls),
    ensures
        lines(sep_join(ls)) == ls,
    decreases ls.len(),
{
    if ls.len() == 1 {
        lemma_lines_single(ls[0]);
        assert(seq![ls[0]] =~= ls);
    } else {
        let rest = ls.drop_first();
        assert(lines_ok(rest)) by {
            assert forall|i: int| 1 <= i < rest.len() implies #[trigger] rest[i][0] != '\r' by {
                assert(rest[i] == ls[i + 1]);
            }
        }
        lemma_lines_sep_join(rest);
        lemma_lines_crlf(ls[0], sep_join(rest));
        assert(seq![ls[0]] + rest =~= ls);
    }
}

/// CR LF CR LF.
pub open spec fn blank_line() -> Seq<char> {
    crlf() + crlf()
}

/// Whether `x` does not occur in `s`.
pub open spec fn absent<T>(s: Seq<T>, x: T) -> bool {
    forall|i: int| 0 <= i < s.len() ==> s[i] != x
}

/// Pieces that contain no `lf`, and of which all but the first are non-empty
/// and do not start with `cr`.
pub open spec fn blocks_ok<T>(ls: Seq<Seq<T>>, cr: T, lf: T) -> bool {
    &&& ls.len() >= 1
    &&& forall|i: int| 0 <= i < ls.len() ==> absent(#[trigger] ls[i], lf)
    &&& forall|i: int| 1 <= i < ls.len() ==> #[trigger] ls[i].len() > 0 && ls[i][0] != cr
}

proof fn lemma_match_blank<T>(x: Seq<T>, i: int, cr: T, lf: T)
    requires
        matches_at(x, seq![cr, lf, cr, lf], i),
    ensures
        0 <= i && i + 4 <= x.len(),
        x[i] == cr && x[i + 1] == lf && x[i + 2] == cr && x[i + 3] == lf,
{
    assert(x.subrange(i, i + 4)[0] == x[i]);
    assert(x.subrange(i, i + 4)[1] == x[i + 1]);
    assert(x.subrange(i, i + 4)[2] == x[i + 2]);
    assert(x.subrange(i, i + 4)[3] == x[i + 3]);
}

/// The first `cr lf cr lf` comes right after pieces joined with `cr lf`.
pub proof fn lemma_find_blank<T>(ls: Seq<Seq<T>>, b: Seq<T>, cr: T, lf: T)
    requires
        cr != lf,
        blocks_ok(ls, cr, lf),
    ensures
        find(joined(ls, seq![cr, lf]) + seq![cr, lf, cr, lf] + b, seq![cr, lf, cr, lf]) == Some(
            joined(ls, seq![cr, lf]).len() as int,
        ),
    decreases ls.len(),
{
    let sep = seq![cr, lf];
    let pat = seq![cr, lf, cr, lf];
    let j = joined(ls, sep);
    let x = j + pat + b;
    if ls.len() == 1 {
        let l = ls[0];
        assert forall|i: int| 0 <= i < l.len() implies !matches_at(x, pat, i) by {
            if matches_at(x, pat, i) {
                lemma_match_blank(x, i, cr, lf);
                if i + 1 < l.len() {
                    assert(x[i + 1] == l[i + 1]);
                } else {
                    assert(x[i + 1] == cr);
                }
            }
        }
        assert(x.subrange(l.len() as int, l.len() as int + 4) =~= pat);
        lemma_find_first(x, pat, 0, l.len() as int);
    } else {
        let l = ls[0];
        let rest = ls.drop_first();
        assert(blocks_ok(rest, cr, lf)) by {
            assert forall|i: int| 0 <= i < rest.len() implies absent(#[trigger] rest[i], lf) by {
                assert(rest[i] == ls[i + 1]);
            }
            assert forall|i: int| 1 <= i < rest.len() implies #[trigger] rest[i].len() > 0
                && rest[i][0] != cr by {
                assert(rest[i] == ls[i + 1]);
            }
        }
        lemma_find_blank(rest, b, cr, lf);
        let y = joined(rest, sep) + pat + b;
        let pre = l + sep;
        assert(x =~= pre + y);
        assert(ls[1] == rest[0]);
        assert(joined(rest, sep)[0] == rest[0][0]);
        assert(y[0] == rest[0][0]);
        assert forall|i: int| 0 <= i < pre.len() implies !matches_at(x, pat, i) by {
            if matches_at(x, pat, i) {
                lemma_match_blank(x, i, cr, lf);
                if i + 1 < l.len() {
                    assert(x[i + 1] == l[i + 1]);
                } else if i + 1 == l.len() {
                    assert(x[i + 1] == cr);
                } else if i + 1 == l.len() + 1 {
                    assert(x[i + 2] == y[0]);
                } else {
                    assert(x[i + 1] == y[0]);
                }
            }
        }
        lemma_find_skip(x, pat, 0, pre.len() as int);
        lemma_find_shift(pre, y, pat, 0);
        assert(pre.len() + 0 == pre.len());
    }
}

/// How a header field line reads back.
proof fn lemma_field_entry(k: Seq<char>, v: Seq<char>)
    requires
        key_ok(k),
        value_ok(v),
    ensures
        header_entry(field_line((k, v))) == Some((k, v)),
{
    let line = field_line((k, v));
    let head = k + seq![':'];
    assert(!is_ws(':'));
    assert(!is_ws(head[0])) by {
        if k.len() > 0 {
            assert(head[0] == k[0]);
        }
    }
    assert(!is_ws(head.last()));
    let body = if v.len() == 0 {
        Seq::<char>::empty()
    } else {
        seq![' '] + v
    };
    assert(trim(line) == head + body) by {
        assert(line[0] == head[0]);
        assert(trim_start(line) == line);
        if v.len() == 0 {
            assert(line =~= head + seq![' ']);
            lemma_trim_end_ws(head, ' ');
            assert(trim_end(head) == head);
            assert(head =~= head + body);
        } else {
            assert(line =~= head + body);
            assert(line.last() == v.last());
            assert(trim_end(line) == line);
        }
    }
    assert(head + body =~= k + seq![':'] + body);
    lemma_split_once_at(k, ':', body);
    lemma_trim_trimmed(k);
    assert(trim(body) == v) by {
        if v.len() > 0 {
            lemma_trim_start_ws(' ', v);
            lemma_trim_trimmed(v);
            assert(trim_start(v) == v);
        } else {
            assert(body =~= v);
        }
    }
}

proof fn lemma_fold_fields(acc: HeaderSeq, hs: HeaderSeq)
    requires
        keys_unique(acc + hs),
        forall|i: int| 0 <= i < hs.len() ==> key_ok(#[trigger] hs[i].0) && value_ok(hs[i].1),
    ensures
        fold_headers(acc, field_lines(hs)) == acc + hs,
    decreases hs.len(),
{
    if hs.len() == 0 {
        assert(acc + hs =~= acc);
    } else {
        let all = acc + hs;
        let (k, v) = hs[0];
        lemma_field_entry(k, v);
        assert(field_lines(hs)[0] == field_line(hs[0]));
        assert(keys_unique(acc)) by {
            assert forall|i: int, j: int| 0 <= i < j < acc.len() implies acc[i].0 != acc[j].0 by {
                assert(acc[i] == all[i] && acc[j] == all[j]);
            }
        }
        lemma_key_index(acc, k);
        assert forall|m: int| 0 <= m < acc.len() implies acc[m].0 != k by {
            assert(acc[m] == all[m]);
            assert(all[acc.len() as int] == hs[0]);
        }
        assert(key_index(acc, k) is None);
        assert(insert_header(acc, k, v) == acc.push(hs[0]));
        assert(field_lines(hs).drop_first() =~= field_lines(hs.drop_first()));
        assert(acc.push(hs[0]) + hs.drop_first() =~= all);
        assert forall|i: int| 0 <= i < hs.drop_first().len() implies key_ok(
            #[trigger] hs.drop_first()[i].0,
        ) && value_ok(hs.drop_first()[i].1) by {
            assert(hs.drop_first()[i] == hs[i + 1]);
            assert(key_ok(hs[i + 1].0) && value_ok(hs[i + 1].1));
        }
        lemma_fold_fields(acc.push(hs[0]), hs.drop_first());
    }
}

proof fn lemma_insert_fields_ok(hs: HeaderSeq, k: Seq<char>, v: Seq<char>)
    requires
        fields_ok(hs),
        key_ok(k),
        value_ok(v),
    ensures
        fields_ok(insert_header(hs, k, v)),
        fields_ok(insert_if_absent(hs, k, v)),
{
    lemma_insert_unique(hs, k, v);
    lemma_key_index(hs, k);
}

proof fn lemma_decimal_ok(n: nat)
    ensures
        value_ok(decimal(n)),
        lacks(decimal(n), ' '),
        decimal(n).len() > 0,
{
    lemma_decimal_roundtrip(n);
    let d = decimal(n);
    assert forall|i: int| 0 <= i < d.len() implies d[i] != '\n' && d[i] != ' ' && !is_ws(d[i]) by {
        assert(is_digit(d[i]));
    }
}

/// The fields written with a body read back as written.
pub(crate) proof fn lemma_body_headers_ok(hs: HeaderSeq, body: Seq<char>)
    requires
        fields_ok(hs),
    ensures
        fields_ok(body_headers(hs, body)),
{
    if body.len() > 0 {
        reveal_strlit("Content-Length");
        reveal_strlit("Content-Type");
        reveal_strlit("text/parameters");
        lemma_decimal_ok(byte_len(body) as nat);
        lemma_insert_fields_ok(hs, "Content-Length"@, decimal(byte_len(body) as nat));
        lemma_insert_fields_ok(
            insert_header(hs, "Content-Length"@, decimal(byte_len(body) as nat)),
            "Content-Type"@,
            "text/parameters"@,
        );
    }
}

proof fn lemma_field_lines_ok(a: Seq<char>, hs: HeaderSeq)
    requires
        fields_ok(hs),
        lacks(a, '\n'),
        a.len() > 0,
    ensures
        lines_ok(seq![a] + field_lines(hs)),
{
    let ls = seq![a] + field_lines(hs);
    assert forall|i: int| 0 <= i < ls.len() implies lacks(#[trigger] ls[i], '\n') && ls[i].len()
        > 0 by {
        if i > 0 {
            let e = hs[i - 1];
            assert(ls[i] == field_line(e));
            assert(key_ok(e.0) && value_ok(e.1));
            assert forall|m: int| 0 <= m < ls[i].len() implies ls[i][m] != '\n' by {
                if m < e.0.len() {
                    assert(ls[i][m] == e.0[m]);
                } else if m >= e.0.len() + 2 {
                    assert(ls[i][m] == e.1[m - e.0.len() - 2]);
                }
            }
        }
    }
    assert forall|i: int| 1 <= i < ls.len() implies #[trigger] ls[i][0] != '\r' by {
        let e = hs[i - 1];
        assert(ls[i] == field_line(e));
        assert(key_ok(e.0));
        if e.0.len() > 0 {
            assert(ls[i][0] == e.0[0]);
        }
    }
}

/// Parsing what joined lines, a blank line and a body form.
pub(crate) proof fn lemma_split_joined(ls: Seq<Seq<char>>, body: Seq<char>)
    requires
        lines_ok(ls),
        is_trimmed(body),
    ensures
        split_header_body(sep_join(ls) + blank_line() + body) == (sep_join(ls), body),
        lines(sep_join(ls)) == ls,
{
    reveal_strlit("\r\n\r\n");
    let x = sep_join(ls) + blank_line() + body;
    assert("\r\n\r\n"@ =~= blank_line());
    assert(blank_line() =~= seq!['\r', '\n', '\r', '\n']);
    assert(blocks_ok(ls, '\r', '\n')) by {
        assert forall|i: int| 0 <= i < ls.len() implies absent(#[trigger] ls[i], '\n') by {
            assert(lacks(ls[i], '\n'));
        }
    }
    lemma_find_blank(ls, body, '\r', '\n');
    let p = sep_join(ls).len() as int;
    assert(x.subrange(0, p) =~= sep_join(ls));
    assert(x.subrange(p + 4, x.len() as int) =~= body);
    lemma_trim_trimmed(body);
    lemma_lines_sep_join(ls);
}

/// The text of a request: its lines joined, a blank line, the body.
proof fn lemma_request_text(r: RequestView)
    ensures
        request_text(r) == sep_join(
            seq![request_line(r)] + field_lines(body_headers(r.headers, r.body)),
        ) + blank_line() + r.body,
{
    reveal_strlit(" ");
    reveal_strlit(" RTSP/1.0\r\n");
    reveal_strlit("\r\n");
    reveal_strlit("RTSP/1.0");
    let hs = body_headers(r.headers, r.body);
    lemma_head_text(request_line(r), hs);
    assert(request_text(r) =~= (request_line(r) + crlf() + headers_text(hs)) + crlf() + r.body);
}

/// The text of a response: its lines joined, a blank line, the body.
proof fn lemma_response_text(r: ResponseView)
    ensures
        response_text(r) == sep_join(
            seq![status_line(r)] + field_lines(body_headers(r.headers, r.body)),
        ) + blank_line() + r.body,
{
    reveal_strlit(" ");
    reveal_strlit("RTSP/1.0 ");
    reveal_strlit("\r\n");
    reveal_strlit("RTSP/1.0");
    let hs = body_headers(r.headers, r.body);
    lemma_head_text(status_line(r), hs);
    assert(response_text(r) =~= (status_line(r) + crlf() + headers_text(hs)) + crlf() + r.body);
}

/// The lines of a request's header section: the request line, then the fields
/// it is sent with.
pub open spec fn request_lines(r: RequestView) -> Seq<Seq<char>> {
    seq![request_line(r)] + field_lines(body_headers(r.headers, r.body))
}

/// The lines of a response's header section: the status line, then the fields
/// it is sent with.
pub open spec fn response_lines(r: ResponseView) -> Seq<Seq<char>> {
    seq![status_line(r)] + field_lines(body_headers(r.headers, r.body))
}

/// The text of a sendable request is its lines joined, a blank line and the
/// body, and those lines read back as lines.
pub(crate) proof fn lemma_request_layout(r: RequestView)
    requires
        sendable_request(r),
    ensures
        lines_ok(request_lines(r)),
        fields_ok(body_headers(r.headers, r.body)),
        request_text(r) == sep_join(request_lines(r)) + blank_line() + r.body,
{
    let hs = body_headers(r.headers, r.body);
    let rl = request_line(r);
    law_method_name_roundtrip(r.method);
    lemma_version();
    assert(lacks(rl, '\n')) by {
        assert forall|i: int| 0 <= i < rl.len() implies rl[i] != '\n' by {
            let m = method_name(r.method);
            if i < m.len() {
                assert(rl[i] == m[i]);
            } else if i == m.len() {
            } else if i < m.len() + 1 + r.uri.len() {
                assert(rl[i] == r.uri[i - m.len() - 1]);
            } else if i == m.len() + 1 + r.uri.len() {
            } else {
                assert(rl[i] == rtsp_version()[i - m.len() - 2 - r.uri.len()]);
            }
        }
    }
    lemma_body_headers_ok(r.headers, r.body);
    lemma_field_lines_ok(rl, hs);
    lemma_request_text(r);
}

/// The text of a sendable response is its lines joined, a blank line and the
/// body, and those lines read back as lines.
pub(crate) proof fn lemma_response_layout(r: ResponseView)
    requires
        sendable_response(r),
    ensures
        lines_ok(response_lines(r)),
        fields_ok(body_headers(r.headers, r.body)),
        response_text(r) == sep_join(response_lines(r)) + blank_line() + r.body,
{
    let hs = body_headers(r.headers, r.body);
    let sl = status_line(r);
    lemma_version();
    lemma_decimal_ok(r.status_code as nat);
    let d = decimal(r.status_code as nat);
    assert(lacks(sl, '\n')) by {
        assert forall|i: int| 0 <= i < sl.len() implies sl[i] != '\n' by {
            if i < 8 {
                assert(sl[i] == rtsp_version()[i]);
            } else if i == 8 {
            } else if i < 9 + d.len() {
                assert(sl[i] == d[i - 9]);
            } else if i == 9 + d.len() {
            } else {
                assert(sl[i] == r.reason[i - 10 - d.len()]);
            }
        }
    }
    lemma_body_headers_ok(r.headers, r.body);
    lemma_field_lines_ok(sl, hs);
    lemma_response_text(r);
}

/// A request built from sendable parts reads back from its text: the same
/// method, URI and body, and the header fields it was sent with.
pub proof fn law_request_text_roundtrip(r: RequestView)
    requires
        sendable_request(r),
    ensures
        parse_request_text(request_text(r)) == Ok::<RequestView, crate::rtsp::messages::ParseErrorView>(
            RequestView { headers: body_headers(r.headers, r.body), ..r },
        ),
{
    let hs = body_headers(r.headers, r.body);
    let rl = request_line(r);
    law_method_name_roundtrip(r.method);
    lemma_request_layout(r);
    let ls = request_lines(r);
    lemma_split_joined(ls, r.body);
    assert(ls[0] == rl);
    assert(ls.drop_first() =~= field_lines(hs));
    let m = method_name(r.method);
    let rest = r.uri + seq![' '] + rtsp_version();
    assert(rl =~= m + seq![' '] + rest);
    lemma_split_once_at(m, ' ', rest);
    lemma_split_once_at(r.uri, ' ', rtsp_version());
    assert(splitn3(rl, ' ') == seq![m, r.uri, rtsp_version()]);
    lemma_fold_fields(Seq::empty(), hs);
    assert(Seq::<(Seq<char>, Seq<char>)>::empty() + hs =~= hs);
}

/// A response built from sendable parts reads back from its text: the same
/// status code, reason and body, and the header fields it was sent with.
pub proof fn law_response_text_roundtrip(r: ResponseView)
    requires
        sendable_response(r),
    ensures
        parse_response_text(response_text(r)) == Ok::<ResponseView, crate::rtsp::messages::ParseErrorView>(
            ResponseView { headers: body_headers(r.headers, r.body), ..r },
        ),
{
    let hs = body_headers(r.headers, r.body);
    let sl = status_line(r);
    lemma_version();
    lemma_decimal_roundtrip(r.status_code as nat);
    let d = decimal(r.status_code as nat);
    lemma_response_layout(r);
    let ls = response_lines(r);
    lemma_split_joined(ls, r.body);
    assert(ls[0] == sl);
    assert(ls.drop_first() =~= field_lines(hs));
    let rest = d + seq![' '] + r.reason;
    assert(sl =~= rtsp_version() + seq![' '] + rest);
    lemma_split_once_at(rtsp_version(), ' ', rest);
    lemma_split_once_at(d, ' ', r.reason);
    assert(splitn3(sl, ' ') == seq![rtsp_version(), d, r.reason]);
    assert(parse_bounded(d, 65535) == Some(r.status_code as nat));
    lemma_fold_fields(Seq::empty(), hs);
    assert(Seq::<(Seq<char>, Seq<char>)>::empty() + hs =~= hs);
}

/// A request built from sendable parts and serialized reads back from its
/// bytes, when they fit in a message: the same method, URI and body, and the
/// header fields it was sent with.
pub proof fn law_request_roundtrip(r: RequestView)
    requires
        sendable_request(r),
        encode_utf8(request_text(r)).len() <= MAX_MESSAGE_SIZE,
    ensures
        parse_request_bytes(encode_utf8(request_text(r))) == Ok::<RequestView, crate::rtsp::messages::ParseErrorView>(
            RequestView { headers: body_headers(r.headers, r.body), ..r },
        ),
{
    let t = request_text(r);
    encode_utf8_valid_utf8(t);
    encode_utf8_decode_utf8(t);
    law_method_name_roundtrip(r.method);
    assert(t.len() > 0) by {
        lemma_request_text(r);
        assert(t[0] == method_name(r.method)[0]) by {
            let hs = body_headers(r.headers, r.body);
            let ls = seq![request_line(r)] + field_lines(hs);
            assert(sep_join(ls)[0] == ls[0][0]);
        }
    }
    assert(encode_utf8(t).len() > 0);
    law_request_text_roundtrip(r);
}

/// A response built from sendable parts and serialized reads back from its
/// bytes, when they fit in a message: the same status code, reason and body,
/// and the header fields it was sent with.
pub proof fn law_response_roundtrip(r: ResponseView)
    requires
        sendable_response(r),
        encode_utf8(response_text(r)).len() <= MAX_MESSAGE_SIZE,
    ensures
        parse_response_bytes(encode_utf8(response_text(r))) == Ok::<ResponseView, crate::rtsp::messages::ParseErrorView>(
            ResponseView { headers: body_headers(r.headers, r.body), ..r },
        ),
{
    let t = response_text(r);
    encode_utf8_valid_utf8(t);
    encode_utf8_decode_utf8(t);
    lemma_version();
    assert(t.len() > 0) by {
        lemma_response_text(r);
        let hs = body_headers(r.headers, r.body);
        let ls = seq![status_line(r)] + field_lines(hs);
        assert(sep_join(ls)[0] == ls[0][0]);
        assert(ls[0][0] == rtsp_version()[0]);
    }
    assert(encode_utf8(t).len() > 0);
    law_response_text_roundtrip(r);
}

} // verus!
