//! Reading messages off a byte stream: what `try_parse_message` finds at the
//! front of a buffer that starts with a serialized message.

use vstd::prelude::*;
use vstd::utf8::{char_u32_cast, encode_utf8, encode_utf8_decode_utf8, encode_utf8_valid_utf8};

use crate::chars::{decode_text, lemma_encode_absent, lemma_encode_char, lemma_encode_concat, lemma_encode_first};
use crate::rtsp::headers::{insert_header, insert_if_absent, key_index, lemma_key_index, HeaderSeq};
use crate::rtsp::messages::{
    announced_length, body_headers, byte_len, content_length_in, content_length_value, header_block_end,
    is_content_length_line, is_response_text, method_name, request_text, response_text,
    try_parse_spec, MessageView, ParseErrorView, RequestView, ResponseView, MAX_CONTENT_LENGTH,
    MAX_MESSAGE_SIZE,
};
use crate::rtsp::roundtrip::{
    blank_line, blocks_ok, field_line, field_lines, fields_ok, joined, key_ok, law_method_name_roundtrip,
    law_request_roundtrip, law_response_roundtrip, lemma_find_blank, lemma_request_layout,
    lemma_response_layout, lemma_split_joined, lines_ok, request_line, request_lines,
    response_lines, sendable_request, sendable_response, sep_join, status_line,
};
use crate::rtsp::session::{buffered_message, SessionErrorView, SessionView};
use crate::text::{
    find, lemma_find_extend, lemma_find_prefix, lemma_find_some, ascii_lower, crlf, decimal, eq_ignore_ascii_case, is_trimmed, is_ws, lemma_decimal_roundtrip,
    lemma_trim_start_ws, lemma_trim_trimmed, lines, parse_bounded, starts_with, trim, trim_start,
};

verus! {

/// Whether a header name is `Content-Length`, in any ASCII case.
pub open spec fn names_length(k: Seq<char>) -> bool {
    eq_ignore_ascii_case(k, "content-length"@)
}

/// Header fields whose announced length the body sets: a field named
/// `Content-Length` in any case is named exactly so, and comes with a body.
pub open spec fn length_fields_ok(hs: HeaderSeq, body: Seq<char>) -> bool {
    forall|i: int|
        0 <= i < hs.len() && names_length(#[trigger] hs[i].0) ==> hs[i].0 == "Content-Length"@
            && body.len() > 0
}

/// Lines as UTF-8 bytes, one by one.
pub open spec fn encoded_lines(ls: Seq<Seq<char>>) -> Seq<Seq<u8>> {
    ls.map_values(|l: Seq<char>| encode_utf8(l))
}

proof fn lemma_encode_crlf()
    ensures
        encode_utf8(crlf()) == seq![13u8, 10u8],
        encode_utf8(blank_line()) == seq![13u8, 10u8, 13u8, 10u8],
{
    lemma_encode_char('\r');
    lemma_encode_char('\n');
    let n = seq!['\n'];
    assert(n.drop_first() =~= Seq::<char>::empty());
    assert(n[0] == '\n');
    assert(('\n' as u32) == 10);
    assert(encode_utf8(n.drop_first()) =~= Seq::<u8>::empty());
    assert(encode_utf8(n) =~= seq![10u8]);
    assert(crlf()[0] == '\r');
    assert(('\r' as u32) == 13);
    assert(crlf().drop_first() =~= n);
    assert(encode_utf8(crlf()) =~= seq![13u8, 10u8]);
    lemma_encode_concat(crlf(), crlf());
    assert(seq![13u8, 10u8] + seq![13u8, 10u8] =~= seq![13u8, 10u8, 13u8, 10u8]);
}

/// Encoding lines joined with CR LF joins their encodings with the bytes CR LF.
proof fn lemma_encode_joined(ls: Seq<Seq<char>>)
    ensures
        encode_utf8(sep_join(ls)) == joined(encoded_lines(ls), seq![13u8, 10u8]),
    decreases ls.len(),
{
    let e = encoded_lines(ls);
    if ls.len() == 1 {
        assert(e[0] == encode_utf8(ls[0]));
    } else if ls.len() >= 2 {
        let rest = ls.drop_first();
        lemma_encode_joined(rest);
        assert(encoded_lines(rest) =~= e.drop_first());
        assert(e[0] == encode_utf8(ls[0]));
        lemma_encode_crlf();
        lemma_encode_concat(ls[0], crlf());
        lemma_encode_concat(ls[0] + crlf(), sep_join(rest));
    }
}

/// Encoded lines that read back as lines form blocks: none holds a line feed,
/// and none after the first is empty or starts with a carriage return.
proof fn lemma_encoded_blocks(ls: Seq<Seq<char>>)
    requires
        lines_ok(ls),
    ensures
        blocks_ok(encoded_lines(ls), 13u8, 10u8),
{
    let e = encoded_lines(ls);
    assert forall|i: int| 0 <= i < e.len() implies crate::rtsp::roundtrip::absent(
        #[trigger] e[i],
        10u8,
    ) by {
        assert(e[i] == encode_utf8(ls[i]));
        lemma_encode_absent(ls[i], '\n');
    }
    assert forall|i: int| 1 <= i < e.len() implies #[trigger] e[i].len() > 0 && e[i][0] != 13u8 by {
        assert(e[i] == encode_utf8(ls[i]));
        let c = ls[i][0];
        assert(c != '\r');
        lemma_encode_first(ls[i]);
        if (c as u32) < 0x80 {
            char_u32_cast(c, c as u32);
            assert((c as u32) != 13);
        }
    }
}

/// A line whose first character is not `c` in either case names no length.
proof fn lemma_not_length_line(l: Seq<char>)
    requires
        l.len() > 0,
        l[0] != 'c',
        l[0] != 'C',
    ensures
        !is_content_length_line(l),
{
    reveal_strlit("content-length:");
    if is_content_length_line(l) {
        assert(l.subrange(0, 15)[0] == l[0]);
        assert(ascii_lower(l[0]) == ascii_lower('c'));
    }
}

/// A header field line names a length exactly when its name does.
proof fn lemma_length_line(k: Seq<char>, v: Seq<char>)
    requires
        key_ok(k),
    ensures
        is_content_length_line(field_line((k, v))) == names_length(k),
{
    reveal_strlit("content-length:");
    reveal_strlit("content-length");
    let l = field_line((k, v));
    let p = "content-length:"@;
    let q = "content-length"@;
    assert(p =~= q.push(':'));
    let n = k.len() as int;
    if names_length(k) {
        let h = l.subrange(0, 15);
        assert forall|i: int| 0 <= i < 15 implies ascii_lower(h[i]) == ascii_lower(p[i]) by {
            if i < 14 {
                assert(h[i] == k[i]);
            } else {
                assert(h[i] == ':');
            }
        }
    } else if is_content_length_line(l) {
        let h = l.subrange(0, 15);
        if n >= 15 {
            assert(h[14] == k[14]);
            assert(ascii_lower(h[14]) == ascii_lower(p[14]));
            assert(k[14] != ':');
        } else if n < 14 {
            assert(h[n] == ':');
            assert(ascii_lower(h[n]) == ascii_lower(p[n]));
        } else {
            assert forall|i: int| 0 <= i < 14 implies ascii_lower(k[i]) == ascii_lower(q[i]) by {
                assert(h[i] == k[i]);
                assert(ascii_lower(h[i]) == ascii_lower(p[i]));
            }
        }
    }
}

/// The length field written with a body announces `n`.
proof fn lemma_length_value(n: nat)
    requires
        n <= usize::MAX,
    ensures
        content_length_value(field_line(("Content-Length"@, decimal(n)))) == n,
        names_length("Content-Length"@),
{
    reveal_strlit("Content-Length");
    reveal_strlit("content-length");
    let d = decimal(n);
    lemma_decimal_roundtrip(n);
    let l = field_line(("Content-Length"@, d));
    let tail = l.subrange(15, l.len() as int);
    assert(tail =~= seq![' '] + d);
    assert(is_trimmed(d)) by {
        assert(!is_ws(d[0])) by {
            assert(crate::text::is_digit(d[0]));
        }
        assert(!is_ws(d.last())) by {
            assert(crate::text::is_digit(d[d.len() - 1]));
        }
    }
    lemma_trim_start_ws(' ', d);
    lemma_trim_trimmed(d);
    assert(trim_start(d) == d);
    assert(trim(tail) == d);
    assert(parse_bounded(d, usize::MAX as nat) == Some(n));
}

/// Header fields with no length field announce nothing.
proof fn lemma_length_none(hs: HeaderSeq)
    requires
        forall|i: int| 0 <= i < hs.len() ==> key_ok(#[trigger] hs[i].0) && !names_length(hs[i].0),
    ensures
        content_length_in(field_lines(hs)) == 0,
    decreases hs.len(),
{
    if hs.len() > 0 {
        lemma_length_line(hs[0].0, hs[0].1);
        assert(field_lines(hs)[0] == field_line(hs[0]));
        assert(field_lines(hs).drop_first() =~= field_lines(hs.drop_first()));
        assert forall|i: int| 0 <= i < hs.drop_first().len() implies key_ok(
            #[trigger] hs.drop_first()[i].0,
        ) && !names_length(hs.drop_first()[i].0) by {
            assert(hs.drop_first()[i] == hs[i + 1]);
        }
        lemma_length_none(hs.drop_first());
    }
}

/// Header fields with one length field, at `j`, announce its value.
proof fn lemma_length_at(hs: HeaderSeq, j: int, n: nat)
    requires
        0 <= j < hs.len(),
        n <= usize::MAX,
        hs[j] == ("Content-Length"@, decimal(n)),
        forall|i: int| 0 <= i < hs.len() ==> key_ok(#[trigger] hs[i].0),
        forall|i: int| 0 <= i < hs.len() && i != j ==> !names_length(#[trigger] hs[i].0),
    ensures
        content_length_in(field_lines(hs)) == n,
    decreases hs.len(),
{
    lemma_length_line(hs[0].0, hs[0].1);
    assert(field_lines(hs)[0] == field_line(hs[0]));
    let tl = hs.drop_first();
    assert(field_lines(hs).drop_first() =~= field_lines(tl));
    if j == 0 {
        lemma_length_value(n);
    } else {
        assert forall|i: int| 0 <= i < tl.len() implies key_ok(#[trigger] tl[i].0) by {
            assert(tl[i] == hs[i + 1]);
        }
        assert forall|i: int| 0 <= i < tl.len() && i != j - 1 implies !names_length(
            #[trigger] tl[i].0,
        ) by {
            assert(tl[i] == hs[i + 1]);
        }
        lemma_length_at(tl, j - 1, n);
    }
}

/// The fields sent with a body announce the body's length in bytes.
proof fn lemma_body_length(hs: HeaderSeq, body: Seq<char>)
    requires
        fields_ok(hs),
        length_fields_ok(hs, body),
        encode_utf8(body).len() <= MAX_CONTENT_LENGTH,
    ensures
        content_length_in(field_lines(body_headers(hs, body))) == encode_utf8(body).len(),
{
    crate::rtsp::roundtrip::lemma_body_headers_ok(hs, body);
    let hb = body_headers(hs, body);
    if body.len() == 0 {
        assert(encode_utf8(body) =~= Seq::<u8>::empty());
        lemma_length_none(hs);
    } else {
        reveal_strlit("Content-Length");
        reveal_strlit("Content-Type");
        reveal_strlit("content-length");
        let cl = "Content-Length"@;
        let n = byte_len(body) as nat;
        assert(n == encode_utf8(body).len());
        let d = decimal(n);
        let h1 = insert_header(hs, cl, d);
        lemma_key_index(hs, cl);
        let j = match key_index(hs, cl) {
            Some(i) => i,
            None => hs.len() as int,
        };
        assert(h1[j] == (cl, d));
        assert(h1.len() >= hs.len());
        assert forall|i: int| 0 <= i < h1.len() && i != j implies h1[i] == hs[i] && !names_length(
            #[trigger] h1[i].0,
        ) by {
            assert(h1[i] == hs[i]);
            if names_length(hs[i].0) {
                assert(hs[i].0 == cl);
            }
        }
        assert(!names_length("Content-Type"@));
        assert(hb == insert_if_absent(h1, "Content-Type"@, "text/parameters"@));
        assert forall|i: int| 0 <= i < hb.len() && i != j implies !names_length(#[trigger] hb[i].0) by {
            if i < h1.len() {
                assert(hb[i] == h1[i]);
            }
        }
        assert(hb[j] == (cl, d));
        lemma_length_at(hb, j, n);
    }
}

/// How a buffer that starts with a message, given as its header lines and
/// body, is framed: the header section ends at the blank line, and its text
/// is the lines joined.
proof fn lemma_frame(ls: Seq<Seq<char>>, body: Seq<char>, rest: Seq<u8>)
    requires
        lines_ok(ls),
    ensures
        ({
            let head = encode_utf8(sep_join(ls));
            let msg = encode_utf8(sep_join(ls) + blank_line() + body);
            let buf = msg + rest;
            &&& header_block_end(buf) == Some((head.len() as int, 4int))
            &&& buf.subrange(0, head.len() as int) == head
            &&& msg.len() == head.len() + 4 + encode_utf8(body).len()
            &&& buf.subrange(0, msg.len() as int) == msg
        }),
{
    let j = sep_join(ls);
    let head = encode_utf8(j);
    let eb = encode_utf8(body);
    let pat = seq![13u8, 10u8, 13u8, 10u8];
    lemma_encode_crlf();
    lemma_encode_concat(j, blank_line());
    lemma_encode_concat(j + blank_line(), body);
    let msg = encode_utf8(j + blank_line() + body);
    assert(msg == head + pat + eb);
    let buf = msg + rest;
    lemma_encode_joined(ls);
    lemma_encoded_blocks(ls);
    lemma_find_blank(encoded_lines(ls), eb + rest, 13u8, 10u8);
    assert(buf =~= head + pat + (eb + rest));
    assert(buf.subrange(0, head.len() as int) =~= head);
    assert(buf.subrange(0, msg.len() as int) =~= msg);
}

/// A serialized request is read whole off the front of a buffer, whatever
/// follows it: `try_parse_message` gives back the request, with the header
/// fields it was sent with, and the number of bytes it took. This holds of a
/// sendable request whose length field, if any, is the one the body sets, whose
/// body fits the content limit, and whose buffer fits the message limit.
pub proof fn law_request_framing(r: RequestView, rest: Seq<u8>)
    requires
        sendable_request(r),
        length_fields_ok(r.headers, r.body),
        encode_utf8(r.body).len() <= MAX_CONTENT_LENGTH,
        encode_utf8(request_text(r)).len() + rest.len() <= MAX_MESSAGE_SIZE,
    ensures
        try_parse_spec(encode_utf8(request_text(r)) + rest) == Ok::<
            Option<(MessageView, int)>,
            ParseErrorView,
        >(
            Some(
                (
                    MessageView::Request(
                        RequestView { headers: body_headers(r.headers, r.body), ..r },
                    ),
                    encode_utf8(request_text(r)).len() as int,
                ),
            ),
        ),
{
    let ls = request_lines(r);
    let t = request_text(r);
    lemma_request_layout(r);
    lemma_frame(ls, r.body, rest);
    let j = sep_join(ls);
    encode_utf8_valid_utf8(j);
    encode_utf8_decode_utf8(j);
    lemma_split_joined(ls, r.body);
    law_method_name_roundtrip(r.method);
    let m = method_name(r.method);
    assert(ls[0] == request_line(r));
    assert(ls[0][0] == m[0]);
    assert(m[0] != 'c' && m[0] != 'C' && m[0] != 'R' && !is_ws(m[0])) by {
        reveal_strlit("OPTIONS");
        reveal_strlit("GET_PARAMETER");
        reveal_strlit("SET_PARAMETER");
        reveal_strlit("SETUP");
        reveal_strlit("PLAY");
        reveal_strlit("PAUSE");
        reveal_strlit("TEARDOWN");
    }
    lemma_not_length_line(ls[0]);
    assert(ls.drop_first() =~= field_lines(body_headers(r.headers, r.body)));
    lemma_body_length(r.headers, r.body);
    encode_utf8_valid_utf8(t);
    encode_utf8_decode_utf8(t);
    assert(t[0] == m[0]) by {
        assert(j[0] == ls[0][0]);
    }
    assert(trim_start(t) == t);
    assert(!is_response_text(t)) by {
        reveal_strlit("RTSP/");
        if starts_with(t, "RTSP/"@) {
            assert(t.subrange(0, 5)[0] == t[0]);
        }
    }
    law_request_roundtrip(r);
    let head = encode_utf8(j);
    let buf = encode_utf8(t) + rest;
    assert(decode_text(buf.subrange(0, head.len() as int)) == j);
    assert(lines(j) == ls);
    assert(content_length_in(ls) == content_length_in(ls.drop_first()));
    assert(announced_length(j) == encode_utf8(r.body).len());
    assert(decode_text(encode_utf8(t)) == t);
}

/// A serialized response is read whole off the front of a buffer, whatever
/// follows it: `try_parse_message` gives back the response, with the header
/// fields it was sent with, and the number of bytes it took. This holds of a
/// sendable response whose length field, if any, is the one the body sets,
/// whose body fits the content limit, and whose buffer fits the message limit.
pub proof fn law_response_framing(r: ResponseView, rest: Seq<u8>)
    requires
        sendable_response(r),
        length_fields_ok(r.headers, r.body),
        encode_utf8(r.body).len() <= MAX_CONTENT_LENGTH,
        encode_utf8(response_text(r)).len() + rest.len() <= MAX_MESSAGE_SIZE,
    ensures
        try_parse_spec(encode_utf8(response_text(r)) + rest) == Ok::<
            Option<(MessageView, int)>,
            ParseErrorView,
        >(
            Some(
                (
                    MessageView::Response(
                        ResponseView { headers: body_headers(r.headers, r.body), ..r },
                    ),
                    encode_utf8(response_text(r)).len() as int,
                ),
            ),
        ),
{
    reveal_strlit("RTSP/1.0");
    reveal_strlit("RTSP/");
    let ls = response_lines(r);
    let t = response_text(r);
    lemma_response_layout(r);
    lemma_frame(ls, r.body, rest);
    let j = sep_join(ls);
    encode_utf8_valid_utf8(j);
    encode_utf8_decode_utf8(j);
    lemma_split_joined(ls, r.body);
    let sl = status_line(r);
    assert(ls[0] == sl);
    assert(sl[0] == 'R');
    lemma_not_length_line(ls[0]);
    assert(ls.drop_first() =~= field_lines(body_headers(r.headers, r.body)));
    lemma_body_length(r.headers, r.body);
    encode_utf8_valid_utf8(t);
    encode_utf8_decode_utf8(t);
    assert(t.subrange(0, 5) =~= "RTSP/"@) by {
        assert forall|i: int| 0 <= i < 5 implies t[i] == sl[i] by {
            assert(j[i] == ls[0][i]);
        }
    }
    assert(t[0] == 'R');
    assert(trim_start(t) == t);
    assert(starts_with(trim_start(t), "RTSP/"@));
    law_response_roundtrip(r);
    let head = encode_utf8(j);
    let buf = encode_utf8(t) + rest;
    assert(decode_text(buf.subrange(0, head.len() as int)) == j);
    assert(lines(j) == ls);
    assert(content_length_in(ls) == content_length_in(ls.drop_first()));
    assert(announced_length(j) == encode_utf8(r.body).len());
    assert(decode_text(encode_utf8(t)) == t);
}

/// A request that has arrived whole at the front of a session's receive
/// buffer, whatever follows it, is what the next `next_message` takes out, and
/// what follows it stays in the buffer.
pub proof fn law_buffered_request(s: SessionView, r: RequestView, rest: Seq<u8>)
    requires
        sendable_request(r),
        length_fields_ok(r.headers, r.body),
        encode_utf8(r.body).len() <= MAX_CONTENT_LENGTH,
        encode_utf8(request_text(r)).len() + rest.len() <= MAX_MESSAGE_SIZE,
        s.recv_buffer == encode_utf8(request_text(r)) + rest,
    ensures
        buffered_message(s) == (
            SessionView { recv_buffer: rest, ..s },
            Ok::<Option<MessageView>, SessionErrorView>(
                Some(
                    MessageView::Request(
                        RequestView { headers: body_headers(r.headers, r.body), ..r },
                    ),
                ),
            ),
        ),
{
    law_request_framing(r, rest);
    let b = encode_utf8(request_text(r));
    assert(s.recv_buffer.subrange(b.len() as int, s.recv_buffer.len() as int) =~= rest);
}

/// A response that has arrived whole at the front of a session's receive
/// buffer, whatever follows it, is what the next `next_message` takes out, and
/// what follows it stays in the buffer.
pub proof fn law_buffered_response(s: SessionView, r: ResponseView, rest: Seq<u8>)
    requires
        sendable_response(r),
        length_fields_ok(r.headers, r.body),
        encode_utf8(r.body).len() <= MAX_CONTENT_LENGTH,
        encode_utf8(response_text(r)).len() + rest.len() <= MAX_MESSAGE_SIZE,
        s.recv_buffer == encode_utf8(response_text(r)) + rest,
    ensures
        buffered_message(s) == (
            SessionView { recv_buffer: rest, ..s },
            Ok::<Option<MessageView>, SessionErrorView>(
                Some(
                    MessageView::Response(
                        ResponseView { headers: body_headers(r.headers, r.body), ..r },
                    ),
                ),
            ),
        ),
{
    law_response_framing(r, rest);
    let b = encode_utf8(response_text(r));
    assert(s.recv_buffer.subrange(b.len() as int, s.recv_buffer.len() as int) =~= rest);
}

/// A complete message cut anywhere before its end, in its header section or
/// in its body, is reported incomplete: not as an error, and not as a message.
/// This holds where the cut cannot end a header section earlier: the message
/// is framed by a blank line of line feeds alone, or it holds no two line
/// feeds in a row.
pub proof fn law_cut_message_incomplete(buf: Seq<u8>, m: MessageView, n: int, k: int)
    requires
        try_parse_spec(buf) == Ok::<Option<(MessageView, int)>, ParseErrorView>(Some((m, n))),
        0 <= k < n,
        find(buf, seq![13u8, 10u8, 13u8, 10u8]) is None || find(
            buf.subrange(0, n),
            seq![10u8, 10u8],
        ) is None,
    ensures
        try_parse_spec(buf.subrange(0, k)) == Ok::<Option<(MessageView, int)>, ParseErrorView>(
            None,
        ),
{
    let crlf2 = seq![13u8, 10u8, 13u8, 10u8];
    let lf2 = seq![10u8, 10u8];
    let p = buf.subrange(0, k);
    let (he, sl) = header_block_end(buf)->0;
    if find(buf, crlf2) is Some {
        lemma_find_some(buf, crlf2, 0);
    } else {
        lemma_find_some(buf, lf2, 0);
    }
    assert(0 <= he && he + sl <= n <= buf.len());
    lemma_find_prefix(buf, crlf2, k);
    lemma_find_prefix(buf, lf2, k);
    if find(buf, crlf2) is Some {
        lemma_find_prefix(buf, lf2, n);
        assert(n <= buf.len());
        assert(buf.subrange(0, n).subrange(0, k) =~= p);
        lemma_find_prefix(buf.subrange(0, n), lf2, k);
    }
    if k >= he + sl {
        assert(header_block_end(p) == Some((he, sl)));
        assert(p.subrange(0, he) =~= buf.subrange(0, he));
    } else {
        assert(header_block_end(p) is None);
    }
}

/// Bytes after a complete message change neither the message read nor the
/// number of bytes it takes, as long as the whole stays within
/// `MAX_MESSAGE_SIZE`. This holds where the added bytes cannot end the header
/// section elsewhere: the message is framed by CR LF CR LF, or the added bytes
/// bring no CR LF CR LF either.
pub proof fn law_extra_bytes_kept(buf: Seq<u8>, m: MessageView, n: int, extra: Seq<u8>)
    requires
        try_parse_spec(buf) == Ok::<Option<(MessageView, int)>, ParseErrorView>(Some((m, n))),
        buf.len() + extra.len() <= MAX_MESSAGE_SIZE,
        find(buf, seq![13u8, 10u8, 13u8, 10u8]) is Some || find(
            buf + extra,
            seq![13u8, 10u8, 13u8, 10u8],
        ) is None,
    ensures
        try_parse_spec(buf + extra) == Ok::<Option<(MessageView, int)>, ParseErrorView>(
            Some((m, n)),
        ),
{
    let crlf2 = seq![13u8, 10u8, 13u8, 10u8];
    let lf2 = seq![10u8, 10u8];
    let b = buf + extra;
    let (he, sl) = header_block_end(buf)->0;
    if find(buf, crlf2) is Some {
        lemma_find_some(buf, crlf2, 0);
    } else {
        lemma_find_some(buf, lf2, 0);
    }
    assert(0 <= he && he + sl <= n <= buf.len());
    if find(buf, crlf2) is Some {
        lemma_find_extend(buf, extra, crlf2);
    } else {
        lemma_find_extend(buf, extra, lf2);
    }
    assert(header_block_end(b) == Some((he, sl)));
    assert(b.subrange(0, he) =~= buf.subrange(0, he));
    assert(b.subrange(0, n) =~= buf.subrange(0, n));
}

} // verus!
