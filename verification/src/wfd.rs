//! Wi-Fi Display parameters exchanged in RTSP bodies (M3/M4).

use vstd::prelude::*;

use crate::chars::{str_chars, string_from_chars};
use crate::text::{
    is_ws, lacks, lemma_eq_ignore_case_lower, lemma_lines_single, lemma_lower_trim,
    lemma_split_once_at, lemma_trim_start_lacks, lemma_trim_start_mid, lemma_trim_start_twice,
    lower_text, trim_end, trim_start, eq_ignore_ascii_case, lines, lines_from, next_line, parse_bounded, parse_decimal,
    range_eq_ignore_ascii_case, second_word, split_once, split_once_range, trim, trim_range,
    words,
};

verus! {

/// Composite WFD parameters exchanged in M3/M4.
#[derive(Debug, Clone)]
pub struct WfdParameters {
    pub video_formats: Option<String>,
    pub audio_codecs: Option<String>,
    pub client_rtp_port: Option<u16>,
    pub content_protection: Option<String>,
    pub presentation_url: Option<String>,
    pub trigger_method: Option<String>,
}

/// WFD parameters with their texts as characters.
pub struct WfdView {
    pub video_formats: Option<Seq<char>>,
    pub audio_codecs: Option<Seq<char>>,
    pub client_rtp_port: Option<u16>,
    pub content_protection: Option<Seq<char>>,
    pub presentation_url: Option<Seq<char>>,
    pub trigger_method: Option<Seq<char>>,
}

/// An optional string as optional characters.
pub open spec fn opt_chars(s: Option<String>) -> Option<Seq<char>> {
    match s {
        Some(v) => Some(v@),
        None => None,
    }
}

impl View for WfdParameters {
    type V = WfdView;

    open spec fn view(&self) -> WfdView {
        WfdView {
            video_formats: opt_chars(self.video_formats),
            audio_codecs: opt_chars(self.audio_codecs),
            client_rtp_port: self.client_rtp_port,
            content_protection: opt_chars(self.content_protection),
            presentation_url: opt_chars(self.presentation_url),
            trigger_method: opt_chars(self.trigger_method),
        }
    }
}

/// Parameters with nothing set.
pub open spec fn no_params() -> WfdView {
    WfdView {
        video_formats: None,
        audio_codecs: None,
        client_rtp_port: None,
        content_protection: None,
        presentation_url: None,
        trigger_method: None,
    }
}

impl Default for WfdParameters {
    fn default() -> (p: Self)
        ensures
            p@ == no_params(),
    {
        WfdParameters {
            video_formats: None,
            audio_codecs: None,
            client_rtp_port: None,
            content_protection: None,
            presentation_url: None,
            trigger_method: None,
        }
    }
}

/// The RTP port in a `wfd_client_rtp_ports` value such as
/// `RTP/AVP/UDP;unicast 19000 0 mode=play`: its second word, when that is a
/// port number.
pub open spec fn rtp_port_of(value: Seq<char>) -> Option<u16> {
    let w = words(value);
    if w.len() >= 2 {
        match parse_bounded(w[1], 65535) {
            Some(p) => Some(p as u16),
            None => None,
        }
    } else {
        None
    }
}

/// One body line applied to `p`. The line is trimmed and cut at its first
/// colon; the trimmed name is compared with the parameter names without regard
/// to case (only ASCII letters can fold to these names), and the trimmed value
/// is stored. Lines without a colon and unknown names change nothing.
pub open spec fn apply_param(p: WfdView, line: Seq<char>) -> WfdView {
    match split_once(trim(line), ':') {
        None => p,
        Some((k, v)) => {
            let key = trim(k);
            let value = trim(v);
            if eq_ignore_ascii_case(key, "wfd_video_formats"@) {
                WfdView { video_formats: Some(value), ..p }
            } else if eq_ignore_ascii_case(key, "wfd_audio_codecs"@) {
                WfdView { audio_codecs: Some(value), ..p }
            } else if eq_ignore_ascii_case(key, "wfd_client_rtp_ports"@) {
                WfdView { client_rtp_port: rtp_port_of(value), ..p }
            } else if eq_ignore_ascii_case(key, "wfd_content_protection"@) {
                WfdView { content_protection: Some(value), ..p }
            } else if eq_ignore_ascii_case(key, "wfd_presentation_url"@) {
                WfdView { presentation_url: Some(value), ..p }
            } else if eq_ignore_ascii_case(key, "wfd_trigger_method"@) {
                WfdView { trigger_method: Some(value), ..p }
            } else {
                p
            }
        },
    }
}

/// Body lines applied in order.
pub open spec fn fold_params(p: WfdView, ls: Seq<Seq<char>>) -> WfdView
    decreases ls.len(),
{
    if ls.len() == 0 {
        p
    } else {
        fold_params(apply_param(p, ls[0]), ls.drop_first())
    }
}

/// The parameters that a body sets.
pub open spec fn body_params(body: Seq<char>) -> WfdView {
    fold_params(no_params(), lines(body))
}

/// The RTP port in a `wfd_client_rtp_ports` value.
fn parse_rtp_port(value: &[char]) -> (r: Option<u16>)
    ensures
        r == rtp_port_of(value@),
{
    match second_word(value) {
        Some((a, b)) => match parse_decimal(value, a, b, 65535) {
            Some(p) => Some(p as u16),
            None => None,
        },
        None => None,
    }
}

impl WfdParameters {
    /// Parse WFD parameters from an RTSP message body.
    pub fn parse_body(body: &str) -> (p: Self)
        ensures
            p@ == body_params(body@),
    {
        let text = str_chars(body);
        let hi = text.len();
        let ghost t = text@.subrange(0, hi as int);
        assert(t =~= text@);
        let names = [
            str_chars("wfd_video_formats"),
            str_chars("wfd_audio_codecs"),
            str_chars("wfd_client_rtp_ports"),
            str_chars("wfd_content_protection"),
            str_chars("wfd_presentation_url"),
            str_chars("wfd_trigger_method"),
        ];
        let mut p = WfdParameters::default();
        let mut k: usize = 0;
        while k < hi
            invariant
                k <= hi == text@.len(),
                t == text@,
                names@[0]@ == "wfd_video_formats"@,
                names@[1]@ == "wfd_audio_codecs"@,
                names@[2]@ == "wfd_client_rtp_ports"@,
                names@[3]@ == "wfd_content_protection"@,
                names@[4]@ == "wfd_presentation_url"@,
                names@[5]@ == "wfd_trigger_method"@,
                fold_params(p@, lines_from(t, k as int)) == body_params(body@),
            decreases hi - k,
        {
            assert(text@.subrange(0, hi as int) =~= t);
            let (e, next) = next_line(&text, k, hi);
            let ghost line = text@.subrange(k as int, e as int);
            let ghost rest = lines_from(t, next as int);
            let ghost before = p@;
            assert((seq![line] + rest)[0] == line);
            assert((seq![line] + rest).drop_first() =~= rest);
            let (a, b) = trim_range(&text, k, e);
            match split_once_range(&text, ':', a, b) {
                Some(j) => {
                    let (ka, kb) = trim_range(&text, a, j);
                    let (va, vb) = trim_range(&text, j + 1, b);
                    if range_eq_ignore_ascii_case(&text, ka, kb, &names[0]) {
                        p.video_formats = Some(string_from_chars(&text[va..vb]));
                    } else if range_eq_ignore_ascii_case(&text, ka, kb, &names[1]) {
                        p.audio_codecs = Some(string_from_chars(&text[va..vb]));
                    } else if range_eq_ignore_ascii_case(&text, ka, kb, &names[2]) {
                        let v = &text[va..vb];
                        p.client_rtp_port = parse_rtp_port(v);
                    } else if range_eq_ignore_ascii_case(&text, ka, kb, &names[3]) {
                        p.content_protection = Some(string_from_chars(&text[va..vb]));
                    } else if range_eq_ignore_ascii_case(&text, ka, kb, &names[4]) {
                        p.presentation_url = Some(string_from_chars(&text[va..vb]));
                    } else if range_eq_ignore_ascii_case(&text, ka, kb, &names[5]) {
                        p.trigger_method = Some(string_from_chars(&text[va..vb]));
                    }
                    assert(p@ == apply_param(before, line));
                },
                None => {},
            }
            k = next;
        }
        assert(lines_from(t, k as int) == Seq::<Seq<char>>::empty());
        p
    }
}

/// A one-line body `k:v`: its one line is applied, cut after the name.
proof fn lemma_one_line(k: Seq<char>, v: Seq<char>)
    requires
        lacks(k, ':'),
        lacks(k, '\n'),
        lacks(v, '\n'),
        v.len() == 0 || !is_ws(v.last()),
    ensures
        body_params(k + seq![':'] + v) == apply_param(no_params(), k + seq![':'] + v),
        split_once(trim(k + seq![':'] + v), ':') == Some((trim_start(k), v)),
        trim(trim_start(k)) == trim(k),
{
    let line = k + seq![':'] + v;
    assert forall|i: int| 0 <= i < line.len() implies line[i] != '\n' by {
        if i < k.len() {
            assert(line[i] == k[i]);
        } else if i > k.len() {
            assert(line[i] == v[i - k.len() - 1]);
        }
    }
    lemma_lines_single(line);
    assert(seq![line].drop_first() =~= Seq::<Seq<char>>::empty());
    assert(seq![line][0] == line);
    let applied = apply_param(no_params(), line);
    assert(fold_params(applied, Seq::<Seq<char>>::empty()) == applied);
    assert(fold_params(no_params(), seq![line]) == fold_params(
        applied,
        seq![line].drop_first(),
    ));
    assert(!is_ws(':'));
    lemma_trim_start_mid(k, ':', v);
    let ts = trim_start(k) + seq![':'] + v;
    assert(!is_ws(ts.last())) by {
        if v.len() > 0 {
            assert(ts.last() == v.last());
        } else {
            assert(ts.last() == ':');
        }
    }
    assert(trim_end(ts) == ts);
    lemma_trim_start_lacks(k, ':');
    lemma_split_once_at(trim_start(k), ':', v);
    lemma_trim_start_twice(k);
}

/// The names of the parameters are told apart: no name equals two of them up
/// to ASCII case.
proof fn lemma_names_apart(key: Seq<char>)
    ensures
        eq_ignore_ascii_case(key, "wfd_client_rtp_ports"@) ==> !eq_ignore_ascii_case(
            key,
            "wfd_presentation_url"@,
        ),
{
    reveal_strlit("wfd_client_rtp_ports");
    reveal_strlit("wfd_presentation_url");
    if eq_ignore_ascii_case(key, "wfd_client_rtp_ports"@) && eq_ignore_ascii_case(
        key,
        "wfd_presentation_url"@,
    ) {
        assert(crate::text::ascii_lower(key[4]) == crate::text::ascii_lower(
            "wfd_client_rtp_ports"@[4],
        ));
        assert(crate::text::ascii_lower(key[4]) == crate::text::ascii_lower(
            "wfd_presentation_url"@[4],
        ));
    }
}

/// A body line `name: value` sets the parameter that `name` names, whatever
/// the ASCII case of the name, to the value with surrounding white space
/// removed (the RTP port is read from that value). The name holds no colon;
/// neither part holds a line feed, and the value does not end in white space.
pub proof fn law_param_line_sets(k: Seq<char>, v: Seq<char>)
    requires
        lacks(k, ':'),
        lacks(k, '\n'),
        lacks(v, '\n'),
        v.len() == 0 || !is_ws(v.last()),
    ensures
        ({
            let p = body_params(k + seq![':'] + v);
            &&& eq_ignore_ascii_case(trim(k), "wfd_video_formats"@) ==> p.video_formats == Some(
                trim(v),
            )
            &&& eq_ignore_ascii_case(trim(k), "wfd_audio_codecs"@) ==> p.audio_codecs == Some(
                trim(v),
            )
            &&& eq_ignore_ascii_case(trim(k), "wfd_client_rtp_ports"@) ==> p.client_rtp_port
                == rtp_port_of(trim(v))
            &&& eq_ignore_ascii_case(trim(k), "wfd_content_protection"@) ==> p.content_protection
                == Some(trim(v))
            &&& eq_ignore_ascii_case(trim(k), "wfd_presentation_url"@) ==> p.presentation_url
                == Some(trim(v))
            &&& eq_ignore_ascii_case(trim(k), "wfd_trigger_method"@) ==> p.trigger_method == Some(
                trim(v),
            )
        }),
{
    reveal_strlit("wfd_video_formats");
    reveal_strlit("wfd_audio_codecs");
    reveal_strlit("wfd_client_rtp_ports");
    reveal_strlit("wfd_content_protection");
    reveal_strlit("wfd_presentation_url");
    reveal_strlit("wfd_trigger_method");
    lemma_one_line(k, v);
    lemma_names_apart(trim(k));
}

/// Two body lines whose names differ only in ASCII case set the same
/// parameters.
pub proof fn law_param_name_case(k1: Seq<char>, k2: Seq<char>, v: Seq<char>)
    requires
        lacks(k1, ':'),
        lacks(k1, '\n'),
        lacks(k2, ':'),
        lacks(k2, '\n'),
        lacks(v, '\n'),
        v.len() == 0 || !is_ws(v.last()),
        lower_text(k1) == lower_text(k2),
    ensures
        body_params(k1 + seq![':'] + v) == body_params(k2 + seq![':'] + v),
{
    lemma_one_line(k1, v);
    lemma_one_line(k2, v);
    lemma_lower_trim(k1);
    lemma_lower_trim(k2);
    let a = trim(k1);
    let b = trim(k2);
    lemma_eq_ignore_case_lower(a, b, "wfd_video_formats"@);
    lemma_eq_ignore_case_lower(a, b, "wfd_audio_codecs"@);
    lemma_eq_ignore_case_lower(a, b, "wfd_client_rtp_ports"@);
    lemma_eq_ignore_case_lower(a, b, "wfd_content_protection"@);
    lemma_eq_ignore_case_lower(a, b, "wfd_presentation_url"@);
    lemma_eq_ignore_case_lower(a, b, "wfd_trigger_method"@);
}

} // verus!
