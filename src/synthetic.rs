//! Proofs that every synthetic request parses completely, with the headers that
//! its class prescribes.
use vstd::prelude::*;
use vstd::string::StringSliceAdditionalSpecFns;
use crate::builder::{
    SizeClass, crlf, custom_line, custom_lines, decimal, filler, large_line, large_lines,
    request_bytes, request_head,
};
use crate::grammar::{
    CR, LF, SP, COLON, is_digit, is_tchar, is_ws, all_tchar, all_vchar, none_is, lemma_find_is,
    lemma_skip_ws_is, lemma_trim_end_is,
};
use crate::parser::{
    Header, Outcome, RequestLine, Span, header_bytes, headers_from, is_version, request_outcome,
};

verus! {

/// The wire form of one header line: `name`, a colon and a space, `value`, CR LF.
pub open spec fn header_line(name: Seq<u8>, value: Seq<u8>) -> Seq<u8> {
    name + seq![COLON, SP] + value + seq![CR, LF]
}

/// A name and a value that a header line can carry as they are.
pub open spec fn is_plain_header(name: Seq<u8>, value: Seq<u8>) -> bool {
    &&& name.len() > 0
    &&& forall|k: int| 0 <= k < name.len() ==> #[trigger] is_tchar(name[k])
    &&& forall|k: int| 0 <= k < value.len() ==> #[trigger] value[k] != CR && value[k] != LF
    &&& value.len() > 0 ==> !is_ws(value[0]) && !is_ws(value[value.len() - 1])
}

/// The header that `header_line(name, value)` yields when it starts at `p`.
pub open spec fn header_at(p: int, name: Seq<u8>, value: Seq<u8>) -> Header {
    Header {
        name: Span { start: p as usize, len: name.len() as usize },
        value: Span { start: (p + name.len() + 2) as usize, len: value.len() as usize },
    }
}

proof fn lemma_header_line_step(
    b: Seq<u8>,
    max: nat,
    line: RequestLine,
    acc: Seq<Header>,
    p: int,
    name: Seq<u8>,
    value: Seq<u8>,
)
    requires
        0 <= p,
        p + header_line(name, value).len() <= b.len(),
        b.subrange(p, p + header_line(name, value).len()) == header_line(name, value),
        is_plain_header(name, value),
        acc.len() < max,
    ensures
        headers_from(b, max, line, acc, p) == headers_from(
            b,
            max,
            line,
            acc.push(header_at(p, name, value)),
            p + header_line(name, value).len(),
        ),
{
    let l = header_line(name, value);
    let c = p + name.len();
    let e = c + 2 + value.len();
    assert(l.len() == e + 2 - p);
    assert forall|k: int| p <= k < c implies b[k] == name[k - p] by {
        assert(b[k] == l[k - p]);
    }
    assert(b[c] == COLON) by { assert(b[c] == l[c - p]); }
    assert(b[c + 1] == SP) by { assert(b[c + 1] == l[c + 1 - p]); }
    assert forall|k: int| c + 2 <= k < e implies b[k] == value[k - c - 2] by {
        assert(b[k] == l[k - p]);
    }
    assert(b[e] == CR) by { assert(b[e] == l[e - p]); }
    assert(b[e + 1] == LF) by { assert(b[e + 1] == l[e + 1 - p]); }
    assert(is_tchar(b[p]));
    assert forall|k: int| p <= k < c implies #[trigger] is_tchar(b[k]) by {
        assert(is_tchar(name[k - p]));
    }
    assert(none_is(b, LF, p, e + 1)) by {
        assert forall|k: int| p <= k < e + 1 implies b[k] != LF by {
            if k < c {
                assert(is_tchar(b[k]));
            } else if k >= c + 2 && k < e {
                assert(value[k - c - 2] != LF);
            }
        }
    }
    lemma_find_is(b, LF, p, b.len() as int, e + 1);
    assert(none_is(b, COLON, p, c)) by {
        assert forall|k: int| p <= k < c implies b[k] != COLON by {
            assert(is_tchar(b[k]));
        }
    }
    lemma_find_is(b, COLON, p, e, c);
    assert(none_is(b, CR, c + 1, e)) by {
        assert forall|k: int| c + 1 <= k < e implies b[k] != CR by {
            if k >= c + 2 {
                assert(value[k - c - 2] != CR);
            }
        }
    }
    lemma_skip_ws_is(b, c + 1, e, c + 2);
    lemma_trim_end_is(b, c + 2, e, e);
}

/// The request line that every synthetic request starts with, as parsed.
pub open spec fn synthetic_line() -> RequestLine {
    RequestLine {
        method: Span { start: 0, len: 3 },
        target: Span { start: 4, len: 17 },
        major: 1,
        minor: 1,
    }
}

proof fn lemma_ascii_bytes(s: &str)
    requires
        vstd::string::is_ascii(s),
    ensures
        s.spec_bytes() == Seq::new(s@.len(), |i: int| s@[i] as u8),
{
    vstd::string::is_ascii_spec_bytes(s);
}

proof fn lemma_request_line_start(b: Seq<u8>, max: nat)
    requires
        32 <= b.len(),
        b.subrange(0, 32) == "GET /api/v1/users/123 HTTP/1.1\r\n".spec_bytes(),
    ensures
        request_outcome(b, max) == headers_from(b, max, synthetic_line(), seq![], 32),
{
    let t = "GET /api/v1/users/123 HTTP/1.1\r\n";
    reveal_strlit("GET /api/v1/users/123 HTTP/1.1\r\n");
    lemma_ascii_bytes(t);
    assert forall|k: int| 0 <= k < 32 implies b[k] == t@[k] as u8 by {
        assert(b[k] == b.subrange(0, 32)[k]);
    }
    assert(none_is(b, LF, 0, 31));
    lemma_find_is(b, LF, 0, b.len() as int, 31);
    assert(none_is(b, SP, 0, 3));
    lemma_find_is(b, SP, 0, 30, 3);
    assert(none_is(b, SP, 4, 21));
    lemma_find_is(b, SP, 4, 30, 21);
    assert(all_tchar(b, 0, 3));
    assert(all_vchar(b, 4, 21));
    assert(is_version(b, 22));
}

proof fn lemma_literal_header(line: &str, name: &str, value: &str)
    requires
        vstd::string::is_ascii(line),
        vstd::string::is_ascii(name),
        vstd::string::is_ascii(value),
        line@ == name@ + seq![':', ' '] + value@ + seq!['\r', '\n'],
    ensures
        line.spec_bytes() == header_line(name.spec_bytes(), value.spec_bytes()),
{
    lemma_ascii_bytes(line);
    lemma_ascii_bytes(name);
    lemma_ascii_bytes(value);
    assert(line.spec_bytes() =~= header_line(name.spec_bytes(), value.spec_bytes()));
}

proof fn lemma_host_line()
    ensures
        "Host: api.example.com\r\n".spec_bytes() == header_line(
            "Host".spec_bytes(),
            "api.example.com".spec_bytes(),
        ),
        is_plain_header("Host".spec_bytes(), "api.example.com".spec_bytes()),
        "Host".spec_bytes().len() == 4,
        "api.example.com".spec_bytes().len() == 15,
{
    reveal_strlit("Host: api.example.com\r\n");
    reveal_strlit("Host");
    reveal_strlit("api.example.com");
    assert("Host: api.example.com\r\n"@ =~= "Host"@ + seq![':', ' '] + "api.example.com"@ + seq![
        '\r',
        '\n',
    ]);
    lemma_literal_header("Host: api.example.com\r\n", "Host", "api.example.com");
    lemma_ascii_bytes("Host");
    lemma_ascii_bytes("api.example.com");
}

proof fn lemma_user_agent_line()
    ensures
        "User-Agent: Benchmark/1.0\r\n".spec_bytes() == header_line("User-Agent".spec_bytes(), "Benchmark/1.0".spec_bytes()),
        is_plain_header("User-Agent".spec_bytes(), "Benchmark/1.0".spec_bytes()),
        "User-Agent".spec_bytes().len() == 10,
        "Benchmark/1.0".spec_bytes().len() == 13,
{
    reveal_strlit("User-Agent: Benchmark/1.0\r\n");
    reveal_strlit("User-Agent");
    reveal_strlit("Benchmark/1.0");
    assert("User-Agent: Benchmark/1.0\r\n"@ =~= "User-Agent"@ + seq![':', ' '] + "Benchmark/1.0"@ + seq!['\r', '\n']);
    lemma_literal_header("User-Agent: Benchmark/1.0\r\n", "User-Agent", "Benchmark/1.0");
    lemma_ascii_bytes("User-Agent");
    lemma_ascii_bytes("Benchmark/1.0");
}

proof fn lemma_accept_line()
    ensures
        "Accept: application/json\r\n".spec_bytes() == header_line("Accept".spec_bytes(), "application/json".spec_bytes()),
        is_plain_header("Accept".spec_bytes(), "application/json".spec_bytes()),
        "Accept".spec_bytes().len() == 6,
        "application/json".spec_bytes().len() == 16,
{
    reveal_strlit("Accept: application/json\r\n");
    reveal_strlit("Accept");
    reveal_strlit("application/json");
    assert("Accept: application/json\r\n"@ =~= "Accept"@ + seq![':', ' '] + "application/json"@ + seq!['\r', '\n']);
    lemma_literal_header("Accept: application/json\r\n", "Accept", "application/json");
    lemma_ascii_bytes("Accept");
    lemma_ascii_bytes("application/json");
}

proof fn lemma_connection_line()
    ensures
        "Connection: keep-alive\r\n".spec_bytes() == header_line("Connection".spec_bytes(), "keep-alive".spec_bytes()),
        is_plain_header("Connection".spec_bytes(), "keep-alive".spec_bytes()),
        "Connection".spec_bytes().len() == 10,
        "keep-alive".spec_bytes().len() == 10,
{
    reveal_strlit("Connection: keep-alive\r\n");
    reveal_strlit("Connection");
    reveal_strlit("keep-alive");
    assert("Connection: keep-alive\r\n"@ =~= "Connection"@ + seq![':', ' '] + "keep-alive"@ + seq!['\r', '\n']);
    lemma_literal_header("Connection: keep-alive\r\n", "Connection", "keep-alive");
    lemma_ascii_bytes("Connection");
    lemma_ascii_bytes("keep-alive");
}

proof fn lemma_crlf()
    ensures
        crlf() == seq![CR, LF],
{
    reveal_strlit("\r\n");
    lemma_ascii_bytes("\r\n");
    assert(crlf() =~= seq![CR, LF]);
}

proof fn lemma_request_line_bytes()
    ensures
        "GET /api/v1/users/123 HTTP/1.1\r\n".spec_bytes().len() == 32,
{
    reveal_strlit("GET /api/v1/users/123 HTTP/1.1\r\n");
    lemma_ascii_bytes("GET /api/v1/users/123 HTTP/1.1\r\n");
}

proof fn lemma_small_layout()
    ensures
        ({
            let b = request_bytes(SizeClass::Small);
            let a = "GET /api/v1/users/123 HTTP/1.1\r\n".spec_bytes();
            let h = "Host: api.example.com\r\n".spec_bytes();
            let u = "User-Agent: Benchmark/1.0\r\n".spec_bytes();
            let ac = "Accept: application/json\r\n".spec_bytes();
            let co = "Connection: keep-alive\r\n".spec_bytes();
            let at_agent = (a.len() + h.len()) as int;
            let at_accept = at_agent + u.len();
            let at_connection = at_accept + ac.len();
            let at_blank = at_connection + co.len();
            &&& b.len() == at_blank + 2
            &&& b.subrange(0, a.len() as int) == a
            &&& b.subrange(a.len() as int, at_agent) == h
            &&& b.subrange(at_agent, at_accept) == u
            &&& b.subrange(at_accept, at_connection) == ac
            &&& b.subrange(at_connection, at_blank) == co
            &&& b[at_blank] == CR
            &&& b[at_blank + 1] == LF
        }),
{
    let b = request_bytes(SizeClass::Small);
    let a = "GET /api/v1/users/123 HTTP/1.1\r\n".spec_bytes();
    let h = "Host: api.example.com\r\n".spec_bytes();
    let u = "User-Agent: Benchmark/1.0\r\n".spec_bytes();
    let ac = "Accept: application/json\r\n".spec_bytes();
    let co = "Connection: keep-alive\r\n".spec_bytes();
    lemma_crlf();
    let at_agent = (a.len() + h.len()) as int;
    let at_accept = at_agent + u.len();
    let at_connection = at_accept + ac.len();
    let at_blank = at_connection + co.len();
    assert(b.subrange(0, a.len() as int) =~= a);
    assert(b.subrange(a.len() as int, at_agent) =~= h);
    assert(b.subrange(at_agent, at_accept) =~= u);
    assert(b.subrange(at_accept, at_connection) =~= ac);
    assert(b.subrange(at_connection, at_blank) =~= co);
}

proof fn lemma_small_parses(max: nat)
    requires
        4 <= max,
    ensures
        request_outcome(request_bytes(SizeClass::Small), max) is Complete,
        request_outcome(request_bytes(SizeClass::Small), max)->Complete_1.len() == 4,
        request_outcome(request_bytes(SizeClass::Small), max)->Complete_2 == request_bytes(
            SizeClass::Small,
        ).len(),
        header_bytes(request_outcome(request_bytes(SizeClass::Small), max)->Complete_1) == 84,
{
    let a = "GET /api/v1/users/123 HTTP/1.1\r\n".spec_bytes();
    let h = "Host: api.example.com\r\n".spec_bytes();
    let u = "User-Agent: Benchmark/1.0\r\n".spec_bytes();
    let ac = "Accept: application/json\r\n".spec_bytes();
    let co = "Connection: keep-alive\r\n".spec_bytes();
    let b = request_bytes(SizeClass::Small);
    lemma_request_line_bytes();
    lemma_host_line();
    lemma_user_agent_line();
    lemma_accept_line();
    lemma_connection_line();
    lemma_small_layout();
    let line = synthetic_line();
    let at_host = 32int;
    let at_agent = at_host + h.len();
    let at_accept = at_agent + u.len();
    let at_connection = at_accept + ac.len();
    let at_blank = at_connection + co.len();
    lemma_request_line_start(b, max);
    let s1 = seq![].push(header_at(at_host, "Host".spec_bytes(), "api.example.com".spec_bytes()));
    lemma_header_line_step(b, max, line, seq![], at_host, "Host".spec_bytes(), "api.example.com".spec_bytes());
    let s2 = s1.push(header_at(at_agent, "User-Agent".spec_bytes(), "Benchmark/1.0".spec_bytes()));
    lemma_header_line_step(b, max, line, s1, at_agent, "User-Agent".spec_bytes(), "Benchmark/1.0".spec_bytes());
    let s3 = s2.push(header_at(at_accept, "Accept".spec_bytes(), "application/json".spec_bytes()));
    lemma_header_line_step(b, max, line, s2, at_accept, "Accept".spec_bytes(), "application/json".spec_bytes());
    let s4 = s3.push(header_at(at_connection, "Connection".spec_bytes(), "keep-alive".spec_bytes()));
    lemma_header_line_step(b, max, line, s3, at_connection, "Connection".spec_bytes(), "keep-alive".spec_bytes());
    assert(headers_from(b, max, line, s4, at_blank) == Outcome::Complete(line, s4, at_blank + 2));
    lemma_header_bytes_four(s4);
}

proof fn lemma_header_bytes_four(hs: Seq<Header>)
    requires
        hs.len() == 4,
    ensures
        header_bytes(hs) == hs[0].name.len + hs[0].value.len + hs[1].name.len + hs[1].value.len
            + hs[2].name.len + hs[2].value.len + hs[3].name.len + hs[3].value.len,
{
    let h3 = hs.drop_last();
    let h2 = h3.drop_last();
    let h1 = h2.drop_last();
    assert(header_bytes(h1.drop_last()) == 0);
    assert(h1.last() == hs[0] && h2.last() == hs[1] && h3.last() == hs[2] && hs.last() == hs[3]);
    assert(header_bytes(h1) == hs[0].name.len + hs[0].value.len);
    assert(header_bytes(h2) == header_bytes(h1) + hs[1].name.len + hs[1].value.len);
    assert(header_bytes(h3) == header_bytes(h2) + hs[2].name.len + hs[2].value.len);
    assert(header_bytes(hs) == header_bytes(h3) + hs[3].name.len + hs[3].value.len);
}

proof fn lemma_decimal_digits(n: nat)
    ensures
        decimal(n).len() >= 1,
        forall|k: int| 0 <= k < decimal(n).len() ==> is_digit(#[trigger] decimal(n)[k]),
    decreases n,
{
    if n >= 10 {
        lemma_decimal_digits(n / 10);
    }
}

proof fn lemma_separator()
    ensures
        ": ".spec_bytes() == seq![COLON, SP],
{
    reveal_strlit(": ");
    lemma_ascii_bytes(": ");
    assert(": ".spec_bytes() =~= seq![COLON, SP]);
}

proof fn lemma_head_bytes()
    ensures
        request_head().len() == 55,
        request_head().subrange(0, 32) == "GET /api/v1/users/123 HTTP/1.1\r\n".spec_bytes(),
        request_head().subrange(32, 55) == "Host: api.example.com\r\n".spec_bytes(),
{
    lemma_request_line_bytes();
    lemma_host_line();
    reveal_strlit("Host");
    reveal_strlit("api.example.com");
    lemma_ascii_bytes("Host");
    lemma_ascii_bytes("api.example.com");
    assert(request_head().subrange(0, 32) =~= "GET /api/v1/users/123 HTTP/1.1\r\n".spec_bytes());
    assert(request_head().subrange(32, 55) =~= "Host: api.example.com\r\n".spec_bytes());
}

/// The host header that every synthetic request carries, as parsed.
proof fn lemma_head_parses(b: Seq<u8>, max: nat)
    requires
        55 <= b.len(),
        b.subrange(0, 55) == request_head(),
        1 <= max,
    ensures
        request_outcome(b, max) == headers_from(
            b,
            max,
            synthetic_line(),
            seq![].push(header_at(32, "Host".spec_bytes(), "api.example.com".spec_bytes())),
            55,
        ),
{
    lemma_head_bytes();
    lemma_host_line();
    assert(b.subrange(0, 32) =~= request_head().subrange(0, 32));
    lemma_request_line_start(b, max);
    assert(b.subrange(32, 55) =~= request_head().subrange(32, 55));
    lemma_header_line_step(
        b,
        max,
        synthetic_line(),
        seq![],
        32,
        "Host".spec_bytes(),
        "api.example.com".spec_bytes(),
    );
}

pub open spec fn custom_name(i: nat) -> Seq<u8> {
    "X-Custom-Header-".spec_bytes() + decimal(i)
}

pub open spec fn custom_value(i: nat) -> Seq<u8> {
    "some-value-".spec_bytes() + decimal(i)
}

proof fn lemma_custom_line(i: nat)
    ensures
        custom_line(i) == header_line(custom_name(i), custom_value(i)),
        is_plain_header(custom_name(i), custom_value(i)),
{
    lemma_separator();
    lemma_crlf();
    lemma_decimal_digits(i);
    reveal_strlit("X-Custom-Header-");
    lemma_ascii_bytes("X-Custom-Header-");
    reveal_strlit("some-value-");
    lemma_ascii_bytes("some-value-");
    reveal_strlit(": some-value-");
    lemma_ascii_bytes(": some-value-");
    assert(": some-value-".spec_bytes() =~= seq![COLON, SP] + "some-value-".spec_bytes());
    let v = custom_value(i);
    assert(v[v.len() - 1] == decimal(i)[decimal(i).len() - 1]);
    assert forall|k: int| 0 <= k < v.len() implies #[trigger] v[k] != CR && v[k] != LF by {
        if k >= 11 {
            assert(is_digit(decimal(i)[k - 11]));
        }
    }
    assert(custom_line(i) =~= header_line(custom_name(i), custom_value(i)));
    let n = custom_name(i);
    assert forall|k: int| 0 <= k < n.len() implies #[trigger] is_tchar(n[k]) by {
        if k >= "X-Custom-Header-".spec_bytes().len() {
            assert(is_digit(decimal(i)[k - "X-Custom-Header-".spec_bytes().len()]));
        }
    }
}

proof fn lemma_custom_prefix(i: nat, n: nat)
    requires
        i <= n,
    ensures
        custom_lines(i).len() <= custom_lines(n).len(),
        custom_lines(n).subrange(0, custom_lines(i).len() as int) == custom_lines(i),
    decreases n,
{
    if i < n {
        lemma_custom_prefix(i, (n - 1) as nat);
        assert(custom_lines(n) == custom_lines((n - 1) as nat) + custom_line((n - 1) as nat));
        assert(custom_lines(n).subrange(0, custom_lines(i).len() as int) =~= custom_lines(i));
    } else {
        assert(custom_lines(n).subrange(0, custom_lines(i).len() as int) =~= custom_lines(i));
    }
}

proof fn lemma_custom_steps(b: Seq<u8>, max: nat, acc: Seq<Header>, i: nat)
    requires
        b == request_head() + custom_lines(50) + crlf(),
        i <= 50,
        acc.len() == 1 + i,
        1 + 50 <= max,
    ensures
        headers_from(b, max, synthetic_line(), acc, 55 + custom_lines(i).len() as int) is Complete,
        headers_from(b, max, synthetic_line(), acc, 55 + custom_lines(i).len() as int)->Complete_1.len()
            == 1 + 50,
        headers_from(b, max, synthetic_line(), acc, 55 + custom_lines(i).len() as int)->Complete_2
            == b.len(),
    decreases 50 - i,
{
    lemma_head_bytes();
    lemma_crlf();
    let p = 55 + custom_lines(i).len() as int;
    let all = custom_lines(50);
    if i == 50 {
        assert(b[p] == CR && b[p + 1] == LF);
    } else {
        lemma_custom_prefix(i + 1, 50);
        lemma_custom_line(i);
        let l = custom_line(i);
        assert(custom_lines(i + 1) == custom_lines(i) + l);
        assert forall|k: int| 0 <= k < l.len() implies b.subrange(p, p + l.len() as int)[k] == l[k] by {
            assert(b[p + k] == all[custom_lines(i).len() + k]);
            assert(all[custom_lines(i).len() + k] == custom_lines(i + 1)[custom_lines(i).len() + k]);
        }
        assert(b.subrange(p, p + l.len() as int) =~= l);
        lemma_header_line_step(b, max, synthetic_line(), acc, p, custom_name(i), custom_value(i));
        lemma_custom_steps(b, max, acc.push(header_at(p, custom_name(i), custom_value(i))), i + 1);
    }
}

pub open spec fn large_name(i: nat) -> Seq<u8> {
    "X-Large-Header-".spec_bytes() + decimal(i)
}

pub open spec fn large_value(i: nat) -> Seq<u8> {
    filler()
}

proof fn lemma_large_line(i: nat)
    ensures
        large_line(i) == header_line(large_name(i), large_value(i)),
        is_plain_header(large_name(i), large_value(i)),
{
    lemma_separator();
    lemma_crlf();
    lemma_decimal_digits(i);
    reveal_strlit("X-Large-Header-");
    lemma_ascii_bytes("X-Large-Header-");

    assert(large_line(i) =~= header_line(large_name(i), large_value(i)));
    let n = large_name(i);
    assert forall|k: int| 0 <= k < n.len() implies #[trigger] is_tchar(n[k]) by {
        if k >= "X-Large-Header-".spec_bytes().len() {
            assert(is_digit(decimal(i)[k - "X-Large-Header-".spec_bytes().len()]));
        }
    }
}

proof fn lemma_large_prefix(i: nat, n: nat)
    requires
        i <= n,
    ensures
        large_lines(i).len() <= large_lines(n).len(),
        large_lines(n).subrange(0, large_lines(i).len() as int) == large_lines(i),
    decreases n,
{
    if i < n {
        lemma_large_prefix(i, (n - 1) as nat);
        assert(large_lines(n) == large_lines((n - 1) as nat) + large_line((n - 1) as nat));
        assert(large_lines(n).subrange(0, large_lines(i).len() as int) =~= large_lines(i));
    } else {
        assert(large_lines(n).subrange(0, large_lines(i).len() as int) =~= large_lines(i));
    }
}

proof fn lemma_large_steps(b: Seq<u8>, max: nat, acc: Seq<Header>, i: nat)
    requires
        b == request_head() + large_lines(1000) + crlf(),
        i <= 1000,
        acc.len() == 1 + i,
        1 + 1000 <= max,
    ensures
        headers_from(b, max, synthetic_line(), acc, 55 + large_lines(i).len() as int) is Complete,
        headers_from(b, max, synthetic_line(), acc, 55 + large_lines(i).len() as int)->Complete_1.len()
            == 1 + 1000,
        headers_from(b, max, synthetic_line(), acc, 55 + large_lines(i).len() as int)->Complete_2
            == b.len(),
    decreases 1000 - i,
{
    lemma_head_bytes();
    lemma_crlf();
    let p = 55 + large_lines(i).len() as int;
    let all = large_lines(1000);
    if i == 1000 {
        assert(b[p] == CR && b[p + 1] == LF);
    } else {
        lemma_large_prefix(i + 1, 1000);
        lemma_large_line(i);
        let l = large_line(i);
        assert(large_lines(i + 1) == large_lines(i) + l);
        assert forall|k: int| 0 <= k < l.len() implies b.subrange(p, p + l.len() as int)[k] == l[k] by {
            assert(b[p + k] == all[large_lines(i).len() + k]);
            assert(all[large_lines(i).len() + k] == large_lines(i + 1)[large_lines(i).len() + k]);
        }
        assert(b.subrange(p, p + l.len() as int) =~= l);
        lemma_header_line_step(b, max, synthetic_line(), acc, p, large_name(i), large_value(i));
        lemma_large_steps(b, max, acc.push(header_at(p, large_name(i), large_value(i))), i + 1);
    }
}

/// How many headers the synthetic request of class `c` carries: the host header
/// and the three, fifty or thousand that its class adds (none for the minimal one).
pub open spec fn synthetic_header_count(c: SizeClass) -> nat {
    match c {
        SizeClass::Small => 4,
        SizeClass::Large => 51,
        SizeClass::ExtraLarge => 1001,
        SizeClass::Minimal => 1,
    }
}

/// Every synthetic request, parsed with room for at least its headers, is a
/// complete head with exactly the headers that its class prescribes, and the
/// parse consumes the whole buffer.
pub proof fn lemma_synthetic_requests_parse(c: SizeClass, max: nat)
    requires
        synthetic_header_count(c) <= max,
    ensures
        request_outcome(request_bytes(c), max) is Complete,
        request_outcome(request_bytes(c), max)->Complete_1.len() == synthetic_header_count(c),
        request_outcome(request_bytes(c), max)->Complete_2 == request_bytes(c).len(),
{
    let b = request_bytes(c);
    let host = seq![].push(header_at(32, "Host".spec_bytes(), "api.example.com".spec_bytes()));
    lemma_head_bytes();
    lemma_crlf();
    match c {
        SizeClass::Small => {
            lemma_small_parses(max);
        },
        SizeClass::Large => {
            assert(b.subrange(0, 55) =~= request_head());
            lemma_head_parses(b, max);
            lemma_custom_steps(b, max, host, 0);
        },
        SizeClass::ExtraLarge => {
            assert(b.subrange(0, 55) =~= request_head());
            lemma_head_parses(b, max);
            lemma_large_steps(b, max, host, 0);
        },
        SizeClass::Minimal => {
            assert(b.subrange(0, 55) =~= request_head());
            lemma_head_parses(b, max);
            assert(b[55] == CR && b[56] == LF);
        },
    }
}

/// The small synthetic request, parsed with room for its headers, has header
/// names and values of 84 bytes in all.
pub proof fn lemma_small_header_total(max: nat)
    requires
        4 <= max,
    ensures
        request_outcome(request_bytes(SizeClass::Small), max) is Complete,
        header_bytes(request_outcome(request_bytes(SizeClass::Small), max)->Complete_1) == 84,
{
    lemma_small_parses(max);
}

} // verus!
