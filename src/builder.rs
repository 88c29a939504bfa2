//! Synthetic GET requests of a few fixed shapes, for exercising the parser.
use vstd::prelude::*;
use vstd::string::StringSliceAdditionalSpecFns;

verus! {

/// The shape of a synthetic request.
#[derive(Clone, Copy, Debug, PartialEq, Eq, Structural)]
pub enum SizeClass {
    /// Three everyday headers after `Host`.
    Small,
    /// Fifty numbered custom headers after `Host`.
    Large,
    /// A thousand numbered headers with a fifty-byte value each, after `Host`.
    ExtraLarge,
    /// `Host` alone: what any unknown tag selects.
    Minimal,
}

/// The class that a tag selects: `sm`, `lg` and `xl` name one each, anything else
/// selects the minimal request.
pub open spec fn size_class_of(tag: Seq<u8>) -> SizeClass {
    if tag == seq![115u8, 109u8] {
        SizeClass::Small
    } else if tag == seq![108u8, 103u8] {
        SizeClass::Large
    } else if tag == seq![120u8, 108u8] {
        SizeClass::ExtraLarge
    } else {
        SizeClass::Minimal
    }
}

/// The decimal digits of `n`, most significant first, without leading zeros.
pub open spec fn decimal(n: nat) -> Seq<u8>
    decreases n,
{
    if n < 10 {
        seq![(48 + n) as u8]
    } else {
        decimal(n / 10).push((48 + n % 10) as u8)
    }
}

pub open spec fn crlf() -> Seq<u8> {
    "\r\n".spec_bytes()
}

/// The request line and the `Host` header that every synthetic request starts with.
pub open spec fn request_head() -> Seq<u8> {
    "GET /api/v1/users/123 HTTP/1.1\r\n".spec_bytes() + "Host: api.example.com\r\n".spec_bytes()
}

pub open spec fn small_lines() -> Seq<u8> {
    "User-Agent: Benchmark/1.0\r\n".spec_bytes() + "Accept: application/json\r\n".spec_bytes()
        + "Connection: keep-alive\r\n".spec_bytes()
}

/// `X-Custom-Header-<i>: some-value-<i>`, with its line end.
pub open spec fn custom_line(i: nat) -> Seq<u8> {
    "X-Custom-Header-".spec_bytes() + decimal(i) + ": some-value-".spec_bytes() + decimal(i)
        + crlf()
}

/// Fifty `X` bytes.
pub open spec fn filler() -> Seq<u8> {
    Seq::new(50, |k: int| 88u8)
}

/// `X-Large-Header-<i>: XXX...X`, with its line end.
pub open spec fn large_line(i: nat) -> Seq<u8> {
    "X-Large-Header-".spec_bytes() + decimal(i) + ": ".spec_bytes() + filler() + crlf()
}

/// The custom lines numbered `0 .. n`, in order.
pub open spec fn custom_lines(n: nat) -> Seq<u8>
    decreases n,
{
    if n == 0 {
        seq![]
    } else {
        custom_lines((n - 1) as nat) + custom_line((n - 1) as nat)
    }
}

/// The large lines numbered `0 .. n`, in order.
pub open spec fn large_lines(n: nat) -> Seq<u8>
    decreases n,
{
    if n == 0 {
        seq![]
    } else {
        large_lines((n - 1) as nat) + large_line((n - 1) as nat)
    }
}

/// The bytes of the synthetic request of class `c`, blank line included.
pub open spec fn request_bytes(c: SizeClass) -> Seq<u8> {
    let extra = match c {
        SizeClass::Small => small_lines(),
        SizeClass::Large => custom_lines(50),
        SizeClass::ExtraLarge => large_lines(1000),
        SizeClass::Minimal => seq![],
    };
    request_head() + extra + crlf()
}

fn push_text(out: &mut Vec<u8>, s: &str)
    ensures
        final(out)@ == old(out)@ + s.spec_bytes(),
{
    let b = s.as_bytes();
    let mut i: usize = 0;
    while i < b.len()
        invariant
            b@ == s.spec_bytes(),
            i <= b@.len(),
            out@ == old(out)@ + b@.subrange(0, i as int),
        decreases b@.len() - i,
    {
        out.push(b[i]);
        i = i + 1;
        assert(b@.subrange(0, i as int) == b@.subrange(0, i - 1 as int).push(b@[i - 1]));
    }
    assert(b@.subrange(0, i as int) == b@);
}

fn push_decimal(out: &mut Vec<u8>, n: usize)
    ensures
        final(out)@ == old(out)@ + decimal(n as nat),
    decreases n,
{
    if n >= 10 {
        push_decimal(out, n / 10);
    }
    out.push((48 + n % 10) as u8);
    assert(out@ == old(out)@ + decimal(n as nat));
}

/// The class that `tag` selects.
pub fn size_class(tag: &str) -> (c: SizeClass)
    ensures
        c == size_class_of(tag.spec_bytes()),
{
    let b = tag.as_bytes();
    if b.len() == 2 && b[0] == 115 && b[1] == 109 {
        assert(b@ == seq![115u8, 109u8]);
        SizeClass::Small
    } else if b.len() == 2 && b[0] == 108 && b[1] == 103 {
        assert(b@ == seq![108u8, 103u8]);
        SizeClass::Large
    } else if b.len() == 2 && b[0] == 120 && b[1] == 108 {
        assert(b@ == seq![120u8, 108u8]);
        SizeClass::ExtraLarge
    } else {
        SizeClass::Minimal
    }
}

/// The bytes of the synthetic request of class `c`.
pub fn build_request(c: SizeClass) -> (r: Vec<u8>)
    ensures
        r@ == request_bytes(c),
{
    let mut out: Vec<u8> = Vec::new();
    push_text(&mut out, "GET /api/v1/users/123 HTTP/1.1\r\n");
    push_text(&mut out, "Host: api.example.com\r\n");
    let ghost head = out@;
    match c {
        SizeClass::Small => {
            push_text(&mut out, "User-Agent: Benchmark/1.0\r\n");
            push_text(&mut out, "Accept: application/json\r\n");
            push_text(&mut out, "Connection: keep-alive\r\n");
        },
        SizeClass::Large => {
            let mut i: usize = 0;
            while i < 50
                invariant
                    i <= 50,
                    out@ == head + custom_lines(i as nat),
                decreases 50 - i,
            {
                push_text(&mut out, "X-Custom-Header-");
                push_decimal(&mut out, i);
                push_text(&mut out, ": some-value-");
                push_decimal(&mut out, i);
                push_text(&mut out, "\r\n");
                i = i + 1;
            }
        },
        SizeClass::ExtraLarge => {
            let mut i: usize = 0;
            while i < 1000
                invariant
                    i <= 1000,
                    out@ == head + large_lines(i as nat),
                decreases 1000 - i,
            {
                push_text(&mut out, "X-Large-Header-");
                push_decimal(&mut out, i);
                push_text(&mut out, ": ");
                let mut k: usize = 0;
                let ghost before = out@;
                while k < 50
                    invariant
                        k <= 50,
                        out@ == before + Seq::new(k as nat, |j: int| 88u8),
                    decreases 50 - k,
                {
                    out.push(88);
                    k = k + 1;
                }
                push_text(&mut out, "\r\n");
                i = i + 1;
            }
        },
        SizeClass::Minimal => {},
    }
    push_text(&mut out, "\r\n");
    out
}

/// The synthetic request that `size` selects (`sm`, `lg`, `xl`; anything else gives
/// the minimal one).
pub fn generate_request(size: &str) -> (r: Vec<u8>)
    ensures
        r@ == request_bytes(size_class_of(size.spec_bytes())),
{
    build_request(size_class(size))
}

} // verus!
