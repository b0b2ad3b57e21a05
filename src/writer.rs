use vstd::prelude::*;
use vstd::string::StrSliceExecFns;
use vstd::utf8::encode_utf8;
use crate::context::{code_of, Response};
use vstd::utf8::{char_u32_cast, encode_scalar, is_ascii_chars_encode_utf8};

verus! {

/// The decimal digits of `n`, in ASCII, most significant first.
pub open spec fn digits(n: nat) -> Seq<u8>
    decreases n,
{
    if n < 10 {
        seq![(48 + n) as u8]
    } else {
        digits(n / 10).push((48 + n % 10) as u8)
    }
}

/// The `Content-Type` line for a MIME type; none for an empty one.
pub open spec fn content_type_line(mime: Seq<char>) -> Seq<u8> {
    if mime.len() > 0 {
        encode_utf8("Content-Type: "@) + encode_utf8(mime) + encode_utf8("\r\n"@)
    } else {
        Seq::empty()
    }
}

/// The bytes that a response is sent as: status line, `Content-Length`,
/// `Content-Type` where the type is not empty, a blank line, the body.
pub open spec fn wire_bytes(r: Response) -> Seq<u8> {
    encode_utf8("HTTP/1.1 "@) + digits(code_of(r.http_type) as nat) + encode_utf8(" "@)
        + encode_utf8(r.text@) + encode_utf8("\r\n"@) + encode_utf8("Content-Length: "@) + digits(
        r.data@.len(),
    ) + encode_utf8("\r\n"@) + content_type_line(r.mime@) + encode_utf8("\r\n"@) + r.data@
}

/// Appends the UTF-8 bytes of `s`.
fn push_text(out: &mut Vec<u8>, s: &str)
    ensures
        final(out)@ == old(out)@ + encode_utf8(s@),
{
    let mut b = s.as_bytes_vec();
    out.append(&mut b);
}

/// The decimal digits of `n`, in ASCII.
pub fn decimal(n: u64) -> (r: Vec<u8>)
    ensures
        r@ == digits(n as nat),
    decreases n,
{
    if n < 10 {
        let d = (48 + n) as u8;
        vec![d]
    } else {
        let mut v = decimal(n / 10);
        let d = (48 + n % 10) as u8;
        v.push(d);
        v
    }
}

/// The bytes that `response` is sent as.
pub fn response_bytes(response: &Response) -> (r: Vec<u8>)
    ensures
        r@ == wire_bytes(*response),
{
    proof {
        reveal_strlit("HTTP/1.1 ");
        reveal_strlit(" ");
        reveal_strlit("\r\n");
        reveal_strlit("Content-Length: ");
        reveal_strlit("Content-Type: ");
    }
    let mut out: Vec<u8> = Vec::new();
    push_text(&mut out, "HTTP/1.1 ");
    let mut code = decimal(response.http_type.code() as u64);
    out.append(&mut code);
    push_text(&mut out, " ");
    push_text(&mut out, response.text.as_str());
    push_text(&mut out, "\r\n");
    push_text(&mut out, "Content-Length: ");
    let mut len = decimal(response.data.len() as u64);
    out.append(&mut len);
    push_text(&mut out, "\r\n");
    let ghost before_type = out@;
    if response.mime.as_str().unicode_len() > 0 {
        push_text(&mut out, "Content-Type: ");
        push_text(&mut out, response.mime.as_str());
        push_text(&mut out, "\r\n");
    }
    assert(out@ =~= before_type + content_type_line(response.mime@));
    push_text(&mut out, "\r\n");
    let mut body = response.data.clone();
    out.append(&mut body);
    out
}

/// Whether a byte is an ASCII decimal digit.
pub open spec fn is_digit_byte(b: u8) -> bool {
    48 <= b <= 57
}

/// How many digit bytes `s` starts with.
pub open spec fn digit_run(s: Seq<u8>) -> nat
    decreases s.len(),
{
    if s.len() > 0 && is_digit_byte(s[0]) {
        1 + digit_run(s.drop_first())
    } else {
        0
    }
}

/// The number that a sequence of ASCII digits spells.
pub open spec fn digits_value(s: Seq<u8>) -> nat
    decreases s.len(),
{
    if s.len() == 0 {
        0
    } else {
        digits_value(s.drop_last()) * 10 + (s.last() - 48) as nat
    }
}

/// The position of the first carriage return in `s` (its length where none).
pub open spec fn cr_index(s: Seq<u8>) -> nat
    decreases s.len(),
{
    if s.len() == 0 || s[0] == 13 {
        0
    } else {
        1 + cr_index(s.drop_first())
    }
}

/// The number that the digits at the start of `s` spell, if it starts with one.
pub open spec fn leading_number(s: Seq<u8>) -> Option<nat> {
    if digit_run(s) > 0 {
        Some(digits_value(s.take(digit_run(s) as int)))
    } else {
        None
    }
}

/// What a reader of HTTP responses takes from the start of some bytes: the
/// status code after `HTTP/1.1 `, and the number on the next line, which
/// must start with `Content-Length: `.
pub open spec fn response_head(b: Seq<u8>) -> Option<(nat, nat)> {
    let p = encode_utf8("HTTP/1.1 "@);
    let h = encode_utf8("Content-Length: "@);
    if b.len() >= p.len() && b.take(p.len() as int) == p {
        let rest = b.skip(p.len() as int);
        let after = rest.skip(cr_index(rest) as int + 2);
        if after.len() >= h.len() && after.take(h.len() as int) == h {
            match (leading_number(rest), leading_number(after.skip(h.len() as int))) {
                (Some(code), Some(len)) => Some((code, len)),
                _ => None,
            }
        } else {
            None
        }
    } else {
        None
    }
}

proof fn lemma_digits_shape(n: nat)
    ensures
        digits(n).len() >= 1,
        forall|i: int| 0 <= i < digits(n).len() ==> is_digit_byte(#[trigger] digits(n)[i]),
    decreases n,
{
    if n >= 10 {
        lemma_digits_shape(n / 10);
    }
}

proof fn lemma_digits_value(n: nat)
    ensures
        digits_value(digits(n)) == n,
    decreases n,
{
    if n >= 10 {
        lemma_digits_value(n / 10);
        assert(digits(n).drop_last() =~= digits(n / 10));
        assert(n == (n / 10) * 10 + n % 10) by (nonlinear_arith);
        assert(digits(n).last() == (48 + n % 10) as u8);
    } else {
        assert(digits(n).drop_last() =~= Seq::<u8>::empty());
        assert(digits_value(Seq::<u8>::empty()) == 0);
    }
}

proof fn lemma_leading_number(n: nat, s: Seq<u8>)
    requires
        s.len() > 0,
        !is_digit_byte(s[0]),
    ensures
        leading_number(digits(n) + s) == Some(n),
{
    lemma_digits_shape(n);
    lemma_digits_value(n);
    lemma_digit_run(digits(n), s);
    assert((digits(n) + s).take(digits(n).len() as int) =~= digits(n));
}

proof fn lemma_digit_run(x: Seq<u8>, s: Seq<u8>)
    requires
        forall|i: int| 0 <= i < x.len() ==> is_digit_byte(#[trigger] x[i]),
        s.len() > 0,
        !is_digit_byte(s[0]),
    ensures
        digit_run(x + s) == x.len(),
    decreases x.len(),
{
    if x.len() == 0 {
        assert(x + s =~= s);
    } else {
        lemma_digit_run(x.drop_first(), s);
        assert((x + s).drop_first() =~= x.drop_first() + s);
    }
}

proof fn lemma_cr_index(x: Seq<u8>, s: Seq<u8>)
    requires
        forall|i: int| 0 <= i < x.len() ==> #[trigger] x[i] != 13,
    ensures
        cr_index(x + s) == x.len() + cr_index(s),
    decreases x.len(),
{
    if x.len() == 0 {
        assert(x + s =~= s);
    } else {
        lemma_cr_index(x.drop_first(), s);
        assert((x + s).drop_first() =~= x.drop_first() + s);
    }
}

proof fn lemma_scalar_no_cr(v: u32)
    requires
        v != 13,
    ensures
        forall|i: int| 0 <= i < encode_scalar(v).len() ==> #[trigger] encode_scalar(v)[i] != 13,
{
    assert(v <= 0x7F && v != 13 ==> (v & 0x7F) as u8 != 13u8) by (bit_vector);
    assert((0xC0u8 | ((v >> 6) & 0x1F) as u8) != 13u8) by (bit_vector);
    assert((0xE0u8 | ((v >> 12) & 0x0F) as u8) != 13u8) by (bit_vector);
    assert((0xF0u8 | ((v >> 18) & 0x7) as u8) != 13u8) by (bit_vector);
    assert((0x80u8 | (v & 0x3F) as u8) != 13u8) by (bit_vector);
    assert((0x80u8 | ((v >> 6) & 0x3F) as u8) != 13u8) by (bit_vector);
    assert((0x80u8 | ((v >> 12) & 0x3F) as u8) != 13u8) by (bit_vector);
}

proof fn lemma_text_no_cr(t: Seq<char>)
    requires
        !t.contains('\r'),
    ensures
        forall|i: int| 0 <= i < encode_utf8(t).len() ==> #[trigger] encode_utf8(t)[i] != 13,
    decreases t.len(),
{
    if t.len() > 0 {
        assert(t[0] != '\r');
        if t[0] as u32 == 13 {
            char_u32_cast(t[0], 13u32);
            assert(false);
        }
        lemma_scalar_no_cr(t[0] as u32);
        assert(!t.drop_first().contains('\r')) by {
            if t.drop_first().contains('\r') {
                let k = choose|k: int| 0 <= k < t.drop_first().len() && t.drop_first()[k] == '\r';
                assert(t[k + 1] == '\r');
            }
        }
        lemma_text_no_cr(t.drop_first());
        let a = encode_scalar(t[0] as u32);
        let b = encode_utf8(t.drop_first());
        assert(encode_utf8(t) =~= a + b);
        assert forall|i: int| 0 <= i < encode_utf8(t).len() implies #[trigger] encode_utf8(t)[i]
            != 13 by {
            if i < a.len() {
                assert(encode_utf8(t)[i] == a[i]);
            } else {
                assert(encode_utf8(t)[i] == b[i - a.len()]);
            }
        }
    }
}

proof fn lemma_head_fields(
    d1: Seq<u8>,
    t: Seq<u8>,
    d2: Seq<u8>,
    tail: Seq<u8>,
    code: nat,
    len: nat,
)
    requires
        d1 == digits(code),
        d2 == digits(len),
        forall|i: int| 0 <= i < t.len() ==> #[trigger] t[i] != 13,
        tail.len() > 0,
        tail[0] == 13,
    ensures
        response_head(
            encode_utf8("HTTP/1.1 "@) + d1 + seq![32u8] + t + seq![13u8, 10u8] + encode_utf8(
                "Content-Length: "@,
            ) + d2 + tail,
        ) == Some((code, len)),
{
    let p = encode_utf8("HTTP/1.1 "@);
    let h = encode_utf8("Content-Length: "@);
    let sp = seq![32u8];
    let crlf = seq![13u8, 10u8];
    let w = p + d1 + sp + t + crlf + h + d2 + tail;
    assert(w.take(p.len() as int) =~= p);
    let rest = w.skip(p.len() as int);
    let post = crlf + h + d2 + tail;
    assert(rest =~= d1 + (sp + t + post));
    lemma_digits_shape(code);
    lemma_leading_number(code, sp + t + post);
    let pre = d1 + sp + t;
    assert forall|i: int| 0 <= i < pre.len() implies #[trigger] pre[i] != 13 by {
        if i < d1.len() {
            assert(pre[i] == d1[i]);
            assert(is_digit_byte(d1[i]));
        } else if i < d1.len() + 1 {
            assert(pre[i] == sp[i - d1.len()]);
        } else {
            assert(pre[i] == t[i - d1.len() - 1]);
        }
    }
    assert(rest =~= pre + post);
    lemma_cr_index(pre, post);
    assert(cr_index(post) == 0);
    let after = rest.skip(cr_index(rest) as int + 2);
    assert(after =~= h + (d2 + tail));
    assert(after.take(h.len() as int) =~= h);
    assert(after.skip(h.len() as int) =~= d2 + tail);
    lemma_leading_number(len, tail);
}

/// Reading back what the writer sends gives the response's status code and
/// a `Content-Length` equal to the length of its body. The status text must
/// hold no carriage return, since the status line would end there.
pub proof fn lemma_wire_round_trip(r: Response)
    requires
        !r.text@.contains('\r'),
    ensures
        response_head(wire_bytes(r)) == Some((code_of(r.http_type) as nat, r.data@.len())),
{
    reveal_strlit(" ");
    reveal_strlit("\r\n");
    is_ascii_chars_encode_utf8(" "@);
    is_ascii_chars_encode_utf8("\r\n"@);
    let crlf = encode_utf8("\r\n"@);
    assert(encode_utf8(" "@) =~= seq![32u8]);
    assert(crlf =~= seq![13u8, 10u8]);
    lemma_text_no_cr(r.text@);
    let tail = crlf + content_type_line(r.mime@) + crlf + r.data@;
    let w = wire_bytes(r);
    assert(w =~= encode_utf8("HTTP/1.1 "@) + digits(code_of(r.http_type) as nat) + seq![32u8]
        + encode_utf8(r.text@) + seq![13u8, 10u8] + encode_utf8("Content-Length: "@) + digits(
        r.data@.len(),
    ) + tail);
    lemma_head_fields(
        digits(code_of(r.http_type) as nat),
        encode_utf8(r.text@),
        digits(r.data@.len()),
        tail,
        code_of(r.http_type) as nat,
        r.data@.len(),
    );
}

} // verus!
