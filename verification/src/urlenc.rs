//! Percent-encoding and query-string assembly for the partner URLs and form
//! bodies, specified byte for byte: unreserved bytes pass through, every
//! other byte becomes `%` and two uppercase hex digits.

use vstd::prelude::*;
use vstd::string::StringSliceAdditionalSpecFns;

verus! {

/// Whether a byte passes through the encoding unchanged: an ASCII letter or
/// digit, `-`, `_`, `.` or `~`.
pub open spec fn spec_unreserved(b: u8) -> bool {
    ||| 65 <= b && b <= 90  // A-Z
    ||| 97 <= b && b <= 122  // a-z
    ||| 48 <= b && b <= 57  // 0-9
    ||| b == 45  // -
    ||| b == 95  // _
    ||| b == 46  // .
    ||| b == 126  // ~
}

/// The uppercase hex digit for a value below sixteen.
pub open spec fn spec_hex_digit(n: u8) -> u8 {
    if n < 10 {
        (48 + n) as u8
    } else {
        (55 + n) as u8  // 10 -> 'A'
    }
}

/// What one byte encodes to.
pub open spec fn spec_encode_byte(b: u8) -> Seq<u8> {
    if spec_unreserved(b) {
        seq![b]
    } else {
        seq![37u8, spec_hex_digit(b / 16), spec_hex_digit(b % 16)]  // '%', high, low
    }
}

/// What a byte string encodes to.
pub open spec fn spec_encode_bytes(s: Seq<u8>) -> Seq<u8>
    decreases s.len(),
{
    if s.len() == 0 {
        Seq::empty()
    } else {
        spec_encode_byte(s[0]) + spec_encode_bytes(s.drop_first())
    }
}

/// The characters a sequence of ASCII bytes spells.
pub open spec fn spec_chars_of_bytes(b: Seq<u8>) -> Seq<char> {
    b.map_values(|x: u8| x as char)
}

/// Encoding one more byte extends the encoded string at its end.
pub proof fn lemma_encode_bytes_push(s: Seq<u8>, b: u8)
    ensures
        spec_encode_bytes(s.push(b)) == spec_encode_bytes(s) + spec_encode_byte(b),
    decreases s.len(),
{
    if s.len() == 0 {
        assert(s.push(b)[0] == b);
        assert(s.push(b).drop_first() =~= Seq::<u8>::empty());
        assert(s =~= Seq::<u8>::empty());
        assert(spec_encode_bytes(Seq::<u8>::empty()) =~= Seq::<u8>::empty());
        assert(spec_encode_bytes(s.push(b)) =~= spec_encode_bytes(s) + spec_encode_byte(b));
    } else {
        assert(s.push(b)[0] == s[0]);
        assert(s.push(b).drop_first() =~= s.drop_first().push(b));
        lemma_encode_bytes_push(s.drop_first(), b);
        assert(spec_encode_bytes(s.push(b)) =~= spec_encode_bytes(s) + spec_encode_byte(b));
    }
}

/// Every encoded byte is ASCII.
pub proof fn lemma_encode_bytes_ascii(s: Seq<u8>)
    ensures
        forall|i: int| 0 <= i < spec_encode_bytes(s).len() ==> #[trigger] spec_encode_bytes(s)[i]
            < 128,
    decreases s.len(),
{
    if s.len() > 0 {
        lemma_encode_bytes_ascii(s.drop_first());
        assert forall|i: int| 0 <= i < spec_encode_bytes(s).len() implies #[trigger] spec_encode_bytes(
            s,
        )[i] < 128 by {
            let head = spec_encode_byte(s[0]);
            if i >= head.len() {
                assert(spec_encode_bytes(s)[i] == spec_encode_bytes(s.drop_first())[i
                    - head.len()]);
            }
        }
    }
}

/// A `String` made of the given ASCII bytes.
///
/// Relies on `String::from_utf8`: a buffer of bytes below 128 is valid UTF-8
/// and decodes to exactly those code points, one character per byte.
#[verifier::external_body]
pub(crate) fn ascii_to_string(v: Vec<u8>) -> (r: String)
    requires
        forall|i: int| 0 <= i < v@.len() ==> v@[i] < 128,
    ensures
        r@ == spec_chars_of_bytes(v@),
{
    String::from_utf8(v).unwrap()
}

/// Append the encoding of every byte of `s` to `out`. ASCII content stays
/// ASCII: the encoding only ever appends ASCII bytes.
fn encode_into(out: &mut Vec<u8>, s: &[u8])
    ensures
        final(out)@ == old(out)@ + spec_encode_bytes(s@),
        (forall|i: int| 0 <= i < old(out)@.len() ==> old(out)@[i] < 128) ==> (forall|i: int|
            0 <= i < final(out)@.len() ==> final(out)@[i] < 128),
{
    let n = s.len();
    let mut i: usize = 0;
    proof {
        assert(s@.take(0) =~= Seq::<u8>::empty());
        assert(out@ =~= out@ + spec_encode_bytes(s@.take(0)));
    }
    while i < n
        invariant
            n == s@.len(),
            0 <= i <= n,
            out@ == old(out)@ + spec_encode_bytes(s@.take(i as int)),
        decreases n - i,
    {
        let b = s[i];
        proof {
            assert(s@.take(i + 1) =~= s@.take(i as int).push(b));
            lemma_encode_bytes_push(s@.take(i as int), b);
        }
        if (65 <= b && b <= 90) || (97 <= b && b <= 122) || (48 <= b && b <= 57) || b == 45 || b
            == 95 || b == 46 || b == 126 {
            out.push(b);
            proof {
                assert(out@ =~= old(out)@ + spec_encode_bytes(s@.take(i + 1)));
            }
        } else {
            let hi = b / 16;
            let lo = b % 16;
            out.push(37);
            out.push(
                if hi < 10 {
                    48 + hi
                } else {
                    55 + hi
                },
            );
            out.push(
                if lo < 10 {
                    48 + lo
                } else {
                    55 + lo
                },
            );
            proof {
                assert(out@ =~= old(out)@ + spec_encode_bytes(s@.take(i + 1)));
            }
        }
        i += 1;
    }
    proof {
        assert(s@.take(n as int) =~= s@);
        lemma_encode_bytes_ascii(s@);
    }
}

/// Percent-encode one query-string component of the UTF-8 bytes of `s`.
pub fn encode_component(s: &str) -> (r: String)
    ensures
        r@ == spec_chars_of_bytes(spec_encode_bytes(s.spec_bytes())),
{
    let mut out: Vec<u8> = Vec::new();
    encode_into(&mut out, s.as_bytes());
    proof {
        assert(out@ =~= spec_encode_bytes(s.spec_bytes()));
        lemma_encode_bytes_ascii(s.spec_bytes());
    }
    ascii_to_string(out)
}

/// One `name=value` query pair, both sides encoded.
pub open spec fn spec_query_pair(name: Seq<u8>, value: Seq<u8>) -> Seq<u8> {
    spec_encode_bytes(name) + seq![61u8] + spec_encode_bytes(value)  // '='
}

/// Append one `name=value` pair to `out`, preceded by `&` unless it is the
/// first pair.
pub(crate) fn push_pair(out: &mut Vec<u8>, first: bool, name: &[u8], value: &[u8])
    ensures
        final(out)@ == old(out)@ + (if first {
            Seq::<u8>::empty()
        } else {
            seq![38u8]
        }) + spec_query_pair(name@, value@),
        (forall|i: int| 0 <= i < old(out)@.len() ==> old(out)@[i] < 128) ==> (forall|i: int|
            0 <= i < final(out)@.len() ==> final(out)@[i] < 128),
{
    if !first {
        out.push(38);  // '&'
    }
    encode_into(out, name);
    out.push(61);  // '='
    encode_into(out, value);
    proof {
        assert(out@ =~= old(out)@ + (if first {
            Seq::<u8>::empty()
        } else {
            seq![38u8]
        }) + spec_query_pair(name@, value@));
    }
}

/// The authorization query string: the configured client id and redirect URI,
/// the `state` binding the callback to the stored attempt, the fixed response
/// type `code`, the fixed `force_login=1` flag that refuses silent SSO, and
/// the requested scopes, in that order.
pub open spec fn spec_login_query(
    client_id: Seq<u8>,
    redirect_uri: Seq<u8>,
    state: Seq<u8>,
    scopes: Seq<u8>,
) -> Seq<u8> {
    spec_query_pair(("client_id").spec_bytes(), client_id) + seq![38u8] + spec_query_pair(
        ("redirect_uri").spec_bytes(),
        redirect_uri,
    ) + seq![38u8] + spec_query_pair(("state").spec_bytes(), state) + seq![38u8]
        + spec_query_pair(("response_type").spec_bytes(), ("code").spec_bytes()) + seq![38u8]
        + spec_query_pair(("force_login").spec_bytes(), ("1").spec_bytes()) + seq![38u8]
        + spec_query_pair(("scopes").spec_bytes(), scopes)
}

/// Build the authorization query string.
pub fn login_query(client_id: &str, redirect_uri: &str, state: &str, scopes: &str) -> (r: String)
    ensures
        r@ == spec_chars_of_bytes(
            spec_login_query(
                client_id.spec_bytes(),
                redirect_uri.spec_bytes(),
                state.spec_bytes(),
                scopes.spec_bytes(),
            ),
        ),
{
    let mut out: Vec<u8> = Vec::new();
    push_pair(&mut out, true, "client_id".as_bytes(), client_id.as_bytes());
    push_pair(&mut out, false, "redirect_uri".as_bytes(), redirect_uri.as_bytes());
    push_pair(&mut out, false, "state".as_bytes(), state.as_bytes());
    push_pair(&mut out, false, "response_type".as_bytes(), "code".as_bytes());
    push_pair(&mut out, false, "force_login".as_bytes(), "1".as_bytes());
    push_pair(&mut out, false, "scopes".as_bytes(), scopes.as_bytes());
    let ghost target = spec_login_query(
        client_id.spec_bytes(),
        redirect_uri.spec_bytes(),
        state.spec_bytes(),
        scopes.spec_bytes(),
    );
    proof {
        assert(out@ =~= target);
    }
    ascii_to_string(out)
}

} // verus!
