//! The token exchange client's protocol logic: the two OAuth2 grant types,
//! normalization of partner error codes, and computation of absolute expiry
//! times from the partner's relative `expires_in` answer.

use vstd::prelude::*;

verus! {

/// Path of the partner's token endpoint under the partner base URL.
pub const TOKEN_PATH: &'static str = "/api/oauth2/token";

/// How long a freshly issued refresh token is assumed to stay valid: 30 days.
/// The partner does not report a refresh-token lifetime, so this is a policy
/// assumption, not a partner guarantee.
pub const REFRESH_VALID_FOR_SEC: i64 = 3600 * 24 * 30;

/// A partner-side token exchange failure.
pub enum TokenError {
    /// The HTTP round trip itself failed; carries the transport's message.
    Transport(String),
    /// The partner rejected the grant: the code or refresh token is invalid
    /// or has expired. Recoverable by re-authentication.
    InvalidGrant,
    /// Any other partner error, carrying the partner's error code verbatim.
    Other(String),
}

/// The OAuth2 grant type of one exchange.
#[derive(Clone, Copy, PartialEq, Eq, Structural, Debug)]
pub enum OAuth2GrantType {
    AuthorizationCode,
    RefreshToken,
}

impl OAuth2GrantType {
    /// The form value naming this grant type on the wire.
    pub fn grant_type_string(&self) -> (r: &'static str)
        ensures
            self is AuthorizationCode ==> r@ == "authorization_code"@,
            self is RefreshToken ==> r@ == "refresh_token"@,
    {
        match self {
            Self::AuthorizationCode => "authorization_code",
            Self::RefreshToken => "refresh_token",
        }
    }
}

/// What a successful exchange yields: both tokens and their absolute expiries
/// in unix seconds.
pub struct TokenPair {
    pub access: String,
    pub refresh: String,
    pub access_expiry: i64,
    pub refresh_expiry: i64,
}

/// Whether a character is a decimal digit.
pub open spec fn spec_digit(c: char) -> bool {
    '0' as int <= c as int && c as int <= '9' as int
}

/// The numeric value of a decimal digit.
pub open spec fn spec_digit_val(c: char) -> int {
    c as int - '0' as int
}

/// The value of a sequence of decimal digits, most significant first.
pub open spec fn spec_digits_value(s: Seq<char>) -> int
    decreases s.len(),
{
    if s.len() == 0 {
        0
    } else {
        spec_digits_value(s.drop_last()) * 10 + spec_digit_val(s.last())
    }
}

/// Whether every character is a decimal digit.
pub open spec fn spec_all_digits(s: Seq<char>) -> bool {
    forall|i: int| 0 <= i < s.len() ==> spec_digit(#[trigger] s[i])
}

/// The digits of an integer literal, the optional leading sign stripped.
pub open spec fn spec_int_body(s: Seq<char>) -> Seq<char> {
    if s.len() > 0 && (s[0] == '+' || s[0] == '-') {
        s.drop_first()
    } else {
        s
    }
}

/// Whether an integer literal carries a minus sign.
pub open spec fn spec_int_negative(s: Seq<char>) -> bool {
    s.len() > 0 && s[0] == '-'
}

/// The mathematical value of an integer literal.
pub open spec fn spec_parsed_value(s: Seq<char>) -> int {
    if spec_int_negative(s) {
        -spec_digits_value(spec_int_body(s))
    } else {
        spec_digits_value(spec_int_body(s))
    }
}

/// Whether a string is an integer literal whose value fits in an `i64`: an
/// optional sign, then at least one digit and nothing else, in range.
pub open spec fn spec_parses_as_i64(s: Seq<char>) -> bool {
    &&& spec_int_body(s).len() > 0
    &&& spec_all_digits(spec_int_body(s))
    &&& i64::MIN <= spec_parsed_value(s) <= i64::MAX
}

proof fn lemma_digits_value_nonneg(s: Seq<char>)
    requires
        spec_all_digits(s),
    ensures
        spec_digits_value(s) >= 0,
    decreases s.len(),
{
    if s.len() > 0 {
        assert(forall|i: int| 0 <= i < s.drop_last().len() ==> s.drop_last()[i] == s[i]);
        lemma_digits_value_nonneg(s.drop_last());
    }
}

/// A digit string is worth at least as much as any of its prefixes.
proof fn lemma_digits_value_take_mono(s: Seq<char>, k: int)
    requires
        spec_all_digits(s),
        0 <= k <= s.len(),
    ensures
        spec_digits_value(s.take(k)) <= spec_digits_value(s),
    decreases s.len() - k,
{
    if k == s.len() {
        assert(s.take(k) =~= s);
    } else {
        assert(s.take(k + 1).drop_last() =~= s.take(k));
        assert(s.take(k + 1).last() == s[k]);
        assert(forall|i: int| 0 <= i < s.take(k).len() ==> s.take(k)[i] == s[i]);
        lemma_digits_value_nonneg(s.take(k));
        assert(spec_digits_value(s.take(k + 1)) == spec_digits_value(s.take(k)) * 10
            + spec_digit_val(s[k]));
        lemma_digits_value_take_mono(s, k + 1);
    }
}

/// Parse a decimal integer literal: an optional `+` or `-`, then decimal
/// digits. Yields the value exactly when the literal is well formed and the
/// value fits in an `i64`.
pub fn parse_i64(s: &str) -> (r: Option<i64>)
    ensures
        r matches Some(v) ==> spec_parses_as_i64(s@) && v as int == spec_parsed_value(s@),
        r is None ==> !spec_parses_as_i64(s@),
{
    let len = s.unicode_len();
    if len == 0 {
        return None;
    }
    let first = s.get_char(0);
    let neg = first == '-';
    let has_sign = neg || first == '+';
    let start: usize = if has_sign {
        1
    } else {
        0
    };
    let ghost body = spec_int_body(s@);
    proof {
        assert(body =~= s@.skip(start as int));
    }
    if start == len {
        return None;
    }
    let mut i: usize = start;
    let mut acc: i64 = 0;
    while i < len
        invariant
            len as nat == s@.len(),
            start <= i <= len,
            start < len,
            body == spec_int_body(s@),
            body =~= s@.skip(start as int),
            neg == spec_int_negative(s@),
            spec_all_digits(body.take(i - start)),
            acc as int == if neg {
                -spec_digits_value(body.take(i - start))
            } else {
                spec_digits_value(body.take(i - start))
            },
        decreases len - i,
    {
        let c = s.get_char(i);
        proof {
            assert(body[i - start] == s@[i as int]);
        }
        if c < '0' || c > '9' {
            proof {
                assert(!spec_digit(body[i - start]));
                assert(!spec_all_digits(body));
            }
            return None;
        }
        let d: i64 = (c as u32 as i64) - 48;
        proof {
            assert(spec_digit(c));
            assert(d as int == spec_digit_val(c));
            assert(body.take(i + 1 - start).drop_last() =~= body.take(i - start));
            assert(body.take(i + 1 - start).last() == body[i - start]);
            assert(forall|k: int|
                0 <= k < body.take(i + 1 - start).len() ==> body.take(i + 1 - start)[k]
                    == body[k]);
            lemma_digits_value_nonneg(body.take(i - start));
        }
        if neg {
            acc = match acc.checked_mul(10) {
                Some(x) => match x.checked_sub(d) {
                    Some(y) => y,
                    None => {
                        proof {
                            overflow_refutes_parse(s@, body, i - start, neg);
                        }
                        return None;
                    },
                },
                None => {
                    proof {
                        overflow_refutes_parse(s@, body, i - start, neg);
                    }
                    return None;
                },
            };
        } else {
            acc = match acc.checked_mul(10) {
                Some(x) => match x.checked_add(d) {
                    Some(y) => y,
                    None => {
                        proof {
                            overflow_refutes_parse(s@, body, i - start, neg);
                        }
                        return None;
                    },
                },
                None => {
                    proof {
                        overflow_refutes_parse(s@, body, i - start, neg);
                    }
                    return None;
                },
            };
        }
        i += 1;
    }
    proof {
        assert(body.take(len - start) =~= body);
    }
    Some(acc)
}

/// If the accumulated prefix already leaves the `i64` range, the whole
/// literal does, whatever digits follow.
proof fn overflow_refutes_parse(s: Seq<char>, body: Seq<char>, k: int, neg: bool)
    requires
        body == spec_int_body(s),
        neg == spec_int_negative(s),
        0 <= k < body.len(),
        spec_all_digits(body.take(k)),
        spec_digit(body[k]),
        neg ==> -(spec_digits_value(body.take(k)) * 10 + spec_digit_val(body[k])) < i64::MIN,
        !neg ==> spec_digits_value(body.take(k)) * 10 + spec_digit_val(body[k]) > i64::MAX,
    ensures
        !spec_parses_as_i64(s),
{
    if spec_all_digits(body) {
        assert(forall|j: int| 0 <= j < body.take(k).len() ==> body.take(k)[j] == body[j]);
        assert(body.take(k + 1).drop_last() =~= body.take(k));
        assert(body.take(k + 1).last() == body[k]);
        assert(spec_digits_value(body.take(k + 1)) == spec_digits_value(body.take(k)) * 10
            + spec_digit_val(body[k]));
        lemma_digits_value_take_mono(body, k + 1);
    }
}

/// Normalize a partner error code: `invalid_grant` is the distinguished
/// recoverable kind; anything else is carried verbatim as an opaque error.
pub fn token_error_from_code(error_code: String) -> (r: TokenError)
    ensures
        error_code@ == "invalid_grant"@ ==> r is InvalidGrant,
        error_code@ != "invalid_grant"@ ==> (r matches TokenError::Other(m) && m@ == error_code@),
{
    let invalid_grant = "invalid_grant".to_owned();
    if error_code.eq(&invalid_grant) {
        TokenError::InvalidGrant
    } else {
        TokenError::Other(error_code)
    }
}

/// Build the token pair from the partner's successful answer: parse the
/// relative `expires_in` (the partner transmits it as a string) and compute
/// both absolute expiries from the exchange time. Fails exactly when
/// `expires_in` is not an `i64` literal or an expiry would leave the
/// representable range.
pub fn make_token_pair(access: String, refresh: String, expires_in: &str, now: i64) -> (r: Result<
    TokenPair,
    TokenError,
>)
    ensures
        r matches Ok(p) ==> ({
            &&& spec_parses_as_i64(expires_in@)
            &&& p.access@ == access@
            &&& p.refresh@ == refresh@
            &&& p.access_expiry as int == now as int + spec_parsed_value(expires_in@)
            &&& p.refresh_expiry as int == now as int + REFRESH_VALID_FOR_SEC as int
        }),
        r is Ok <==> (spec_parses_as_i64(expires_in@) && i64::MIN <= now as int
            + spec_parsed_value(expires_in@) <= i64::MAX && now as int + REFRESH_VALID_FOR_SEC
            as int <= i64::MAX),
        r is Err ==> (r matches Err(TokenError::Other(_))),
        !spec_parses_as_i64(expires_in@) ==> (r matches Err(TokenError::Other(m)) && m@ == (
        "Invalid value for 'expires_in', failed to parse '")@ + expires_in@ + ("' to i64")@),
        spec_parses_as_i64(expires_in@) && !(i64::MIN <= now as int + spec_parsed_value(
            expires_in@,
        ) <= i64::MAX) ==> (r matches Err(TokenError::Other(m)) && m@ == (
        "Access token expiry out of range")@),
        spec_parses_as_i64(expires_in@) && i64::MIN <= now as int + spec_parsed_value(expires_in@)
            <= i64::MAX && now as int + REFRESH_VALID_FOR_SEC as int > i64::MAX ==> (r matches Err(
            TokenError::Other(m),
        ) && m@ == ("Refresh token expiry out of range")@),
{
    let expires_in_sec = match parse_i64(expires_in) {
        Some(v) => v,
        None => {
            let m = "Invalid value for 'expires_in', failed to parse '".to_owned().concat(
                expires_in,
            ).concat("' to i64");
            return Err(TokenError::Other(m));
        },
    };
    let access_expiry = match now.checked_add(expires_in_sec) {
        Some(v) => v,
        None => {
            return Err(TokenError::Other("Access token expiry out of range".to_owned()));
        },
    };
    let refresh_expiry = match now.checked_add(REFRESH_VALID_FOR_SEC) {
        Some(v) => v,
        None => {
            return Err(TokenError::Other("Refresh token expiry out of range".to_owned()));
        },
    };
    Ok(TokenPair { access, refresh, access_expiry, refresh_expiry })
}

} // verus!
