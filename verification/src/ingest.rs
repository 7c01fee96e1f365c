//! Authorization of book ingestion (`POST /api/book`).
//!
//! Ingestion is enabled only when an ingest token is configured, and then
//! only for requests whose `Authorization` header is `Bearer ` followed by
//! exactly that token.
use vstd::prelude::*;
use crate::text::str_equal;
use vstd::string::*;

verus! {

/// HTTP status of an accepted ingestion: the book is stored, no content.
pub const INGEST_ACCEPTED_STATUS: u16 = 204;

/// Why an ingestion request is refused.
#[derive(Debug, Clone, Copy, PartialEq, Eq)]
pub enum IngestRejection {
    /// No ingest token is configured, so ingestion is disabled.
    Disabled,
    /// The request carries no readable `Authorization` header.
    MissingAuthorization,
    /// The `Authorization` header does not use the `Bearer` scheme.
    InvalidScheme,
    /// The bearer token is not the configured one.
    InvalidToken,
}

/// The `Authorization` scheme prefix, `"Bearer "`.
pub open spec fn bearer_prefix() -> Seq<char> {
    seq!['B', 'e', 'a', 'r', 'e', 'r', ' ']
}

/// The token of a `Bearer` authorization, or `None` for another scheme.
pub open spec fn bearer_token(auth: Seq<char>) -> Option<Seq<char>> {
    if auth.len() >= bearer_prefix().len() && auth.take(bearer_prefix().len() as int)
        == bearer_prefix() {
        Some(auth.skip(bearer_prefix().len() as int))
    } else {
        None
    }
}

/// The view of an optional string.
pub open spec fn opt_str_view(s: Option<&str>) -> Option<Seq<char>> {
    match s {
        Some(x) => Some(x@),
        None => None,
    }
}

/// The verdict on an ingestion request, given the configured token and the
/// request's `Authorization` header.
pub open spec fn ingest_verdict(expected: Option<Seq<char>>, auth: Option<Seq<char>>) -> Result<
    (),
    IngestRejection,
> {
    match expected {
        None => Err(IngestRejection::Disabled),
        Some(token) => match auth {
            None => Err(IngestRejection::MissingAuthorization),
            Some(a) => match bearer_token(a) {
                None => Err(IngestRejection::InvalidScheme),
                Some(given) => if given == token {
                    Ok(())
                } else {
                    Err(IngestRejection::InvalidToken)
                },
            },
        },
    }
}

/// The order in which a request is judged: without a configured token
/// ingestion is disabled whatever the header; with one, a missing header
/// comes next, then a header that is not of the `Bearer ` scheme, then a
/// token that differs; exactly the header `Bearer ` followed by the token
/// is accepted.
pub proof fn lemma_ingest_verdict(expected: Option<Seq<char>>, auth: Option<Seq<char>>)
    ensures
        expected is None ==> ingest_verdict(expected, auth) == Err::<(), IngestRejection>(
            IngestRejection::Disabled,
        ),
        expected is Some && auth is None ==> ingest_verdict(expected, auth) == Err::<
            (),
            IngestRejection,
        >(IngestRejection::MissingAuthorization),
        auth matches Some(a) && expected is Some && !"Bearer "@.is_prefix_of(a) ==> ingest_verdict(
            expected,
            auth,
        ) == Err::<(), IngestRejection>(IngestRejection::InvalidScheme),
        (expected, auth) matches (Some(t), Some(a)) && "Bearer "@.is_prefix_of(a) && a
            != "Bearer "@ + t ==> ingest_verdict(expected, auth) == Err::<(), IngestRejection>(
            IngestRejection::InvalidToken,
        ),
        (expected, auth) matches (Some(t), Some(a)) && a == "Bearer "@ + t ==> ingest_verdict(
            expected,
            auth,
        ) == Ok::<(), IngestRejection>(()),
{
    reveal_strlit("Bearer ");
    assert("Bearer "@ =~= bearer_prefix());
    if let (Some(t), Some(a)) = (expected, auth) {
        if a.len() >= 7 && a.take(7) == bearer_prefix() {
            assert(bearer_prefix().is_prefix_of(a));
            assert(a =~= bearer_prefix() + a.skip(7));
        }
        if bearer_prefix().is_prefix_of(a) {
            assert(a.take(7) =~= bearer_prefix());
        }
        if a == bearer_prefix() + t {
            assert(a.take(7) =~= bearer_prefix());
            assert(a.skip(7) =~= t);
        }
    }
}

/// The token of a `Bearer` authorization header, or `None` for another
/// scheme.
fn strip_bearer(auth: &str) -> (r: Option<&str>)
    ensures
        opt_str_view(r) == bearer_token(auth@),
{
    let n = auth.unicode_len();
    if n < 7 {
        return None;
    }
    let is_bearer = auth.get_char(0) == 'B' && auth.get_char(1) == 'e' && auth.get_char(2) == 'a'
        && auth.get_char(3) == 'r' && auth.get_char(4) == 'e' && auth.get_char(5) == 'r'
        && auth.get_char(6) == ' ';
    if is_bearer {
        assert(auth@.take(7) =~= bearer_prefix());
        Some(auth.substring_char(7, n))
    } else {
        proof {
            if auth@.take(7) == bearer_prefix() {
                assert(auth@.take(7)[0] == 'B');
                assert(auth@.take(7)[1] == 'e');
                assert(auth@.take(7)[2] == 'a');
                assert(auth@.take(7)[3] == 'r');
                assert(auth@.take(7)[4] == 'e');
                assert(auth@.take(7)[5] == 'r');
                assert(auth@.take(7)[6] == ' ');
            }
        }
        None
    }
}

/// Decide an ingestion request from the configured ingest token and the
/// request's `Authorization` header (`None` when absent or unreadable).
///
/// Refused with `Disabled` when no token is configured, with
/// `MissingAuthorization` when there is no header, with `InvalidScheme`
/// when the header does not start with `Bearer `, and with `InvalidToken`
/// when the bearer token differs from the configured one.
pub fn authorize_ingest(expected: Option<&str>, authorization: Option<&str>) -> (r: Result<
    (),
    IngestRejection,
>)
    ensures
        r == ingest_verdict(opt_str_view(expected), opt_str_view(authorization)),
        expected is None ==> r == Err::<(), IngestRejection>(IngestRejection::Disabled),
        expected is Some && authorization is None ==> r == Err::<(), IngestRejection>(
            IngestRejection::MissingAuthorization,
        ),
        r is Ok <==> (expected matches Some(t) && authorization matches Some(a) && a@
            == bearer_prefix() + t@),
{
    let r = match expected {
        None => Err(IngestRejection::Disabled),
        Some(token) => match authorization {
            None => Err(IngestRejection::MissingAuthorization),
            Some(auth) => match strip_bearer(auth) {
                None => Err(IngestRejection::InvalidScheme),
                Some(given) => if str_equal(given, token) {
                    Ok(())
                } else {
                    Err(IngestRejection::InvalidToken)
                },
            },
        },
    };
    proof {
        lemma_ingest_verdict(opt_str_view(expected), opt_str_view(authorization));
        if let (Some(t), Some(a)) = (expected, authorization) {
            if a@ == bearer_prefix() + t@ {
                assert(a@.take(7) =~= bearer_prefix());
                assert(a@.skip(7) =~= t@);
            }
            if bearer_token(a@) == Some(t@) {
                assert(a@ =~= a@.take(7) + a@.skip(7));
            }
        }
    }
    r
}

impl IngestRejection {
    /// The HTTP status the refusal is answered with: 400 when ingestion is
    /// disabled, 401 for a missing or non-bearer authorization, 403 for a
    /// wrong token.
    pub fn status_code(&self) -> (r: u16)
        ensures
            r == match self {
                IngestRejection::Disabled => 400u16,
                IngestRejection::MissingAuthorization => 401u16,
                IngestRejection::InvalidScheme => 401u16,
                IngestRejection::InvalidToken => 403u16,
            },
    {
        match self {
            IngestRejection::Disabled => 400,
            IngestRejection::MissingAuthorization => 401,
            IngestRejection::InvalidScheme => 401,
            IngestRejection::InvalidToken => 403,
        }
    }

    /// The message the refusal is answered with.
    pub fn message(&self) -> (r: String)
        ensures
            r@ == match self {
                IngestRejection::Disabled => "ingest disabled: BOOK_INGEST_TOKEN not configured"@,
                IngestRejection::MissingAuthorization => "missing Authorization"@,
                IngestRejection::InvalidScheme => "invalid Authorization scheme"@,
                IngestRejection::InvalidToken => "invalid token"@,
            },
    {
        match self {
            IngestRejection::Disabled => String::from_str(
                "ingest disabled: BOOK_INGEST_TOKEN not configured",
            ),
            IngestRejection::MissingAuthorization => String::from_str("missing Authorization"),
            IngestRejection::InvalidScheme => String::from_str("invalid Authorization scheme"),
            IngestRejection::InvalidToken => String::from_str("invalid token"),
        }
    }
}

} // verus!
