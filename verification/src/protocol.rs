//! The shortening and resolution protocols: validate a submitted URL,
//! reuse or mint an identifier through the persistence port, and render
//! the public short link; decode a token and look the owning URL up.

use vstd::prelude::*;
use crate::codec::{decode, decode_val, encode, encode_spec, token_valid};
use crate::store::{url_known, Store, StoreError};

verus! {

/// Why a shortening request failed.
#[derive(Clone, Debug)]
pub enum ShortenError {
    /// The submitted string is not a syntactically valid URL; nothing was
    /// stored or looked up.
    InvalidUrlFormat,
    /// The persistence layer failed; carries a description of the cause.
    Storage(String),
}

/// Why a resolution request failed.
#[derive(Clone, Debug)]
pub enum ResolveError {
    /// The token does not belong to the codec; nothing was looked up.
    MalformedToken,
    /// The token is well formed but no row exists for its identifier.
    NotFound,
    /// The persistence layer failed; carries a description of the cause.
    Storage(String),
}

/// Whether a string is a syntactically valid absolute URL.  The verdict
/// is given by the `url` crate and depends on the string alone.
pub uninterp spec fn url_ok(s: Seq<char>) -> bool;

/// Relies on `url::Url::parse`: parsing either succeeds or fails, and the
/// outcome is a pure function of the input string.
#[verifier::external_body]
fn is_valid_url(s: &str) -> (r: bool)
    ensures
        r == url_ok(s@),
{
    url::Url::parse(s).is_ok()
}

/// The public short link for identifier `id` under the authority `base`:
/// the base, a path separator, and the token.
pub open spec fn link_of(base: Seq<char>, id: u64) -> Seq<char> {
    base + seq!['/'] + encode_spec(id as nat)
}

/// Whether a string is a token the codec accepts: every character an
/// alphabet symbol and the denoted value in identifier range.
pub open spec fn well_formed_token(s: Seq<char>) -> bool {
    token_valid(s) && decode_val(s) <= u64::MAX
}

/// The identifier a well-formed token denotes.
pub open spec fn token_id(s: Seq<char>) -> u64 {
    decode_val(s) as u64
}

/// Whether at most one row of `rows` holds the string `url`.
pub open spec fn url_unique(rows: Map<u64, Seq<char>>, url: Seq<char>) -> bool {
    forall|i: u64, j: u64|
        #[trigger] rows.contains_pair(i, url) && #[trigger] rows.contains_pair(j, url) ==> i == j
}

/// The shortening error that reports a backend failure, carrying the
/// backend's own description of the cause.
fn storage_error_shorten(e: StoreError) -> (r: ShortenError)
    requires
        e matches StoreError::Backend(_),
    ensures
        r matches ShortenError::Storage(_),
        e matches StoreError::Backend(m) ==> r == ShortenError::Storage(m),
{
    match e {
        StoreError::Backend(m) => ShortenError::Storage(m),
        StoreError::NotFound => vstd::pervasive::unreached(),
    }
}

/// The resolution error that reports a backend failure, carrying the
/// backend's own description of the cause.
fn storage_error_resolve(e: StoreError) -> (r: ResolveError)
    requires
        e matches StoreError::Backend(_),
    ensures
        r matches ResolveError::Storage(_),
        e matches StoreError::Backend(m) ==> r == ResolveError::Storage(m),
{
    match e {
        StoreError::Backend(m) => ResolveError::Storage(m),
        StoreError::NotFound => vstd::pervasive::unreached(),
    }
}

/// Turns a validated URL into a public short link.
///
/// The URL is first checked syntactically: an invalid one is rejected
/// before any persistence call.  A URL already stored is never inserted
/// again: its existing identifier is reused.  A genuinely new URL is
/// inserted exactly once.  The link is the base, `/`, and the encoded
/// identifier of a row that holds the URL.
///
/// A successful shortening saw no port failure; a reported storage error
/// stands for exactly one failed port operation, carries that operation's
/// own description of the cause, and leaves the rows unchanged — in
/// particular, a failed lookup is never followed by an insertion, and no
/// operation is retried.
///
/// Check-then-insert race: the lookup and the insertion are two separate
/// port operations, not one atomic step.  Two callers shortening the same
/// previously unseen URL against a shared backend can both observe it as
/// absent and both insert, leaving two identifiers for one URL.  This is
/// accepted for a best-effort shortener; a deployment wanting strict
/// deduplication must enforce uniqueness of the stored URL inside its
/// persistence implementation and answer the conflict with the row that
/// won.
pub fn shorten<S: Store>(store: &mut S, url: &String, base: &String) -> (r: Result<
    String,
    ShortenError,
>)
    ensures
        final(store).find_url_calls() == old(store).find_url_calls(),
        !url_ok(url@) ==> *final(store) == *old(store),
        url_ok(url@) ==> final(store).find_id_calls() == old(store).find_id_calls() + 1,
        url_known(old(store).rows(), url@) ==> final(store).rows() == old(store).rows() && final(store).insert_calls() == old(store).insert_calls(),
        old(store).insert_calls() <= final(store).insert_calls() <= old(store).insert_calls() + 1,
        (match r {
            Ok(link) => {
                &&& url_ok(url@)
                &&& final(store).failures() == old(store).failures()
                &&& exists|id: u64|
                    #[trigger] final(store).rows().contains_pair(id, url@) && link@ == link_of(
                        base@,
                        id,
                    )
                &&& (!url_known(old(store).rows(), url@) ==> final(store).insert_calls() == old(store).insert_calls() + 1 && (exists|id: u64|
                    !old(store).rows().dom().contains(id) && final(store).rows() == old(store).rows().insert(id, url@) && link@ == link_of(base@, id)))
            },
            Err(ShortenError::InvalidUrlFormat) => !url_ok(url@),
            Err(ShortenError::Storage(_)) => url_ok(url@) && final(store).rows() == old(store).rows() && final(store).failures() == old(store).failures() + 1,
        }),
{
    if !is_valid_url(url.as_str()) {
        return Err(ShortenError::InvalidUrlFormat);
    }
    let found = match store.find_id_by_url(url) {
        Ok(v) => v,
        Err(e) => return Err(storage_error_shorten(e)),
    };
    let id = match found {
        Some(id) => id,
        None => match store.insert(url) {
            Ok(id) => id,
            Err(e) => return Err(storage_error_shorten(e)),
        },
    };
    let token = encode(id);
    let mut link = base.clone();
    link.append("/");
    link.append(token.as_str());
    proof {
        reveal_strlit("/");
        assert(link@ =~= link_of(base@, id));
        assert(final(store).rows().contains_pair(id, url@));
    }
    Ok(link)
}

/// Maps a public token back to the URL it shortens.
///
/// A malformed token is rejected before any persistence call.  For a
/// well-formed token the store is asked for the row of the decoded
/// identifier: the stored URL comes back unchanged, or `NotFound` when no
/// such row exists.
pub fn resolve<S: Store>(store: &mut S, token: &str) -> (r: Result<String, ResolveError>)
    ensures
        final(store).rows() == old(store).rows(),
        final(store).insert_calls() == old(store).insert_calls(),
        final(store).find_id_calls() == old(store).find_id_calls(),
        !well_formed_token(token@) ==> *final(store) == *old(store) && (r matches
        Err(ResolveError::MalformedToken)),
        well_formed_token(token@) ==> final(store).find_url_calls() == old(store).find_url_calls() + 1 && (match r {
            Ok(u) => old(store).rows().contains_pair(token_id(token@), u@) && final(store).failures() == old(store).failures(),
            Err(ResolveError::NotFound) => !old(store).rows().dom().contains(token_id(token@)) && final(store).failures() == old(store).failures() + 1,
            Err(ResolveError::Storage(_)) => final(store).failures() == old(store).failures() + 1,
            Err(ResolveError::MalformedToken) => false,
        }),
{
    let id = match decode(token) {
        Ok(id) => id,
        Err(_) => return Err(ResolveError::MalformedToken),
    };
    match store.find_url_by_id(id) {
        Ok(u) => Ok(u),
        Err(StoreError::NotFound) => Err(ResolveError::NotFound),
        Err(e) => Err(storage_error_resolve(e)),
    }
}

/// Idempotent-shortening law: shortening the same URL twice in a row,
/// starting from a store in which no two rows hold that URL, returns the
/// same link both times and inserts at most once — exactly once when the
/// URL was new, and never when it was already stored.
pub fn shorten_twice<S: Store>(store: &mut S, url: &String, base: &String) -> (r: (
    Result<String, ShortenError>,
    Result<String, ShortenError>,
))
    requires
        url_unique(old(store).rows(), url@),
    ensures
        final(store).find_url_calls() == old(store).find_url_calls(),
        (r.0 matches Err(ShortenError::InvalidUrlFormat)) <==> !url_ok(url@),
        (r.1 matches Err(ShortenError::InvalidUrlFormat)) <==> !url_ok(url@),
        !url_ok(url@) ==> *final(store) == *old(store),
        url_ok(url@) ==> final(store).find_id_calls() == old(store).find_id_calls() + 2,
        old(store).insert_calls() <= final(store).insert_calls() <= old(store).insert_calls() + 2,
        url_known(old(store).rows(), url@) ==> final(store).rows() == old(store).rows() && final(store).insert_calls() == old(store).insert_calls(),
        (match (r.0, r.1) {
            (Ok(first), Ok(second)) => {
                &&& first@ == second@
                &&& final(store).failures() == old(store).failures()
                &&& url_known(old(store).rows(), url@) ==> final(store).insert_calls() == old(store).insert_calls()
                &&& !url_known(old(store).rows(), url@) ==> final(store).insert_calls() == old(store).insert_calls() + 1
            },
            _ => true,
        }),
{
    let ghost rows0 = old(store).rows();
    let first = shorten(store, url, base);
    proof {
        if let Ok(link0) = &first {
            assert(url_unique(store.rows(), url@)) by {
                if !url_known(rows0, url@) {
                    let id = choose|id: u64|
                        !rows0.dom().contains(id) && store.rows() == rows0.insert(id, url@)
                            && link0@ == link_of(base@, id);
                    assert forall|i: u64, j: u64|
                        #[trigger] store.rows().contains_pair(i, url@) && #[trigger] store.rows().contains_pair(
                            j,
                            url@,
                        ) implies i == j by {
                        if i != id {
                            assert(rows0.contains_pair(i, url@));
                        }
                        if j != id {
                            assert(rows0.contains_pair(j, url@));
                        }
                    }
                }
            }
            assert(url_known(store.rows(), url@));
        }
    }
    let second = shorten(store, url, base);
    (first, second)
}

} // verus!
