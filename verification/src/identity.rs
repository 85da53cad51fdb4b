//! The identity of a directory: the id of the first commit of the git
//! repository it belongs to, or else the SHA-256 of its path in lowercase
//! hexadecimal.
use vstd::prelude::*;
use vstd::utf8::encode_utf8;

use hex::ToHex;
use sha2::Digest;

verus! {

/// The SHA-256 digest of `data`.
pub uninterp spec fn sha256(data: Seq<u8>) -> Seq<u8>;

/// `sha2::Sha256::digest`: the digest is named `sha256` of the input and,
/// SHA-256 being a 256-bit hash, is 32 bytes long.
#[verifier::external_body]
fn sha256_digest(data: &[u8]) -> (r: Vec<u8>)
    ensures
        r@ == sha256(data@),
        r@.len() == 32,
{
    sha2::Sha256::digest(data).to_vec()
}

/// The lowercase hexadecimal digits, `0123456789abcdef`.
pub open spec fn hex_digits() -> Seq<char> {
    seq!['0', '1', '2', '3', '4', '5', '6', '7', '8', '9', 'a', 'b', 'c', 'd', 'e', 'f']
}

/// Each byte as two lowercase hexadecimal digits, high digit first.
pub open spec fn hex_lower(bytes: Seq<u8>) -> Seq<char>
    decreases bytes.len(),
{
    if bytes.len() == 0 {
        seq![]
    } else {
        hex_lower(bytes.drop_last()) + seq![
            hex_digits()[(bytes.last() / 16) as int],
            hex_digits()[(bytes.last() % 16) as int],
        ]
    }
}

/// `hex::ToHex::encode_hex` into a `String`: two lowercase hexadecimal
/// digits per byte, in order, high digit first (the crate's
/// `BytesToHexChars` over its `HEX_CHARS_LOWER` table).
#[verifier::external_body]
fn hex_encode(data: &[u8]) -> (r: String)
    ensures
        r@ == hex_lower(data@),
{
    data.encode_hex::<String>()
}

pub proof fn lemma_hex_lower_len(bytes: Seq<u8>)
    ensures
        hex_lower(bytes).len() == 2 * bytes.len(),
        forall|i: int| 0 <= i < hex_lower(bytes).len() ==> hex_digits().contains(
            #[trigger] hex_lower(bytes)[i],
        ),
    decreases bytes.len(),
{
    if bytes.len() > 0 {
        lemma_hex_lower_len(bytes.drop_last());
        let h = hex_lower(bytes);
        let prev = hex_lower(bytes.drop_last());
        let hi = bytes.last() / 16;
        let lo = bytes.last() % 16;
        assert(hex_digits()[hi as int] == h[h.len() - 2]);
        assert(hex_digits()[lo as int] == h[h.len() - 1]);
        assert forall|i: int| 0 <= i < h.len() implies hex_digits().contains(#[trigger] h[i]) by {
            if i < prev.len() {
                assert(h[i] == prev[i]);
            } else if i == h.len() - 2 {
                assert(hex_digits()[hi as int] == h[i]);
            } else {
                assert(hex_digits()[lo as int] == h[i]);
            }
        }
    }
}

/// The identity of a directory outside any git repository.
pub open spec fn path_identity(path: Seq<char>) -> Seq<char> {
    hex_lower(sha256(encode_utf8(path)))
}

/// Two byte strings have the same hexadecimal text only if they are equal.
pub proof fn lemma_hex_lower_injective(a: Seq<u8>, b: Seq<u8>)
    requires
        hex_lower(a) == hex_lower(b),
    ensures
        a == b,
{
    lemma_hex_lower_len(a);
    lemma_hex_lower_len(b);
    assert forall|k: int| 0 <= k < a.len() implies a[k] == b[k] by {
        lemma_hex_lower_digits(a, k);
        lemma_hex_lower_digits(b, k);
        let (x1, y1) = ((a[k] / 16) as int, (a[k] % 16) as int);
        let (x2, y2) = ((b[k] / 16) as int, (b[k] % 16) as int);
        lemma_hex_digit_distinct(x1, x2);
        lemma_hex_digit_distinct(y1, y2);
        assert(a[k] == 16 * x1 + y1);
        assert(b[k] == 16 * x2 + y2);
    }
    assert(a =~= b);
}

proof fn lemma_hex_digit_distinct(x: int, y: int)
    requires
        0 <= x < 16,
        0 <= y < 16,
        hex_digits()[x] == hex_digits()[y],
    ensures
        x == y,
{
}

/// The identity of a directory outside any repository is the hash of the
/// path's own UTF-8 bytes, as given: no normalisation happens before
/// hashing, so paths with different bytes hash different inputs.
pub proof fn lemma_path_identity_hashes_path_bytes(p: Seq<char>)
    ensures
        path_identity(p) == hex_lower(sha256(encode_utf8(p))),
{
}

/// Each byte gives two hexadecimal digits, high one first.
pub proof fn lemma_hex_lower_digits(bytes: Seq<u8>, k: int)
    requires
        0 <= k < bytes.len(),
    ensures
        hex_lower(bytes)[2 * k] == hex_digits()[(bytes[k] / 16) as int],
        hex_lower(bytes)[2 * k + 1] == hex_digits()[(bytes[k] % 16) as int],
    decreases bytes.len(),
{
    lemma_hex_lower_len(bytes.drop_last());
    if k < bytes.len() - 1 {
        lemma_hex_lower_digits(bytes.drop_last(), k);
        assert(bytes.drop_last()[k] == bytes[k]);
    }
}

/// The SHA-256 of the path's UTF-8 bytes, in lowercase hexadecimal: 64
/// characters, each a hexadecimal digit.
pub fn path_id(path: &str) -> (r: String)
    ensures
        r@ == path_identity(path@),
        r@ == hex_lower(sha256(encode_utf8(path@))),
        r@.len() == 64,
        forall|i: int| 0 <= i < r@.len() ==> hex_digits().contains(#[trigger] r@[i]),
{
    let bytes = path.as_bytes();
    let digest = sha256_digest(bytes);
    let r = hex_encode(digest.as_slice());
    proof {
        lemma_hex_lower_len(digest@);
    }
    r
}

/// Why a repository has no usable identity.
#[derive(Debug, Clone, PartialEq, Eq)]
pub enum IdentityError {
    /// Asking whether the repository is empty failed.
    EmptyCheckFailed(String),
    /// The repository has no commit yet.
    EmptyRepository,
    /// Bare repositories are not supported.
    BareRepository,
    /// The history could not be walked from `HEAD` (the walk could not
    /// start, or `HEAD` was not found).
    HistoryUnavailable(String),
    /// The walk from `HEAD` found no commit.
    NoCommits,
    /// Walking the history failed at its last step.
    WalkFailed(String),
}

/// What the tools learn of the git repository that a directory belongs to.
#[derive(Debug)]
pub struct RepositoryFacts {
    /// Whether the repository is empty, or why that is unknown.
    pub is_empty: Result<bool, String>,
    /// Whether the repository is bare.
    pub is_bare: bool,
    /// The steps of the walk of the history from `HEAD`, newest first,
    /// each a commit id or an error; or why the walk could not start.
    pub history: Result<Vec<Result<String, String>>, IdentityError>,
}

/// The identity of a repository: its oldest commit reachable from `HEAD`,
/// unless it is empty or bare or its history cannot be walked.
pub open spec fn repository_identity(
    is_empty: Result<bool, String>,
    is_bare: bool,
    history: Result<Seq<Result<String, String>>, IdentityError>,
) -> Result<Seq<char>, IdentityError> {
    match is_empty {
        Err(e) => Err(IdentityError::EmptyCheckFailed(e)),
        Ok(true) => Err(IdentityError::EmptyRepository),
        Ok(false) => if is_bare {
            Err(IdentityError::BareRepository)
        } else {
            match history {
                Err(e) => Err(e),
                Ok(steps) => if steps.len() == 0 {
                    Err(IdentityError::NoCommits)
                } else {
                    match steps.last() {
                        Ok(id) => Ok(id@),
                        Err(e) => Err(IdentityError::WalkFailed(e)),
                    }
                },
            }
        },
    }
}

pub open spec fn facts_identity(facts: RepositoryFacts) -> Result<Seq<char>, IdentityError> {
    repository_identity(
        facts.is_empty,
        facts.is_bare,
        match facts.history {
            Ok(v) => Ok(v@),
            Err(e) => Err(e),
        },
    )
}

pub open spec fn result_view(r: Result<String, IdentityError>) -> Result<Seq<char>, IdentityError> {
    match r {
        Ok(s) => Ok(s@),
        Err(e) => Err(e),
    }
}

/// The oldest commit of a repository, given what was learnt of it.
pub fn first_commit(facts: RepositoryFacts) -> (r: Result<String, IdentityError>)
    ensures
        result_view(r) == facts_identity(facts),
        facts.is_empty == Ok::<bool, String>(true) ==> r == Err::<String, IdentityError>(
            IdentityError::EmptyRepository,
        ),
        facts.is_empty == Ok::<bool, String>(false) && facts.is_bare ==> r == Err::<
            String,
            IdentityError,
        >(IdentityError::BareRepository),
        ({
            &&& facts.is_empty == Ok::<bool, String>(false)
            &&& !facts.is_bare
            &&& facts.history matches Ok(steps)
            &&& steps@.len() > 0
            &&& steps@.last() matches Ok(oldest)
        }) ==> r == Ok::<String, IdentityError>(facts.history.unwrap()@.last().unwrap()),
{
    match facts.is_empty {
        Err(e) => Err(IdentityError::EmptyCheckFailed(e)),
        Ok(true) => Err(IdentityError::EmptyRepository),
        Ok(false) => {
            if facts.is_bare {
                return Err(IdentityError::BareRepository);
            }
            match facts.history {
                Err(e) => Err(e),
                Ok(mut steps) => {
                    match steps.pop() {
                        None => Err(IdentityError::NoCommits),
                        Some(Ok(id)) => Ok(id),
                        Some(Err(e)) => Err(IdentityError::WalkFailed(e)),
                    }
                },
            }
        },
    }
}

/// The identity of the directory `path`: that of the repository it belongs
/// to, when it belongs to one, else the hash of its path.
pub fn resolve_id(path: &str, repository: Option<RepositoryFacts>) -> (r: Result<String, IdentityError>)
    ensures
        result_view(r) == match repository {
            Some(facts) => facts_identity(facts),
            None => Ok(path_identity(path@)),
        },
        repository is None ==> result_view(r) == Ok::<Seq<char>, IdentityError>(
            hex_lower(sha256(encode_utf8(path@))),
        ),
{
    match repository {
        Some(facts) => first_commit(facts),
        None => Ok(path_id(path)),
    }
}

} // verus!
