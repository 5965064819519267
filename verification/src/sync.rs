//! The repository synchronisation protocol: where a database is fetched
//! from, and when a fetched database may take the place of the cached one.

use vstd::prelude::*;
use vstd::string::*;
use crate::digest::{content_hash, hash_database, hex_digit, hex_lower, sha512, DIGEST_LIMIT};
use crate::records::Source;
use crate::text::{is_space, replace_all, replaced, strip_end, strip_tail};

verus! {

/// What one mirror answered: the database and the hash file, each absent
/// where the request failed or did not return a success status.
pub struct MirrorResponse {
    pub database: Option<Vec<u8>>,
    pub hash: Option<String>,
}

/// What a mirror's answer is worth.
#[derive(Debug, Clone, Copy, PartialEq, Eq, Structural)]
pub enum MirrorOutcome {
    /// Both files came and the hash file names the database's content hash.
    Verified,
    /// One of the two files did not come.
    Unreachable,
    /// Both files came and the hash does not match.
    VerificationFailed,
}

/// A verified database and where it came from.
pub struct SyncResult {
    pub mirror: usize,
    pub repo_hash: String,
}

/// The hash file's text, without white space at its end, is the content hash of
/// the database.
pub open spec fn hash_matches(database: Seq<u8>, hash_text: Seq<char>) -> bool {
    database.len() < DIGEST_LIMIT && content_hash(database) == strip_end(hash_text, false)
}

/// The response holds both files and they match.
pub open spec fn verifies(response: MirrorResponse) -> bool {
    response.database is Some && response.hash is Some && hash_matches(
        response.database->Some_0@,
        response.hash->Some_0@,
    )
}

/// What a response is worth.
pub open spec fn outcome_of(response: MirrorResponse) -> MirrorOutcome {
    if response.database is None || response.hash is None {
        MirrorOutcome::Unreachable
    } else if verifies(response) {
        MirrorOutcome::Verified
    } else {
        MirrorOutcome::VerificationFailed
    }
}

/// `i` is the first response that verifies.
pub open spec fn is_first_verified(responses: Seq<MirrorResponse>, i: int) -> bool {
    &&& 0 <= i < responses.len()
    &&& verifies(responses[i])
    &&& forall|k: int| 0 <= k < i ==> !verifies(#[trigger] responses[k])
}

/// The address below which a repository's files are fetched: its own URL
/// where it has one, else the mirror template with `$repo` filled in.
pub open spec fn mirror_base(source: Source, mirror: Seq<char>) -> Seq<char> {
    match source.url {
        Some(url) => url@,
        None => replaced(mirror, "$repo"@, source.name@),
    }
}

/// The address of a repository's database below `base`.
pub open spec fn database_address(base: Seq<char>, repo: Seq<char>) -> Seq<char> {
    base + "/"@ + repo + ".db"@
}

/// The address of a repository's hash file below `base`.
pub open spec fn hash_address(base: Seq<char>, repo: Seq<char>) -> Seq<char> {
    base + "/"@ + repo + ".hash"@
}

/// A hexadecimal text ends in no white space, so nothing is taken off its end.
pub proof fn lemma_hex_keeps_its_end(bytes: Seq<u8>)
    ensures
        strip_end(hex_lower(bytes), false) == hex_lower(bytes),
{
    let text = hex_lower(bytes);
    if text.len() > 0 {
        let i = text.len() - 1;
        assert(text[i] == hex_digit(bytes[i / 2] as int / 16) || text[i] == hex_digit(
            bytes[i / 2] as int % 16,
        ));
        assert(!is_space(text.last()));
    }
}

/// The hash file that is published beside a database verifies it, with or
/// without a line feed at its end.
pub proof fn lemma_published_hash_verifies(database: Seq<u8>)
    requires
        database.len() < DIGEST_LIMIT,
    ensures
        hash_matches(database, content_hash(database)),
        hash_matches(database, content_hash(database).push('\n')),
{
    lemma_hex_keeps_its_end(sha512(database));
    let line = content_hash(database).push('\n');
    assert(line.drop_last() =~= content_hash(database));
    assert(is_space(line.last()));
}

/// A database whose content hash is not what the hash file names never
/// verifies: the answer counts as failed, whatever else it holds.
pub proof fn lemma_mismatch_never_verifies(response: MirrorResponse)
    requires
        response.database is Some,
        response.hash is Some,
        content_hash(response.database->Some_0@) != strip_end(response.hash->Some_0@, false),
    ensures
        !verifies(response),
        outcome_of(response) == MirrorOutcome::VerificationFailed,
{
}

/// Whether a fetched database matches a fetched hash file.
pub fn verify_database(database: &Vec<u8>, hash_text: &String) -> (r: bool)
    ensures
        r == hash_matches(database@, hash_text@),
{
    match hash_database(database) {
        Some(computed) => {
            let named = String::from_str(strip_tail(hash_text.as_str(), false));
            computed == named
        },
        None => false,
    }
}

/// Judges one mirror's answer.
pub fn mirror_outcome(response: &MirrorResponse) -> (r: MirrorOutcome)
    ensures
        r == outcome_of(*response),
{
    match (&response.database, &response.hash) {
        (Some(database), Some(hash)) => {
            if verify_database(database, hash) {
                MirrorOutcome::Verified
            } else {
                MirrorOutcome::VerificationFailed
            }
        },
        _ => MirrorOutcome::Unreachable,
    }
}

/// Goes through the mirrors' answers in order and lets the first database
/// that verifies take the place of the cached one. Where none verifies the
/// cached database stays as it is.
pub fn sync_repo(responses: &Vec<MirrorResponse>, cached: &mut Vec<u8>) -> (r: Option<SyncResult>)
    ensures
        match r {
            Some(done) => {
                &&& is_first_verified(responses@, done.mirror as int)
                &&& final(cached)@ == responses@[done.mirror as int].database->Some_0@
                &&& done.repo_hash@ == content_hash(final(cached)@)
            },
            None => {
                &&& forall|k: int| 0 <= k < responses@.len() ==> !verifies(#[trigger] responses@[k])
                &&& final(cached)@ == old(cached)@
            },
        },
{
    let n = responses.len();
    let mut i: usize = 0;
    let mut found: Option<SyncResult> = None;
    while i < n && found.is_none()
        invariant
            n == responses.len(),
            i <= n,
            found is None ==> cached@ == old(cached)@ && forall|k: int|
                0 <= k < i ==> !verifies(#[trigger] responses@[k]),
            found is Some ==> {
                &&& is_first_verified(responses@, found->Some_0.mirror as int)
                &&& cached@ == responses@[found->Some_0.mirror as int].database->Some_0@
                &&& found->Some_0.repo_hash@ == content_hash(cached@)
            },
        decreases (n - i) + (if found is None { 1int } else { 0int }),
    {
        match mirror_outcome(&responses[i]) {
            MirrorOutcome::Verified => {
                let database = responses[i].database.as_ref().unwrap();
                let repo_hash = hash_database(database).unwrap();
                copy_bytes(cached, database);
                found = Some(SyncResult { mirror: i, repo_hash });
            },
            _ => {
                i = i + 1;
            },
        }
    }
    found
}

/// Makes `target` hold the bytes of `source`.
fn copy_bytes(target: &mut Vec<u8>, source: &Vec<u8>)
    ensures
        final(target)@ == source@,
{
    target.clear();
    let n = source.len();
    let mut i: usize = 0;
    while i < n
        invariant
            n == source.len(),
            i <= n,
            target@ == source@.take(i as int),
        decreases n - i,
    {
        target.push(source[i]);
        assert(target@ =~= source@.take(i + 1));
        i = i + 1;
    }
    assert(source@.take(n as int) =~= source@);
}

/// The address below which a repository's files are fetched from a mirror.
pub fn base_address(source: &Source, mirror: &String) -> (r: String)
    ensures
        r@ == mirror_base(*source, mirror@),
{
    match &source.url {
        Some(url) => url.clone(),
        None => replace_all(mirror.as_str(), "$repo", source.name.as_str()),
    }
}

/// The addresses of a repository's database and of its hash file at a
/// mirror.
pub fn sync_addresses(source: &Source, mirror: &String) -> (r: (String, String))
    ensures
        r.0@ == database_address(mirror_base(*source, mirror@), source.name@),
        r.1@ == hash_address(mirror_base(*source, mirror@), source.name@),
{
    let base = base_address(source, mirror);
    let mut database = base.clone();
    database.append("/");
    database.append(source.name.as_str());
    database.append(".db");
    let mut hash = base;
    hash.append("/");
    hash.append(source.name.as_str());
    hash.append(".hash");
    (database, hash)
}

/// How many addresses are asked for a repository: one for each mirror, or
/// one alone where the repository has a URL of its own, which takes the
/// place of the mirror list.
pub fn mirrors_to_try(source: &Source, mirrors: &Vec<String>) -> (r: usize)
    ensures
        r == if source.url is Some {
            1
        } else {
            mirrors@.len()
        },
{
    if source.url.is_some() {
        1
    } else {
        mirrors.len()
    }
}

} // verus!
