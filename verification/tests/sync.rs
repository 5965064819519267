use ps4::digest::hash_database;
use ps4::records::Source;
use ps4::sync::{
    base_address, mirror_outcome, mirrors_to_try, sync_addresses, sync_repo, verify_database,
    MirrorOutcome, MirrorResponse,
};

const ABC: &str = "ddaf35a193617abacc417349ae20413112e6fa4e89a97ea20a9eeee64b55d39a2192992a274fc1a836ba3c23a3feebbd454d4423643ce80e2a9ac94fa54ca49f";
const NOTHING: &str = "cf83e1357eefb8bdf1542850d66d8007d620e4050b5715dc83f4a921d36ce9ce47d0d13c5d85f2b0ff8318d2877eec2f63b931bd47417a81a538327af927da3e";

fn u(text: &str) -> String {
    text.to_string()
}

fn answer(database: Option<&[u8]>, hash: Option<&str>) -> MirrorResponse {
    MirrorResponse { database: database.map(|d| d.to_vec()), hash: hash.map(|h| u(h)) }
}

#[test]
fn content_hash_is_lowercase_hex_of_sha512() {
    assert_eq!(hash_database(&b"abc".to_vec()), Some(u(ABC)));
    assert_eq!(hash_database(&Vec::new()), Some(u(NOTHING)));
    assert_eq!(hash_database(&b"abc".to_vec()).unwrap().len(), 128);
}

#[test]
fn hash_file_may_end_in_white_space() {
    let db = b"abc".to_vec();
    assert!(verify_database(&db, &u(ABC)));
    assert!(verify_database(&db, &format!("{}\n", ABC)));
    assert!(verify_database(&db, &format!("{}\r\n", ABC)));
    assert!(verify_database(&db, &format!("{} \t\n", ABC)));
    assert!(verify_database(&db, &format!("{}\u{b}\u{a0}\u{2028}", ABC)));
    assert!(!verify_database(&db, &format!("{}\u{200b}", ABC)));
    assert!(!verify_database(&db, &format!(" {}", ABC)));
    assert!(!verify_database(&db, &ABC.to_uppercase()));
    assert!(!verify_database(&db, &u(NOTHING)));
    assert!(!verify_database(&db, &u("")));
    assert!(!verify_database(&b"abd".to_vec(), &u(ABC)));
}

#[test]
fn mismatching_hash_does_not_replace_the_cached_database() {
    let mut cached = b"old".to_vec();
    let responses = vec![answer(Some(b"abc"), Some(NOTHING)), answer(Some(b"tampered"), Some(ABC))];
    let result = sync_repo(&responses, &mut cached);
    assert!(result.is_none());
    assert_eq!(cached, b"old".to_vec());
}

#[test]
fn first_verified_mirror_replaces_the_cached_database() {
    let mut cached = b"old".to_vec();
    let abc_line = format!("{}\n", ABC);
    let responses = vec![
        answer(None, Some(ABC)),
        answer(Some(b"abc"), None),
        answer(Some(b"evil"), Some(ABC)),
        answer(Some(b"abc"), Some(abc_line.as_str())),
        answer(Some(b""), Some(NOTHING)),
    ];
    let result = sync_repo(&responses, &mut cached).unwrap();
    assert_eq!(result.mirror, 3);
    assert_eq!(result.repo_hash, u(ABC));
    assert_eq!(cached, b"abc".to_vec());
}

#[test]
fn no_mirrors_leave_the_cache_alone() {
    let mut cached = b"old".to_vec();
    assert!(sync_repo(&vec![], &mut cached).is_none());
    assert_eq!(cached, b"old".to_vec());
}

#[test]
fn each_answer_has_its_outcome() {
    assert_eq!(mirror_outcome(&answer(None, None)), MirrorOutcome::Unreachable);
    assert_eq!(mirror_outcome(&answer(Some(b"abc"), None)), MirrorOutcome::Unreachable);
    assert_eq!(mirror_outcome(&answer(None, Some(ABC))), MirrorOutcome::Unreachable);
    assert_eq!(mirror_outcome(&answer(Some(b"abc"), Some(ABC))), MirrorOutcome::Verified);
    assert_eq!(
        mirror_outcome(&answer(Some(b"abc"), Some(NOTHING))),
        MirrorOutcome::VerificationFailed
    );
}

#[test]
fn addresses_come_from_the_mirror_or_the_override() {
    let main_repo = Source { name: u("core"), url: None };
    let mirror = u("https://mirror.example/$repo/os/$repo");
    assert_eq!(base_address(&main_repo, &mirror), u("https://mirror.example/core/os/core"));
    assert_eq!(
        sync_addresses(&main_repo, &mirror),
        (
            u("https://mirror.example/core/os/core/core.db"),
            u("https://mirror.example/core/os/core/core.hash")
        )
    );
    let own = Source { name: u("mine"), url: Some(u("http://host/repo")) };
    assert_eq!(
        sync_addresses(&own, &mirror),
        (u("http://host/repo/mine.db"), u("http://host/repo/mine.hash"))
    );
    let mirrors = vec![u("a"), u("b"), u("c")];
    assert_eq!(mirrors_to_try(&main_repo, &mirrors), 3);
    assert_eq!(mirrors_to_try(&own, &mirrors), 1);
    assert_eq!(mirrors_to_try(&own, &vec![]), 1);
    assert_eq!(mirrors_to_try(&main_repo, &vec![]), 0);
}
