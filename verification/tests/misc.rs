use index_scheduler::cluster::{commit_step, encryption_key, CommitStep, Consistency, FollowerMsg};
use index_scheduler::doc_ids::DocIds;
use index_scheduler::doc_index::{match_query_index, DocumentId, Match};
use index_scheduler::documents_addition::DocumentsAddition;
use index_scheduler::errors::{
    check_version, DumpActorError, DumpCode, IndexResolverError, VersionFileError,
};
use index_scheduler::keys::{
    deny_immutable_fields_api_key, option_to_setting, Action, PatchApiKey, Setting, ALL,
    DOCUMENTS_ADD, DOCUMENTS_ALL, DOCUMENTS_DELETE, DOCUMENTS_GET, EXPERIMENTAL_FEATURES_UPDATE,
    INDEXES_ALL, KEYS_GET, SEARCH, SETTINGS_ALL, STATS_ALL, STATS_GET, TASKS_ALL,
};
use index_scheduler::order::Rank;
use index_scheduler::search::{
    CriterionImplementationStrategy, FacetSearchResult, SearchOptions, SimpleMatch,
    TermsMatchingStrategy,
};
use index_scheduler::sort_by::{rank_unread, SortBy};
use index_scheduler::tasks::KindWithContent;

#[test]
fn actions_from_their_bits() {
    assert_eq!(SEARCH, 1);
    assert_eq!(DOCUMENTS_ALL, DOCUMENTS_ADD | DOCUMENTS_GET | DOCUMENTS_DELETE);
    assert_eq!(INDEXES_ALL, 0b1_1111_0000);
    assert_eq!(TASKS_ALL, 0b1110_0000_0000);
    assert_eq!(SETTINGS_ALL, 0b11_0000_0000_0000);
    assert_eq!(ALL, (1 << 25) - 1);
    assert_eq!(Action::from_repr(SEARCH).unwrap().repr(), 1);
    assert_eq!(Action::from_repr(DOCUMENTS_ALL).unwrap().repr(), 14);
    assert_eq!(Action::from_repr(ALL).unwrap().bits(), ALL);
    assert_eq!(Action::from_repr(STATS_ALL), Action::from_repr(STATS_GET));
    assert_eq!(Action::from_repr(0), None);
    assert_eq!(Action::from_repr(3), None);
    assert_eq!(Action::from_repr(1 << 25), None);
    assert_eq!(Action::from_repr(u32::MAX), None);
    let all = Action::from_repr(ALL).unwrap();
    let get = Action::from_repr(KEYS_GET).unwrap();
    assert!(all.contains(&get));
    assert!(!get.contains(&all));
    assert!(Action::from_repr(DOCUMENTS_ALL).unwrap().contains(&Action::from_repr(DOCUMENTS_GET).unwrap()));
}

#[test]
fn actions_by_name() {
    assert_eq!(Action::get_action("*"), Action::from_repr(ALL));
    assert_eq!(Action::get_action("search"), Action::from_repr(SEARCH));
    assert_eq!(Action::get_action("documents.*"), Action::from_repr(DOCUMENTS_ALL));
    assert_eq!(Action::get_action("documents.add"), Action::from_repr(DOCUMENTS_ADD));
    assert_eq!(Action::get_action("stats.get"), Action::from_repr(STATS_GET));
    assert_eq!(
        Action::get_action("experimental.update"),
        Action::from_repr(EXPERIMENTAL_FEATURES_UPDATE)
    );
    assert_eq!(Action::get_action("documents"), None);
    assert_eq!(Action::get_action(""), None);
    assert_eq!(Action::get_action("Search"), None);
    assert_eq!(Action::get_action_serde_name(&Action::from_repr(ALL).unwrap()), "*");
    assert_eq!(Action::get_action_serde_name(&Action::from_repr(SEARCH).unwrap()), "search");
    assert_eq!(Action::get_action_serde_name(&Action::from_repr(KEYS_GET).unwrap()), "keys.get");
    assert_eq!(Action::get_action_serde_name(&Action::from_repr(STATS_GET).unwrap()), "stats.*");
    assert_eq!(
        Action::get_action_serde_name(&Action::from_repr(EXPERIMENTAL_FEATURES_UPDATE).unwrap()),
        "experimental.update"
    );
    for name in ["tasks.cancel", "indexes.swap", "settings.update", "version", "keys.delete"] {
        let action = Action::get_action(name).unwrap();
        assert_eq!(Action::get_action_serde_name(&action), name);
    }
}

#[test]
fn api_key_patches() {
    assert_eq!(option_to_setting(Some(Some(3))), Setting::Value(3));
    assert_eq!(option_to_setting::<u8>(Some(None)), Setting::Reset);
    assert_eq!(option_to_setting::<u8>(None), Setting::NotSet);
    let patch = PatchApiKey { description: Setting::Value("d".to_string()), name: Setting::NotSet };
    assert_eq!(patch.description, Setting::Value("d".to_string()));
    assert_eq!(patch.name, Setting::NotSet);
    for field in ["uid", "actions", "indexes", "expiresAt", "createdAt", "updatedAt"] {
        assert!(deny_immutable_fields_api_key(field));
    }
    for field in ["name", "description", "expires_at", "", "Uid"] {
        assert!(!deny_immutable_fields_api_key(field));
    }
}

#[test]
fn consistency_levels() {
    assert_eq!(Consistency::default(), Consistency::All);
    assert_eq!(Consistency::parse("one"), Ok(Consistency::One));
    assert_eq!(Consistency::parse("two"), Ok(Consistency::Two));
    assert_eq!(Consistency::parse("quorum"), Ok(Consistency::Quorum));
    assert_eq!(Consistency::parse("all"), Ok(Consistency::All));
    assert_eq!(
        Consistency::parse("three"),
        Err("Unexpected value `three`, expected one of `one`, `two`, `quorum`, `all`".to_string())
    );
    assert_eq!(
        Consistency::parse("One"),
        Err("Unexpected value `One`, expected one of `one`, `two`, `quorum`, `all`".to_string())
    );
    for level in [Consistency::One, Consistency::Two, Consistency::Quorum, Consistency::All] {
        assert_eq!(Consistency::parse(level.as_str()), Ok(level));
        assert_eq!(level.to_string(), level.as_str());
    }
    assert_eq!(Consistency::Quorum.to_string(), "quorum");
    assert_eq!(Consistency::One.required(5), 1);
    assert_eq!(Consistency::Two.required(5), 2);
    assert_eq!(Consistency::Two.required(1), 1);
    assert_eq!(Consistency::Quorum.required(5), 3);
    assert_eq!(Consistency::Quorum.required(4), 3);
    assert_eq!(Consistency::Quorum.required(1), 1);
    assert_eq!(Consistency::Quorum.required(0), 0);
    assert_eq!(Consistency::All.required(5), 5);
    assert_eq!(Consistency::One.required(0), 0);
}

#[test]
fn followers_commit_in_step() {
    assert_eq!(commit_step(4, 4), CommitStep::Commit);
    assert_eq!(commit_step(4, 3), CommitStep::KeepWaiting);
    assert_eq!(commit_step(4, 5), CommitStep::MissedBatch);
    assert_eq!(commit_step(0, 0), CommitStep::Commit);
    let msg = FollowerMsg::ReadyToCommit(4);
    assert!(matches!(msg, FollowerMsg::ReadyToCommit(4)));
    let msg = FollowerMsg::RegisterNewTask(KindWithContent::SnapshotCreation);
    assert!(matches!(msg, FollowerMsg::RegisterNewTask(KindWithContent::SnapshotCreation)));
}

#[test]
fn encryption_key_is_cut_or_padded() {
    let (key, secure) = encryption_key(b"short");
    assert_eq!(key.len(), 32);
    assert_eq!(&key[..5], b"short");
    assert!(key[5..].iter().all(|b| *b == 0));
    assert!(!secure);
    let long: Vec<u8> = (0..40u8).collect();
    let (key, secure) = encryption_key(&long);
    assert_eq!(key, (0..32u8).collect::<Vec<u8>>());
    assert!(secure);
    let (key, secure) = encryption_key(&[]);
    assert_eq!(key, vec![0u8; 32]);
    assert!(!secure);
}

#[test]
fn dump_errors() {
    assert_eq!(DumpActorError::DumpAlreadyRunning.error_code(), DumpCode::DumpAlreadyInProgress);
    assert_eq!(DumpActorError::DumpDoesNotExist("d1".to_string()).error_code(), DumpCode::NotFound);
    assert_eq!(DumpActorError::internal("disk").error_code(), DumpCode::Internal);
    assert_eq!(DumpActorError::internal("disk"), DumpActorError::Internal("disk".to_string()));
    assert_eq!(
        DumpActorError::IndexResolver(IndexResolverError::UnexistingIndex("i".to_string()))
            .error_code(),
        DumpCode::IndexNotFound
    );
    assert_eq!(
        DumpActorError::IndexResolver(IndexResolverError::IndexAlreadyExists("i".to_string()))
            .error_code(),
        DumpCode::IndexAlreadyExists
    );
    assert_eq!(
        DumpActorError::IndexResolver(IndexResolverError::BadlyFormatted("i".to_string()))
            .error_code(),
        DumpCode::InvalidIndexUid
    );
    assert_eq!(DumpActorError::DumpAlreadyRunning.message(), "Another dump is already in progress");
    assert_eq!(DumpActorError::DumpDoesNotExist("d1".to_string()).message(), "Dump `d1` not found.");
    assert_eq!(DumpActorError::internal("disk").message(), "Internal error: disk");
    assert_eq!(
        DumpActorError::IndexResolver(IndexResolverError::UnexistingIndex("i".to_string()))
            .message(),
        "Index `i` not found."
    );
}

#[test]
fn version_file_errors() {
    assert_eq!(VersionFileError::MissingVersionFile.message("1.2.3"), "Version file is missing");
    assert_eq!(VersionFileError::EmptyVersionFile.message("1.2.3"), "Version file is empty");
    assert_eq!(VersionFileError::MalformedVersionFile.message("1.2.3"), "Version file is malformed");
    let mismatch = VersionFileError::VersionMismatch {
        major: "0".to_string(),
        minor: "25".to_string(),
        patch: "1".to_string(),
    };
    assert_eq!(
        mismatch.message("0.26.0"),
        "Expected MeiliSearch engine version: 0.25.1, current engine version: 0.26.0"
    );
    let parts = |s: &str| s.split('.').filter(|p| !p.is_empty()).map(|p| p.to_string()).collect();
    assert_eq!(check_version(&parts("0.26.4"), "0", "26"), Ok(()));
    assert_eq!(check_version(&parts("0.25.1"), "0", "26"), Err(mismatch));
    assert_eq!(check_version(&parts(""), "0", "26"), Err(VersionFileError::EmptyVersionFile));
    assert_eq!(check_version(&parts("0.26"), "0", "26"), Err(VersionFileError::MalformedVersionFile));
    assert_eq!(
        check_version(&parts("0.26.1.2"), "0", "26"),
        Err(VersionFileError::MalformedVersionFile)
    );
}

#[test]
fn doc_ids_as_bytes() {
    let ids = vec![DocumentId(1), DocumentId(0x0102_0304_0506_0708), DocumentId(u64::MAX)];
    let doc_ids = DocIds::new(&ids);
    assert!(!doc_ids.is_empty());
    assert_eq!(doc_ids.len(), 3);
    assert_eq!(doc_ids.as_bytes().len(), 24);
    assert_eq!(&doc_ids.as_bytes()[..8], &[1, 0, 0, 0, 0, 0, 0, 0]);
    assert_eq!(&doc_ids.as_bytes()[8..16], &[8, 7, 6, 5, 4, 3, 2, 1]);
    for (i, id) in ids.iter().enumerate() {
        assert_eq!(doc_ids.get(i), *id);
    }
    let mut out = vec![0xaa];
    doc_ids.write_to_bytes(&mut out);
    assert_eq!(out.len(), 1 + 8 + 24);
    assert_eq!(out[0], 0xaa);
    assert_eq!(&out[1..9], &[24, 0, 0, 0, 0, 0, 0, 0]);
    assert_eq!(&out[9..], doc_ids.as_bytes());
    let back = DocIds::from_bytes(out[9..].to_vec());
    assert_eq!(back, doc_ids);
    let empty = DocIds::new(&vec![]);
    assert!(empty.is_empty());
    assert_eq!(empty.len(), 0);
    assert_eq!(empty.as_bytes(), &[] as &[u8]);
}

#[test]
fn documents_are_gathered_in_order() {
    let mut addition: DocumentsAddition<&str> = DocumentsAddition::new();
    assert!(!addition.is_partial());
    assert_eq!(addition.len(), 0);
    addition.update_document("a");
    addition.update_document("b");
    addition.update_document("a");
    assert_eq!(addition.len(), 3);
    assert_eq!(addition.into_documents(), vec!["a", "b", "a"]);
    let partial: DocumentsAddition<u8> = DocumentsAddition::new_partial();
    assert!(partial.is_partial());
    assert!(partial.into_documents().is_empty());
}

#[test]
fn search_settings() {
    assert_eq!(TermsMatchingStrategy::default(), TermsMatchingStrategy::Last);
    assert_eq!(
        CriterionImplementationStrategy::default(),
        CriterionImplementationStrategy::Dynamic
    );
    let mut options = SearchOptions::new();
    assert_eq!(options.query, None);
    assert_eq!(options.offset, 0);
    assert_eq!(options.limit, 20);
    assert_eq!(options.words_limit, 10);
    assert!(options.authorize_typos);
    assert!(!options.exhaustive_number_hits);
    // typos are authorized only if both the index and the query allow it
    assert!(options.is_typo_authorized(true));
    assert!(!options.is_typo_authorized(false));
    options.authorize_typos = false;
    assert!(!options.is_typo_authorized(true));
    assert!(!options.is_typo_authorized(false));
    assert_eq!(options.window(100), (0, 20));
    assert_eq!(options.window(7), (0, 7));
    options.offset = 5;
    assert_eq!(options.window(7), (5, 2));
    assert_eq!(options.window(3), (3, 0));
    options.limit = 0;
    assert_eq!(options.window(100), (5, 0));
    let hit = FacetSearchResult { value: "red".to_string(), count: 3 };
    assert_eq!(hit.count, 3);
    let a = SimpleMatch { query_index: 0, distance: 1, attribute: 2, word_index: 3, is_exact: true };
    let b = SimpleMatch { query_index: 0, distance: 2, attribute: 0, word_index: 0, is_exact: false };
    assert!(a < b);
}

#[test]
fn unread_documents_sort_first() {
    let _criterion: SortBy<String> = SortBy::new();
    assert_eq!(rank_unread(true, true), None);
    assert_eq!(rank_unread(false, false), Some(Rank::Same));
    assert_eq!(rank_unread(false, true), Some(Rank::Before));
    assert_eq!(rank_unread(true, false), Some(Rank::After));
}

#[test]
fn matches_of_the_same_query_word() {
    let a = Match { query_index: 2, ..Match::zero() };
    let b = Match { query_index: 2, distance: 1, ..Match::zero() };
    let c = Match { query_index: 3, ..Match::zero() };
    assert!(match_query_index(&a, &b));
    assert!(!match_query_index(&a, &c));
}
