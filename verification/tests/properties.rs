use open_build_service_mock::checksum::md5_hex;
use open_build_service_mock::codes::{
    package_code_str, parse_package_code, repo_code_str, MockPackageCode, MockRepositoryCode,
};
use open_build_service_mock::handlers_build::BuildLogResult;
use open_build_service_mock::handlers_source::{CommitEntry, CommitOutcome};
use open_build_service_mock::monitor::{
    run_monitor, MonitorOutcome, PollResult,
};
use open_build_service_mock::handlers_build::PackageStatusView;
use open_build_service_mock::numtext::{parse_usize, u64_string};
use open_build_service_mock::project::{MockBuildLog, MockBuildStatus};
use open_build_service_mock::registry::ObsMock;
use open_build_service_mock::request::Credentials;
use open_build_service_mock::source::{
    MockPackageOptions, MockRevisionOptions, MockSourceFile, ZERO_REV_SRCMD5,
};
use open_build_service_mock::xmltext::{render_package_meta, render_status_xml};

fn mock() -> ObsMock {
    ObsMock::new("user", "pass")
}

fn auth() -> Credentials {
    Credentials {
        username: "user".to_owned(),
        password: "pass".to_owned(),
    }
}

fn q(pairs: &[(&str, &str)]) -> Vec<(String, String)> {
    pairs
        .iter()
        .map(|(k, v)| ((*k).to_owned(), (*v).to_owned()))
        .collect()
}

fn seeded() -> ObsMock {
    let mut m = mock();
    m.add_project("proj".to_owned());
    m.add_new_package("proj", "pkg".to_owned(), MockPackageOptions::default());
    m
}

/// Committing a fully uploaded file list is accepted and the listing shows
/// exactly those entries.
#[test]
fn commit_roundtrip_lists_entries() {
    let mut m = seeded();
    let creds = auth();
    let contents = b"payload bytes";
    m.add_package_files(
        "proj",
        "pkg",
        MockSourceFile {
            path: "a.txt".to_owned(),
            contents: contents.to_vec(),
        },
    );
    let list: Result<Vec<CommitEntry>, String> = Ok(vec![CommitEntry {
        name: "a.txt".to_owned(),
        md5: md5_hex(contents),
    }]);
    let out = m
        .source_commit(
            Some(&creds),
            "proj",
            "pkg",
            &q(&[("cmd", "commitfilelist")]),
            &list,
        )
        .unwrap();
    match out {
        CommitOutcome::Added(d) => {
            assert_eq!(d.rev, Some(1));
            assert_eq!(d.entries.len(), 1);
            assert_eq!(d.entries[0].name, "a.txt");
            assert_eq!(d.entries[0].md5, md5_hex(contents));
        }
        _ => panic!("expected the commit to be accepted"),
    }
}

/// Uploading identical bytes twice yields the same checksum and no revision.
#[test]
fn idempotent_storage_same_checksum() {
    let mut m = seeded();
    let creds = auth();
    let contents = b"same bytes";
    let k1 = m.add_package_files(
        "proj",
        "pkg",
        MockSourceFile {
            path: "f".to_owned(),
            contents: contents.to_vec(),
        },
    );
    let k2 = m.add_package_files(
        "proj",
        "pkg",
        MockSourceFile {
            path: "f".to_owned(),
            contents: contents.to_vec(),
        },
    );
    assert_eq!(k1.md5, k2.md5);
    // no revision was created by storing content alone
    let dir = m
        .source_listing(Some(&creds), "proj", "pkg", &Vec::new())
        .unwrap();
    assert_eq!(dir.rev, None);
    assert_eq!(dir.srcmd5, ZERO_REV_SRCMD5);
    assert_eq!(dir.entries.len(), 0);
}

/// A commit with a missing entry creates no revision and leaves the latest
/// listing unchanged.
#[test]
fn commit_atomicity_on_missing() {
    let mut m = seeded();
    let creds = auth();
    let list: Result<Vec<CommitEntry>, String> = Ok(vec![CommitEntry {
        name: "absent".to_owned(),
        md5: "0123456789abcdef0123456789abcdef".to_owned(),
    }]);
    let before = m
        .source_listing(Some(&creds), "proj", "pkg", &Vec::new())
        .unwrap();
    let out = m
        .source_commit(
            Some(&creds),
            "proj",
            "pkg",
            &q(&[("cmd", "commitfilelist")]),
            &list,
        )
        .unwrap();
    match out {
        CommitOutcome::Missing(missing) => {
            assert_eq!(missing.len(), 1);
            assert_eq!(missing[0].name, "absent");
        }
        _ => panic!("expected missing entries"),
    }
    let after = m
        .source_listing(Some(&creds), "proj", "pkg", &Vec::new())
        .unwrap();
    assert_eq!(before.rev, after.rev);
    assert_eq!(before.entries.len(), after.entries.len());
}

/// Revision zero always shows the fixed empty-tree checksum and no entries,
/// and an out-of-range revision is a bad request.
#[test]
fn revision_zero_and_out_of_range() {
    let mut m = seeded();
    let creds = auth();
    m.add_package_revision(
        "proj",
        "pkg",
        MockRevisionOptions::default(),
        Vec::new(),
    );
    let zero = m
        .source_listing(Some(&creds), "proj", "pkg", &q(&[("rev", "0")]))
        .unwrap();
    assert_eq!(zero.rev, None);
    assert_eq!(zero.srcmd5, ZERO_REV_SRCMD5);
    assert_eq!(zero.entries.len(), 0);

    let err = m
        .source_listing(Some(&creds), "proj", "pkg", &q(&[("rev", "2")]))
        .unwrap_err();
    assert_eq!(err.http_status, 400);
    assert_eq!(err.summary, "no such revision");
}

/// Commits without a version share one counter; a tagged commit starts its
/// own counter at one.
#[test]
fn vrev_counters() {
    let mut m = seeded();
    let creds = auth();
    m.add_package_revision("proj", "pkg", MockRevisionOptions::default(), Vec::new());
    m.add_package_revision("proj", "pkg", MockRevisionOptions::default(), Vec::new());
    let dir = m
        .source_listing(Some(&creds), "proj", "pkg", &Vec::new())
        .unwrap();
    assert_eq!(dir.vrev, Some(2));

    m.add_package_revision(
        "proj",
        "pkg",
        MockRevisionOptions {
            version: Some("2.0".to_owned()),
            ..Default::default()
        },
        Vec::new(),
    );
    let dir = m
        .source_listing(Some(&creds), "proj", "pkg", &Vec::new())
        .unwrap();
    assert_eq!(dir.vrev, Some(1));

    m.add_package_revision("proj", "pkg", MockRevisionOptions::default(), Vec::new());
    let dir = m
        .source_listing(Some(&creds), "proj", "pkg", &Vec::new())
        .unwrap();
    assert_eq!(dir.vrev, Some(3));
}

/// The result filter returns exactly the filtered statuses and fails with
/// not-found when the filter names a package absent from some pair.
#[test]
fn result_filtering() {
    let mut m = mock();
    let creds = auth();
    m.add_project("proj".to_owned());
    m.add_or_update_repository("proj", "repo".to_owned(), "x".to_owned(), MockRepositoryCode::Building);
    m.set_package_build_status(
        "proj",
        "repo",
        "x",
        "a".to_owned(),
        MockBuildStatus::new(MockPackageCode::Succeeded),
    );
    m.set_package_build_status(
        "proj",
        "repo",
        "x",
        "b".to_owned(),
        MockBuildStatus::new(MockPackageCode::Failed),
    );

    let rl = m
        .build_results(Some(&creds), "proj", &q(&[("package", "a")]))
        .unwrap();
    assert_eq!(rl.results.len(), 1);
    assert_eq!(rl.results[0].statuses.len(), 1);
    assert_eq!(rl.results[0].statuses[0].package, "a");
    assert!(matches!(
        rl.results[0].statuses[0].code,
        MockPackageCode::Succeeded
    ));

    let err = m
        .build_results(Some(&creds), "proj", &q(&[("package", "ghost")]))
        .unwrap_err();
    assert_eq!(err.http_status, 404);
    assert_eq!(err.summary, "unknown package 'ghost'");
}

/// Log reads clamp to the log length and the simulated chunk size, and a
/// start past the end is a bad request.
#[test]
fn log_range_clamping() {
    let mut m = mock();
    let creds = auth();
    m.add_project("proj".to_owned());
    m.add_or_update_repository("proj", "repo".to_owned(), "x".to_owned(), MockRepositoryCode::Building);
    m.add_completed_build_log(
        "proj",
        "repo",
        "x",
        "pkg".to_owned(),
        MockBuildLog {
            contents: "0123456789".to_owned(),
            mtime: 7,
            chunk_size: Some(4),
        },
        true,
    );

    let read = |pairs: &[(&str, &str)]| -> Result<BuildLogResult, _> {
        m.build_log(Some(&creds), "proj", "repo", "x", "pkg", &q(pairs))
    };

    match read(&[("start", "2"), ("end", "9")]).unwrap() {
        BuildLogResult::Contents(text) => assert_eq!(text, "2345"),
        _ => panic!("expected contents"),
    }
    match read(&[("start", "8")]).unwrap() {
        BuildLogResult::Contents(text) => assert_eq!(text, "89"),
        _ => panic!("expected contents"),
    }
    let err = read(&[("start", "11")]).unwrap_err();
    assert_eq!(err.http_status, 400);
    assert_eq!(err.summary, "remote error: start out of range  11");
}

fn poll(repo: &str, arch: &str, dirty: bool, code: MockPackageCode) -> PollResult {
    PollResult {
        repository: repo.to_owned(),
        arch: arch.to_owned(),
        dirty,
        statuses: vec![PackageStatusView {
            package: "pkg".to_owned(),
            code,
            dirty: false,
        }],
    }
}

/// The monitor polls until every tracked pair is final, then classifies the
/// outcome; all-excluded polls classify as the distinct excluded outcome.
#[test]
fn monitor_termination_and_outcomes() {
    // three polls; the second still shows a non-final code
    let polls = vec![
        vec![poll("r", "x", false, MockPackageCode::Building)],
        vec![poll("r", "x", false, MockPackageCode::Building)],
        vec![poll("r", "x", false, MockPackageCode::Succeeded)],
    ];
    let r = run_monitor(&polls, "pkg");
    assert_eq!(r, Some((MonitorOutcome::Succeeded, 3)));

    let polls = vec![
        vec![
            poll("r", "x", false, MockPackageCode::Building),
            poll("r", "y", false, MockPackageCode::Excluded),
        ],
        vec![
            poll("r", "x", false, MockPackageCode::Excluded),
            poll("r", "y", false, MockPackageCode::Disabled),
        ],
    ];
    let r = run_monitor(&polls, "pkg");
    assert_eq!(r, Some((MonitorOutcome::ExcludedDisabled, 2)));

    let polls = vec![vec![
        poll("r", "x", false, MockPackageCode::Failed),
        poll("r", "y", false, MockPackageCode::Succeeded),
    ]];
    let r = run_monitor(&polls, "pkg");
    assert_eq!(r, Some((MonitorOutcome::BuildFailed, 1)));

    // a dirty result reads as Unknown, which is not final
    let polls = vec![vec![poll("r", "x", true, MockPackageCode::Succeeded)]];
    let r = run_monitor(&polls, "pkg");
    assert_eq!(r, None);
}

/// A dirty poll never overwrites a known code with Unknown.
#[test]
fn monitor_keeps_known_code_over_unknown() {
    let polls = vec![
        vec![poll("r", "x", false, MockPackageCode::Failed)],
        vec![poll("r", "x", true, MockPackageCode::Succeeded)],
    ];
    // the first poll already shows a final code everywhere
    let r = run_monitor(&polls, "pkg");
    assert_eq!(r, Some((MonitorOutcome::BuildFailed, 1)));
}

/// Rebuild with one unknown name changes nothing anywhere.
#[test]
fn rebuild_all_or_nothing() {
    let mut m = seeded();
    let creds = auth();
    m.add_or_update_repository("proj", "repo".to_owned(), "x".to_owned(), MockRepositoryCode::Building);
    m.set_package_build_status(
        "proj",
        "repo",
        "x",
        "pkg".to_owned(),
        MockBuildStatus::new(MockPackageCode::Failed),
    );

    let err = m
        .rebuild(
            Some(&creds),
            "proj",
            &q(&[("cmd", "rebuild"), ("package", "pkg"), ("package", "ghost")]),
        )
        .unwrap_err();
    assert_eq!(err.http_status, 404);
    assert_eq!(err.code, "not_found");
    assert!(err.summary.contains("unknown package 'ghost'"));

    let st = m
        .build_status(Some(&creds), "proj", "repo", "x", "pkg")
        .unwrap();
    assert!(matches!(st.code, MockPackageCode::Failed));

    // and with only known names, every status is reset
    m.rebuild(Some(&creds), "proj", &q(&[("cmd", "rebuild")])).unwrap();
    let st = m
        .build_status(Some(&creds), "proj", "repo", "x", "pkg")
        .unwrap();
    assert!(matches!(st.code, MockPackageCode::Unknown));
}

/// The documented wire errors for bad parameters.
#[test]
fn parameter_errors() {
    let mut m = seeded();
    let creds = auth();
    let bad = Credentials {
        username: "user".to_owned(),
        password: "wrong".to_owned(),
    };

    let err = m
        .source_listing(Some(&bad), "proj", "pkg", &Vec::new())
        .unwrap_err();
    assert_eq!(err.http_status, 401);

    let err = m
        .source_listing(Some(&creds), "ghost", "pkg", &Vec::new())
        .unwrap_err();
    assert_eq!(err.http_status, 404);
    assert_eq!(err.code, "unknown_project");

    let err = m
        .source_listing(Some(&creds), "proj", "ghost", &Vec::new())
        .unwrap_err();
    assert_eq!(err.code, "unknown_package");

    let err = m
        .source_listing(Some(&creds), "proj", "pkg", &q(&[("meta", "yes")]))
        .unwrap_err();
    assert_eq!(err.summary, "not boolean");

    let err = m
        .source_listing(Some(&creds), "proj", "pkg", &q(&[("rev", "x1")]))
        .unwrap_err();
    assert_eq!(err.summary, "bad revision 'x1'");

    let err = m
        .build_log(Some(&creds), "proj", "r", "x", "pkg", &q(&[("start", "")]))
        .unwrap_err();
    assert_eq!(err.summary, "number is empty");

    let err = m
        .build_log(Some(&creds), "proj", "r", "x", "pkg", &q(&[("bogus", "1")]))
        .unwrap_err();
    assert_eq!(err.summary, "unknown parameter 'bogus'");

    let err = m
        .build_log(
            Some(&creds),
            "proj",
            "r",
            "x",
            "pkg",
            &q(&[("lastsucceeded", "maybe")]),
        )
        .unwrap_err();
    assert_eq!(err.summary, "not a boolean");

    let err = m
        .rebuild(Some(&creds), "proj", &q(&[("cmd", "rebuild"), ("arch", "x")]))
        .unwrap_err();
    assert_eq!(err.http_status, 421);
    assert_eq!(err.code, "unsupported");

    let err = m.rebuild(Some(&creds), "proj", &Vec::new()).unwrap_err();
    assert_eq!(err.code, "missing_parameter");

    let err = m
        .source_commit(
            Some(&creds),
            "proj",
            "pkg",
            &q(&[("cmd", "delete")]),
            &Ok(Vec::new()),
        )
        .unwrap_err();
    assert_eq!(err.code, "illegal_request");
    assert_eq!(err.summary, "invalid_command");
}

/// The MD5 wrapper really digests: the digest of the empty input is the
/// well-known empty checksum, and different bytes give different checksums.
#[test]
fn md5_wrapper_digests() {
    assert_eq!(md5_hex(b""), "d41d8cd98f00b204e9800998ecf8427e");
    assert_eq!(md5_hex(b"abc"), "900150983cd24fb0d6963f7d28e17f72");
    assert_ne!(md5_hex(b"a"), md5_hex(b"b"));
    assert_eq!(open_build_service_mock::checksum::random_md5().len(), 32);
}

/// The XML wrappers really render: the status document carries its code and
/// summary, and the metadata document carries the package element.
#[test]
fn xml_wrappers_render() {
    let s = render_status_xml("not_found", "boom");
    assert!(s.contains("<status"));
    assert!(s.contains("not_found"));
    assert!(s.contains("<summary>boom</summary>"));

    let meta = render_package_meta("p1", "p2");
    let text = String::from_utf8(meta).unwrap();
    assert!(text.contains("<package"));
    assert!(text.contains("p1"));
    assert!(text.contains("<title>"));
}

/// The quirk of the rebuild validation error: the inner error document is
/// nested, rendered, inside the outer summary.
#[test]
fn rebuild_error_nests_rendered_document() {
    let mut m = seeded();
    let creds = auth();
    let err = m
        .rebuild(
            Some(&creds),
            "proj",
            &q(&[("cmd", "rebuild"), ("package", "nope")]),
        )
        .unwrap_err();
    assert_eq!(err.code, "not_found");
    assert_eq!(
        err.summary,
        render_status_xml("404", "unknown package 'nope'")
    );
}

/// Decimal parsing matches what the standard parser accepts.
#[test]
fn decimal_text() {
    assert_eq!(parse_usize("0"), Some(0));
    assert_eq!(parse_usize("123"), Some(123));
    assert_eq!(parse_usize("+42"), Some(42));
    assert_eq!(parse_usize(""), None);
    assert_eq!(parse_usize("+"), None);
    assert_eq!(parse_usize("12x"), None);
    assert_eq!(parse_usize("99999999999999999999999999"), None);
    assert_eq!(u64_string(0), "0");
    assert_eq!(u64_string(12345), "12345");
}

/// The wire strings of the status codes round-trip.
#[test]
fn code_wire_strings() {
    assert_eq!(repo_code_str(MockRepositoryCode::Publishing), "publishing");
    assert_eq!(package_code_str(MockPackageCode::Unresolvable), "unresolvable");
    let all = [
        MockPackageCode::Unresolvable,
        MockPackageCode::Succeeded,
        MockPackageCode::Dispatching,
        MockPackageCode::Failed,
        MockPackageCode::Broken,
        MockPackageCode::Disabled,
        MockPackageCode::Excluded,
        MockPackageCode::Blocked,
        MockPackageCode::Locked,
        MockPackageCode::Unknown,
        MockPackageCode::Scheduled,
        MockPackageCode::Building,
        MockPackageCode::Finished,
    ];
    for c in all {
        assert_eq!(parse_package_code(package_code_str(c)), Some(c));
    }
}

/// The chosen partition of final codes, made explicit: the monitor stops on
/// these and keeps polling on the rest.
#[test]
fn final_code_partition() {
    assert!(MockPackageCode::Succeeded.is_final());
    assert!(MockPackageCode::Failed.is_final());
    assert!(MockPackageCode::Broken.is_final());
    assert!(MockPackageCode::Unresolvable.is_final());
    assert!(MockPackageCode::Disabled.is_final());
    assert!(MockPackageCode::Excluded.is_final());
    assert!(!MockPackageCode::Scheduled.is_final());
    assert!(!MockPackageCode::Dispatching.is_final());
    assert!(!MockPackageCode::Building.is_final());
    assert!(!MockPackageCode::Blocked.is_final());
    assert!(!MockPackageCode::Locked.is_final());
    assert!(!MockPackageCode::Unknown.is_final());
    assert!(!MockPackageCode::Finished.is_final());
}

/// Branching fails closed when the destination package already exists.
#[test]
fn branch_conflict_fails_closed() {
    let mut m = seeded();
    m.add_package_revision("proj", "pkg", MockRevisionOptions::default(), Vec::new());
    m.add_new_package("proj", "dest".to_owned(), MockPackageOptions::default());
    let err = m
        .branch(
            "proj".to_owned(),
            "pkg".to_owned(),
            "proj",
            "dest".to_owned(),
            Default::default(),
        )
        .unwrap_err();
    assert_eq!(err.http_status, 409);
}

/// Placing a file without `rev=repository` is refused as unsupported.
#[test]
fn placement_requires_repository_rev() {
    let mut m = seeded();
    let creds = auth();
    let err = m
        .source_placement(
            Some(&creds),
            "proj",
            "pkg",
            "file",
            &Vec::new(),
            b"data".to_vec(),
        )
        .unwrap_err();
    assert_eq!(err.http_status, 421);
    assert_eq!(err.code, "unsupported");
}

/// Updating an existing repository entry changes its lifecycle code and
/// keeps the package states it already carried.
#[test]
fn repository_update_keeps_statuses() {
    let mut m = seeded();
    let creds = auth();
    m.add_or_update_repository("proj", "repo".to_owned(), "x".to_owned(), MockRepositoryCode::Building);
    m.set_package_build_status(
        "proj",
        "repo",
        "x",
        "pkg".to_owned(),
        MockBuildStatus::new(MockPackageCode::Succeeded),
    );
    m.add_or_update_repository("proj", "repo".to_owned(), "x".to_owned(), MockRepositoryCode::Published);

    let rl = m.build_results(Some(&creds), "proj", &Vec::new()).unwrap();
    assert_eq!(rl.results.len(), 1);
    assert!(matches!(rl.results[0].code, MockRepositoryCode::Published));
    assert_eq!(rl.results[0].statuses.len(), 1);
    assert!(matches!(
        rl.results[0].statuses[0].code,
        MockPackageCode::Succeeded
    ));
}

/// A package created implicitly by metadata placement serves the generated
/// metadata document back.
#[test]
fn meta_placement_creates_package() {
    let mut m = mock();
    let creds = auth();
    m.add_project("proj".to_owned());
    m.source_placement(
        Some(&creds),
        "proj",
        "fresh",
        "_meta",
        &Vec::new(),
        Vec::new(),
    )
    .unwrap();

    let meta_dir = m
        .source_listing(Some(&creds), "proj", "fresh", &q(&[("meta", "1")]))
        .unwrap();
    assert_eq!(meta_dir.rev, Some(1));
    assert_eq!(meta_dir.entries.len(), 1);
    assert_eq!(meta_dir.entries[0].name, "_meta");

    let served = m
        .source_file(Some(&creds), "proj", "fresh", "_meta")
        .unwrap();
    assert_eq!(served, render_package_meta("proj", "fresh"));
}

/// Binary queries answer an empty listing and a not-found fetch while no
/// binary exists.
#[test]
fn binaries_empty_and_missing() {
    let mut m = seeded();
    let creds = auth();
    m.add_or_update_repository("proj", "repo".to_owned(), "x".to_owned(), MockRepositoryCode::Building);
    m.set_package_build_status(
        "proj",
        "repo",
        "x",
        "pkg".to_owned(),
        MockBuildStatus::new(MockPackageCode::Succeeded),
    );
    let bins = m
        .binary_list(Some(&creds), "proj", "repo", "x", "pkg")
        .unwrap();
    assert_eq!(bins.len(), 0);
    let err = m
        .binary_file(Some(&creds), "proj", "repo", "x", "pkg", "ghost.rpm")
        .unwrap_err();
    assert_eq!(err.http_status, 404);
    assert_eq!(err.summary, "ghost.rpm: No such file or directory");

    let err = m
        .arch_listing(Some(&creds), "proj", "ghost")
        .unwrap_err();
    assert_eq!(err.summary, "project 'proj' has no repository 'ghost'");
    let err = m
        .build_status(Some(&creds), "proj", "repo", "arm", "pkg")
        .unwrap_err();
    assert_eq!(err.summary, "repository 'proj/repo' has no architecture 'arm'");
}

/// The `lastsucceeded` switch selects the latest successful log only.
#[test]
fn last_successful_log_selection() {
    let mut m = mock();
    let creds = auth();
    m.add_project("proj".to_owned());
    m.add_or_update_repository("proj", "repo".to_owned(), "x".to_owned(), MockRepositoryCode::Building);
    m.add_completed_build_log(
        "proj",
        "repo",
        "x",
        "pkg".to_owned(),
        MockBuildLog {
            contents: "good run".to_owned(),
            mtime: 1,
            chunk_size: None,
        },
        true,
    );
    m.add_completed_build_log(
        "proj",
        "repo",
        "x",
        "pkg".to_owned(),
        MockBuildLog {
            contents: "bad run".to_owned(),
            mtime: 2,
            chunk_size: None,
        },
        false,
    );
    match m
        .build_log(Some(&creds), "proj", "repo", "x", "pkg", &Vec::new())
        .unwrap()
    {
        BuildLogResult::Contents(text) => assert_eq!(text, "bad run"),
        _ => panic!("expected contents"),
    }
    match m
        .build_log(
            Some(&creds),
            "proj",
            "repo",
            "x",
            "pkg",
            &q(&[("lastsucceeded", "1")]),
        )
        .unwrap()
    {
        BuildLogResult::Contents(text) => assert_eq!(text, "good run"),
        _ => panic!("expected contents"),
    }
}
