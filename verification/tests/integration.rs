use open_build_service_mock::checksum::md5_hex;
use open_build_service_mock::codes::{MockPackageCode, MockRepositoryCode};
use open_build_service_mock::handlers_build::{BuildLogResult, ResultEntry, ResultList};
use open_build_service_mock::handlers_source::{CommitEntry, CommitOutcome, PlacementOutcome};
use open_build_service_mock::project::{MockBuildLog, MockBuildStatus};
use open_build_service_mock::registry::ObsMock;
use open_build_service_mock::request::Credentials;
use open_build_service_mock::source::{
    MockBranchOptions, MockEntry, MockPackageOptions, MockRevisionOptions, MockSourceFile,
};

const DEFAULT_USERNAME: &str = "user";
const DEFAULT_PASSWORD: &str = "pass";

fn test_project() -> String {
    "test_project".to_owned()
}

fn test_repo() -> String {
    "test_repo".to_owned()
}

fn test_arch_1() -> String {
    "aarch64".to_owned()
}

fn test_arch_2() -> String {
    "x86_64".to_owned()
}

fn test_package_1() -> String {
    "test_package_1".to_owned()
}

fn test_package_2() -> String {
    "test_package_2".to_owned()
}

fn start_mock() -> ObsMock {
    ObsMock::new(DEFAULT_USERNAME, DEFAULT_PASSWORD)
}

fn auth() -> Credentials {
    Credentials {
        username: DEFAULT_USERNAME.to_owned(),
        password: DEFAULT_PASSWORD.to_owned(),
    }
}

fn no_query() -> Vec<(String, String)> {
    Vec::new()
}

fn q(pairs: &[(&str, &str)]) -> Vec<(String, String)> {
    pairs
        .iter()
        .map(|(k, v)| ((*k).to_owned(), (*v).to_owned()))
        .collect()
}

#[test]
fn test_source_list() {
    let mut mock = start_mock();
    let creds = auth();
    mock.add_project(test_project());

    mock.add_new_package(
        &test_project(),
        test_package_1(),
        MockPackageOptions::default(),
    );

    let mtime: u64 = 10;
    let srcmd5 = open_build_service_mock::checksum::random_md5();
    mock.add_package_revision(
        &test_project(),
        &test_package_1(),
        MockRevisionOptions {
            time: mtime,
            srcmd5: srcmd5.clone(),
            ..Default::default()
        },
        Vec::new(),
    );

    let dir = mock
        .source_listing(Some(&creds), &test_project(), &test_package_1(), &no_query())
        .unwrap();

    assert_eq!(dir.name, test_package_1());
    assert_eq!(dir.rev, Some(1));
    assert_eq!(dir.vrev, Some(1));
    assert_eq!(dir.srcmd5, srcmd5);

    assert_eq!(dir.entries.len(), 0);
    assert_eq!(dir.linkinfo.len(), 0);

    let meta_dir = mock
        .source_listing(
            Some(&creds),
            &test_project(),
            &test_package_1(),
            &q(&[("meta", "1")]),
        )
        .unwrap();

    assert_eq!(meta_dir.name, test_package_1());
    assert_eq!(meta_dir.rev, Some(1));
    assert_eq!(meta_dir.vrev, None);

    assert_eq!(meta_dir.entries.len(), 1);
    assert_eq!(meta_dir.linkinfo.len(), 0);

    let meta = &meta_dir.entries[0];
    assert_eq!(meta.name, "_meta");

    let test_data = b"abc";
    let test_key = mock.add_package_files(
        &test_project(),
        &test_package_1(),
        MockSourceFile {
            path: "test".to_owned(),
            contents: test_data.to_vec(),
        },
    );

    let srcmd5 = open_build_service_mock::checksum::random_md5();
    let mut entries = Vec::new();
    entries.push(("test".to_owned(), MockEntry::from_key(&test_key, 11)));
    mock.add_package_revision(
        &test_project(),
        &test_package_1(),
        MockRevisionOptions {
            srcmd5: srcmd5.clone(),
            ..Default::default()
        },
        entries,
    );

    let dir = mock
        .source_listing(Some(&creds), &test_project(), &test_package_1(), &no_query())
        .unwrap();

    assert_eq!(dir.name, test_package_1());
    assert_eq!(dir.rev, Some(2));
    assert_eq!(dir.vrev, Some(2));
    assert_eq!(dir.srcmd5, srcmd5);

    assert_eq!(dir.entries.len(), 1);

    let test_entry = &dir.entries[0];
    assert_eq!(test_entry.size, test_data.len());

    let dir = mock
        .source_listing(
            Some(&creds),
            &test_project(),
            &test_package_1(),
            &q(&[("rev", "1")]),
        )
        .unwrap();

    assert_eq!(dir.rev, Some(1));
    assert_eq!(dir.entries.len(), 0);

    let branch_srcmd5 = open_build_service_mock::checksum::random_md5();
    let branch_xsrcmd5 = open_build_service_mock::checksum::random_md5();

    mock.branch(
        test_project(),
        test_package_1(),
        &test_project(),
        test_package_2(),
        MockBranchOptions {
            srcmd5: branch_srcmd5.clone(),
            xsrcmd5: branch_xsrcmd5.clone(),
            ..Default::default()
        },
    )
    .unwrap();

    let dir = mock
        .source_listing(Some(&creds), &test_project(), &test_package_2(), &no_query())
        .unwrap();

    assert_eq!(dir.rev, Some(1));
    assert_eq!(dir.vrev, Some(1));
    assert_eq!(dir.srcmd5, branch_srcmd5);
    assert_eq!(dir.entries.len(), 1);
    assert_eq!(dir.linkinfo.len(), 1);

    let linkinfo = &dir.linkinfo[0];
    assert_eq!(linkinfo.project, test_project());
    assert_eq!(linkinfo.package, test_package_1());
    assert_eq!(linkinfo.srcmd5, srcmd5);
    assert_eq!(linkinfo.lsrcmd5, branch_srcmd5);
    assert_eq!(linkinfo.xsrcmd5, branch_xsrcmd5);
}

#[test]
fn test_source_get() {
    let test_file = "test";
    let test_contents = b"some file contents here";

    let mut mock = start_mock();
    let creds = auth();
    mock.add_project(test_project());
    mock.add_new_package(
        &test_project(),
        test_package_1(),
        MockPackageOptions::default(),
    );

    let test_key = mock.add_package_files(
        &test_project(),
        &test_package_1(),
        MockSourceFile {
            path: test_file.to_owned(),
            contents: test_contents.to_vec(),
        },
    );

    let mut entries = Vec::new();
    entries.push((test_file.to_owned(), MockEntry::from_key(&test_key, 12)));
    mock.add_package_revision(
        &test_project(),
        &test_package_1(),
        MockRevisionOptions::default(),
        entries,
    );

    let data = mock
        .source_file(Some(&creds), &test_project(), &test_package_1(), test_file)
        .unwrap();
    assert_eq!(&data[..], test_contents);
}

#[test]
fn test_commits() {
    let test_file = "test";
    let test_contents = b"some file contents here";
    let test_entry = CommitEntry {
        name: test_file.to_owned(),
        md5: md5_hex(test_contents),
    };

    let mut file_list = Vec::new();
    file_list.push(test_entry.clone());
    let file_list: Result<Vec<CommitEntry>, String> = Ok(file_list);

    let mut mock = start_mock();
    let creds = auth();

    mock.add_project(test_project());

    // create the package through metadata placement, as the client does
    let created = mock
        .source_placement(
            Some(&creds),
            &test_project(),
            &test_package_1(),
            "_meta",
            &no_query(),
            Vec::new(),
        )
        .unwrap();
    assert!(matches!(created, PlacementOutcome::MetaOk));

    let commit_result = mock
        .source_commit(
            Some(&creds),
            &test_project(),
            &test_package_1(),
            &q(&[("cmd", "commitfilelist")]),
            &file_list,
        )
        .unwrap();
    if let CommitOutcome::Missing(missing) = commit_result {
        assert_eq!(missing.len(), 1);
        assert_eq!(missing[0].name, test_entry.name);
        assert_eq!(missing[0].md5, test_entry.md5);
    } else {
        panic!("Expected missing entries");
    }

    let stored = mock
        .source_placement(
            Some(&creds),
            &test_project(),
            &test_package_1(),
            test_file,
            &q(&[("rev", "repository")]),
            test_contents.to_vec(),
        )
        .unwrap();
    assert!(matches!(stored, PlacementOutcome::Stored { .. }));

    let commit_result = mock
        .source_commit(
            Some(&creds),
            &test_project(),
            &test_package_1(),
            &q(&[("cmd", "commitfilelist")]),
            &file_list,
        )
        .unwrap();
    if let CommitOutcome::Added(directory) = commit_result {
        assert_eq!(directory.entries.len(), 1);
        assert_eq!(directory.entries[0].name, test_entry.name);
        assert_eq!(directory.entries[0].md5, test_entry.md5);
    } else {
        panic!("Expected the commit to be accepted");
    }

    let directory = mock
        .source_listing(Some(&creds), &test_project(), &test_package_1(), &no_query())
        .unwrap();
    assert_eq!(directory.entries.len(), 1);
    assert_eq!(directory.entries[0].name, test_entry.name);
    assert_eq!(directory.entries[0].md5, test_entry.md5);
}

fn get_results_by_arch(mut results: ResultList) -> (ResultEntry, ResultEntry) {
    assert_eq!(results.results.len(), 2);

    // Sort by the arch, so we know arch 1 is first and arch 2 is second.
    results.results.sort_by(|a, b| a.arch.cmp(&b.arch));

    let mut it = results.results.into_iter();
    let a = it.next().unwrap();
    let b = it.next().unwrap();

    assert_eq!(a.arch, test_arch_1());
    assert_eq!(b.arch, test_arch_2());

    (a, b)
}

#[test]
fn test_build_repo_listing() {
    let mut mock = start_mock();
    let creds = auth();

    mock.add_project(test_project());
    mock.add_or_update_repository(
        &test_project(),
        test_repo(),
        test_arch_1(),
        MockRepositoryCode::Building,
    );
    mock.add_or_update_repository(
        &test_project(),
        test_repo(),
        test_arch_2(),
        MockRepositoryCode::Broken,
    );

    let repositories = mock.repo_listing(Some(&creds), &test_project()).unwrap();
    assert_eq!(&repositories[..], &[test_repo()]);

    let mut arches = mock
        .arch_listing(Some(&creds), &test_project(), &test_repo())
        .unwrap();
    arches.sort();
    assert_eq!(&arches[..], &[test_arch_1(), test_arch_2()]);
}

#[test]
fn test_build_results() {
    let mut mock = start_mock();
    let creds = auth();

    mock.add_project(test_project());
    mock.add_or_update_repository(
        &test_project(),
        test_repo(),
        test_arch_1(),
        MockRepositoryCode::Building,
    );
    mock.add_or_update_repository(
        &test_project(),
        test_repo(),
        test_arch_2(),
        MockRepositoryCode::Broken,
    );

    mock.set_package_build_status(
        &test_project(),
        &test_repo(),
        &test_arch_1(),
        test_package_1(),
        MockBuildStatus::new(MockPackageCode::Building),
    );

    mock.set_package_build_status(
        &test_project(),
        &test_repo(),
        &test_arch_2(),
        test_package_2(),
        MockBuildStatus {
            code: MockPackageCode::Broken,
            dirty: true,
        },
    );

    let results = mock
        .build_results(Some(&creds), &test_project(), &no_query())
        .unwrap();
    let (arch1_repo, arch2_repo) = get_results_by_arch(results);

    assert_eq!(arch1_repo.project, test_project());
    assert_eq!(arch1_repo.repository, test_repo());
    assert!(matches!(arch1_repo.code, MockRepositoryCode::Building));
    assert_eq!(arch1_repo.statuses.len(), 1);

    let package1 = &arch1_repo.statuses[0];
    assert_eq!(package1.package, test_package_1());
    assert!(matches!(package1.code, MockPackageCode::Building));
    assert!(!package1.dirty);

    assert_eq!(arch2_repo.project, test_project());
    assert_eq!(arch2_repo.repository, test_repo());
    assert!(matches!(arch2_repo.code, MockRepositoryCode::Broken));
    assert_eq!(arch2_repo.statuses.len(), 1);

    let package2 = &arch2_repo.statuses[0];
    assert_eq!(package2.package, test_package_2());
    assert!(matches!(package2.code, MockPackageCode::Broken));
    assert!(package2.dirty);

    mock.set_package_build_status(
        &test_project(),
        &test_repo(),
        &test_arch_1(),
        test_package_2(),
        MockBuildStatus::new(MockPackageCode::Broken),
    );

    let results = mock
        .build_results(Some(&creds), &test_project(), &no_query())
        .unwrap();
    let (arch1_repo, _) = get_results_by_arch(results);

    let package2_arch2 = arch1_repo
        .statuses
        .iter()
        .filter(|status| status.package == test_package_2())
        .next()
        .unwrap();
    assert_eq!(package2_arch2.package, test_package_2());
    assert!(matches!(package2_arch2.code, MockPackageCode::Broken));

    let results = mock
        .build_results(
            Some(&creds),
            &test_project(),
            &q(&[("package", "test_package_2")]),
        )
        .unwrap();
    let (arch1_repo, arch2_repo) = get_results_by_arch(results);

    assert_eq!(arch1_repo.statuses.len(), 1);
    assert_eq!(arch2_repo.statuses.len(), 1);

    assert_eq!(arch1_repo.statuses[0].package, test_package_2());
    assert_eq!(arch2_repo.statuses[0].package, test_package_2());
}

#[test]
fn test_build_status() {
    let mut mock = start_mock();
    let creds = auth();

    mock.add_project(test_project());
    mock.add_or_update_repository(
        &test_project(),
        test_repo(),
        test_arch_1(),
        MockRepositoryCode::Building,
    );
    mock.set_package_build_status(
        &test_project(),
        &test_repo(),
        &test_arch_1(),
        test_package_1(),
        MockBuildStatus::new(MockPackageCode::Building),
    );

    let status = mock
        .build_status(
            Some(&creds),
            &test_project(),
            &test_repo(),
            &test_arch_1(),
            &test_package_1(),
        )
        .unwrap();

    assert_eq!(status.package, test_package_1());
    assert!(matches!(status.code, MockPackageCode::Building));
    assert!(!status.dirty);

    mock.set_package_build_status(
        &test_project(),
        &test_repo(),
        &test_arch_1(),
        test_package_1(),
        MockBuildStatus {
            code: MockPackageCode::Unknown,
            dirty: true,
        },
    );

    let status = mock
        .build_status(
            Some(&creds),
            &test_project(),
            &test_repo(),
            &test_arch_1(),
            &test_package_1(),
        )
        .unwrap();

    assert_eq!(status.package, test_package_1());
    assert!(matches!(status.code, MockPackageCode::Unknown));
    assert!(status.dirty);
}

#[test]
fn test_build_logs() {
    let log = MockBuildLog {
        contents: "some log text".to_owned(),
        mtime: 0,
        chunk_size: Some(5),
    };

    let mut mock = start_mock();
    let creds = auth();

    mock.add_project(test_project());
    mock.add_or_update_repository(
        &test_project(),
        test_repo(),
        test_arch_1(),
        MockRepositoryCode::Building,
    );
    mock.add_completed_build_log(
        &test_project(),
        &test_repo(),
        &test_arch_1(),
        test_package_1(),
        log.clone(),
        false,
    );

    let entry = mock
        .build_log(
            Some(&creds),
            &test_project(),
            &test_repo(),
            &test_arch_1(),
            &test_package_1(),
            &q(&[("view", "entry")]),
        )
        .unwrap();
    match entry {
        BuildLogResult::Entry(Some(e)) => {
            assert_eq!(e.size, log.contents.len());
            assert_eq!(e.mtime, 0);
        }
        _ => panic!("Expected a log entry view"),
    }

    let read = |start: Option<&str>, end: Option<&str>| -> String {
        let mut query = Vec::new();
        if let Some(s) = start {
            query.push(("start".to_owned(), s.to_owned()));
        }
        if let Some(e) = end {
            query.push(("end".to_owned(), e.to_owned()));
        }
        match mock
            .build_log(
                Some(&creds),
                &test_project(),
                &test_repo(),
                &test_arch_1(),
                &test_package_1(),
                &query,
            )
            .unwrap()
        {
            BuildLogResult::Contents(text) => text,
            _ => panic!("Expected log contents"),
        }
    };

    assert_eq!(read(Some("0"), None), "some ");
    assert_eq!(read(Some("5"), None), "log t");
    assert_eq!(read(Some("10"), None), "ext");
    assert_eq!(read(Some("13"), None), "");

    assert_eq!(read(Some("4"), Some("11")), " log ");
    assert_eq!(read(Some("9"), Some("11")), "te");
}
