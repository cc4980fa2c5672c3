//! A project: its packages and its build matrix of repositories and
//! architectures, each holding per-package build state and logs.

use vstd::prelude::*;
use crate::assoc::{
    assoc_get, assoc_has, assoc_index, lemma_assoc_get_at, lemma_assoc_get_none,
    lemma_assoc_get_push, lemma_assoc_get_update_other,
};
use crate::clock::now_secs;
use crate::codes::{MockPackageCode, MockRepositoryCode};
use crate::source::MockPackage;

verus! {

/// Build status of one package in one repository/architecture.
#[derive(Clone, Copy, Debug)]
pub struct MockBuildStatus {
    pub code: MockPackageCode,
    /// Whether the status is being recomputed and may not reflect reality.
    pub dirty: bool,
}

impl MockBuildStatus {
    /// A clean status with the given code.
    pub fn new(code: MockPackageCode) -> (r: Self)
        ensures
            r.code == code,
            !r.dirty,
    {
        MockBuildStatus { code, dirty: false }
    }
}

impl Default for MockBuildStatus {
    /// A clean `Unknown` status.
    fn default() -> (r: Self)
        ensures
            r.code == MockPackageCode::Unknown,
            !r.dirty,
    {
        MockBuildStatus { code: MockPackageCode::Unknown, dirty: false }
    }
}

/// A stored build log.
#[derive(Debug)]
pub struct MockBuildLog {
    pub contents: String,
    /// Modification time in seconds since the Unix epoch.
    pub mtime: u64,
    /// Upper bound on the span a single read may return, when simulated.
    pub chunk_size: Option<usize>,
}

impl Clone for MockBuildLog {
    fn clone(&self) -> (r: Self)
        ensures
            r == *self,
    {
        MockBuildLog {
            contents: self.contents.clone(),
            mtime: self.mtime,
            chunk_size: self.chunk_size,
        }
    }
}

impl MockBuildLog {
    /// A log with the given text, stamped now, with no chunk limit.
    pub fn new(contents: String) -> (r: MockBuildLog)
        ensures
            r.contents == contents,
            r.chunk_size is None,
    {
        MockBuildLog { contents, mtime: now_secs(), chunk_size: None }
    }
}

/// A built binary artifact of a package.
#[derive(Debug)]
pub struct MockBinary {
    pub contents: Vec<u8>,
    /// Modification time in seconds since the Unix epoch.
    pub mtime: u64,
}

/// Build state of one package inside one repository/architecture.
#[derive(Debug)]
pub struct MockRepositoryPackage {
    pub status: MockBuildStatus,
    pub latest_log: Option<MockBuildLog>,
    pub latest_successful_log: Option<MockBuildLog>,
    pub binaries: Vec<(String, MockBinary)>,
}

impl Default for MockRepositoryPackage {
    /// A clean `Unknown` status with no logs and no binaries.
    fn default() -> (r: Self)
        ensures
            r.status.code == MockPackageCode::Unknown,
            !r.status.dirty,
            r.latest_log is None,
            r.latest_successful_log is None,
            r.binaries@.len() == 0,
    {
        MockRepositoryPackage {
            status: MockBuildStatus::default(),
            latest_log: None,
            latest_successful_log: None,
            binaries: Vec::new(),
        }
    }
}

/// One repository/architecture build queue: its lifecycle code and the
/// per-package build state.
#[derive(Debug)]
pub struct MockRepository {
    pub code: MockRepositoryCode,
    pub packages: Vec<(String, MockRepositoryPackage)>,
}

/// The architectures of one named repository.
pub type ArchMap = Vec<(String, MockRepository)>;

/// A project: packages by name, repositories by name and architecture, and
/// the status every package is reset to by the rebuild command.
#[derive(Debug)]
pub struct MockProject {
    pub packages: Vec<(String, MockPackage)>,
    pub repos: Vec<(String, ArchMap)>,
    pub rebuild_status: MockBuildStatus,
}

impl Default for MockProject {
    /// No packages, no repositories, and a default rebuild status.
    fn default() -> (r: Self)
        ensures
            r.packages@.len() == 0,
            r.repos@.len() == 0,
            r.rebuild_status.code == MockPackageCode::Unknown,
            !r.rebuild_status.dirty,
    {
        MockProject {
            packages: Vec::new(),
            repos: Vec::new(),
            rebuild_status: MockBuildStatus::default(),
        }
    }
}

impl MockProject {
    /// Every package of the project is internally consistent.
    pub open spec fn wf(&self) -> bool {
        forall|i: int|
            0 <= i < self.packages@.len() ==> (#[trigger] self.packages@[i]).1.wf()
    }
}

impl MockProject {
    /// Installs a package under a name, replacing any previous one.
    pub fn upsert_package(&mut self, package_name: String, pkg: MockPackage)
        requires
            old(self).wf(),
            pkg.wf(),
        ensures
            final(self).wf(),
            final(self).repos@ == old(self).repos@,
            final(self).rebuild_status == old(self).rebuild_status,
            assoc_get(final(self).packages@, package_name@) == Some(pkg),
            assoc_has(final(self).packages@, package_name@),
            forall|k: Seq<char>|
                k != package_name@ ==> #[trigger] assoc_get(final(self).packages@, k)
                    == assoc_get(old(self).packages@, k),
            forall|k: Seq<char>|
                assoc_has(old(self).packages@, k) ==> #[trigger] assoc_has(
                    final(self).packages@,
                    k,
                ),
    {
        let ghost pn = package_name@;
        let ghost old_packages = self.packages@;
        let idx = assoc_index(&self.packages, package_name.as_str());
        match idx {
            Some(j) => {
                let _old = self.packages.remove(j);
                self.packages.insert(j, (package_name, pkg));
                proof {
                    assert(self.packages@ =~= old_packages.update(
                        j as int,
                        (package_name, pkg),
                    ));
                    lemma_assoc_get_at(self.packages@, pn, j as int);
                    assert forall|k: Seq<char>| k != pn implies #[trigger]
                        assoc_get(self.packages@, k) == assoc_get(old_packages, k) by {
                        lemma_assoc_get_update_other(
                            old_packages,
                            j as int,
                            (package_name, pkg),
                            k,
                        );
                    }
                    assert forall|k: Seq<char>|
                        assoc_has(old_packages, k) implies #[trigger] assoc_has(
                        self.packages@,
                        k,
                    ) by {
                        let l = choose|l: int|
                            0 <= l < old_packages.len() && (#[trigger] old_packages[l]).0@ == k;
                        assert((#[trigger] self.packages@[l]).0@ == k);
                    }
                }
            },
            None => {
                proof {
                    lemma_assoc_get_none(old_packages, pn);
                }
                self.packages.push((package_name, pkg));
                proof {
                    assert forall|k: Seq<char>| k != pn implies #[trigger]
                        assoc_get(self.packages@, k) == assoc_get(old_packages, k) by {
                        lemma_assoc_get_push(old_packages, (package_name, pkg), k);
                    }
                    lemma_assoc_get_push(old_packages, (package_name, pkg), pn);
                    assert(assoc_has(self.packages@, pn)) by {
                        assert((#[trigger] self.packages@[old_packages.len() as int]).0@ == pn);
                    }
                    assert forall|k: Seq<char>|
                        assoc_has(old_packages, k) implies #[trigger] assoc_has(
                        self.packages@,
                        k,
                    ) by {
                        let l = choose|l: int|
                            0 <= l < old_packages.len() && (#[trigger] old_packages[l]).0@ == k;
                        assert((#[trigger] self.packages@[l]).0@ == k);
                    }
                }
            },
        }
        proof {
            assert forall|i: int|
                0 <= i < self.packages@.len() implies (#[trigger] self.packages@[i]).1.wf() by {
                if self.packages@[i].0@ != pn {
                    assert(old_packages[i] == self.packages@[i] || self.packages@[i]
                        == (package_name, pkg));
                }
            }
        }
    }

    /// Creates the repository entry under a repository name and an
    /// architecture, or updates its lifecycle code if it exists; the
    /// package states of an existing entry are kept.
    pub fn upsert_repository(&mut self, repo_name: String, arch: String, code: MockRepositoryCode)
        requires
            old(self).wf(),
        ensures
            final(self).wf(),
            final(self).packages@ == old(self).packages@,
            final(self).rebuild_status == old(self).rebuild_status,
            spec_repo(*final(self), repo_name@, arch@) is Some,
            ({
                let r = spec_repo(*final(self), repo_name@, arch@)->Some_0;
                &&& r.code == code
                &&& r.packages@ == match spec_repo(*old(self), repo_name@, arch@) {
                    Some(o) => o.packages@,
                    None => Seq::<(String, MockRepositoryPackage)>::empty(),
                }
            }),
            forall|rn: Seq<char>, an: Seq<char>|
                (rn, an) != (repo_name@, arch@) ==> #[trigger] spec_repo(*final(self), rn, an)
                    == spec_repo(*old(self), rn, an),
    {
        let ghost rnv = repo_name@;
        let ghost anv = arch@;
        let ghost old_repos = self.repos@;
        let ri: usize;
        let idx = assoc_index(&self.repos, repo_name.as_str());
        match idx {
            Some(i) => {
                ri = i;
                proof {
                    lemma_assoc_get_at(old_repos, rnv, i as int);
                    assert(forall|rn: Seq<char>|
                        rn != rnv ==> #[trigger] assoc_get(self.repos@, rn) == assoc_get(
                            old_repos,
                            rn,
                        ));
                    assert(assoc_get(old_repos, rnv) == Some(self.repos@[ri as int].1)
                        || (assoc_get(old_repos, rnv) is None && self.repos@[ri as int].1@
                        =~= Seq::<(String, MockRepository)>::empty()));
                }
            },
            None => {
                proof {
                    lemma_assoc_get_none(old_repos, rnv);
                }
                ri = self.repos.len();
                self.repos.push((repo_name, Vec::new()));
                proof {
                    assert forall|rn: Seq<char>| rn != rnv implies #[trigger]
                        assoc_get(self.repos@, rn) == assoc_get(old_repos, rn) by {
                        lemma_assoc_get_push(
                            old_repos,
                            self.repos@.last(),
                            rn,
                        );
                        assert(old_repos.push(self.repos@.last()) =~= self.repos@);
                    }
                    assert(self.repos@[ri as int].1@ =~= Seq::<(
                        String,
                        MockRepository,
                    )>::empty());
                    assert(assoc_get(old_repos, rnv) == Some(self.repos@[ri as int].1)
                        || (assoc_get(old_repos, rnv) is None && self.repos@[ri as int].1@
                        =~= Seq::<(String, MockRepository)>::empty()));
                }
            },
        }
        proof {
            assert(self.repos@[ri as int].0@ == rnv);
            assert(forall|j: int| 0 <= j < ri ==> (#[trigger] self.repos@[j]).0@ != rnv);
        }
        let ghost mid_repos = self.repos@;
        let (rkey, mut arches) = self.repos.remove(ri);
        let ghost old_arches = arches@;
        let ai = assoc_index(&arches, arch.as_str());
        match ai {
            Some(j) => {
                proof {
                    lemma_assoc_get_at(old_arches, anv, j as int);
                }
                let (akey, mut repo) = arches.remove(j);
                repo.code = code;
                arches.insert(j, (akey, repo));
                proof {
                    assert(arches@ =~= old_arches.update(j as int, arches@[j as int]));
                    lemma_assoc_get_at(arches@, anv, j as int);
                    assert forall|an: Seq<char>| an != anv implies #[trigger]
                        assoc_get(arches@, an) == assoc_get(old_arches, an) by {
                        lemma_assoc_get_update_other(
                            old_arches,
                            j as int,
                            arches@[j as int],
                            an,
                        );
                    }
                    assert(assoc_get(arches@, anv) is Some
                        && (assoc_get(arches@, anv)->Some_0).code == code
                        && (assoc_get(arches@, anv)->Some_0).packages@ == match assoc_get(
                        old_arches,
                        anv,
                    ) {
                        Some(o) => o.packages@,
                        None => Seq::<(String, MockRepositoryPackage)>::empty(),
                    });
                }
            },
            None => {
                proof {
                    lemma_assoc_get_none(old_arches, anv);
                }
                arches.push((arch, MockRepository { code, packages: Vec::new() }));
                proof {
                    lemma_assoc_get_push(old_arches, arches@.last(), anv);
                    assert(old_arches.push(arches@.last()) =~= arches@);
                    assert(assoc_get(arches@, anv) == Some(arches@.last().1));
                    assert forall|an: Seq<char>| an != anv implies #[trigger]
                        assoc_get(arches@, an) == assoc_get(old_arches, an) by {
                        lemma_assoc_get_push(old_arches, arches@.last(), an);
                    }
                    assert(assoc_get(arches@, anv) is Some
                        && (assoc_get(arches@, anv)->Some_0).code == code
                        && (assoc_get(arches@, anv)->Some_0).packages@ == match assoc_get(
                        old_arches,
                        anv,
                    ) {
                        Some(o) => o.packages@,
                        None => Seq::<(String, MockRepositoryPackage)>::empty(),
                    });
                }
            },
        }
        self.repos.insert(ri, (rkey, arches));
        proof {
            assert(self.repos@ =~= mid_repos.update(ri as int, (rkey, arches)));
            lemma_assoc_get_at(self.repos@, rnv, ri as int);
            assert(assoc_get(self.repos@, rnv) == Some(arches));
            assert forall|rn: Seq<char>| rn != rnv implies #[trigger]
                assoc_get(self.repos@, rn) == assoc_get(mid_repos, rn) by {
                lemma_assoc_get_update_other(mid_repos, ri as int, (rkey, arches), rn);
            }
            assert forall|an: Seq<char>| #[trigger]
                spec_repo(*old(self), rnv, an) == assoc_get(old_arches, an) by {
                if assoc_get(old_repos, rnv) is Some {
                    assert(assoc_get(old_repos, rnv) == Some(mid_repos[ri as int].1));
                    assert(old_arches == mid_repos[ri as int].1@);
                } else {
                    assert(old_arches =~= Seq::<(String, MockRepository)>::empty());
                }
            }
            assert(spec_repo(*self, rnv, anv) == assoc_get(arches@, anv));
            assert forall|rn: Seq<char>, an: Seq<char>|
                (rn, an) != (rnv, anv) implies #[trigger] spec_repo(*self, rn, an)
                == spec_repo(*old(self), rn, an) by {
                if rn == rnv {
                    assert(spec_repo(*self, rn, an) == assoc_get(arches@, an));
                    assert(assoc_get(arches@, an) == assoc_get(old_arches, an));
                } else {
                    assert(assoc_get(self.repos@, rn) == assoc_get(old_repos, rn));
                }
            }
        }
    }
}

/// One edit of a package's build state inside a repository/architecture.
pub enum RepoPackageEdit {
    /// Overwrite the status.
    SetStatus(MockBuildStatus),
    /// Record a finished build log; also as latest successful when so told.
    AddLog(MockBuildLog, bool),
}

/// The latest log of a package state, if the state exists.
pub open spec fn spec_old_log(orp: Option<MockRepositoryPackage>) -> Option<MockBuildLog> {
    match orp {
        Some(o) => o.latest_log,
        None => None,
    }
}

/// The latest successful log of a package state, if the state exists.
pub open spec fn spec_old_slog(orp: Option<MockRepositoryPackage>) -> Option<MockBuildLog> {
    match orp {
        Some(o) => o.latest_successful_log,
        None => None,
    }
}

/// The binaries of a package state, if the state exists.
pub open spec fn spec_old_binaries(orp: Option<MockRepositoryPackage>) -> Seq<(String, MockBinary)> {
    match orp {
        Some(o) => o.binaries@,
        None => Seq::empty(),
    }
}

/// The status of a package state; a clean `Unknown` where none exists yet.
pub open spec fn spec_old_status(orp: Option<MockRepositoryPackage>) -> MockBuildStatus {
    match orp {
        Some(o) => o.status,
        None => MockBuildStatus { code: MockPackageCode::Unknown, dirty: false },
    }
}

/// How an edit turns the previous package state into the new one: the edited
/// field is overwritten and every other field is kept, with a fresh default
/// state standing in where none existed.
pub open spec fn spec_edited_package(
    orp: Option<MockRepositoryPackage>,
    edit: RepoPackageEdit,
    rp: MockRepositoryPackage,
) -> bool {
    match edit {
        RepoPackageEdit::SetStatus(s) => {
            &&& rp.status == s
            &&& rp.latest_log == spec_old_log(orp)
            &&& rp.latest_successful_log == spec_old_slog(orp)
            &&& rp.binaries@ == spec_old_binaries(orp)
        },
        RepoPackageEdit::AddLog(log, success) => {
            &&& rp.status == spec_old_status(orp)
            &&& rp.latest_log == Some(log)
            &&& rp.latest_successful_log == if success {
                Some(log)
            } else {
                spec_old_slog(orp)
            }
            &&& rp.binaries@ == spec_old_binaries(orp)
        },
    }
}

impl MockProject {
    /// Applies one edit to a package's build state in a repository entry,
    /// creating the package state with defaults on first touch.
    pub fn edit_repo_package(
        &mut self,
        repo_name: &str,
        arch: &str,
        package_name: String,
        edit: RepoPackageEdit,
    )
        requires
            old(self).wf(),
            spec_repo(*old(self), repo_name@, arch@) is Some,
        ensures
            final(self).wf(),
            final(self).packages@ == old(self).packages@,
            final(self).rebuild_status == old(self).rebuild_status,
            forall|rn: Seq<char>, an: Seq<char>|
                (rn, an) != (repo_name@, arch@) ==> #[trigger] spec_repo(*final(self), rn, an)
                    == spec_repo(*old(self), rn, an),
            spec_repo(*final(self), repo_name@, arch@) is Some,
            (spec_repo(*final(self), repo_name@, arch@)->Some_0).code == (spec_repo(
                *old(self),
                repo_name@,
                arch@,
            )->Some_0).code,
            spec_repo_package(*final(self), repo_name@, arch@, package_name@) is Some,
            spec_edited_package(
                spec_repo_package(*old(self), repo_name@, arch@, package_name@),
                edit,
                spec_repo_package(*final(self), repo_name@, arch@, package_name@)->Some_0,
            ),
            forall|k: Seq<char>|
                k != package_name@ ==> #[trigger] spec_repo_package(
                    *final(self),
                    repo_name@,
                    arch@,
                    k,
                ) == spec_repo_package(*old(self), repo_name@, arch@, k),
    {
        let ghost rnv = repo_name@;
        let ghost anv = arch@;
        let ghost pnv = package_name@;
        let ghost old_repos = self.repos@;
        let idx = assoc_index(&self.repos, repo_name);
        let ri: usize = match idx {
            Some(i) => i,
            None => {
                proof {
                    lemma_assoc_get_none(old_repos, rnv);
                    assert(false);
                }
                0
            },
        };
        proof {
            lemma_assoc_get_at(old_repos, rnv, ri as int);
        }
        let (rkey, mut arches) = self.repos.remove(ri);
        let ghost old_arches = arches@;
        proof {
            assert(assoc_get(old_repos, rnv) == Some(old_repos[ri as int].1));
            assert(old_arches == old_repos[ri as int].1@);
            assert(assoc_get(old_arches, anv) is Some);
        }
        let ai = assoc_index(&arches, arch);
        let aj: usize = match ai {
            Some(j) => j,
            None => {
                proof {
                    lemma_assoc_get_none(old_arches, anv);
                    assert(false);
                }
                0
            },
        };
        proof {
            lemma_assoc_get_at(old_arches, anv, aj as int);
        }
        let (akey, mut repo) = arches.remove(aj);
        let ghost old_pkgs = repo.packages@;
        let ghost old_code = repo.code;
        proof {
            assert(assoc_get(old_arches, anv) == Some(old_arches[aj as int].1));
            assert(spec_repo(*old(self), rnv, anv) == Some(old_arches[aj as int].1));
        }
        let pi = assoc_index(&repo.packages, package_name.as_str());
        match pi {
            Some(l) => {
                proof {
                    lemma_assoc_get_at(old_pkgs, pnv, l as int);
                }
                let (k, mut rp) = repo.packages.remove(l);
                match edit {
                    RepoPackageEdit::SetStatus(s) => {
                        rp.status = s;
                    },
                    RepoPackageEdit::AddLog(log, success) => {
                        if success {
                            rp.latest_successful_log = Some(log.clone());
                        }
                        rp.latest_log = Some(log);
                    },
                }
                repo.packages.insert(l, (k, rp));
                proof {
                    assert(repo.packages@ =~= old_pkgs.update(
                        l as int,
                        repo.packages@[l as int],
                    ));
                    lemma_assoc_get_at(repo.packages@, pnv, l as int);
                    assert forall|k2: Seq<char>| k2 != pnv implies #[trigger]
                        assoc_get(repo.packages@, k2) == assoc_get(old_pkgs, k2) by {
                        lemma_assoc_get_update_other(
                            old_pkgs,
                            l as int,
                            repo.packages@[l as int],
                            k2,
                        );
                    }
                    assert(assoc_get(repo.packages@, pnv) is Some && spec_edited_package(
                        assoc_get(old_pkgs, pnv),
                        edit,
                        assoc_get(repo.packages@, pnv)->Some_0,
                    ));
                }
            },
            None => {
                proof {
                    lemma_assoc_get_none(old_pkgs, pnv);
                }
                let mut rp = MockRepositoryPackage::default();
                match edit {
                    RepoPackageEdit::SetStatus(s) => {
                        rp.status = s;
                    },
                    RepoPackageEdit::AddLog(log, success) => {
                        if success {
                            rp.latest_successful_log = Some(log.clone());
                        }
                        rp.latest_log = Some(log);
                    },
                }
                repo.packages.push((package_name, rp));
                proof {
                    lemma_assoc_get_push(old_pkgs, repo.packages@.last(), pnv);
                    assert(old_pkgs.push(repo.packages@.last()) =~= repo.packages@);
                    assert forall|k2: Seq<char>| k2 != pnv implies #[trigger]
                        assoc_get(repo.packages@, k2) == assoc_get(old_pkgs, k2) by {
                        lemma_assoc_get_push(old_pkgs, repo.packages@.last(), k2);
                    }
                    assert(repo.packages@.last().0@ == pnv);
                    assert(assoc_get(repo.packages@, pnv) == Some(repo.packages@.last().1));
                    assert(repo.packages@.last().1.binaries@ =~= Seq::<(
                        String,
                        MockBinary,
                    )>::empty());
                    assert(assoc_get(repo.packages@, pnv) is Some && spec_edited_package(
                        assoc_get(old_pkgs, pnv),
                        edit,
                        assoc_get(repo.packages@, pnv)->Some_0,
                    ));
                }
            },
        }
        let ghost new_pkgs = repo.packages@;
        arches.insert(aj, (akey, repo));
        proof {
            assert(arches@ =~= old_arches.update(aj as int, arches@[aj as int]));
            lemma_assoc_get_at(arches@, anv, aj as int);
            assert forall|an: Seq<char>| an != anv implies #[trigger]
                assoc_get(arches@, an) == assoc_get(old_arches, an) by {
                lemma_assoc_get_update_other(old_arches, aj as int, arches@[aj as int], an);
            }
        }
        self.repos.insert(ri, (rkey, arches));
        proof {
            assert(self.repos@ =~= old_repos.update(ri as int, (rkey, arches)));
            lemma_assoc_get_at(self.repos@, rnv, ri as int);
            assert(assoc_get(self.repos@, rnv) == Some(arches));
            assert forall|rn: Seq<char>| rn != rnv implies #[trigger]
                assoc_get(self.repos@, rn) == assoc_get(old_repos, rn) by {
                lemma_assoc_get_update_other(old_repos, ri as int, (rkey, arches), rn);
            }
            assert(spec_repo(*self, rnv, anv) == assoc_get(arches@, anv));
            assert((spec_repo(*self, rnv, anv)->Some_0).packages@ == new_pkgs);
            assert((spec_repo(*self, rnv, anv)->Some_0).code == old_code);
            assert forall|rn: Seq<char>, an: Seq<char>|
                (rn, an) != (rnv, anv) implies #[trigger] spec_repo(*self, rn, an) == spec_repo(
                *old(self),
                rn,
                an,
            ) by {
                if rn == rnv {
                    assert(spec_repo(*self, rn, an) == assoc_get(arches@, an));
                    assert(assoc_get(arches@, an) == assoc_get(old_arches, an));
                    assert(spec_repo(*old(self), rn, an) == assoc_get(old_arches, an));
                }
            }
            assert forall|k2: Seq<char>| k2 != pnv implies #[trigger]
                spec_repo_package(*self, rnv, anv, k2) == spec_repo_package(
                *old(self),
                rnv,
                anv,
                k2,
            ) by {
                assert(spec_repo_package(*self, rnv, anv, k2) == assoc_get(new_pkgs, k2));
                assert(spec_repo_package(*old(self), rnv, anv, k2) == assoc_get(old_pkgs, k2));
            }
            assert(spec_repo_package(*self, rnv, anv, pnv) == assoc_get(new_pkgs, pnv));
            assert(spec_repo_package(*old(self), rnv, anv, pnv) == assoc_get(old_pkgs, pnv));
        }
    }
}

/// The repository entry of a project under a repository name and an
/// architecture, if any.
pub open spec fn spec_repo(p: MockProject, repo: Seq<char>, arch: Seq<char>) -> Option<
    MockRepository,
> {
    match assoc_get(p.repos@, repo) {
        Some(arches) => assoc_get(arches@, arch),
        None => None,
    }
}

/// The build state of a package under a repository name and an architecture,
/// if any.
pub open spec fn spec_repo_package(
    p: MockProject,
    repo: Seq<char>,
    arch: Seq<char>,
    pkg: Seq<char>,
) -> Option<MockRepositoryPackage> {
    match spec_repo(p, repo, arch) {
        Some(r) => assoc_get(r.packages@, pkg),
        None => None,
    }
}


/// Whether a name list carries the key.
pub open spec fn spec_in_names(names: Seq<String>, k: Seq<char>) -> bool {
    exists|j: int| 0 <= j < names.len() && (#[trigger] names[j])@ == k
}

/// How the rebuild command treats one package state: named packages get the
/// project's rebuild status (with defaults where no state existed), all
/// others stay as they were.
pub open spec fn spec_rebuilt_rp(
    orp: Option<MockRepositoryPackage>,
    nrp: Option<MockRepositoryPackage>,
    named: bool,
    st: MockBuildStatus,
) -> bool {
    if named {
        nrp is Some && spec_edited_package(orp, RepoPackageEdit::SetStatus(st), nrp->Some_0)
    } else {
        nrp == orp
    }
}

/// How the rebuild command treats one repository entry: the lifecycle code
/// stays, and every package state follows `spec_rebuilt_rp`.
pub open spec fn spec_rebuilt_repo(
    o: MockRepository,
    n: MockRepository,
    names: Seq<String>,
    st: MockBuildStatus,
) -> bool {
    &&& n.code == o.code
    &&& forall|k: Seq<char>|
        #[trigger] spec_rebuilt_rp(
            assoc_get(o.packages@, k),
            assoc_get(n.packages@, k),
            spec_in_names(names, k),
            st,
        )
}

/// The package names of a project, in insertion order.
pub open spec fn spec_package_names(p: MockProject) -> Seq<String> {
    Seq::new(p.packages@.len(), |i: int| p.packages@[i].0)
}

/// Sets the status of every named package in one package-state list,
/// creating missing states with defaults, and leaves the rest alone.
fn rebuild_packages(
    packages: &mut Vec<(String, MockRepositoryPackage)>,
    names: &Vec<String>,
    st: MockBuildStatus,
)
    ensures
        forall|k: Seq<char>|
            #[trigger] spec_rebuilt_rp(
                assoc_get(old(packages)@, k),
                assoc_get(final(packages)@, k),
                spec_in_names(names@, k),
                st,
            ),
{
    let mut ni: usize = 0;
    while ni < names.len()
        invariant
            ni <= names@.len(),
            forall|k: Seq<char>|
                #[trigger] spec_rebuilt_rp(
                    assoc_get(old(packages)@, k),
                    assoc_get(packages@, k),
                    spec_in_names(names@.take(ni as int), k),
                    st,
                ),
        decreases names@.len() - ni,
    {
        let ghost pre = packages@;
        let ghost nv = names@[ni as int]@;
        let idx = assoc_index(packages, names[ni].as_str());
        match idx {
            Some(l) => {
                proof {
                    lemma_assoc_get_at(pre, nv, l as int);
                }
                let (k, mut rp) = packages.remove(l);
                rp.status = st;
                packages.insert(l, (k, rp));
                proof {
                    assert(packages@ =~= pre.update(l as int, packages@[l as int]));
                    lemma_assoc_get_at(packages@, nv, l as int);
                    assert forall|k2: Seq<char>| k2 != nv implies #[trigger]
                        assoc_get(packages@, k2) == assoc_get(pre, k2) by {
                        lemma_assoc_get_update_other(pre, l as int, packages@[l as int], k2);
                    }
                }
            },
            None => {
                proof {
                    lemma_assoc_get_none(pre, nv);
                }
                let mut rp = MockRepositoryPackage::default();
                rp.status = st;
                packages.push((names[ni].clone(), rp));
                proof {
                    lemma_assoc_get_push(pre, packages@.last(), nv);
                    assert(pre.push(packages@.last()) =~= packages@);
                    assert(packages@.last().0@ == nv);
                    assert(assoc_get(packages@, nv) == Some(packages@.last().1));
                    assert(packages@.last().1.binaries@ =~= Seq::<(String, MockBinary)>::empty());
                    assert forall|k2: Seq<char>| k2 != nv implies #[trigger]
                        assoc_get(packages@, k2) == assoc_get(pre, k2) by {
                        lemma_assoc_get_push(pre, packages@.last(), k2);
                    }
                }
            },
        }
        proof {
            assert forall|k: Seq<char>| #[trigger]
                spec_rebuilt_rp(
                assoc_get(old(packages)@, k),
                assoc_get(packages@, k),
                spec_in_names(names@.take(ni + 1), k),
                st,
            ) by {
                assert(spec_rebuilt_rp(
                    assoc_get(old(packages)@, k),
                    assoc_get(pre, k),
                    spec_in_names(names@.take(ni as int), k),
                    st,
                ));
                if k == nv {
                    assert(spec_in_names(names@.take(ni + 1), k)) by {
                        assert((#[trigger] names@.take(ni + 1)[ni as int])@ == k);
                    }
                    assert(assoc_get(packages@, k) is Some);
                } else {
                    assert(assoc_get(packages@, k) == assoc_get(pre, k));
                    assert(spec_in_names(names@.take(ni + 1), k) == spec_in_names(
                        names@.take(ni as int),
                        k,
                    )) by {
                        if spec_in_names(names@.take(ni + 1), k) {
                            let j = choose|j: int|
                                0 <= j < names@.take(ni + 1).len() && (#[trigger] names@.take(
                                    ni + 1,
                                )[j])@ == k;
                            assert(names@.take(ni + 1)[j] == names@[j]);
                            assert(j < ni);
                            assert((#[trigger] names@.take(ni as int)[j])@ == k);
                        }
                        if spec_in_names(names@.take(ni as int), k) {
                            let j = choose|j: int|
                                0 <= j < names@.take(ni as int).len() && (#[trigger] names@.take(
                                    ni as int,
                                )[j])@ == k;
                            assert((#[trigger] names@.take(ni + 1)[j])@ == k);
                        }
                    }
                }
            }
        }
        ni = ni + 1;
    }
    proof {
        assert(names@.take(names@.len() as int) =~= names@);
    }
}

impl MockProject {
    /// Applies the rebuild command's effect: in every repository and
    /// architecture, every named package's status becomes the project's
    /// rebuild status; lifecycle codes, logs and binaries stay.
    pub fn apply_rebuild(&mut self, names: &Vec<String>)
        ensures
            final(self).packages@ == old(self).packages@,
            final(self).rebuild_status == old(self).rebuild_status,
            final(self).repos@.len() == old(self).repos@.len(),
            forall|ri: int|
                0 <= ri < old(self).repos@.len() ==> (#[trigger] final(self).repos@[ri]).0
                    == old(self).repos@[ri].0,
            forall|ri: int|
                0 <= ri < old(self).repos@.len() ==> ({
                    let oa = (#[trigger] old(self).repos@[ri]).1@;
                    let na = final(self).repos@[ri].1@;
                    &&& na.len() == oa.len()
                    &&& forall|ai: int|
                        0 <= ai < oa.len() ==> (#[trigger] na[ai]).0 == oa[ai].0
                            && spec_rebuilt_repo(
                            oa[ai].1,
                            na[ai].1,
                            names@,
                            old(self).rebuild_status,
                        )
                }),
    {
        let st = self.rebuild_status;
        let mut ri: usize = 0;
        while ri < self.repos.len()
            invariant
                ri <= self.repos@.len(),
                st == old(self).rebuild_status,
                self.packages@ == old(self).packages@,
                self.rebuild_status == old(self).rebuild_status,
                self.repos@.len() == old(self).repos@.len(),
                forall|r2: int|
                    ri <= r2 < old(self).repos@.len() ==> (#[trigger] self.repos@[r2]) == old(
                        self,
                    ).repos@[r2],
                forall|r2: int|
                    0 <= r2 < ri ==> (#[trigger] self.repos@[r2]).0 == old(self).repos@[r2].0,
                forall|r2: int|
                    0 <= r2 < ri ==> ({
                        let oa = (#[trigger] old(self).repos@[r2]).1@;
                        let na = self.repos@[r2].1@;
                        &&& na.len() == oa.len()
                        &&& forall|ai: int|
                            0 <= ai < oa.len() ==> (#[trigger] na[ai]).0 == oa[ai].0
                                && spec_rebuilt_repo(oa[ai].1, na[ai].1, names@, st)
                    }),
            decreases self.repos@.len() - ri,
        {
            let ghost repos_pre = self.repos@;
            let (rkey, mut arches) = self.repos.remove(ri);
            let ghost arches_old = arches@;
            let mut ai: usize = 0;
            while ai < arches.len()
                invariant
                    ai <= arches@.len(),
                    arches@.len() == arches_old.len(),
                    forall|a2: int|
                        ai <= a2 < arches_old.len() ==> (#[trigger] arches@[a2]) == arches_old[
                            a2
                        ],
                    forall|a2: int|
                        0 <= a2 < ai ==> (#[trigger] arches@[a2]).0 == arches_old[a2].0
                            && spec_rebuilt_repo(
                            arches_old[a2].1,
                            arches@[a2].1,
                            names@,
                            st,
                        ),
                decreases arches@.len() - ai,
            {
                let (akey, mut repo) = arches.remove(ai);
                rebuild_packages(&mut repo.packages, names, st);
                arches.insert(ai, (akey, repo));
                proof {
                    assert(arches@ =~= arches@);
                }
                ai = ai + 1;
            }
            self.repos.insert(ri, (rkey, arches));
            proof {
                assert(self.repos@ =~= repos_pre.update(ri as int, (rkey, arches)));
            }
            ri = ri + 1;
        }
    }
}

/// Matched architecture lookups of two positionally related archmaps are
/// related repository entries.
pub proof fn lemma_rebuilt_arches_get(
    oa: Seq<(String, MockRepository)>,
    na: Seq<(String, MockRepository)>,
    names: Seq<String>,
    st: MockBuildStatus,
    an: Seq<char>,
)
    requires
        na.len() == oa.len(),
        forall|ai: int|
            0 <= ai < oa.len() ==> (#[trigger] na[ai]).0 == oa[ai].0 && spec_rebuilt_repo(
                oa[ai].1,
                na[ai].1,
                names,
                st,
            ),
    ensures
        match (assoc_get(oa, an), assoc_get(na, an)) {
            (Some(o), Some(n)) => spec_rebuilt_repo(o, n, names, st),
            (None, None) => true,
            _ => false,
        },
    decreases oa.len(),
{
    if oa.len() > 0 {
        assert(na[0].0 == oa[0].0 && spec_rebuilt_repo(oa[0].1, na[0].1, names, st));
        if oa[0].0@ == an {
        } else {
            assert(forall|ai: int|
                0 <= ai < oa.len() - 1 ==> (#[trigger] oa.skip(1)[ai]) == oa[ai + 1]
                    && na.skip(1)[ai] == na[ai + 1]);
            lemma_rebuilt_arches_get(oa.skip(1), na.skip(1), names, st, an);
        }
    }
}

/// Matched repository lookups of two positionally related repository maps
/// resolve to positionally related archmaps.
pub proof fn lemma_rebuilt_repos_get(
    or: Seq<(String, ArchMap)>,
    nr: Seq<(String, ArchMap)>,
    names: Seq<String>,
    st: MockBuildStatus,
    rn: Seq<char>,
)
    requires
        nr.len() == or.len(),
        forall|ri: int|
            0 <= ri < or.len() ==> (#[trigger] nr[ri]).0 == or[ri].0 && ({
                let oa = or[ri].1@;
                let na = nr[ri].1@;
                &&& na.len() == oa.len()
                &&& forall|ai: int|
                    0 <= ai < oa.len() ==> (#[trigger] na[ai]).0 == oa[ai].0
                        && spec_rebuilt_repo(oa[ai].1, na[ai].1, names, st)
            }),
    ensures
        match (assoc_get(or, rn), assoc_get(nr, rn)) {
            (Some(o), Some(n)) => n@.len() == o@.len() && forall|ai: int|
                0 <= ai < o@.len() ==> (#[trigger] n@[ai]).0 == o@[ai].0 && spec_rebuilt_repo(
                    o@[ai].1,
                    n@[ai].1,
                    names,
                    st,
                ),
            (None, None) => true,
            _ => false,
        },
    decreases or.len(),
{
    if or.len() > 0 {
        assert(nr[0].0 == or[0].0);
        if or[0].0@ == rn {
            assert((#[trigger] nr[0]).0 == or[0].0 && ({
                let oa = or[0].1@;
                let na = nr[0].1@;
                &&& na.len() == oa.len()
                &&& forall|ai: int|
                    0 <= ai < oa.len() ==> (#[trigger] na[ai]).0 == oa[ai].0
                        && spec_rebuilt_repo(oa[ai].1, na[ai].1, names, st)
            }));
        } else {
            assert(forall|ri: int|
                0 <= ri < or.len() - 1 ==> (#[trigger] or.skip(1)[ri]) == or[ri + 1]
                    && nr.skip(1)[ri] == nr[ri + 1]);
            lemma_rebuilt_repos_get(or.skip(1), nr.skip(1), names, st, rn);
        }
    }
}

} // verus!
