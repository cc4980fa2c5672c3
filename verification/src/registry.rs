//! The shared registry an emulated service instance works on: the configured
//! credentials and every project's state, with the mutators that seed and
//! evolve it.

use vstd::prelude::*;
use vstd::string::StringExecFns;
use crate::assoc::{
    assoc_get, assoc_has, assoc_index, lemma_assoc_get_at, lemma_assoc_get_none,
    lemma_assoc_get_push, lemma_assoc_get_update_other,
};
use crate::checksum::{hex_of, md5_of};
use crate::codes::MockRepositoryCode;
use crate::error::ApiError;
use crate::project::{
    spec_edited_package, spec_repo, spec_repo_package, MockBuildLog, MockBuildStatus, MockProject,
    MockRepository, MockRepositoryPackage, RepoPackageEdit,
};
use crate::request::Credentials;
use crate::source::{
    clone_entries, clone_files, clone_opt_string, files_upsert, lemma_files_like,
    spec_branched_package, spec_cur_vrev, spec_file_stored, spec_fresh_package,
    spec_revision_added, MockBranchOptions, MockEntry, MockPackage, MockPackageOptions,
    MockRevision, MockRevisionOptions, MockSourceFile, MockSourceFileKey, VersionKey,
    opt_str_view, rev_entries_in,
};

verus! {

/// The projects known to an instance, by name.
pub type ProjectMap = Vec<(String, MockProject)>;

/// Index of the first project carrying the name.
pub fn get_project(projects: &ProjectMap, name: &str) -> (i: usize)
    requires
        assoc_has(projects@, name@),
    ensures
        i < projects@.len(),
        projects@[i as int].0@ == name@,
        forall|j: int| 0 <= j < i ==> (#[trigger] projects@[j]).0@ != name@,
        assoc_get(projects@, name@) == Some(projects@[i as int].1),
{
    let idx = assoc_index(projects, name);
    match idx {
        Some(i) => {
            proof {
                lemma_assoc_get_at(projects@, name@, i as int);
            }
            i
        },
        None => {
            proof {
                assert(false);
            }
            0
        },
    }
}

/// Index of the first package of the project carrying the name.
pub fn get_package(project: &MockProject, name: &str) -> (i: usize)
    requires
        assoc_has(project.packages@, name@),
    ensures
        i < project.packages@.len(),
        project.packages@[i as int].0@ == name@,
        forall|j: int| 0 <= j < i ==> (#[trigger] project.packages@[j]).0@ != name@,
        assoc_get(project.packages@, name@) == Some(project.packages@[i as int].1),
{
    let idx = assoc_index(&project.packages, name);
    match idx {
        Some(i) => {
            proof {
                lemma_assoc_get_at(project.packages@, name@, i as int);
            }
            i
        },
        None => {
            proof {
                assert(false);
            }
            0
        },
    }
}

/// An emulated service instance: the configured basic-auth pair and the
/// project registry.
pub struct ObsMock {
    pub auth: Credentials,
    pub projects: ProjectMap,
}

impl ObsMock {
    /// Every project of the registry is internally consistent.
    pub open spec fn wf(&self) -> bool {
        forall|i: int| 0 <= i < self.projects@.len() ==> (#[trigger] self.projects@[i]).1.wf()
    }

    /// An instance that accepts the given credentials and knows no project.
    pub fn new(username: &str, password: &str) -> (r: ObsMock)
        ensures
            r.wf(),
            r.projects@.len() == 0,
            r.auth.username@ == username@,
            r.auth.password@ == password@,
    {
        ObsMock {
            auth: Credentials {
                username: String::from_str(username),
                password: String::from_str(password),
            },
            projects: Vec::new(),
        }
    }

    /// The configured credentials.
    pub fn auth(&self) -> (r: &Credentials)
        ensures
            r == &self.auth,
    {
        &self.auth
    }

    /// Creates the project if the registry does not know it yet.
    pub fn add_project(&mut self, project_name: String)
        requires
            old(self).wf(),
        ensures
            final(self).wf(),
            final(self).auth == old(self).auth,
            assoc_has(final(self).projects@, project_name@),
            assoc_has(old(self).projects@, project_name@) ==> final(self).projects@ == old(
                self,
            ).projects@,
            !assoc_has(old(self).projects@, project_name@) ==> ({
                &&& final(self).projects@.len() == old(self).projects@.len() + 1
                &&& final(self).projects@.drop_last() == old(self).projects@
                &&& final(self).projects@.last().0 == project_name
                &&& final(self).projects@.last().1.packages@.len() == 0
                &&& final(self).projects@.last().1.repos@.len() == 0
            }),
            forall|n: Seq<char>|
                n != project_name@ ==> #[trigger] assoc_get(final(self).projects@, n)
                    == assoc_get(old(self).projects@, n),
    {
        let ghost pn = project_name@;
        let idx = assoc_index(&self.projects, project_name.as_str());
        match idx {
            Some(i) => {
                proof {
                    assert(assoc_has(self.projects@, pn));
                }
            },
            None => {
                self.projects.push((project_name, MockProject::default()));
                proof {
                    assert(final(self).projects@.drop_last() =~= old(self).projects@);
                    assert((#[trigger] self.projects@[old(self).projects@.len() as int]).0@
                        == pn);
                    assert forall|n: Seq<char>| n != pn implies #[trigger]
                        assoc_get(self.projects@, n) == assoc_get(old(self).projects@, n) by {
                        lemma_assoc_get_push(
                            old(self).projects@,
                            self.projects@.last(),
                            n,
                        );
                        assert(old(self).projects@.push(self.projects@.last())
                            =~= self.projects@);
                    }
                }
            },
        }
    }

    /// Creates a package of the project, replacing any package of that name.
    pub fn add_new_package(
        &mut self,
        project_name: &str,
        package_name: String,
        options: MockPackageOptions,
    )
        requires
            old(self).wf(),
            assoc_has(old(self).projects@, project_name@),
        ensures
            final(self).wf(),
            final(self).auth == old(self).auth,
            forall|n: Seq<char>|
                n != project_name@ ==> #[trigger] assoc_get(final(self).projects@, n)
                    == assoc_get(old(self).projects@, n),
            assoc_get(final(self).projects@, project_name@) is Some,
            ({
                let po = assoc_get(old(self).projects@, project_name@)->Some_0;
                let p = assoc_get(final(self).projects@, project_name@)->Some_0;
                &&& p.repos@ == po.repos@
                &&& p.rebuild_status == po.rebuild_status
                &&& (forall|k: Seq<char>|
                    k != package_name@ ==> #[trigger] assoc_get(p.packages@, k) == assoc_get(
                        po.packages@,
                        k,
                    ))
                &&& assoc_get(p.packages@, package_name@) is Some
                &&& spec_fresh_package(
                    assoc_get(p.packages@, package_name@)->Some_0,
                    project_name@,
                    package_name@,
                    options,
                )
            }),
    {
        let ghost pn = project_name@;
        let pi = get_project(&self.projects, project_name);
        let (pname, mut proj) = self.projects.remove(pi);
        let pkg = MockPackage::new_with_metadata(project_name, package_name.as_str(), options);
        proj.upsert_package(package_name, pkg);
        self.projects.insert(pi, (pname, proj));
        proof {
            assert(self.projects@ =~= old(self).projects@.update(pi as int, (pname, proj)));
            lemma_assoc_get_at(self.projects@, pn, pi as int);
            assert forall|n: Seq<char>| n != pn implies #[trigger]
                assoc_get(self.projects@, n) == assoc_get(old(self).projects@, n) by {
                lemma_assoc_get_update_other(old(self).projects@, pi as int, (pname, proj), n);
            }
        }
    }

    /// Places a file's bytes in a package's content store, keyed by path and
    /// the checksum of the bytes, and hands the key back.
    pub fn add_package_files(
        &mut self,
        project_name: &str,
        package_name: &str,
        file: MockSourceFile,
    ) -> (key: MockSourceFileKey)
        requires
            old(self).wf(),
            assoc_has(old(self).projects@, project_name@),
            assoc_has(
                (assoc_get(old(self).projects@, project_name@)->Some_0).packages@,
                package_name@,
            ),
        ensures
            final(self).wf(),
            final(self).auth == old(self).auth,
            key.path == file.path,
            key.md5@ == hex_of(md5_of(file.contents@)),
            forall|n: Seq<char>|
                n != project_name@ ==> #[trigger] assoc_get(final(self).projects@, n)
                    == assoc_get(old(self).projects@, n),
            assoc_get(final(self).projects@, project_name@) is Some,
            ({
                let po = assoc_get(old(self).projects@, project_name@)->Some_0;
                let p = assoc_get(final(self).projects@, project_name@)->Some_0;
                &&& p.repos@ == po.repos@
                &&& p.rebuild_status == po.rebuild_status
                &&& (forall|k: Seq<char>|
                    k != package_name@ ==> #[trigger] assoc_get(p.packages@, k) == assoc_get(
                        po.packages@,
                        k,
                    ))
                &&& assoc_get(p.packages@, package_name@) is Some
                &&& spec_file_stored(
                    assoc_get(po.packages@, package_name@)->Some_0,
                    assoc_get(p.packages@, package_name@)->Some_0,
                    file,
                )
            }),
    {
        let ghost pn = project_name@;
        let ghost kn = package_name@;
        let pi = get_project(&self.projects, project_name);
        let (pname, mut proj) = self.projects.remove(pi);
        let ghost old_packages = proj.packages@;
        let ki = get_package(&proj, package_name);
        let (kname, mut pkg) = proj.packages.remove(ki);
        let key = pkg.store_file(file);
        proj.packages.insert(ki, (kname, pkg));
        proof {
            assert(proj.packages@ =~= old_packages.update(ki as int, (kname, pkg)));
            lemma_assoc_get_at(proj.packages@, kn, ki as int);
            assert forall|k: Seq<char>| k != kn implies #[trigger]
                assoc_get(proj.packages@, k) == assoc_get(old_packages, k) by {
                lemma_assoc_get_update_other(old_packages, ki as int, (kname, pkg), k);
            }
        }
        self.projects.insert(pi, (pname, proj));
        proof {
            assert(self.projects@ =~= old(self).projects@.update(pi as int, (pname, proj)));
            lemma_assoc_get_at(self.projects@, pn, pi as int);
            assert forall|n: Seq<char>| n != pn implies #[trigger]
                assoc_get(self.projects@, n) == assoc_get(old(self).projects@, n) by {
                lemma_assoc_get_update_other(old(self).projects@, pi as int, (pname, proj), n);
            }
            assert forall|i: int|
                0 <= i < self.projects@.len() implies (#[trigger] self.projects@[i]).1.wf() by {
                if i != pi as int {
                    assert(self.projects@[i] == old(self).projects@[i]);
                } else {
                    assert forall|j: int|
                        0 <= j < proj.packages@.len() implies (#[trigger] proj.packages@[j]).1.wf() by {
                        if j != ki as int {
                            assert(proj.packages@[j] == old_packages[j]);
                        }
                    }
                }
            }
        }
        key
    }

    /// Appends a source revision to a package whose store already holds
    /// every named entry.
    pub fn add_package_revision(
        &mut self,
        project_name: &str,
        package_name: &str,
        options: MockRevisionOptions,
        entries: Vec<(String, MockEntry)>,
    )
        requires
            old(self).wf(),
            assoc_has(old(self).projects@, project_name@),
            assoc_has(
                (assoc_get(old(self).projects@, project_name@)->Some_0).packages@,
                package_name@,
            ),
            ({
                let pkg = assoc_get(
                    (assoc_get(old(self).projects@, project_name@)->Some_0).packages@,
                    package_name@,
                )->Some_0;
                &&& (forall|j: int|
                    0 <= j < entries@.len() ==> assoc_has(
                        pkg.files@,
                        ((#[trigger] entries@[j]).0@, entries@[j].1.md5@),
                    ))
                &&& spec_cur_vrev(pkg.latest_vrevs@, opt_str_view(options.version)) < usize::MAX
            }),
        ensures
            final(self).wf(),
            final(self).auth == old(self).auth,
            forall|n: Seq<char>|
                n != project_name@ ==> #[trigger] assoc_get(final(self).projects@, n)
                    == assoc_get(old(self).projects@, n),
            assoc_get(final(self).projects@, project_name@) is Some,
            ({
                let po = assoc_get(old(self).projects@, project_name@)->Some_0;
                let p = assoc_get(final(self).projects@, project_name@)->Some_0;
                &&& p.repos@ == po.repos@
                &&& p.rebuild_status == po.rebuild_status
                &&& (forall|k: Seq<char>|
                    k != package_name@ ==> #[trigger] assoc_get(p.packages@, k) == assoc_get(
                        po.packages@,
                        k,
                    ))
                &&& assoc_get(p.packages@, package_name@) is Some
                &&& spec_revision_added(
                    assoc_get(po.packages@, package_name@)->Some_0,
                    assoc_get(p.packages@, package_name@)->Some_0,
                    options,
                    entries,
                )
            }),
    {
        let ghost pn = project_name@;
        let ghost kn = package_name@;
        let pi = get_project(&self.projects, project_name);
        let (pname, mut proj) = self.projects.remove(pi);
        let ghost old_packages = proj.packages@;
        let ki = get_package(&proj, package_name);
        let (kname, mut pkg) = proj.packages.remove(ki);
        pkg.add_revision(options, entries);
        proj.packages.insert(ki, (kname, pkg));
        proof {
            assert(proj.packages@ =~= old_packages.update(ki as int, (kname, pkg)));
            lemma_assoc_get_at(proj.packages@, kn, ki as int);
            assert forall|k: Seq<char>| k != kn implies #[trigger]
                assoc_get(proj.packages@, k) == assoc_get(old_packages, k) by {
                lemma_assoc_get_update_other(old_packages, ki as int, (kname, pkg), k);
            }
        }
        self.projects.insert(pi, (pname, proj));
        proof {
            assert(self.projects@ =~= old(self).projects@.update(pi as int, (pname, proj)));
            lemma_assoc_get_at(self.projects@, pn, pi as int);
            assert forall|n: Seq<char>| n != pn implies #[trigger]
                assoc_get(self.projects@, n) == assoc_get(old(self).projects@, n) by {
                lemma_assoc_get_update_other(old(self).projects@, pi as int, (pname, proj), n);
            }
            assert forall|i: int|
                0 <= i < self.projects@.len() implies (#[trigger] self.projects@[i]).1.wf() by {
                if i != pi as int {
                    assert(self.projects@[i] == old(self).projects@[i]);
                } else {
                    assert forall|j: int|
                        0 <= j < proj.packages@.len() implies (#[trigger] proj.packages@[j]).1.wf() by {
                        if j != ki as int {
                            assert(proj.packages@[j] == old_packages[j]);
                        }
                    }
                }
            }
        }
    }

    /// Creates or updates a repository entry of the project.
    pub fn add_or_update_repository(
        &mut self,
        project_name: &str,
        repo_name: String,
        arch: String,
        code: MockRepositoryCode,
    )
        requires
            old(self).wf(),
            assoc_has(old(self).projects@, project_name@),
        ensures
            final(self).wf(),
            final(self).auth == old(self).auth,
            forall|n: Seq<char>|
                n != project_name@ ==> #[trigger] assoc_get(final(self).projects@, n)
                    == assoc_get(old(self).projects@, n),
            assoc_get(final(self).projects@, project_name@) is Some,
            ({
                let po = assoc_get(old(self).projects@, project_name@)->Some_0;
                let p = assoc_get(final(self).projects@, project_name@)->Some_0;
                &&& p.packages@ == po.packages@
                &&& p.rebuild_status == po.rebuild_status
                &&& spec_repo(p, repo_name@, arch@) is Some
                &&& (spec_repo(p, repo_name@, arch@)->Some_0).code == code
                &&& (spec_repo(p, repo_name@, arch@)->Some_0).packages@ == match spec_repo(
                    po,
                    repo_name@,
                    arch@,
                ) {
                    Some(o) => o.packages@,
                    None => Seq::<(String, MockRepositoryPackage)>::empty(),
                }
                &&& (forall|rn: Seq<char>, an: Seq<char>|
                    (rn, an) != (repo_name@, arch@) ==> #[trigger] spec_repo(p, rn, an)
                        == spec_repo(po, rn, an))
            }),
    {
        let ghost pn = project_name@;
        let pi = get_project(&self.projects, project_name);
        let (pname, mut proj) = self.projects.remove(pi);
        proj.upsert_repository(repo_name, arch, code);
        self.projects.insert(pi, (pname, proj));
        proof {
            assert(self.projects@ =~= old(self).projects@.update(pi as int, (pname, proj)));
            lemma_assoc_get_at(self.projects@, pn, pi as int);
            assert forall|n: Seq<char>| n != pn implies #[trigger]
                assoc_get(self.projects@, n) == assoc_get(old(self).projects@, n) by {
                lemma_assoc_get_update_other(old(self).projects@, pi as int, (pname, proj), n);
            }
            assert forall|i: int|
                0 <= i < self.projects@.len() implies (#[trigger] self.projects@[i]).1.wf() by {
                if i != pi as int {
                    assert(self.projects@[i] == old(self).projects@[i]);
                }
            }
        }
    }

    /// Applies one edit to a package's build state under a repository and an
    /// architecture the project has.
    fn edit_repo_package(
        &mut self,
        project_name: &str,
        repo_name: &str,
        arch: &str,
        package_name: String,
        edit: RepoPackageEdit,
    )
        requires
            old(self).wf(),
            assoc_has(old(self).projects@, project_name@),
            spec_repo(
                assoc_get(old(self).projects@, project_name@)->Some_0,
                repo_name@,
                arch@,
            ) is Some,
        ensures
            final(self).wf(),
            final(self).auth == old(self).auth,
            forall|n: Seq<char>|
                n != project_name@ ==> #[trigger] assoc_get(final(self).projects@, n)
                    == assoc_get(old(self).projects@, n),
            assoc_get(final(self).projects@, project_name@) is Some,
            ({
                let po = assoc_get(old(self).projects@, project_name@)->Some_0;
                let p = assoc_get(final(self).projects@, project_name@)->Some_0;
                &&& p.packages@ == po.packages@
                &&& p.rebuild_status == po.rebuild_status
                &&& (forall|rn: Seq<char>, an: Seq<char>|
                    (rn, an) != (repo_name@, arch@) ==> #[trigger] spec_repo(p, rn, an)
                        == spec_repo(po, rn, an))
                &&& spec_repo(p, repo_name@, arch@) is Some
                &&& (spec_repo(p, repo_name@, arch@)->Some_0).code == (spec_repo(
                    po,
                    repo_name@,
                    arch@,
                )->Some_0).code
                &&& spec_repo_package(p, repo_name@, arch@, package_name@) is Some
                &&& spec_edited_package(
                    spec_repo_package(po, repo_name@, arch@, package_name@),
                    edit,
                    spec_repo_package(p, repo_name@, arch@, package_name@)->Some_0,
                )
                &&& (forall|k: Seq<char>|
                    k != package_name@ ==> #[trigger] spec_repo_package(p, repo_name@, arch@, k)
                        == spec_repo_package(po, repo_name@, arch@, k))
            }),
    {
        let ghost pn = project_name@;
        let pi = get_project(&self.projects, project_name);
        let (pname, mut proj) = self.projects.remove(pi);
        proj.edit_repo_package(repo_name, arch, package_name, edit);
        self.projects.insert(pi, (pname, proj));
        proof {
            assert(self.projects@ =~= old(self).projects@.update(pi as int, (pname, proj)));
            lemma_assoc_get_at(self.projects@, pn, pi as int);
            assert forall|n: Seq<char>| n != pn implies #[trigger]
                assoc_get(self.projects@, n) == assoc_get(old(self).projects@, n) by {
                lemma_assoc_get_update_other(old(self).projects@, pi as int, (pname, proj), n);
            }
            assert forall|i: int|
                0 <= i < self.projects@.len() implies (#[trigger] self.projects@[i]).1.wf() by {
                if i != pi as int {
                    assert(self.projects@[i] == old(self).projects@[i]);
                }
            }
        }
    }

    /// Overwrites a package's build status in one repository/architecture,
    /// creating the package state with defaults on first touch.
    pub fn set_package_build_status(
        &mut self,
        project_name: &str,
        repo_name: &str,
        arch: &str,
        package_name: String,
        status: MockBuildStatus,
    )
        requires
            old(self).wf(),
            assoc_has(old(self).projects@, project_name@),
            spec_repo(
                assoc_get(old(self).projects@, project_name@)->Some_0,
                repo_name@,
                arch@,
            ) is Some,
        ensures
            final(self).wf(),
            final(self).auth == old(self).auth,
            forall|n: Seq<char>|
                n != project_name@ ==> #[trigger] assoc_get(final(self).projects@, n)
                    == assoc_get(old(self).projects@, n),
            assoc_get(final(self).projects@, project_name@) is Some,
            ({
                let po = assoc_get(old(self).projects@, project_name@)->Some_0;
                let p = assoc_get(final(self).projects@, project_name@)->Some_0;
                &&& p.packages@ == po.packages@
                &&& p.rebuild_status == po.rebuild_status
                &&& (forall|rn: Seq<char>, an: Seq<char>|
                    (rn, an) != (repo_name@, arch@) ==> #[trigger] spec_repo(p, rn, an)
                        == spec_repo(po, rn, an))
                &&& spec_repo(p, repo_name@, arch@) is Some
                &&& (spec_repo(p, repo_name@, arch@)->Some_0).code == (spec_repo(
                    po,
                    repo_name@,
                    arch@,
                )->Some_0).code
                &&& spec_repo_package(p, repo_name@, arch@, package_name@) is Some
                &&& spec_edited_package(
                    spec_repo_package(po, repo_name@, arch@, package_name@),
                    RepoPackageEdit::SetStatus(status),
                    spec_repo_package(p, repo_name@, arch@, package_name@)->Some_0,
                )
                &&& (forall|k: Seq<char>|
                    k != package_name@ ==> #[trigger] spec_repo_package(p, repo_name@, arch@, k)
                        == spec_repo_package(po, repo_name@, arch@, k))
            }),
    {
        self.edit_repo_package(
            project_name,
            repo_name,
            arch,
            package_name,
            RepoPackageEdit::SetStatus(status),
        );
    }

    /// Records a finished build log of a package in one
    /// repository/architecture, and as the latest successful log when the
    /// build succeeded.
    pub fn add_completed_build_log(
        &mut self,
        project_name: &str,
        repo_name: &str,
        arch: &str,
        package_name: String,
        log: MockBuildLog,
        success: bool,
    )
        requires
            old(self).wf(),
            assoc_has(old(self).projects@, project_name@),
            spec_repo(
                assoc_get(old(self).projects@, project_name@)->Some_0,
                repo_name@,
                arch@,
            ) is Some,
        ensures
            final(self).wf(),
            final(self).auth == old(self).auth,
            forall|n: Seq<char>|
                n != project_name@ ==> #[trigger] assoc_get(final(self).projects@, n)
                    == assoc_get(old(self).projects@, n),
            assoc_get(final(self).projects@, project_name@) is Some,
            ({
                let po = assoc_get(old(self).projects@, project_name@)->Some_0;
                let p = assoc_get(final(self).projects@, project_name@)->Some_0;
                &&& p.packages@ == po.packages@
                &&& p.rebuild_status == po.rebuild_status
                &&& (forall|rn: Seq<char>, an: Seq<char>|
                    (rn, an) != (repo_name@, arch@) ==> #[trigger] spec_repo(p, rn, an)
                        == spec_repo(po, rn, an))
                &&& spec_repo(p, repo_name@, arch@) is Some
                &&& spec_repo_package(p, repo_name@, arch@, package_name@) is Some
                &&& spec_edited_package(
                    spec_repo_package(po, repo_name@, arch@, package_name@),
                    RepoPackageEdit::AddLog(log, success),
                    spec_repo_package(p, repo_name@, arch@, package_name@)->Some_0,
                )
                &&& (forall|k: Seq<char>|
                    k != package_name@ ==> #[trigger] spec_repo_package(p, repo_name@, arch@, k)
                        == spec_repo_package(po, repo_name@, arch@, k))
            }),
    {
        self.edit_repo_package(
            project_name,
            repo_name,
            arch,
            package_name,
            RepoPackageEdit::AddLog(log, success),
        );
    }

    /// Branches a package: copies the origin's store and latest source
    /// entries into a new package of the destination project, linked back at
    /// the origin. Fails closed when the destination package already exists.
    pub fn branch(
        &mut self,
        origin_project_name: String,
        origin_package_name: String,
        branched_project_name: &str,
        branched_package_name: String,
        options: MockBranchOptions,
    ) -> (r: Result<(), ApiError>)
        requires
            old(self).wf(),
            assoc_has(old(self).projects@, origin_project_name@),
            assoc_has(
                (assoc_get(old(self).projects@, origin_project_name@)->Some_0).packages@,
                origin_package_name@,
            ),
            (assoc_get(
                (assoc_get(old(self).projects@, origin_project_name@)->Some_0).packages@,
                origin_package_name@,
            )->Some_0).revisions@.len() > 0,
            assoc_has(old(self).projects@, branched_project_name@),
        ensures
            final(self).wf(),
            final(self).auth == old(self).auth,
            ({
                let dest = assoc_get(old(self).projects@, branched_project_name@)->Some_0;
                match r {
                    Ok(_) => !assoc_has(dest.packages@, branched_package_name@),
                    Err(e) => assoc_has(dest.packages@, branched_package_name@)
                        && e.http_status == 409 && final(self).projects@ == old(self).projects@,
                }
            }),
            r is Ok ==> ({
                let origin = assoc_get(
                    (assoc_get(old(self).projects@, origin_project_name@)->Some_0).packages@,
                    origin_package_name@,
                )->Some_0;
                let po = assoc_get(old(self).projects@, branched_project_name@)->Some_0;
                let p = assoc_get(final(self).projects@, branched_project_name@)->Some_0;
                &&& (forall|n: Seq<char>|
                    n != branched_project_name@ ==> #[trigger] assoc_get(
                        final(self).projects@,
                        n,
                    ) == assoc_get(old(self).projects@, n))
                &&& assoc_get(final(self).projects@, branched_project_name@) is Some
                &&& p.repos@ == po.repos@
                &&& p.rebuild_status == po.rebuild_status
                &&& (forall|k: Seq<char>|
                    k != branched_package_name@ ==> #[trigger] assoc_get(p.packages@, k)
                        == assoc_get(po.packages@, k))
                &&& assoc_get(p.packages@, branched_package_name@) is Some
                &&& spec_branched_package(
                    assoc_get(p.packages@, branched_package_name@)->Some_0,
                    origin,
                    origin_project_name@,
                    origin_package_name@,
                    branched_project_name@,
                    branched_package_name@,
                    options,
                )
            }),
    {
        let ghost opn = origin_project_name@;
        let ghost okn = origin_package_name@;
        let ghost dpn = branched_project_name@;
        let ghost dkn = branched_package_name@;

        let meta = MockSourceFile::new_metadata(
            branched_project_name,
            branched_package_name.as_str(),
        );
        let meta_entry = MockEntry::from_key(
            &MockSourceFileKey::borrowed(
                crate::source::META_PATH,
                meta.md5().as_str(),
            ),
            options.time,
        );

        let opi = get_project(&self.projects, origin_project_name.as_str());
        let oki = get_package(&self.projects[opi].1, origin_package_name.as_str());
        let origin_pkg = &self.projects[opi].1.packages[oki].1;
        let ghost origin_snapshot = *origin_pkg;

        let mut files = clone_files(&origin_pkg.files);
        let last = origin_pkg.revisions.len() - 1;
        let origin_entries = clone_entries(&origin_pkg.revisions[last].entries);
        let origin_srcmd5 = origin_pkg.revisions[last].options.srcmd5.clone();

        proof {
            lemma_files_like(origin_snapshot.files@, files@);
        }
        let meta_key = files_upsert(&mut files, meta);

        let dpi = get_project(&self.projects, branched_project_name);
        let dup = assoc_index(&self.projects[dpi].1.packages, branched_package_name.as_str());
        if dup.is_some() {
            return Err(
                ApiError::new(
                    409,
                    String::from_str("branch_target_exists"),
                    String::from_str("branch target package already exists"),
                ),
            );
        }

        let linkinfo = crate::source::MockLinkInfo {
            project: origin_project_name,
            package: origin_package_name,
            baserev: origin_srcmd5.clone(),
            srcmd5: origin_srcmd5,
            xsrcmd5: options.xsrcmd5,
            lsrcmd5: options.srcmd5.clone(),
        };
        let mut linkinfos: Vec<crate::source::MockLinkInfo> = Vec::new();
        linkinfos.push(linkinfo);

        let mut revisions: Vec<MockRevision> = Vec::new();
        revisions.push(
            MockRevision {
                vrev: Some(1),
                options: MockRevisionOptions {
                    srcmd5: options.srcmd5,
                    version: None,
                    time: options.time,
                    user: options.user.clone(),
                    comment: clone_opt_string(&options.comment),
                },
                linkinfo: linkinfos,
                entries: origin_entries,
            },
        );

        let mut meta_entries: Vec<(String, MockEntry)> = Vec::new();
        meta_entries.push((String::from_str(crate::source::META_PATH), meta_entry));
        let mut meta_revisions: Vec<MockRevision> = Vec::new();
        meta_revisions.push(
            MockRevision {
                vrev: None,
                options: MockRevisionOptions {
                    srcmd5: crate::checksum::random_md5(),
                    version: None,
                    time: options.time,
                    user: options.user,
                    comment: options.comment,
                },
                linkinfo: Vec::new(),
                entries: meta_entries,
            },
        );

        let mut latest_vrevs: Vec<(VersionKey, usize)> = Vec::new();
        latest_vrevs.push((VersionKey { version: None }, 1));

        let b = MockPackage { files, revisions, meta_revisions, latest_vrevs };
        proof {
            assert(assoc_get(b.latest_vrevs@, None::<Seq<char>>) == Some(1usize));
            assert forall|v: Option<Seq<char>>| #[trigger]
                spec_cur_vrev(b.latest_vrevs@, v) <= b.revisions@.len() by {
                if v != None::<Seq<char>> {
                    assert(b.latest_vrevs@[0].0@ == None::<Seq<char>>);
                    lemma_assoc_get_none(b.latest_vrevs@, v);
                }
            }
            assert(b.wf()) by {
                assert forall|j: int|
                    0 <= j < b.revisions@[0].entries@.len() implies assoc_has(
                    b.files@,
                    ((#[trigger] b.revisions@[0].entries@[j]).0@,
                    b.revisions@[0].entries@[j].1.md5@),
                ) by {
                    let e = b.revisions@[0].entries@[j];
                    assert(e == origin_snapshot.revisions@.last().entries@[j]);
                    assert(rev_entries_in(
                        origin_snapshot.files@,
                        origin_snapshot.revisions@.last(),
                    ));
                    assert(assoc_has(origin_snapshot.files@, (e.0@, e.1.md5@)));
                }
                assert(b.meta_revisions@[0].entries@[0].0@ == meta_key.path@);
                assert(assoc_get(b.files@, (meta_key.path@, meta_key.md5@)) is Some);
                assert forall|j: int|
                    0 <= j < b.meta_revisions@[0].entries@.len() implies assoc_has(
                    b.files@,
                    ((#[trigger] b.meta_revisions@[0].entries@[j]).0@,
                    b.meta_revisions@[0].entries@[j].1.md5@),
                ) by {
                    crate::assoc::lemma_assoc_get_some_has(
                        b.files@,
                        (meta_key.path@, meta_key.md5@),
                    );
                }
            }
        }

        let (dname, mut dproj) = self.projects.remove(dpi);
        dproj.upsert_package(branched_package_name, b);
        self.projects.insert(dpi, (dname, dproj));
        proof {
            assert(self.projects@ =~= old(self).projects@.update(dpi as int, (dname, dproj)));
            lemma_assoc_get_at(self.projects@, dpn, dpi as int);
            assert forall|n: Seq<char>| n != dpn implies #[trigger]
                assoc_get(self.projects@, n) == assoc_get(old(self).projects@, n) by {
                lemma_assoc_get_update_other(old(self).projects@, dpi as int, (dname, dproj), n);
            }
            assert forall|i: int|
                0 <= i < self.projects@.len() implies (#[trigger] self.projects@[i]).1.wf() by {
                if i != dpi as int {
                    assert(self.projects@[i] == old(self).projects@[i]);
                }
            }
        }
        Ok(())
    }
}

} // verus!
