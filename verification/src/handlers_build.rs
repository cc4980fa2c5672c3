//! The build half of the protocol surface: repository and architecture
//! listings, the result matrix, single statuses, binaries, build logs and
//! the rebuild command.

use vstd::prelude::*;
use vstd::string::StringExecFns;
use crate::assoc::{
    assoc_get, assoc_has, assoc_index, lemma_assoc_get_at, lemma_assoc_get_none,
    lemma_assoc_get_update_other, str_eq,
};
use crate::codes::{MockPackageCode, MockRepositoryCode};
use crate::error::{unknown_parameter, unknown_project, unsupported_operation, ApiError};
use crate::numtext::{spec_digits, spec_parse_usize, u64_string, parse_usize};
use crate::project::{
    lemma_rebuilt_arches_get, lemma_rebuilt_repos_get, spec_package_names, spec_rebuilt_repo,
    spec_repo, ArchMap, MockBuildLog, MockProject,
};
use crate::xmltext::render_status_xml;
use crate::registry::ObsMock;
use crate::request::{
    check_auth, find_query_param, parse_bool_param, parse_number_param, spec_auth_ok, Credentials,
};
use crate::source::clone_bytes;
use crate::xmltext::status_xml_of;

verus! {

/// Error for a repository name the project does not know.
pub fn unknown_repo(project: &str, repo: &str) -> (r: ApiError)
    ensures
        r.http_status == 404,
        r.code@ == "404"@,
        r.summary@ == "project '"@ + project@ + "' has no repository '"@ + repo@ + "'"@,
{
    let summary = String::from_str("project '").concat(project).concat(
        "' has no repository '",
    ).concat(repo).concat("'");
    ApiError::new(404, String::from_str("404"), summary)
}

/// Error for an architecture the repository does not know.
pub fn unknown_arch(project: &str, repo: &str, arch: &str) -> (r: ApiError)
    ensures
        r.http_status == 404,
        r.code@ == "404"@,
        r.summary@ == "repository '"@ + project@ + "/"@ + repo@ + "' has no architecture '"@
            + arch@ + "'"@,
{
    let summary = String::from_str("repository '").concat(project).concat("/").concat(
        repo,
    ).concat("' has no architecture '").concat(arch).concat("'");
    ApiError::new(404, String::from_str("404"), summary)
}

/// Error for a package name a build operation does not know.
pub fn unknown_build_package(package: &str) -> (r: ApiError)
    ensures
        r.http_status == 404,
        r.code@ == "404"@,
        r.summary@ == "unknown package '"@ + package@ + "'"@,
{
    let summary = String::from_str("unknown package '").concat(package).concat("'");
    ApiError::new(404, String::from_str("404"), summary)
}

/// The status of one package as the result matrix shows it.
#[derive(Debug)]
pub struct PackageStatusView {
    pub package: String,
    pub code: MockPackageCode,
    pub dirty: bool,
}

/// One result of the matrix: a repository/architecture pair, its lifecycle
/// code and the statuses it was asked for.
#[derive(Debug)]
pub struct ResultEntry {
    pub project: String,
    pub repository: String,
    pub arch: String,
    pub code: MockRepositoryCode,
    pub statuses: Vec<PackageStatusView>,
}

/// The whole result listing.
#[derive(Debug)]
pub struct ResultList {
    pub state: String,
    pub results: Vec<ResultEntry>,
}

/// A metadata-only view of a build log.
#[derive(Debug)]
pub struct LogEntryView {
    pub size: usize,
    pub mtime: u64,
}

/// A built binary as the binary listing shows it.
#[derive(Debug)]
pub struct BinaryView {
    pub name: String,
    pub size: usize,
    pub mtime: u64,
}

impl ObsMock {
    /// Serves the repository listing of a project: the repository names in
    /// insertion order.
    pub fn repo_listing(&self, auth: Option<&Credentials>, project_name: &str) -> (r: Result<
        Vec<String>,
        ApiError,
    >)
        requires
            self.wf(),
        ensures
            ({
                let authok = spec_auth_ok(&self.auth, auth);
                let popt = assoc_get(self.projects@, project_name@);
                match r {
                    Err(e) => if !authok {
                        e.http_status == 401
                    } else {
                        &&& popt is None
                        &&& e.http_status == 404
                        &&& e.code@ == "unknown_project"@
                        &&& e.summary@ == project_name@
                    },
                    Ok(v) => {
                        &&& authok
                        &&& popt is Some
                        &&& v@.len() == (popt->Some_0).repos@.len()
                        &&& forall|i: int|
                            0 <= i < v@.len() ==> #[trigger] v@[i] == (popt->Some_0).repos@[i].0
                    },
                }
            }),
    {
        if let Err(e) = check_auth(&self.auth, auth) {
            return Err(e);
        }
        let pidx = assoc_index(&self.projects, project_name);
        let pi = match pidx {
            Some(i) => i,
            None => {
                proof {
                    lemma_assoc_get_none(self.projects@, project_name@);
                }
                return Err(unknown_project(project_name));
            },
        };
        proof {
            lemma_assoc_get_at(self.projects@, project_name@, pi as int);
        }
        let project = &self.projects[pi].1;
        let mut v: Vec<String> = Vec::new();
        let mut i: usize = 0;
        while i < project.repos.len()
            invariant
                i <= project.repos@.len(),
                v@.len() == i,
                forall|j: int| 0 <= j < i ==> #[trigger] v@[j] == project.repos@[j].0,
            decreases project.repos@.len() - i,
        {
            v.push(project.repos[i].0.clone());
            i = i + 1;
        }
        Ok(v)
    }

    /// Serves the architecture listing of a repository: the architecture
    /// names in insertion order.
    pub fn arch_listing(
        &self,
        auth: Option<&Credentials>,
        project_name: &str,
        repo_name: &str,
    ) -> (r: Result<Vec<String>, ApiError>)
        requires
            self.wf(),
        ensures
            ({
                let authok = spec_auth_ok(&self.auth, auth);
                let popt = assoc_get(self.projects@, project_name@);
                let aopt = if popt is Some {
                    assoc_get((popt->Some_0).repos@, repo_name@)
                } else {
                    None
                };
                match r {
                    Err(e) => if !authok {
                        e.http_status == 401
                    } else if popt is None {
                        &&& e.http_status == 404
                        &&& e.code@ == "unknown_project"@
                        &&& e.summary@ == project_name@
                    } else {
                        &&& aopt is None
                        &&& e.http_status == 404
                        &&& e.code@ == "404"@
                        &&& e.summary@ == "project '"@ + project_name@
                            + "' has no repository '"@ + repo_name@ + "'"@
                    },
                    Ok(v) => {
                        &&& authok
                        &&& popt is Some
                        &&& aopt is Some
                        &&& v@.len() == (aopt->Some_0)@.len()
                        &&& forall|i: int|
                            0 <= i < v@.len() ==> #[trigger] v@[i] == (aopt->Some_0)@[i].0
                    },
                }
            }),
    {
        if let Err(e) = check_auth(&self.auth, auth) {
            return Err(e);
        }
        let pidx = assoc_index(&self.projects, project_name);
        let pi = match pidx {
            Some(i) => i,
            None => {
                proof {
                    lemma_assoc_get_none(self.projects@, project_name@);
                }
                return Err(unknown_project(project_name));
            },
        };
        proof {
            lemma_assoc_get_at(self.projects@, project_name@, pi as int);
        }
        let project = &self.projects[pi].1;
        let ridx = assoc_index(&project.repos, repo_name);
        let ri = match ridx {
            Some(i) => i,
            None => {
                proof {
                    lemma_assoc_get_none(project.repos@, repo_name@);
                }
                return Err(unknown_repo(project_name, repo_name));
            },
        };
        proof {
            lemma_assoc_get_at(project.repos@, repo_name@, ri as int);
        }
        let arches = &project.repos[ri].1;
        let mut v: Vec<String> = Vec::new();
        let mut i: usize = 0;
        while i < arches.len()
            invariant
                i <= arches@.len(),
                v@.len() == i,
                forall|j: int| 0 <= j < i ==> #[trigger] v@[j] == arches@[j].0,
            decreases arches@.len() - i,
        {
            v.push(arches[i].0.clone());
            i = i + 1;
        }
        Ok(v)
    }

    /// Serves the status of one package in one repository/architecture.
    pub fn build_status(
        &self,
        auth: Option<&Credentials>,
        project_name: &str,
        repo_name: &str,
        arch: &str,
        package_name: &str,
    ) -> (r: Result<PackageStatusView, ApiError>)
        requires
            self.wf(),
        ensures
            ({
                let authok = spec_auth_ok(&self.auth, auth);
                let popt = assoc_get(self.projects@, project_name@);
                let aopt = if popt is Some {
                    assoc_get((popt->Some_0).repos@, repo_name@)
                } else {
                    None
                };
                let ropt = if aopt is Some {
                    assoc_get((aopt->Some_0)@, arch@)
                } else {
                    None
                };
                let kopt = if ropt is Some {
                    assoc_get((ropt->Some_0).packages@, package_name@)
                } else {
                    None
                };
                match r {
                    Err(e) => if !authok {
                        e.http_status == 401
                    } else if popt is None {
                        &&& e.http_status == 404
                        &&& e.code@ == "unknown_project"@
                        &&& e.summary@ == project_name@
                    } else if aopt is None {
                        &&& e.http_status == 404
                        &&& e.code@ == "404"@
                        &&& e.summary@ == "project '"@ + project_name@
                            + "' has no repository '"@ + repo_name@ + "'"@
                    } else if ropt is None {
                        &&& e.http_status == 404
                        &&& e.code@ == "404"@
                        &&& e.summary@ == "repository '"@ + project_name@ + "/"@ + repo_name@
                            + "' has no architecture '"@ + arch@ + "'"@
                    } else {
                        &&& kopt is None
                        &&& e.http_status == 404
                        &&& e.code@ == "404"@
                        &&& e.summary@ == "unknown package '"@ + package_name@ + "'"@
                    },
                    Ok(st) => {
                        &&& authok
                        &&& kopt is Some
                        &&& st.package@ == package_name@
                        &&& st.code == (kopt->Some_0).status.code
                        &&& st.dirty == (kopt->Some_0).status.dirty
                    },
                }
            }),
    {
        if let Err(e) = check_auth(&self.auth, auth) {
            return Err(e);
        }
        let pidx = assoc_index(&self.projects, project_name);
        let pi = match pidx {
            Some(i) => i,
            None => {
                proof {
                    lemma_assoc_get_none(self.projects@, project_name@);
                }
                return Err(unknown_project(project_name));
            },
        };
        proof {
            lemma_assoc_get_at(self.projects@, project_name@, pi as int);
        }
        let project = &self.projects[pi].1;
        let ridx = assoc_index(&project.repos, repo_name);
        let ri = match ridx {
            Some(i) => i,
            None => {
                proof {
                    lemma_assoc_get_none(project.repos@, repo_name@);
                }
                return Err(unknown_repo(project_name, repo_name));
            },
        };
        proof {
            lemma_assoc_get_at(project.repos@, repo_name@, ri as int);
        }
        let arches = &project.repos[ri].1;
        let aidx = assoc_index(arches, arch);
        let ai = match aidx {
            Some(i) => i,
            None => {
                proof {
                    lemma_assoc_get_none(arches@, arch@);
                }
                return Err(unknown_arch(project_name, repo_name, arch));
            },
        };
        proof {
            lemma_assoc_get_at(arches@, arch@, ai as int);
        }
        let repo = &arches[ai].1;
        let kidx = assoc_index(&repo.packages, package_name);
        let ki = match kidx {
            Some(i) => i,
            None => {
                proof {
                    lemma_assoc_get_none(repo.packages@, package_name@);
                }
                return Err(unknown_build_package(package_name));
            },
        };
        proof {
            lemma_assoc_get_at(repo.packages@, package_name@, ki as int);
        }
        let rp = &repo.packages[ki].1;
        Ok(
            PackageStatusView {
                package: String::from_str(package_name),
                code: rp.status.code,
                dirty: rp.status.dirty,
            },
        )
    }
}


/// Query state of a build-log request after reading its parameters.
#[derive(Debug)]
pub struct LogParams {
    pub start: usize,
    pub end: Option<usize>,
    pub last_successful: bool,
    pub entry_view: bool,
}

/// What reading one numeric log parameter yields.
pub open spec fn spec_log_number(v: Seq<char>) -> Result<usize, Seq<char>> {
    if v.len() == 0 {
        Err("number is empty"@)
    } else {
        match spec_parse_usize(v) {
            Some(n) => Ok(n),
            None => Err("not a number: '"@ + v + "'"@),
        }
    }
}

/// What reading one boolean log parameter yields.
pub open spec fn spec_log_bool(v: Seq<char>) -> Result<bool, Seq<char>> {
    if v == "1"@ {
        Ok(true)
    } else if v == "0"@ {
        Ok(false)
    } else {
        Err("not a boolean"@)
    }
}

/// How the log parameters read, left to right, with the first offending one
/// ending the scan; every error is a bad request with its own summary.
pub open spec fn spec_log_params_from(q: Seq<(String, String)>, acc: LogParams) -> Result<
    LogParams,
    Seq<char>,
>
    decreases q.len(),
{
    if q.len() == 0 {
        Ok(acc)
    } else {
        let k = q[0].0@;
        let v = q[0].1@;
        let step: Result<LogParams, Seq<char>> = if k == "start"@ {
            match spec_log_number(v) {
                Ok(n) => Ok(LogParams { start: n, ..acc }),
                Err(m) => Err(m),
            }
        } else if k == "end"@ {
            match spec_log_number(v) {
                Ok(n) => Ok(LogParams { end: Some(n), ..acc }),
                Err(m) => Err(m),
            }
        } else if k == "last"@ {
            match spec_log_bool(v) {
                Ok(_) => Ok(acc),
                Err(m) => Err(m),
            }
        } else if k == "lastsucceeded"@ {
            match spec_log_bool(v) {
                Ok(b) => Ok(LogParams { last_successful: b, ..acc }),
                Err(m) => Err(m),
            }
        } else if k == "nostream"@ {
            match spec_log_bool(v) {
                Ok(_) => Ok(acc),
                Err(m) => Err(m),
            }
        } else if k == "view"@ && v.len() > 0 {
            if v == "entry"@ {
                Ok(LogParams { entry_view: true, ..acc })
            } else {
                Err("unknown view '"@ + v + "'"@)
            }
        } else {
            Err("unknown parameter '"@ + k + "'"@)
        };
        match step {
            Ok(acc2) => spec_log_params_from(q.skip(1), acc2),
            Err(m) => Err(m),
        }
    }
}

/// The log parameters of a request, from default values.
pub open spec fn spec_log_params(q: Seq<(String, String)>) -> Result<LogParams, Seq<char>> {
    spec_log_params_from(
        q,
        LogParams { start: 0, end: None, last_successful: false, entry_view: false },
    )
}

/// Reads the log query parameters as the service does.
fn read_log_params(query: &Vec<(String, String)>) -> (r: Result<LogParams, ApiError>)
    ensures
        match r {
            Ok(p) => spec_log_params(query@) == Ok::<LogParams, Seq<char>>(p),
            Err(e) => {
                &&& spec_log_params(query@) is Err
                &&& e.http_status == 400
                &&& e.code@ == "400"@
                &&& e.summary@ == spec_log_params(query@)->Err_0
            },
        },
{
    let mut acc = LogParams { start: 0, end: None, last_successful: false, entry_view: false };
    let mut i: usize = 0;
    proof {
        assert(query@.skip(0) =~= query@);
    }
    while i < query.len()
        invariant
            i <= query@.len(),
            spec_log_params(query@) == spec_log_params_from(query@.skip(i as int), acc),
        decreases query@.len() - i,
    {
        proof {
            assert(query@.skip(i as int)[0] == query@[i as int]);
            assert(query@.skip(i as int).skip(1) =~= query@.skip(i + 1));
        }
        let k = &query[i].0;
        let v = &query[i].1;
        if str_eq(k.as_str(), "start") {
            match parse_number_param(v.as_str()) {
                Ok(n) => {
                    acc = LogParams { start: n, ..acc };
                },
                Err(e) => {
                    return Err(e);
                },
            }
        } else if str_eq(k.as_str(), "end") {
            match parse_number_param(v.as_str()) {
                Ok(n) => {
                    acc = LogParams { end: Some(n), ..acc };
                },
                Err(e) => {
                    return Err(e);
                },
            }
        } else if str_eq(k.as_str(), "last") {
            match parse_bool_param(v.as_str()) {
                Ok(_) => {},
                Err(e) => {
                    return Err(e);
                },
            }
        } else if str_eq(k.as_str(), "lastsucceeded") {
            match parse_bool_param(v.as_str()) {
                Ok(b) => {
                    acc = LogParams { last_successful: b, ..acc };
                },
                Err(e) => {
                    return Err(e);
                },
            }
        } else if str_eq(k.as_str(), "nostream") {
            match parse_bool_param(v.as_str()) {
                Ok(_) => {},
                Err(e) => {
                    return Err(e);
                },
            }
        } else if str_eq(k.as_str(), "view") && v.unicode_len() > 0 {
            if str_eq(v.as_str(), "entry") {
                acc = LogParams { entry_view: true, ..acc };
            } else {
                let summary = String::from_str("unknown view '").concat(v.as_str()).concat(
                    "'",
                );
                return Err(ApiError::new(400, String::from_str("400"), summary));
            }
        } else {
            return Err(unknown_parameter(k.as_str()));
        }
        i = i + 1;
    }
    proof {
        assert(query@.skip(query@.len() as int) =~= Seq::<(String, String)>::empty());
    }
    Ok(acc)
}

/// The span of a log read: from `start` to the requested or actual end,
/// clamped to the log's length and to one simulated chunk, and never before
/// `start` itself.
pub open spec fn spec_log_end(len: int, start: int, end: Option<usize>, chunk: Option<usize>) -> int {
    let e1 = match end {
        Some(e) => if e <= len {
            e as int
        } else {
            len
        },
        None => len,
    };
    let e2 = match chunk {
        Some(c) => if start + c <= e1 {
            start + c
        } else {
            e1
        },
        None => e1,
    };
    if e2 < start {
        start
    } else {
        e2
    }
}

/// What a build-log request answers.
#[derive(Debug)]
pub enum BuildLogResult {
    /// The metadata-only view: the log's size and modification time, or
    /// nothing where no log exists yet.
    Entry(Option<LogEntryView>),
    /// One span of the log's text.
    Contents(String),
}

impl ObsMock {
    /// Serves a build-log request: either the metadata-only view or a span
    /// of the selected log's text, clamped as the service clamps it.
    pub fn build_log(
        &self,
        auth: Option<&Credentials>,
        project_name: &str,
        repo_name: &str,
        arch: &str,
        package_name: &str,
        query: &Vec<(String, String)>,
    ) -> (r: Result<BuildLogResult, ApiError>)
        requires
            self.wf(),
        ensures
            ({
                let authok = spec_auth_ok(&self.auth, auth);
                let params = spec_log_params(query@);
                let popt = assoc_get(self.projects@, project_name@);
                let aopt = if popt is Some {
                    assoc_get((popt->Some_0).repos@, repo_name@)
                } else {
                    None
                };
                let ropt = if aopt is Some {
                    assoc_get((aopt->Some_0)@, arch@)
                } else {
                    None
                };
                let kopt = if ropt is Some {
                    assoc_get((ropt->Some_0).packages@, package_name@)
                } else {
                    None
                };
                let log = if kopt is Some {
                    if params is Ok && (params->Ok_0).last_successful {
                        (kopt->Some_0).latest_successful_log
                    } else {
                        (kopt->Some_0).latest_log
                    }
                } else {
                    None
                };
                let loglen = match log {
                    Some(l) => l.contents@.len() as int,
                    None => 0,
                };
                match r {
                    Err(e) => if !authok {
                        e.http_status == 401
                    } else if params is Err {
                        &&& e.http_status == 400
                        &&& e.code@ == "400"@
                        &&& e.summary@ == params->Err_0
                    } else if popt is None {
                        &&& e.http_status == 404
                        &&& e.code@ == "unknown_project"@
                        &&& e.summary@ == project_name@
                    } else if aopt is None {
                        &&& e.http_status == 404
                        &&& e.code@ == "404"@
                        &&& e.summary@ == "project '"@ + project_name@
                            + "' has no repository '"@ + repo_name@ + "'"@
                    } else if ropt is None {
                        &&& e.http_status == 404
                        &&& e.code@ == "404"@
                        &&& e.summary@ == "repository '"@ + project_name@ + "/"@ + repo_name@
                            + "' has no architecture '"@ + arch@ + "'"@
                    } else if kopt is None {
                        &&& e.http_status == 404
                        &&& e.code@ == "404"@
                        &&& e.summary@ == "unknown package '"@ + package_name@ + "'"@
                    } else {
                        &&& !(params->Ok_0).entry_view
                        &&& (params->Ok_0).start > loglen
                        &&& e.http_status == 400
                        &&& e.code@ == "400"@
                        &&& e.summary@ == "remote error: start out of range  "@ + spec_digits(
                            (params->Ok_0).start as nat,
                        )
                    },
                    Ok(o) => {
                        &&& authok
                        &&& params is Ok
                        &&& kopt is Some
                        &&& ({
                            let p = params->Ok_0;
                            if p.entry_view {
                                match o {
                                    BuildLogResult::Entry(ent) => match log {
                                        Some(l) => ent is Some
                                            && (ent->Some_0).size == l.contents@.len()
                                            && (ent->Some_0).mtime == l.mtime,
                                        None => ent is None,
                                    },
                                    BuildLogResult::Contents(_) => false,
                                }
                            } else {
                                match o {
                                    BuildLogResult::Contents(text) => {
                                        &&& p.start <= loglen
                                        &&& ({
                                            let chunk = match log {
                                                Some(l) => l.chunk_size,
                                                None => None,
                                            };
                                            let e2 = spec_log_end(
                                                loglen,
                                                p.start as int,
                                                p.end,
                                                chunk,
                                            );
                                            text@ == match log {
                                                Some(l) => l.contents@.subrange(
                                                    p.start as int,
                                                    e2,
                                                ),
                                                None => Seq::<char>::empty(),
                                            }
                                        })
                                    },
                                    BuildLogResult::Entry(_) => false,
                                }
                            }
                        })
                    },
                }
            }),
    {
        if let Err(e) = check_auth(&self.auth, auth) {
            return Err(e);
        }
        let params = match read_log_params(query) {
            Ok(p) => p,
            Err(e) => {
                return Err(e);
            },
        };
        let pidx = assoc_index(&self.projects, project_name);
        let pi = match pidx {
            Some(i) => i,
            None => {
                proof {
                    lemma_assoc_get_none(self.projects@, project_name@);
                }
                return Err(unknown_project(project_name));
            },
        };
        proof {
            lemma_assoc_get_at(self.projects@, project_name@, pi as int);
        }
        let project = &self.projects[pi].1;
        let ridx = assoc_index(&project.repos, repo_name);
        let ri = match ridx {
            Some(i) => i,
            None => {
                proof {
                    lemma_assoc_get_none(project.repos@, repo_name@);
                }
                return Err(unknown_repo(project_name, repo_name));
            },
        };
        proof {
            lemma_assoc_get_at(project.repos@, repo_name@, ri as int);
        }
        let arches = &project.repos[ri].1;
        let aidx = assoc_index(arches, arch);
        let ai = match aidx {
            Some(i) => i,
            None => {
                proof {
                    lemma_assoc_get_none(arches@, arch@);
                }
                return Err(unknown_arch(project_name, repo_name, arch));
            },
        };
        proof {
            lemma_assoc_get_at(arches@, arch@, ai as int);
        }
        let repo = &arches[ai].1;
        let kidx = assoc_index(&repo.packages, package_name);
        let ki = match kidx {
            Some(i) => i,
            None => {
                proof {
                    lemma_assoc_get_none(repo.packages@, package_name@);
                }
                return Err(unknown_build_package(package_name));
            },
        };
        proof {
            lemma_assoc_get_at(repo.packages@, package_name@, ki as int);
        }
        let rp = &repo.packages[ki].1;
        let log: &Option<MockBuildLog> = if params.last_successful {
            &rp.latest_successful_log
        } else {
            &rp.latest_log
        };

        if params.entry_view {
            let ent: Option<LogEntryView> = match log {
                Some(l) => Some(LogEntryView { size: l.contents.unicode_len(), mtime: l.mtime }),
                None => None,
            };
            return Ok(BuildLogResult::Entry(ent));
        }

        match log {
            None => {
                if params.start > 0 {
                    let summary = String::from_str("remote error: start out of range  ").concat(
                        u64_string(params.start as u64).as_str(),
                    );
                    return Err(ApiError::new(400, String::from_str("400"), summary));
                }
                Ok(BuildLogResult::Contents(String::new()))
            },
            Some(l) => {
                let len = l.contents.unicode_len();
                if params.start > len {
                    let summary = String::from_str("remote error: start out of range  ").concat(
                        u64_string(params.start as u64).as_str(),
                    );
                    return Err(ApiError::new(400, String::from_str("400"), summary));
                }
                let e1 = match params.end {
                    Some(e) => if e <= len {
                        e
                    } else {
                        len
                    },
                    None => len,
                };
                let e2 = match l.chunk_size {
                    Some(c) => {
                        if c <= usize::MAX - params.start && params.start + c <= e1 {
                            params.start + c
                        } else {
                            e1
                        }
                    },
                    None => e1,
                };
                let e3 = if e2 < params.start {
                    params.start
                } else {
                    e2
                };
                let text = l.contents.as_str().substring_char(params.start, e3);
                Ok(BuildLogResult::Contents(text.to_owned()))
            },
        }
    }
}


/// Sum of the architecture counts of the first `ri` repositories: where the
/// flattened result listing of repository `ri` starts.
pub open spec fn spec_arch_prefix(repos: Seq<(String, ArchMap)>, ri: int) -> int
    decreases ri,
{
    if ri <= 0 {
        0
    } else {
        spec_arch_prefix(repos, ri - 1) + repos[ri - 1].1@.len()
    }
}

pub proof fn lemma_arch_prefix_le(repos: Seq<(String, ArchMap)>, a: int, b: int)
    requires
        0 <= a <= b,
    ensures
        spec_arch_prefix(repos, a) <= spec_arch_prefix(repos, b),
    decreases b - a,
{
    if a < b {
        lemma_arch_prefix_le(repos, a, b - 1);
    }
}

/// The filter values of a result query: every parameter must be named
/// `package`; the first one named otherwise ends the scan.
pub open spec fn spec_result_filters_from(q: Seq<(String, String)>, acc: Seq<String>) -> Result<
    Seq<String>,
    Seq<char>,
>
    decreases q.len(),
{
    if q.len() == 0 {
        Ok(acc)
    } else if q[0].0@ == "package"@ {
        spec_result_filters_from(q.skip(1), acc.push(q[0].1))
    } else {
        Err(q[0].0@)
    }
}

pub open spec fn spec_result_filters(q: Seq<(String, String)>) -> Result<Seq<String>, Seq<char>> {
    spec_result_filters_from(q, Seq::empty())
}

/// How one flattened result entry renders one repository/architecture pair:
/// its lifecycle code, and either every package state of the pair or
/// exactly the filtered ones, in filter order.
pub open spec fn spec_result_entry_ok(
    results: Seq<ResultEntry>,
    repos: Seq<(String, ArchMap)>,
    project: Seq<char>,
    filters: Seq<String>,
    ri: int,
    ai: int,
) -> bool {
    let entry = results[spec_arch_prefix(repos, ri) + ai];
    let rname = repos[ri].0;
    let arches = repos[ri].1;
    let aname = arches@[ai].0;
    let repo = arches@[ai].1;
    &&& entry.project@ == project
    &&& entry.repository == rname
    &&& entry.arch == aname
    &&& entry.code == repo.code
    &&& if filters.len() == 0 {
        &&& entry.statuses@.len() == repo.packages@.len()
        &&& forall|j: int|
            0 <= j < repo.packages@.len() ==> {
                let st = #[trigger] entry.statuses@[j];
                &&& st.package == repo.packages@[j].0
                &&& st.code == repo.packages@[j].1.status.code
                &&& st.dirty == repo.packages@[j].1.status.dirty
            }
    } else {
        &&& entry.statuses@.len() == filters.len()
        &&& forall|j: int|
            0 <= j < filters.len() ==> {
                let st = #[trigger] entry.statuses@[j];
                let rp = assoc_get(repo.packages@, filters[j]@);
                &&& rp is Some
                &&& st.package == filters[j]
                &&& st.code == (rp->Some_0).status.code
                &&& st.dirty == (rp->Some_0).status.dirty
            }
    }
}

impl ObsMock {
    /// Serves the result matrix: one entry for every repository and
    /// architecture the project has, each carrying either every package
    /// state of the pair or exactly the filtered package names, which must
    /// all exist in every pair.
    pub fn build_results(
        &self,
        auth: Option<&Credentials>,
        project_name: &str,
        query: &Vec<(String, String)>,
    ) -> (r: Result<ResultList, ApiError>)
        requires
            self.wf(),
        ensures
            ({
                let authok = spec_auth_ok(&self.auth, auth);
                let filters = spec_result_filters(query@);
                let popt = assoc_get(self.projects@, project_name@);
                match r {
                    Err(e) => if !authok {
                        e.http_status == 401
                    } else if filters is Err {
                        &&& e.http_status == 400
                        &&& e.code@ == "400"@
                        &&& e.summary@ == "unknown parameter '"@ + filters->Err_0 + "'"@
                    } else if popt is None {
                        &&& e.http_status == 404
                        &&& e.code@ == "unknown_project"@
                        &&& e.summary@ == project_name@
                    } else {
                        let fs = filters->Ok_0;
                        let repos = (popt->Some_0).repos@;
                        &&& fs.len() > 0
                        &&& e.http_status == 404
                        &&& e.code@ == "404"@
                        &&& exists|j: int|
                            0 <= j < fs.len() && e.summary@ == "unknown package '"@ + (
                            #[trigger] fs[j])@ + "'"@ && exists|ri: int, ai: int|
                                0 <= ri < repos.len() && 0 <= ai < repos[ri].1@.len()
                                    && assoc_get(
                                    (#[trigger] repos[ri].1@[ai]).1.packages@,
                                    fs[j]@,
                                ) is None
                    },
                    Ok(rl) => {
                        &&& authok
                        &&& filters is Ok
                        &&& popt is Some
                        &&& rl.state@ == "3ff37f67d60b76bd0491a5243311ba81"@
                        &&& ({
                            let fs = filters->Ok_0;
                            let repos = (popt->Some_0).repos@;
                            &&& rl.results@.len() == spec_arch_prefix(repos, repos.len() as int)
                            &&& forall|ri: int, ai: int|
                                0 <= ri < repos.len() && 0 <= ai < repos[ri].1@.len()
                                    ==> #[trigger] spec_result_entry_ok(
                                    rl.results@,
                                    repos,
                                    project_name@,
                                    fs,
                                    ri,
                                    ai,
                                )
                        })
                    },
                }
            }),
    {
        if let Err(e) = check_auth(&self.auth, auth) {
            return Err(e);
        }
        let mut filters: Vec<String> = Vec::new();
        let mut qi: usize = 0;
        proof {
            assert(query@.skip(0) =~= query@);
        }
        while qi < query.len()
            invariant
                qi <= query@.len(),
                spec_auth_ok(&self.auth, auth),
                spec_result_filters(query@) == spec_result_filters_from(
                    query@.skip(qi as int),
                    filters@,
                ),
            decreases query@.len() - qi,
        {
            proof {
                assert(query@.skip(qi as int)[0] == query@[qi as int]);
                assert(query@.skip(qi as int).skip(1) =~= query@.skip(qi + 1));
            }
            if !str_eq(query[qi].0.as_str(), "package") {
                return Err(unknown_parameter(query[qi].0.as_str()));
            }
            filters.push(query[qi].1.clone());
            qi = qi + 1;
        }
        proof {
            assert(query@.skip(qi as int) =~= Seq::<(String, String)>::empty());
            assert(spec_result_filters(query@) == Ok::<Seq<String>, Seq<char>>(filters@));
        }

        let pidx = assoc_index(&self.projects, project_name);
        let pi = match pidx {
            Some(i) => i,
            None => {
                proof {
                    lemma_assoc_get_none(self.projects@, project_name@);
                }
                return Err(unknown_project(project_name));
            },
        };
        proof {
            lemma_assoc_get_at(self.projects@, project_name@, pi as int);
        }
        let project = &self.projects[pi].1;
        let ghost repos = project.repos@;

        let mut results: Vec<ResultEntry> = Vec::new();
        let mut ri: usize = 0;
        while ri < project.repos.len()
            invariant
                ri <= repos.len(),
                repos == project.repos@,
                pi < self.projects@.len(),
                project == &self.projects@[pi as int].1,
                spec_auth_ok(&self.auth, auth),
                spec_result_filters(query@) == Ok::<Seq<String>, Seq<char>>(filters@),
                assoc_get(self.projects@, project_name@) == Some(self.projects@[pi as int].1),
                results@.len() == spec_arch_prefix(repos, ri as int),
                forall|r2: int, a2: int|
                    0 <= r2 < ri && 0 <= a2 < repos[r2].1@.len() ==> #[trigger]
                        spec_result_entry_ok(
                        results@,
                        repos,
                        project_name@,
                        filters@,
                        r2,
                        a2,
                    ),
            decreases repos.len() - ri,
        {
            let arches = &project.repos[ri].1;
            let ghost results_before = results@;
            let mut ai: usize = 0;
            while ai < arches.len()
                invariant
                    ai <= arches@.len(),
                    ri < repos.len(),
                    repos == project.repos@,
                    arches == &repos[ri as int].1,
                    pi < self.projects@.len(),
                    project == &self.projects@[pi as int].1,
                    spec_auth_ok(&self.auth, auth),
                spec_result_filters(query@) == Ok::<Seq<String>, Seq<char>>(filters@),
                assoc_get(self.projects@, project_name@) == Some(self.projects@[pi as int].1),
                    results@.len() == spec_arch_prefix(repos, ri as int) + ai,
                    results@.take(spec_arch_prefix(repos, ri as int)) == results_before,
                    results_before.len() == spec_arch_prefix(repos, ri as int),
                    forall|a2: int|
                        0 <= a2 < ai ==> #[trigger] spec_result_entry_ok(
                            results@,
                            repos,
                            project_name@,
                            filters@,
                            ri as int,
                            a2,
                        ),
                    forall|r2: int, a2: int|
                        0 <= r2 < ri && 0 <= a2 < repos[r2].1@.len() ==> #[trigger]
                            spec_result_entry_ok(
                            results_before,
                            repos,
                            project_name@,
                            filters@,
                            r2,
                            a2,
                        ),
                decreases arches@.len() - ai,
            {
                let repo = &arches[ai].1;
                let mut statuses: Vec<PackageStatusView> = Vec::new();
                if filters.len() == 0 {
                    let mut ki: usize = 0;
                    while ki < repo.packages.len()
                        invariant
                            ki <= repo.packages@.len(),
                            ri < repos.len(),
                            ai < arches@.len(),
                            repos == project.repos@,
                            arches == &repos[ri as int].1,
                            repo == &arches@[ai as int].1,
                            statuses@.len() == ki,
                            forall|j: int|
                                0 <= j < ki ==> {
                                    let st = #[trigger] statuses@[j];
                                    &&& st.package == repo.packages@[j].0
                                    &&& st.code == repo.packages@[j].1.status.code
                                    &&& st.dirty == repo.packages@[j].1.status.dirty
                                },
                        decreases repo.packages@.len() - ki,
                    {
                        statuses.push(
                            PackageStatusView {
                                package: repo.packages[ki].0.clone(),
                                code: repo.packages[ki].1.status.code,
                                dirty: repo.packages[ki].1.status.dirty,
                            },
                        );
                        ki = ki + 1;
                    }
                } else {
                    let mut fi: usize = 0;
                    while fi < filters.len()
                        invariant
                            fi <= filters@.len(),
                            ri < repos.len(),
                            ai < arches@.len(),
                            repos == project.repos@,
                            arches == &repos[ri as int].1,
                            repo == &arches@[ai as int].1,
                            pi < self.projects@.len(),
                            project == &self.projects@[pi as int].1,
                        spec_auth_ok(&self.auth, auth),
                spec_result_filters(query@) == Ok::<Seq<String>, Seq<char>>(filters@),
                assoc_get(self.projects@, project_name@) == Some(self.projects@[pi as int].1),
                            statuses@.len() == fi,
                            forall|j: int|
                                0 <= j < fi ==> {
                                    let st = #[trigger] statuses@[j];
                                    let rp = assoc_get(repo.packages@, filters@[j]@);
                                    &&& rp is Some
                                    &&& st.package == filters@[j]
                                    &&& st.code == (rp->Some_0).status.code
                                    &&& st.dirty == (rp->Some_0).status.dirty
                                },
                        decreases filters@.len() - fi,
                    {
                        let kidx = assoc_index(&repo.packages, filters[fi].as_str());
                        let ki = match kidx {
                            Some(k) => k,
                            None => {
                                proof {
                                    lemma_assoc_get_none(repo.packages@, filters@[fi as int]@);
                                    assert(0 <= ri < repos.len() && 0 <= ai < repos[
                                        ri as int
                                    ].1@.len() && assoc_get(
                                        (repos[ri as int].1@[ai as int]).1.packages@,
                                        filters@[fi as int]@,
                                    ) is None);
                                }
                                let e = unknown_build_package(filters[fi].as_str());
                                proof {
                                    let fsx = spec_result_filters(query@)->Ok_0;
                                    let reposx = (assoc_get(
                                        self.projects@,
                                        project_name@,
                                    )->Some_0).repos@;
                                    assert(fsx == filters@);
                                    assert(reposx == repos);
                                    assert(fsx[fi as int] == filters@[fi as int]);
                                    assert(reposx[ri as int].1@[ai as int] == repos[
                                        ri as int
                                    ].1@[ai as int]);
                                    assert(assoc_get(
                                        (reposx[ri as int].1@[ai as int]).1.packages@,
                                        fsx[fi as int]@,
                                    ) is None);
                                    assert(0 <= fi < fsx.len() && e.summary@
                                        == "unknown package '"@ + (fsx[fi as int])@ + "'"@);
                                    assert(exists|j: int|
                                        0 <= j < fsx.len() && e.summary@
                                            == "unknown package '"@ + (#[trigger] fsx[j])@
                                            + "'"@ && exists|ri2: int, ai2: int|
                                            0 <= ri2 < reposx.len() && 0 <= ai2 < reposx[
                                            ri2
                                        ].1@.len() && assoc_get(
                                            (#[trigger] reposx[ri2].1@[ai2]).1.packages@,
                                            fsx[j]@,
                                        ) is None);
                                }
                                return Err(e);
                            },
                        };
                        proof {
                            lemma_assoc_get_at(repo.packages@, filters@[fi as int]@, ki as int);
                        }
                        statuses.push(
                            PackageStatusView {
                                package: filters[fi].clone(),
                                code: repo.packages[ki].1.status.code,
                                dirty: repo.packages[ki].1.status.dirty,
                            },
                        );
                        fi = fi + 1;
                    }
                }
                let ghost results_pre = results@;
                results.push(
                    ResultEntry {
                        project: String::from_str(project_name),
                        repository: project.repos[ri].0.clone(),
                        arch: arches[ai].0.clone(),
                        code: repo.code,
                        statuses,
                    },
                );
                proof {
                    assert(results@ =~= results_pre.push(results@.last()));
                    assert(results@.take(spec_arch_prefix(repos, ri as int))
                        =~= results_before);
                    assert(results@.last() == results@[spec_arch_prefix(repos, ri as int)
                        + ai]);
                    assert(spec_result_entry_ok(
                        results@,
                        repos,
                        project_name@,
                        filters@,
                        ri as int,
                        ai as int,
                    ));
                    assert forall|a2: int| 0 <= a2 < ai + 1 implies #[trigger]
                        spec_result_entry_ok(
                        results@,
                        repos,
                        project_name@,
                        filters@,
                        ri as int,
                        a2,
                    ) by {
                        if a2 < ai {
                            assert(spec_result_entry_ok(
                                results_pre,
                                repos,
                                project_name@,
                                filters@,
                                ri as int,
                                a2,
                            ));
                            assert(results@[spec_arch_prefix(repos, ri as int) + a2]
                                == results_pre[spec_arch_prefix(repos, ri as int) + a2]);
                        }
                    }
                    assert forall|r2: int, a2: int|
                        0 <= r2 < ri && 0 <= a2 < repos[r2].1@.len() implies #[trigger]
                        spec_result_entry_ok(
                        results@,
                        repos,
                        project_name@,
                        filters@,
                        r2,
                        a2,
                    ) by {
                        lemma_arch_prefix_le(repos, 0, r2);
                        lemma_arch_prefix_le(repos, r2 + 1, ri as int);
                        assert(spec_arch_prefix(repos, r2 + 1) == spec_arch_prefix(repos, r2)
                            + repos[r2].1@.len());
                        assert(spec_arch_prefix(repos, r2) + a2 < spec_arch_prefix(
                            repos,
                            r2 + 1,
                        ));
                        assert(spec_result_entry_ok(
                            results_before,
                            repos,
                            project_name@,
                            filters@,
                            r2,
                            a2,
                        ));
                        assert(results@.take(spec_arch_prefix(repos, ri as int))[
                            spec_arch_prefix(repos, r2) + a2
                        ] == results@[spec_arch_prefix(repos, r2) + a2]);
                        assert(results@[spec_arch_prefix(repos, r2) + a2] == results_before[
                            spec_arch_prefix(repos, r2) + a2
                        ]);
                    }
                }
                ai = ai + 1;
            }
            proof {
                assert(spec_arch_prefix(repos, ri + 1) == spec_arch_prefix(repos, ri as int)
                    + repos[ri as int].1@.len());
                assert forall|r2: int, a2: int|
                    0 <= r2 < ri + 1 && 0 <= a2 < repos[r2].1@.len() implies #[trigger]
                    spec_result_entry_ok(
                    results@,
                    repos,
                    project_name@,
                    filters@,
                    r2,
                    a2,
                ) by {
                    if r2 < ri {
                        lemma_arch_prefix_le(repos, 0, r2);
                        lemma_arch_prefix_le(repos, r2 + 1, ri as int);
                        assert(spec_arch_prefix(repos, r2 + 1) == spec_arch_prefix(repos, r2)
                            + repos[r2].1@.len());
                        assert(spec_result_entry_ok(
                            results_before,
                            repos,
                            project_name@,
                            filters@,
                            r2,
                            a2,
                        ));
                        assert(results@.take(spec_arch_prefix(repos, ri as int))[
                            spec_arch_prefix(repos, r2) + a2
                        ] == results@[spec_arch_prefix(repos, r2) + a2]);
                        assert(results@[spec_arch_prefix(repos, r2) + a2] == results_before[
                            spec_arch_prefix(repos, r2) + a2
                        ]);
                    }
                }
            }
            ri = ri + 1;
        }
        proof {
            assert(spec_result_filters(query@) == Ok::<Seq<String>, Seq<char>>(filters@));
            assert(results@.len() == spec_arch_prefix(repos, repos.len() as int));
            let ghost fs = spec_result_filters(query@)->Ok_0;
            let ghost repos2 = (assoc_get(self.projects@, project_name@)->Some_0).repos@;
            assert(fs == filters@ && repos2 == repos);
            assert forall|ri2: int, ai2: int|
                0 <= ri2 < repos2.len() && 0 <= ai2 < repos2[ri2].1@.len() implies #[trigger]
                spec_result_entry_ok(results@, repos2, project_name@, fs, ri2, ai2) by {
                assert(spec_result_entry_ok(results@, repos, project_name@, filters@, ri2, ai2));
            }
        }
        Ok(
            ResultList {
                state: String::from_str("3ff37f67d60b76bd0491a5243311ba81"),
                results,
            },
        )
    }

    /// Serves the binary listing of a package in one
    /// repository/architecture: name, size and modification time of each
    /// built artifact.
    pub fn binary_list(
        &self,
        auth: Option<&Credentials>,
        project_name: &str,
        repo_name: &str,
        arch: &str,
        package_name: &str,
    ) -> (r: Result<Vec<BinaryView>, ApiError>)
        requires
            self.wf(),
        ensures
            ({
                let authok = spec_auth_ok(&self.auth, auth);
                let popt = assoc_get(self.projects@, project_name@);
                let aopt = if popt is Some {
                    assoc_get((popt->Some_0).repos@, repo_name@)
                } else {
                    None
                };
                let ropt = if aopt is Some {
                    assoc_get((aopt->Some_0)@, arch@)
                } else {
                    None
                };
                let kopt = if ropt is Some {
                    assoc_get((ropt->Some_0).packages@, package_name@)
                } else {
                    None
                };
                match r {
                    Err(e) => if !authok {
                        e.http_status == 401
                    } else if popt is None {
                        &&& e.http_status == 404
                        &&& e.code@ == "unknown_project"@
                        &&& e.summary@ == project_name@
                    } else if aopt is None {
                        &&& e.http_status == 404
                        &&& e.code@ == "404"@
                        &&& e.summary@ == "project '"@ + project_name@
                            + "' has no repository '"@ + repo_name@ + "'"@
                    } else if ropt is None {
                        &&& e.http_status == 404
                        &&& e.code@ == "404"@
                        &&& e.summary@ == "repository '"@ + project_name@ + "/"@ + repo_name@
                            + "' has no architecture '"@ + arch@ + "'"@
                    } else {
                        &&& kopt is None
                        &&& e.http_status == 404
                        &&& e.code@ == "404"@
                        &&& e.summary@ == "unknown package '"@ + package_name@ + "'"@
                    },
                    Ok(v) => {
                        &&& authok
                        &&& kopt is Some
                        &&& ({
                            let bins = (kopt->Some_0).binaries@;
                            &&& v@.len() == bins.len()
                            &&& forall|i: int|
                                0 <= i < bins.len() ==> {
                                    let b = #[trigger] v@[i];
                                    &&& b.name == bins[i].0
                                    &&& b.size == bins[i].1.contents@.len()
                                    &&& b.mtime == bins[i].1.mtime
                                }
                        })
                    },
                }
            }),
    {
        if let Err(e) = check_auth(&self.auth, auth) {
            return Err(e);
        }
        let pidx = assoc_index(&self.projects, project_name);
        let pi = match pidx {
            Some(i) => i,
            None => {
                proof {
                    lemma_assoc_get_none(self.projects@, project_name@);
                }
                return Err(unknown_project(project_name));
            },
        };
        proof {
            lemma_assoc_get_at(self.projects@, project_name@, pi as int);
        }
        let project = &self.projects[pi].1;
        let ridx = assoc_index(&project.repos, repo_name);
        let ri = match ridx {
            Some(i) => i,
            None => {
                proof {
                    lemma_assoc_get_none(project.repos@, repo_name@);
                }
                return Err(unknown_repo(project_name, repo_name));
            },
        };
        proof {
            lemma_assoc_get_at(project.repos@, repo_name@, ri as int);
        }
        let arches = &project.repos[ri].1;
        let aidx = assoc_index(arches, arch);
        let ai = match aidx {
            Some(i) => i,
            None => {
                proof {
                    lemma_assoc_get_none(arches@, arch@);
                }
                return Err(unknown_arch(project_name, repo_name, arch));
            },
        };
        proof {
            lemma_assoc_get_at(arches@, arch@, ai as int);
        }
        let repo = &arches[ai].1;
        let kidx = assoc_index(&repo.packages, package_name);
        let ki = match kidx {
            Some(i) => i,
            None => {
                proof {
                    lemma_assoc_get_none(repo.packages@, package_name@);
                }
                return Err(unknown_build_package(package_name));
            },
        };
        proof {
            lemma_assoc_get_at(repo.packages@, package_name@, ki as int);
        }
        let rp = &repo.packages[ki].1;
        let mut v: Vec<BinaryView> = Vec::new();
        let mut i: usize = 0;
        while i < rp.binaries.len()
            invariant
                i <= rp.binaries@.len(),
                v@.len() == i,
                forall|j: int|
                    0 <= j < i ==> {
                        let b = #[trigger] v@[j];
                        &&& b.name == rp.binaries@[j].0
                        &&& b.size == rp.binaries@[j].1.contents@.len()
                        &&& b.mtime == rp.binaries@[j].1.mtime
                    },
            decreases rp.binaries@.len() - i,
        {
            v.push(
                BinaryView {
                    name: rp.binaries[i].0.clone(),
                    size: rp.binaries[i].1.contents.len(),
                    mtime: rp.binaries[i].1.mtime,
                },
            );
            i = i + 1;
        }
        Ok(v)
    }

    /// Serves the bytes of one built binary.
    pub fn binary_file(
        &self,
        auth: Option<&Credentials>,
        project_name: &str,
        repo_name: &str,
        arch: &str,
        package_name: &str,
        file_name: &str,
    ) -> (r: Result<Vec<u8>, ApiError>)
        requires
            self.wf(),
        ensures
            ({
                let authok = spec_auth_ok(&self.auth, auth);
                let popt = assoc_get(self.projects@, project_name@);
                let aopt = if popt is Some {
                    assoc_get((popt->Some_0).repos@, repo_name@)
                } else {
                    None
                };
                let ropt = if aopt is Some {
                    assoc_get((aopt->Some_0)@, arch@)
                } else {
                    None
                };
                let kopt = if ropt is Some {
                    assoc_get((ropt->Some_0).packages@, package_name@)
                } else {
                    None
                };
                let bopt = if kopt is Some {
                    assoc_get((kopt->Some_0).binaries@, file_name@)
                } else {
                    None
                };
                match r {
                    Err(e) => if !authok {
                        e.http_status == 401
                    } else if popt is None {
                        &&& e.http_status == 404
                        &&& e.code@ == "unknown_project"@
                        &&& e.summary@ == project_name@
                    } else if aopt is None {
                        &&& e.http_status == 404
                        &&& e.code@ == "404"@
                        &&& e.summary@ == "project '"@ + project_name@
                            + "' has no repository '"@ + repo_name@ + "'"@
                    } else if ropt is None {
                        &&& e.http_status == 404
                        &&& e.code@ == "404"@
                        &&& e.summary@ == "repository '"@ + project_name@ + "/"@ + repo_name@
                            + "' has no architecture '"@ + arch@ + "'"@
                    } else if kopt is None {
                        &&& e.http_status == 404
                        &&& e.code@ == "404"@
                        &&& e.summary@ == "unknown package '"@ + package_name@ + "'"@
                    } else {
                        &&& bopt is None
                        &&& e.http_status == 404
                        &&& e.code@ == "404"@
                        &&& e.summary@ == file_name@ + ": No such file or directory"@
                    },
                    Ok(bytes) => {
                        &&& authok
                        &&& bopt is Some
                        &&& bytes@ == (bopt->Some_0).contents@
                    },
                }
            }),
    {
        if let Err(e) = check_auth(&self.auth, auth) {
            return Err(e);
        }
        let pidx = assoc_index(&self.projects, project_name);
        let pi = match pidx {
            Some(i) => i,
            None => {
                proof {
                    lemma_assoc_get_none(self.projects@, project_name@);
                }
                return Err(unknown_project(project_name));
            },
        };
        proof {
            lemma_assoc_get_at(self.projects@, project_name@, pi as int);
        }
        let project = &self.projects[pi].1;
        let ridx = assoc_index(&project.repos, repo_name);
        let ri = match ridx {
            Some(i) => i,
            None => {
                proof {
                    lemma_assoc_get_none(project.repos@, repo_name@);
                }
                return Err(unknown_repo(project_name, repo_name));
            },
        };
        proof {
            lemma_assoc_get_at(project.repos@, repo_name@, ri as int);
        }
        let arches = &project.repos[ri].1;
        let aidx = assoc_index(arches, arch);
        let ai = match aidx {
            Some(i) => i,
            None => {
                proof {
                    lemma_assoc_get_none(arches@, arch@);
                }
                return Err(unknown_arch(project_name, repo_name, arch));
            },
        };
        proof {
            lemma_assoc_get_at(arches@, arch@, ai as int);
        }
        let repo = &arches[ai].1;
        let kidx = assoc_index(&repo.packages, package_name);
        let ki = match kidx {
            Some(i) => i,
            None => {
                proof {
                    lemma_assoc_get_none(repo.packages@, package_name@);
                }
                return Err(unknown_build_package(package_name));
            },
        };
        proof {
            lemma_assoc_get_at(repo.packages@, package_name@, ki as int);
        }
        let rp = &repo.packages[ki].1;
        let bidx = assoc_index(&rp.binaries, file_name);
        let bi = match bidx {
            Some(i) => i,
            None => {
                proof {
                    lemma_assoc_get_none(rp.binaries@, file_name@);
                }
                let summary = String::from_str(file_name).concat(
                    ": No such file or directory",
                );
                return Err(ApiError::new(404, String::from_str("404"), summary));
            },
        };
        proof {
            lemma_assoc_get_at(rp.binaries@, file_name@, bi as int);
        }
        Ok(clone_bytes(&rp.binaries[bi].1.contents))
    }
}


/// How the rebuild command's parameters read, left to right: `cmd` is
/// skipped, `package` values are collected, the filter parameters the
/// emulation does not model end the scan as unsupported, and anything else
/// ends it as an unknown parameter.
pub open spec fn spec_rebuild_params_from(q: Seq<(String, String)>, acc: Seq<String>) -> Result<
    Seq<String>,
    Option<Seq<char>>,
>
    decreases q.len(),
{
    if q.len() == 0 {
        Ok(acc)
    } else if q[0].0@ == "cmd"@ {
        spec_rebuild_params_from(q.skip(1), acc)
    } else if q[0].0@ == "package"@ {
        spec_rebuild_params_from(q.skip(1), acc.push(q[0].1))
    } else if q[0].0@ == "arch"@ || q[0].0@ == "repository"@ || q[0].0@ == "code"@ || q[0].0@
        == "lastbuild"@ {
        Err(None)
    } else {
        Err(Some(q[0].0@))
    }
}

pub open spec fn spec_rebuild_params(q: Seq<(String, String)>) -> Result<
    Seq<String>,
    Option<Seq<char>>,
> {
    spec_rebuild_params_from(q, Seq::empty())
}

/// The packages a rebuild command applies to: the named ones, or every
/// package of the project when none is named.
pub open spec fn spec_rebuild_names(given: Seq<String>, po: MockProject) -> Seq<String> {
    if given.len() > 0 {
        given
    } else {
        spec_package_names(po)
    }
}

impl ObsMock {
    /// Serves the rebuild command: validates every named package against the
    /// project before any mutation, then resets every named package's status
    /// in every repository/architecture to the project's rebuild status. A
    /// single unknown name aborts the whole command with no effect.
    pub fn rebuild(
        &mut self,
        auth: Option<&Credentials>,
        project_name: &str,
        query: &Vec<(String, String)>,
    ) -> (r: Result<(), ApiError>)
        requires
            old(self).wf(),
        ensures
            final(self).wf(),
            final(self).auth == old(self).auth,
            ({
                let authok = spec_auth_ok(&old(self).auth, auth);
                let popt = assoc_get(old(self).projects@, project_name@);
                let cmdq = assoc_get(query@, "cmd"@);
                let params = spec_rebuild_params(query@);
                match r {
                    Err(e) => final(self).projects@ == old(self).projects@ && if !authok {
                        e.http_status == 401
                    } else if popt is None {
                        &&& e.http_status == 404
                        &&& e.code@ == "unknown_project"@
                        &&& e.summary@ == project_name@
                    } else if cmdq is None {
                        &&& e.http_status == 400
                        &&& e.code@ == "missing_parameter"@
                        &&& e.summary@ == "Missing parameter 'cmd'"@
                    } else if (cmdq->Some_0)@ != "rebuild"@ {
                        &&& e.http_status == 400
                        &&& e.code@ == "illegal_request"@
                        &&& e.summary@ == "unsupported POST command "@ + (cmdq->Some_0)@
                    } else if params is Err {
                        match params->Err_0 {
                            None => {
                                &&& e.http_status == 421
                                &&& e.code@ == "unsupported"@
                                &&& e.summary@
                                    == "Operation not supported by the OBS mock server"@
                            },
                            Some(k) => {
                                &&& e.http_status == 400
                                &&& e.code@ == "400"@
                                &&& e.summary@ == "unknown parameter '"@ + k + "'"@
                            },
                        }
                    } else {
                        let po = popt->Some_0;
                        let names = spec_rebuild_names(params->Ok_0, po);
                        &&& e.http_status == 404
                        &&& e.code@ == "not_found"@
                        &&& exists|j: int|
                            0 <= j < names.len() && !assoc_has(
                                po.packages@,
                                (#[trigger] names[j])@,
                            ) && e.summary@ == crate::xmltext::status_xml_of(
                                "404"@,
                                "unknown package '"@ + names[j]@ + "'"@,
                            )
                    },
                    Ok(_) => {
                        &&& authok
                        &&& popt is Some
                        &&& cmdq is Some && (cmdq->Some_0)@ == "rebuild"@
                        &&& params is Ok
                        &&& ({
                            let po = popt->Some_0;
                            let names = spec_rebuild_names(params->Ok_0, po);
                            &&& (forall|j: int|
                                0 <= j < names.len() ==> assoc_has(
                                    po.packages@,
                                    (#[trigger] names[j])@,
                                ))
                            &&& (forall|n: Seq<char>|
                                n != project_name@ ==> #[trigger] assoc_get(
                                    final(self).projects@,
                                    n,
                                ) == assoc_get(old(self).projects@, n))
                            &&& assoc_get(final(self).projects@, project_name@) is Some
                            &&& ({
                                let p = assoc_get(final(self).projects@, project_name@)->Some_0;
                                &&& p.packages@ == po.packages@
                                &&& p.rebuild_status == po.rebuild_status
                                &&& forall|rn: Seq<char>, an: Seq<char>|
                                    match (
                                        #[trigger] spec_repo(po, rn, an),
                                        #[trigger] spec_repo(p, rn, an),
                                    ) {
                                        (Some(o), Some(n)) => spec_rebuilt_repo(
                                            o,
                                            n,
                                            names,
                                            po.rebuild_status,
                                        ),
                                        (None, None) => true,
                                        _ => false,
                                    }
                            })
                        })
                    },
                }
            }),
    {
        if let Err(e) = check_auth(&self.auth, auth) {
            return Err(e);
        }
        let ghost pn = project_name@;
        let pidx = assoc_index(&self.projects, project_name);
        let pi = match pidx {
            Some(i) => i,
            None => {
                proof {
                    lemma_assoc_get_none(self.projects@, pn);
                }
                return Err(unknown_project(project_name));
            },
        };
        proof {
            lemma_assoc_get_at(self.projects@, pn, pi as int);
        }
        let cmdq = find_query_param(query, "cmd");
        let cmd = match cmdq {
            Some(c) => c,
            None => {
                return Err(
                    ApiError::new(
                        400,
                        String::from_str("missing_parameter"),
                        String::from_str("Missing parameter 'cmd'"),
                    ),
                );
            },
        };
        if !str_eq(cmd.as_str(), "rebuild") {
            let summary = String::from_str("unsupported POST command ").concat(cmd.as_str());
            return Err(ApiError::new(400, String::from_str("illegal_request"), summary));
        }

        let mut package_names: Vec<String> = Vec::new();
        let mut qi: usize = 0;
        proof {
            assert(query@.skip(0) =~= query@);
        }
        while qi < query.len()
            invariant
                qi <= query@.len(),
                pn == project_name@,
                old(self).wf(),
                spec_auth_ok(&self.auth, auth),
                pi < self.projects@.len(),
                self.projects@ == old(self).projects@,
                self.auth == old(self).auth,
                assoc_get(self.projects@, pn) == Some(self.projects@[pi as int].1),
                self.projects@[pi as int].0@ == pn,
                assoc_get(query@, "cmd"@) is Some,
                (assoc_get(query@, "cmd"@)->Some_0)@ == "rebuild"@,
                spec_rebuild_params(query@) == spec_rebuild_params_from(
                    query@.skip(qi as int),
                    package_names@,
                ),
            decreases query@.len() - qi,
        {
            proof {
                assert(query@.skip(qi as int)[0] == query@[qi as int]);
                assert(query@.skip(qi as int).skip(1) =~= query@.skip(qi + 1));
            }
            let k = &query[qi].0;
            if str_eq(k.as_str(), "cmd") {
            } else if str_eq(k.as_str(), "package") {
                package_names.push(query[qi].1.clone());
            } else if str_eq(k.as_str(), "arch") || str_eq(k.as_str(), "repository") || str_eq(
                k.as_str(),
                "code",
            ) || str_eq(k.as_str(), "lastbuild") {
                return Err(unsupported_operation());
            } else {
                return Err(unknown_parameter(k.as_str()));
            }
            qi = qi + 1;
        }
        proof {
            assert(query@.skip(qi as int) =~= Seq::<(String, String)>::empty());
            assert(spec_rebuild_params(query@) == Ok::<Seq<String>, Option<Seq<char>>>(
                package_names@,
            ));
        }

        let ghost given = package_names@;
        if package_names.len() == 0 {
            let project = &self.projects[pi].1;
            let mut ki: usize = 0;
            while ki < project.packages.len()
                invariant
                    ki <= project.packages@.len(),
                    pi < self.projects@.len(),
                    project == &self.projects@[pi as int].1,
                    package_names@.len() == ki,
                    forall|j: int|
                        0 <= j < ki ==> #[trigger] package_names@[j] == project.packages@[j].0,
                decreases project.packages@.len() - ki,
            {
                package_names.push(project.packages[ki].0.clone());
                ki = ki + 1;
            }
            proof {
                assert(package_names@ =~= spec_package_names(self.projects@[pi as int].1));
            }
        }
        let ghost names = package_names@;
        proof {
            assert(names == if given.len() > 0 {
                given
            } else {
                spec_package_names(self.projects@[pi as int].1)
            });
        }

        let mut vi: usize = 0;
        while vi < package_names.len()
            invariant
                vi <= package_names@.len(),
                pn == project_name@,
                names == package_names@,
                old(self).wf(),
                spec_auth_ok(&self.auth, auth),
                pi < self.projects@.len(),
                self.projects@ == old(self).projects@,
                self.auth == old(self).auth,
                assoc_get(self.projects@, pn) == Some(self.projects@[pi as int].1),
                assoc_get(query@, "cmd"@) is Some,
                (assoc_get(query@, "cmd"@)->Some_0)@ == "rebuild"@,
                spec_rebuild_params(query@) == Ok::<Seq<String>, Option<Seq<char>>>(given),
                names == if given.len() > 0 {
                    given
                } else {
                    spec_package_names(self.projects@[pi as int].1)
                },
                forall|j: int|
                    0 <= j < vi ==> assoc_has(
                        self.projects@[pi as int].1.packages@,
                        (#[trigger] package_names@[j])@,
                    ),
            decreases package_names@.len() - vi,
        {
            let hit = assoc_index(&self.projects[pi].1.packages, package_names[vi].as_str());
            match hit {
                Some(_) => {},
                None => {
                    let inner_summary = String::from_str("unknown package '").concat(
                        package_names[vi].as_str(),
                    ).concat("'");
                    let rendered = render_status_xml("404", inner_summary.as_str());
                    let e = ApiError::new(404, String::from_str("not_found"), rendered);
                    proof {
                        let po = assoc_get(old(self).projects@, project_name@)->Some_0;
                        let nspec = spec_rebuild_names(spec_rebuild_params(query@)->Ok_0, po);
                        assert(po == self.projects@[pi as int].1);
                        assert(nspec == names);
                        assert(nspec[vi as int] == names[vi as int]);
                        assert(!assoc_has(po.packages@, (nspec[vi as int])@));
                        assert(e.summary@ == crate::xmltext::status_xml_of(
                            "404"@,
                            "unknown package '"@ + (nspec[vi as int])@ + "'"@,
                        ));
                        assert(exists|j: int|
                            0 <= j < nspec.len() && !assoc_has(
                                po.packages@,
                                (#[trigger] nspec[j])@,
                            ) && e.summary@ == crate::xmltext::status_xml_of(
                                "404"@,
                                "unknown package '"@ + nspec[j]@ + "'"@,
                            ));
                    }
                    return Err(e);
                },
            }
            vi = vi + 1;
        }

        let (pname, mut proj) = self.projects.remove(pi);
        let ghost proj_old = proj;
        proj.apply_rebuild(&package_names);
        self.projects.insert(pi, (pname, proj));
        proof {
            assert(self.projects@ =~= old(self).projects@.update(pi as int, (pname, proj)));
            lemma_assoc_get_at(self.projects@, pn, pi as int);
            assert forall|n: Seq<char>| n != pn implies #[trigger]
                assoc_get(self.projects@, n) == assoc_get(old(self).projects@, n) by {
                lemma_assoc_get_update_other(old(self).projects@, pi as int, (pname, proj), n);
            }
            assert forall|i2: int|
                0 <= i2 < self.projects@.len() implies (#[trigger] self.projects@[
                i2
            ]).1.wf() by {
                if i2 != pi as int {
                    assert(self.projects@[i2] == old(self).projects@[i2]);
                } else {
                    assert(proj.packages@ == proj_old.packages@);
                    assert(proj_old.wf());
                }
            }
            assert forall|rn: Seq<char>, an: Seq<char>|
                match (
                    #[trigger] spec_repo(proj_old, rn, an),
                    #[trigger] spec_repo(proj, rn, an),
                ) {
                    (Some(o), Some(n)) => spec_rebuilt_repo(o, n, names, proj_old.rebuild_status),
                    (None, None) => true,
                    _ => false,
                } by {
                lemma_rebuilt_repos_get(
                    proj_old.repos@,
                    proj.repos@,
                    names,
                    proj_old.rebuild_status,
                    rn,
                );
                match (assoc_get(proj_old.repos@, rn), assoc_get(proj.repos@, rn)) {
                    (Some(oa), Some(na)) => {
                        lemma_rebuilt_arches_get(
                            oa@,
                            na@,
                            names,
                            proj_old.rebuild_status,
                            an,
                        );
                    },
                    _ => {},
                }
            }
        }
        Ok(())
    }
}

} // verus!
