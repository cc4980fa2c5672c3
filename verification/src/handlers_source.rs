//! The source half of the protocol surface: listing a revision, fetching a
//! file, placing content, and the two-phase commit handshake.

use vstd::prelude::*;
use vstd::string::StringExecFns;
use crate::assoc::{
    assoc_get, assoc_has, assoc_index, lemma_assoc_get_at, lemma_assoc_get_none,
    lemma_assoc_get_update_other, str_eq,
};
use crate::checksum::{hex_of, md5_of};
use crate::clock::now_secs;
use crate::error::{unknown_project, ApiError};
use crate::numtext::spec_parse_usize;
use crate::registry::ObsMock;
use crate::request::{check_auth, find_query_param, spec_auth_ok, Credentials};
use crate::source::{
    clone_bytes, clone_linkinfos, file_index, rev_entries_in, spec_cur_vrev, spec_file_stored_at,
    spec_fresh_package, MockEntry, MockLinkInfo, MockPackage, MockPackageOptions, MockRevision,
    MockRevisionOptions, MockSourceFile, MockSourceFileKey, META_PATH, ZERO_REV_SRCMD5,
};

verus! {

/// One file of a revision as a listing shows it.
#[derive(Debug)]
pub struct SourceDirectoryEntry {
    pub name: String,
    pub md5: String,
    pub size: usize,
    pub mtime: u64,
}

/// A rendered source or metadata listing: the resolved revision's tree
/// state, links and entries. The synthetic revision zero carries no revision
/// numbers, no links and no entries.
#[derive(Debug)]
pub struct SourceListing {
    pub name: String,
    pub rev: Option<usize>,
    pub vrev: Option<usize>,
    pub srcmd5: String,
    pub linkinfo: Vec<MockLinkInfo>,
    pub entries: Vec<SourceDirectoryEntry>,
}

/// How a listing renders one concrete revision of a package.
pub open spec fn spec_listing_of(
    d: SourceListing,
    pkg: MockPackage,
    package_name: Seq<char>,
    rid: usize,
    rev: MockRevision,
) -> bool {
    &&& d.name@ == package_name
    &&& d.rev == Some(rid)
    &&& d.vrev == rev.vrev
    &&& d.srcmd5 == rev.options.srcmd5
    &&& d.linkinfo@ == rev.linkinfo@
    &&& d.entries@.len() == rev.entries@.len()
    &&& forall|i: int|
        0 <= i < rev.entries@.len() ==> {
            let e = #[trigger] rev.entries@[i];
            let de = d.entries@[i];
            &&& de.name@ == e.0@
            &&& de.md5@ == e.1.md5@
            &&& de.mtime == e.1.mtime
            &&& de.size == (assoc_get(pkg.files@, (e.0@, e.1.md5@))->Some_0)@.len()
        }
}

/// The listing of the synthetic revision zero: the fixed empty-tree
/// checksum, no revision numbers, no links, no entries.
pub open spec fn spec_zero_listing(d: SourceListing, package_name: Seq<char>) -> bool {
    &&& d.name@ == package_name
    &&& d.rev is None
    &&& d.vrev is None
    &&& d.srcmd5@ == "d41d8cd98f00b204e9800998ecf8427e"@
    &&& d.linkinfo@.len() == 0
    &&& d.entries@.len() == 0
}

/// Renders one revision of a package as a listing.
pub fn build_listing(pkg: &MockPackage, package_name: &str, rid: usize, rev: &MockRevision) -> (d:
    SourceListing)
    requires
        rev_entries_in(pkg.files@, *rev),
    ensures
        spec_listing_of(d, *pkg, package_name@, rid, *rev),
{
    let mut entries: Vec<SourceDirectoryEntry> = Vec::new();
    let mut i: usize = 0;
    while i < rev.entries.len()
        invariant
            i <= rev.entries@.len(),
            rev_entries_in(pkg.files@, *rev),
            entries@.len() == i,
            forall|j: int|
                0 <= j < i ==> {
                    let e = #[trigger] rev.entries@[j];
                    let de = entries@[j];
                    &&& de.name@ == e.0@
                    &&& de.md5@ == e.1.md5@
                    &&& de.mtime == e.1.mtime
                    &&& de.size == (assoc_get(pkg.files@, (e.0@, e.1.md5@))->Some_0)@.len()
                },
        decreases rev.entries@.len() - i,
    {
        proof {
            assert(assoc_has(
                pkg.files@,
                ((#[trigger] rev.entries@[i as int]).0@, rev.entries@[i as int].1.md5@),
            ));
        }
        let fi = file_index(&pkg.files, rev.entries[i].0.as_str(), rev.entries[i].1.md5.as_str());
        let size: usize;
        match fi {
            Some(j) => {
                proof {
                    lemma_assoc_get_at(
                        pkg.files@,
                        (rev.entries@[i as int].0@, rev.entries@[i as int].1.md5@),
                        j as int,
                    );
                }
                size = pkg.files[j].1.len();
            },
            None => {
                proof {
                    assert(false);
                }
                size = 0;
            },
        }
        entries.push(
            SourceDirectoryEntry {
                name: rev.entries[i].0.clone(),
                md5: rev.entries[i].1.md5.clone(),
                size,
                mtime: rev.entries[i].1.mtime,
            },
        );
        i = i + 1;
    }
    SourceListing {
        name: String::from_str(package_name),
        rev: Some(rid),
        vrev: rev.vrev,
        srcmd5: rev.options.srcmd5.clone(),
        linkinfo: clone_linkinfos(&rev.linkinfo),
        entries,
    }
}

/// Error for a package name the project does not know.
pub fn unknown_package(package: &str) -> (r: ApiError)
    ensures
        r.http_status == 404,
        r.code@ == "unknown_package"@,
        r.summary@ == package@,
{
    ApiError::new(404, String::from_str("unknown_package"), String::from_str(package))
}

/// Error for a path the resolved revision does not carry.
pub fn source_file_not_found(name: &str) -> (r: ApiError)
    ensures
        r.http_status == 404,
        r.code@ == "404"@,
        r.summary@ == name@ + ": no such file"@,
{
    let summary = String::from_str(name).concat(": no such file");
    ApiError::new(404, String::from_str("404"), summary)
}

/// How the `meta` query parameter reads: absent or `"0"` selects the source
/// stream, `"1"` the metadata stream, anything else is rejected.
pub open spec fn spec_meta_flag(q: Option<String>) -> Option<bool> {
    match q {
        None => Some(false),
        Some(s) => if s@ == "1"@ {
            Some(true)
        } else if s@ == "0"@ {
            Some(false)
        } else {
            None
        },
    }
}

/// How a requested revision resolves against a stream of the given length.
#[derive(Debug)]
pub enum RevResolution {
    /// The parameter is not a number.
    BadParam,
    /// The number names no revision of the stream.
    NoSuchRevision,
    /// The revision to render; zero only for the source stream.
    Chosen(usize),
}

/// Resolution of the `rev` parameter: absent means the latest revision of
/// the selected stream; the index zero is legal only for the source stream;
/// any other index must lie within the stream.
pub open spec fn spec_resolve_rev(q: Option<String>, meta: bool, stream_len: nat) -> RevResolution {
    match q {
        None => RevResolution::Chosen(stream_len as usize),
        Some(s) => match spec_parse_usize(s@) {
            None => RevResolution::BadParam,
            Some(i) => if i <= stream_len && (i > 0 || !meta) {
                RevResolution::Chosen(i)
            } else {
                RevResolution::NoSuchRevision
            },
        },
    }
}

/// The stream of a package a listing reads: sources or metadata.
pub open spec fn spec_stream(pkg: MockPackage, meta: bool) -> Seq<MockRevision> {
    if meta {
        pkg.meta_revisions@
    } else {
        pkg.revisions@
    }
}

impl ObsMock {
    /// Serves the source or metadata listing of a package: resolves the
    /// requested revision of the selected stream and renders it.
    pub fn source_listing(
        &self,
        auth: Option<&Credentials>,
        project_name: &str,
        package_name: &str,
        query: &Vec<(String, String)>,
    ) -> (r: Result<SourceListing, ApiError>)
        requires
            self.wf(),
        ensures
            ({
                let authok = spec_auth_ok(&self.auth, auth);
                let popt = assoc_get(self.projects@, project_name@);
                let kopt = if popt is Some {
                    assoc_get(popt->Some_0.packages@, package_name@)
                } else {
                    None
                };
                let mflag = spec_meta_flag(assoc_get(query@, "meta"@));
                match r {
                    Err(e) => if !authok {
                        e.http_status == 401
                    } else if popt is None {
                        &&& e.http_status == 404
                        &&& e.code@ == "unknown_project"@
                        &&& e.summary@ == project_name@
                    } else if kopt is None {
                        &&& e.http_status == 404
                        &&& e.code@ == "unknown_package"@
                        &&& e.summary@ == package_name@
                    } else if mflag is None {
                        &&& e.http_status == 400
                        &&& e.code@ == "400"@
                        &&& e.summary@ == "not boolean"@
                    } else {
                        let pkg = kopt->Some_0;
                        let meta = mflag->Some_0;
                        let rq = assoc_get(query@, "rev"@);
                        match spec_resolve_rev(rq, meta, spec_stream(pkg, meta).len()) {
                            RevResolution::BadParam => {
                                &&& e.http_status == 400
                                &&& e.code@ == "400"@
                                &&& e.summary@ == "bad revision '"@ + (rq->Some_0)@ + "'"@
                            },
                            RevResolution::NoSuchRevision => {
                                &&& e.http_status == 400
                                &&& e.code@ == "400"@
                                &&& e.summary@ == "no such revision"@
                            },
                            RevResolution::Chosen(_) => false,
                        }
                    },
                    Ok(d) => {
                        &&& authok
                        &&& popt is Some
                        &&& kopt is Some
                        &&& mflag is Some
                        &&& ({
                            let pkg = kopt->Some_0;
                            let meta = mflag->Some_0;
                            let rq = assoc_get(query@, "rev"@);
                            match spec_resolve_rev(rq, meta, spec_stream(pkg, meta).len()) {
                                RevResolution::Chosen(rid) => if rid == 0 {
                                    spec_zero_listing(d, package_name@)
                                } else {
                                    spec_listing_of(
                                        d,
                                        pkg,
                                        package_name@,
                                        rid,
                                        spec_stream(pkg, meta)[rid - 1],
                                    )
                                },
                                _ => false,
                            }
                        })
                    },
                }
            }),
    {
        if let Err(e) = check_auth(&self.auth, auth) {
            return Err(e);
        }
        let pidx = assoc_index(&self.projects, project_name);
        let pi = match pidx {
            Some(i) => i,
            None => {
                proof {
                    lemma_assoc_get_none(self.projects@, project_name@);
                }
                return Err(unknown_project(project_name));
            },
        };
        proof {
            lemma_assoc_get_at(self.projects@, project_name@, pi as int);
        }
        let project = &self.projects[pi].1;
        let kidx = assoc_index(&project.packages, package_name);
        let ki = match kidx {
            Some(i) => i,
            None => {
                proof {
                    lemma_assoc_get_none(project.packages@, package_name@);
                }
                return Err(unknown_package(package_name));
            },
        };
        proof {
            lemma_assoc_get_at(project.packages@, package_name@, ki as int);
        }
        let pkg = &project.packages[ki].1;

        let meta_param = find_query_param(query, "meta");
        let list_meta: bool = match meta_param {
            None => false,
            Some(s) => {
                if str_eq(s.as_str(), "1") {
                    true
                } else if str_eq(s.as_str(), "0") {
                    false
                } else {
                    return Err(
                        ApiError::new(
                            400,
                            String::from_str("400"),
                            String::from_str("not boolean"),
                        ),
                    );
                }
            },
        };

        let stream_len = if list_meta {
            pkg.meta_revisions.len()
        } else {
            pkg.revisions.len()
        };

        let rev_param = find_query_param(query, "rev");
        let rid: usize = match rev_param {
            None => stream_len,
            Some(s) => {
                match crate::numtext::parse_usize(s.as_str()) {
                    None => {
                        let summary = String::from_str("bad revision '").concat(s.as_str())
                            .concat("'");
                        return Err(ApiError::new(400, String::from_str("400"), summary));
                    },
                    Some(i) => {
                        if i <= stream_len && (i > 0 || !list_meta) {
                            i
                        } else {
                            return Err(
                                ApiError::new(
                                    400,
                                    String::from_str("400"),
                                    String::from_str("no such revision"),
                                ),
                            );
                        }
                    },
                }
            },
        };

        if rid == 0 {
            return Ok(
                SourceListing {
                    name: String::from_str(package_name),
                    rev: None,
                    vrev: None,
                    srcmd5: String::from_str(ZERO_REV_SRCMD5),
                    linkinfo: Vec::new(),
                    entries: Vec::new(),
                },
            );
        }
        let rev = if list_meta {
            &pkg.meta_revisions[rid - 1]
        } else {
            &pkg.revisions[rid - 1]
        };
        Ok(build_listing(pkg, package_name, rid, rev))
    }

    /// Serves the bytes of a file: `_meta` resolves against the latest
    /// metadata revision, every other path against the latest source
    /// revision.
    pub fn source_file(
        &self,
        auth: Option<&Credentials>,
        project_name: &str,
        package_name: &str,
        file_name: &str,
    ) -> (r: Result<Vec<u8>, ApiError>)
        requires
            self.wf(),
        ensures
            ({
                let authok = spec_auth_ok(&self.auth, auth);
                let popt = assoc_get(self.projects@, project_name@);
                let kopt = if popt is Some {
                    assoc_get(popt->Some_0.packages@, package_name@)
                } else {
                    None
                };
                match r {
                    Err(e) => if !authok {
                        e.http_status == 401
                    } else if popt is None {
                        &&& e.http_status == 404
                        &&& e.code@ == "unknown_project"@
                        &&& e.summary@ == project_name@
                    } else if kopt is None {
                        &&& e.http_status == 404
                        &&& e.code@ == "unknown_package"@
                        &&& e.summary@ == package_name@
                    } else {
                        let pkg = kopt->Some_0;
                        &&& file_name@ != "_meta"@
                        &&& (pkg.revisions@.len() == 0 || !assoc_has(
                            pkg.revisions@.last().entries@,
                            file_name@,
                        ))
                        &&& e.http_status == 404
                        &&& e.code@ == "404"@
                        &&& e.summary@ == file_name@ + ": no such file"@
                    },
                    Ok(bytes) => {
                        &&& authok
                        &&& popt is Some
                        &&& kopt is Some
                        &&& ({
                            let pkg = kopt->Some_0;
                            if file_name@ == "_meta"@ {
                                let entry = assoc_get(
                                    pkg.meta_revisions@.last().entries@,
                                    "_meta"@,
                                );
                                entry is Some && bytes@ == (assoc_get(
                                    pkg.files@,
                                    ("_meta"@, entry->Some_0.md5@),
                                )->Some_0)@
                            } else {
                                let entry = assoc_get(
                                    pkg.revisions@.last().entries@,
                                    file_name@,
                                );
                                &&& pkg.revisions@.len() > 0
                                &&& entry is Some
                                &&& bytes@ == (assoc_get(
                                    pkg.files@,
                                    (file_name@, entry->Some_0.md5@),
                                )->Some_0)@
                            }
                        })
                    },
                }
            }),
    {
        if let Err(e) = check_auth(&self.auth, auth) {
            return Err(e);
        }
        let pidx = assoc_index(&self.projects, project_name);
        let pi = match pidx {
            Some(i) => i,
            None => {
                proof {
                    lemma_assoc_get_none(self.projects@, project_name@);
                }
                return Err(unknown_project(project_name));
            },
        };
        proof {
            lemma_assoc_get_at(self.projects@, project_name@, pi as int);
        }
        let project = &self.projects[pi].1;
        let kidx = assoc_index(&project.packages, package_name);
        let ki = match kidx {
            Some(i) => i,
            None => {
                proof {
                    lemma_assoc_get_none(project.packages@, package_name@);
                }
                return Err(unknown_package(package_name));
            },
        };
        proof {
            lemma_assoc_get_at(project.packages@, package_name@, ki as int);
        }
        let pkg = &project.packages[ki].1;

        if str_eq(file_name, META_PATH) {
            let last = pkg.meta_revisions.len() - 1;
            let mrev = &pkg.meta_revisions[last];
            let eidx = assoc_index(&mrev.entries, META_PATH);
            let ei = match eidx {
                Some(i) => i,
                None => {
                    proof {
                        assert(false);
                    }
                    0
                },
            };
            proof {
                lemma_assoc_get_at(mrev.entries@, "_meta"@, ei as int);
                assert(rev_entries_in(pkg.files@, pkg.meta_revisions@[last as int]));
                assert(assoc_has(
                    pkg.files@,
                    ((#[trigger] mrev.entries@[ei as int]).0@, mrev.entries@[ei as int].1.md5@),
                ));
            }
            let fidx = file_index(&pkg.files, META_PATH, mrev.entries[ei].1.md5.as_str());
            match fidx {
                Some(j) => {
                    proof {
                        lemma_assoc_get_at(
                            pkg.files@,
                            ("_meta"@, mrev.entries@[ei as int].1.md5@),
                            j as int,
                        );
                    }
                    Ok(clone_bytes(&pkg.files[j].1))
                },
                None => {
                    proof {
                        assert(false);
                    }
                    Err(source_file_not_found(file_name))
                },
            }
        } else {
            if pkg.revisions.len() == 0 {
                return Err(source_file_not_found(file_name));
            }
            let last = pkg.revisions.len() - 1;
            let rev = &pkg.revisions[last];
            let eidx = assoc_index(&rev.entries, file_name);
            let ei = match eidx {
                Some(i) => i,
                None => {
                    proof {
                        lemma_assoc_get_none(rev.entries@, file_name@);
                    }
                    return Err(source_file_not_found(file_name));
                },
            };
            proof {
                lemma_assoc_get_at(rev.entries@, file_name@, ei as int);
                assert(rev_entries_in(pkg.files@, pkg.revisions@[last as int]));
                assert(assoc_has(
                    pkg.files@,
                    ((#[trigger] rev.entries@[ei as int]).0@, rev.entries@[ei as int].1.md5@),
                ));
            }
            let fidx = file_index(&pkg.files, file_name, rev.entries[ei].1.md5.as_str());
            match fidx {
                Some(j) => {
                    proof {
                        lemma_assoc_get_at(
                            pkg.files@,
                            (file_name@, rev.entries@[ei as int].1.md5@),
                            j as int,
                        );
                    }
                    Ok(clone_bytes(&pkg.files[j].1))
                },
                None => {
                    proof {
                        assert(false);
                    }
                    Err(source_file_not_found(file_name))
                },
            }
        }
    }
}


/// What a successful content placement returns.
#[derive(Debug)]
pub enum PlacementOutcome {
    /// The metadata document was accepted.
    MetaOk,
    /// The bytes were stored; a fresh checksum names the resulting tree
    /// state.
    Stored { srcmd5: String },
}

/// A package created on first metadata placement: fresh, attributed to the
/// configured user, under a generated metadata checksum.
pub open spec fn spec_placed_meta_package(
    p: MockPackage,
    project: Seq<char>,
    package: Seq<char>,
    user: Seq<char>,
) -> bool {
    exists|o: MockPackageOptions|
        #[trigger] spec_fresh_package(p, project, package, o) && o.user@ == user
            && o.initial_meta_srcmd5@.len() == 32
}

impl ObsMock {
    /// Serves content placement: `_meta` creates the package on first write
    /// and is otherwise accepted unchanged; any other path stores the body
    /// under the checksum of its bytes, but only with `rev=repository`.
    pub fn source_placement(
        &mut self,
        auth: Option<&Credentials>,
        project_name: &str,
        package_name: &str,
        file_name: &str,
        query: &Vec<(String, String)>,
        body: Vec<u8>,
    ) -> (r: Result<PlacementOutcome, ApiError>)
        requires
            old(self).wf(),
        ensures
            final(self).wf(),
            final(self).auth == old(self).auth,
            ({
                let authok = spec_auth_ok(&old(self).auth, auth);
                let popt = assoc_get(old(self).projects@, project_name@);
                let kopt = if popt is Some {
                    assoc_get((popt->Some_0).packages@, package_name@)
                } else {
                    None
                };
                let revq = assoc_get(query@, "rev"@);
                match r {
                    Err(e) => final(self).projects@ == old(self).projects@ && if !authok {
                        e.http_status == 401
                    } else if popt is None {
                        &&& e.http_status == 404
                        &&& e.code@ == "unknown_project"@
                        &&& e.summary@ == project_name@
                    } else if file_name@ != "_meta"@ && kopt is None {
                        &&& e.http_status == 404
                        &&& e.code@ == "unknown_package"@
                        &&& e.summary@ == package_name@
                    } else {
                        &&& file_name@ != "_meta"@
                        &&& !(revq is Some && (revq->Some_0)@ == "repository"@)
                        &&& e.http_status == 421
                        &&& e.code@ == "unsupported"@
                    },
                    Ok(o) => {
                        &&& authok
                        &&& popt is Some
                        &&& if file_name@ == "_meta"@ {
                            &&& o is MetaOk
                            &&& if kopt is Some {
                                final(self).projects@ == old(self).projects@
                            } else {
                                &&& (forall|n: Seq<char>|
                                    n != project_name@ ==> #[trigger] assoc_get(
                                        final(self).projects@,
                                        n,
                                    ) == assoc_get(old(self).projects@, n))
                                &&& assoc_get(final(self).projects@, project_name@) is Some
                                &&& ({
                                    let po = popt->Some_0;
                                    let p = assoc_get(
                                        final(self).projects@,
                                        project_name@,
                                    )->Some_0;
                                    &&& p.repos@ == po.repos@
                                    &&& p.rebuild_status == po.rebuild_status
                                    &&& (forall|k: Seq<char>|
                                        k != package_name@ ==> #[trigger] assoc_get(
                                            p.packages@,
                                            k,
                                        ) == assoc_get(po.packages@, k))
                                    &&& assoc_get(p.packages@, package_name@) is Some
                                    &&& spec_placed_meta_package(
                                        assoc_get(p.packages@, package_name@)->Some_0,
                                        project_name@,
                                        package_name@,
                                        old(self).auth.username@,
                                    )
                                })
                            }
                        } else {
                            &&& kopt is Some
                            &&& revq is Some && (revq->Some_0)@ == "repository"@
                            &&& o is Stored
                            &&& (o->Stored_srcmd5)@.len() == 32
                            &&& (forall|n: Seq<char>|
                                n != project_name@ ==> #[trigger] assoc_get(
                                    final(self).projects@,
                                    n,
                                ) == assoc_get(old(self).projects@, n))
                            &&& assoc_get(final(self).projects@, project_name@) is Some
                            &&& ({
                                let po = popt->Some_0;
                                let p = assoc_get(final(self).projects@, project_name@)->Some_0;
                                &&& p.repos@ == po.repos@
                                &&& p.rebuild_status == po.rebuild_status
                                &&& (forall|k: Seq<char>|
                                    k != package_name@ ==> #[trigger] assoc_get(p.packages@, k)
                                        == assoc_get(po.packages@, k))
                                &&& assoc_get(p.packages@, package_name@) is Some
                                &&& spec_file_stored_at(
                                    kopt->Some_0,
                                    assoc_get(p.packages@, package_name@)->Some_0,
                                    file_name@,
                                    body,
                                )
                            })
                        }
                    },
                }
            }),
    {
        if let Err(e) = check_auth(&self.auth, auth) {
            return Err(e);
        }
        let pidx = assoc_index(&self.projects, project_name);
        let pi = match pidx {
            Some(i) => i,
            None => {
                proof {
                    lemma_assoc_get_none(self.projects@, project_name@);
                }
                return Err(unknown_project(project_name));
            },
        };
        proof {
            lemma_assoc_get_at(self.projects@, project_name@, pi as int);
        }
        let ghost pn = project_name@;
        let ghost kn = package_name@;

        if str_eq(file_name, META_PATH) {
            let exists_idx = assoc_index(&self.projects[pi].1.packages, package_name);
            match exists_idx {
                Some(j) => {
                    proof {
                        lemma_assoc_get_at(self.projects@[pi as int].1.packages@, kn, j as int);
                    }
                    return Ok(PlacementOutcome::MetaOk);
                },
                None => {
                    proof {
                        lemma_assoc_get_none(self.projects@[pi as int].1.packages@, kn);
                    }
                },
            }
            let options = MockPackageOptions {
                initial_meta_srcmd5: crate::checksum::random_md5(),
                time: now_secs(),
                user: self.auth.username.clone(),
            };
            let ghost opts = options;
            let (pname, mut proj) = self.projects.remove(pi);
            let pkg = MockPackage::new_with_metadata(project_name, package_name, options);
            proj.upsert_package(String::from_str(package_name), pkg);
            self.projects.insert(pi, (pname, proj));
            proof {
                assert(self.projects@ =~= old(self).projects@.update(
                    pi as int,
                    (pname, proj),
                ));
                lemma_assoc_get_at(self.projects@, pn, pi as int);
                assert forall|n: Seq<char>| n != pn implies #[trigger]
                    assoc_get(self.projects@, n) == assoc_get(old(self).projects@, n) by {
                    lemma_assoc_get_update_other(
                        old(self).projects@,
                        pi as int,
                        (pname, proj),
                        n,
                    );
                }
                assert(spec_fresh_package(
                    assoc_get(proj.packages@, kn)->Some_0,
                    pn,
                    kn,
                    opts,
                ));
                assert forall|i: int|
                    0 <= i < self.projects@.len() implies (#[trigger] self.projects@[
                    i
                ]).1.wf() by {
                    if i != pi as int {
                        assert(self.projects@[i] == old(self).projects@[i]);
                    }
                }
            }
            Ok(PlacementOutcome::MetaOk)
        } else {
            let kidx = assoc_index(&self.projects[pi].1.packages, package_name);
            let ki = match kidx {
                Some(i) => i,
                None => {
                    proof {
                        lemma_assoc_get_none(self.projects@[pi as int].1.packages@, kn);
                    }
                    return Err(unknown_package(package_name));
                },
            };
            proof {
                lemma_assoc_get_at(self.projects@[pi as int].1.packages@, kn, ki as int);
            }
            let revq = find_query_param(query, "rev");
            let is_repo = match &revq {
                Some(s) => str_eq(s.as_str(), "repository"),
                None => false,
            };
            if !is_repo {
                return Err(crate::error::unsupported_operation());
            }
            let (pname, mut proj) = self.projects.remove(pi);
            let ghost old_packages = proj.packages@;
            let (kname, mut pkg) = proj.packages.remove(ki);
            let file = MockSourceFile { path: String::from_str(file_name), contents: body };
            let _key = pkg.store_file(file);
            proj.packages.insert(ki, (kname, pkg));
            proof {
                assert(proj.packages@ =~= old_packages.update(ki as int, (kname, pkg)));
                lemma_assoc_get_at(proj.packages@, kn, ki as int);
                assert forall|k: Seq<char>| k != kn implies #[trigger]
                    assoc_get(proj.packages@, k) == assoc_get(old_packages, k) by {
                    lemma_assoc_get_update_other(old_packages, ki as int, (kname, pkg), k);
                }
            }
            self.projects.insert(pi, (pname, proj));
            proof {
                assert(self.projects@ =~= old(self).projects@.update(
                    pi as int,
                    (pname, proj),
                ));
                lemma_assoc_get_at(self.projects@, pn, pi as int);
                assert forall|n: Seq<char>| n != pn implies #[trigger]
                    assoc_get(self.projects@, n) == assoc_get(old(self).projects@, n) by {
                    lemma_assoc_get_update_other(
                        old(self).projects@,
                        pi as int,
                        (pname, proj),
                        n,
                    );
                }
                assert forall|i: int|
                    0 <= i < self.projects@.len() implies (#[trigger] self.projects@[
                    i
                ]).1.wf() by {
                    if i != pi as int {
                        assert(self.projects@[i] == old(self).projects@[i]);
                    } else {
                        assert forall|j: int|
                            0 <= j < proj.packages@.len() implies (#[trigger] proj.packages@[
                            j
                        ]).1.wf() by {
                            if j != ki as int {
                                assert(proj.packages@[j] == old_packages[j]);
                            }
                        }
                    }
                }
            }
            Ok(PlacementOutcome::Stored { srcmd5: crate::checksum::random_md5() })
        }
    }
}


/// One candidate entry of a commit file list.
#[derive(Debug)]
pub struct CommitEntry {
    pub name: String,
    pub md5: String,
}

impl Clone for CommitEntry {
    fn clone(&self) -> (r: Self)
        ensures
            r == *self,
    {
        CommitEntry { name: self.name.clone(), md5: self.md5.clone() }
    }
}

/// The candidate entries whose path and checksum the store does not hold,
/// in list order.
pub open spec fn spec_missing_of(
    files: Seq<(MockSourceFileKey, Vec<u8>)>,
    l: Seq<CommitEntry>,
) -> Seq<CommitEntry>
    decreases l.len(),
{
    if l.len() == 0 {
        Seq::empty()
    } else {
        let rest = spec_missing_of(files, l.drop_last());
        if assoc_has(files, (l.last().name@, l.last().md5@)) {
            rest
        } else {
            rest.push(l.last())
        }
    }
}

/// The candidate entries the store already holds, in list order.
pub open spec fn spec_present_of(
    files: Seq<(MockSourceFileKey, Vec<u8>)>,
    l: Seq<CommitEntry>,
) -> Seq<CommitEntry>
    decreases l.len(),
{
    if l.len() == 0 {
        Seq::empty()
    } else {
        let rest = spec_present_of(files, l.drop_last());
        if assoc_has(files, (l.last().name@, l.last().md5@)) {
            rest.push(l.last())
        } else {
            rest
        }
    }
}

/// What an accepted commit leaves behind: the store and metadata stream
/// untouched, one revision appended over exactly the present candidates,
/// under the next untagged counter, carrying the previous revision's links.
pub open spec fn spec_committed(
    oldp: MockPackage,
    newp: MockPackage,
    list: Seq<CommitEntry>,
    user: Seq<char>,
    comment: Option<String>,
) -> bool {
    &&& newp.files@ == oldp.files@
    &&& newp.meta_revisions@ == oldp.meta_revisions@
    &&& newp.revisions@.len() == oldp.revisions@.len() + 1
    &&& newp.revisions@.drop_last() == oldp.revisions@
    &&& ({
        let r = newp.revisions@.last();
        let present = spec_present_of(oldp.files@, list);
        &&& r.vrev == Some(
            (spec_cur_vrev(oldp.latest_vrevs@, None) + 1) as usize,
        )
        &&& r.options.version is None
        &&& r.options.user@ == user
        &&& r.options.comment == comment
        &&& r.options.srcmd5@.len() == 32
        &&& r.linkinfo@ == if oldp.revisions@.len() == 0 {
            Seq::<MockLinkInfo>::empty()
        } else {
            oldp.revisions@.last().linkinfo@
        }
        &&& r.entries@.len() == present.len()
        &&& forall|i: int|
            0 <= i < present.len() ==> ((#[trigger] r.entries@[i]).0 == present[i].name
                && r.entries@[i].1.md5 == present[i].md5)
    })
    &&& spec_cur_vrev(newp.latest_vrevs@, None) == spec_cur_vrev(oldp.latest_vrevs@, None) + 1
    &&& forall|v: Option<Seq<char>>|
        v != None::<Seq<char>> ==> #[trigger] spec_cur_vrev(newp.latest_vrevs@, v)
            == spec_cur_vrev(oldp.latest_vrevs@, v)
}

/// What the commit handshake answers.
#[derive(Debug)]
pub enum CommitOutcome {
    /// Candidates whose content must be uploaded first; no revision was
    /// created.
    Missing(Vec<CommitEntry>),
    /// The listing of the freshly created revision.
    Added(SourceListing),
}

impl ObsMock {
    /// Serves the commit handshake: answers the candidates whose content is
    /// not uploaded yet, or, when every candidate is present, creates the
    /// revision and renders its listing.
    pub fn source_commit(
        &mut self,
        auth: Option<&Credentials>,
        project_name: &str,
        package_name: &str,
        query: &Vec<(String, String)>,
        filelist: &Result<Vec<CommitEntry>, String>,
    ) -> (r: Result<CommitOutcome, ApiError>)
        requires
            old(self).wf(),
        ensures
            final(self).wf(),
            final(self).auth == old(self).auth,
            ({
                let authok = spec_auth_ok(&old(self).auth, auth);
                let popt = assoc_get(old(self).projects@, project_name@);
                let kopt = if popt is Some {
                    assoc_get((popt->Some_0).packages@, package_name@)
                } else {
                    None
                };
                let cmdq = assoc_get(query@, "cmd"@);
                let comment = assoc_get(query@, "comment"@);
                match r {
                    Err(e) => final(self).projects@ == old(self).projects@ && if !authok {
                        e.http_status == 401
                    } else if popt is None {
                        &&& e.http_status == 404
                        &&& e.code@ == "unknown_project"@
                        &&& e.summary@ == project_name@
                    } else if kopt is None {
                        &&& e.http_status == 404
                        &&& e.code@ == "unknown_package"@
                        &&& e.summary@ == package_name@
                    } else if cmdq is None {
                        &&& e.http_status == 400
                        &&& e.code@ == "missing_parameter"@
                        &&& e.summary@ == "POST request without given cmd parameter"@
                    } else if (cmdq->Some_0)@ != "commitfilelist"@ {
                        &&& e.http_status == 404
                        &&& e.code@ == "illegal_request"@
                        &&& e.summary@ == "invalid_command"@
                    } else if filelist is Err {
                        &&& e.http_status == 400
                        &&& e.code@ == "400"@
                        &&& e.summary@ == (filelist->Err_0)@
                    } else {
                        (kopt->Some_0).revisions@.len() == usize::MAX && e.http_status == 500
                    },
                    Ok(o) => {
                        &&& authok
                        &&& popt is Some
                        &&& kopt is Some
                        &&& cmdq is Some && (cmdq->Some_0)@ == "commitfilelist"@
                        &&& filelist is Ok
                        &&& ({
                            let pkg = kopt->Some_0;
                            let list = (filelist->Ok_0)@;
                            let missing = spec_missing_of(pkg.files@, list);
                            match o {
                                CommitOutcome::Missing(m) => {
                                    &&& missing.len() > 0
                                    &&& m@ == missing
                                    &&& final(self).projects@ == old(self).projects@
                                },
                                CommitOutcome::Added(d) => {
                                    &&& missing.len() == 0
                                    &&& (forall|n: Seq<char>|
                                        n != project_name@ ==> #[trigger] assoc_get(
                                            final(self).projects@,
                                            n,
                                        ) == assoc_get(old(self).projects@, n))
                                    &&& assoc_get(final(self).projects@, project_name@) is Some
                                    &&& ({
                                        let po = popt->Some_0;
                                        let p = assoc_get(
                                            final(self).projects@,
                                            project_name@,
                                        )->Some_0;
                                        &&& p.repos@ == po.repos@
                                        &&& p.rebuild_status == po.rebuild_status
                                        &&& (forall|k: Seq<char>|
                                            k != package_name@ ==> #[trigger] assoc_get(
                                                p.packages@,
                                                k,
                                            ) == assoc_get(po.packages@, k))
                                        &&& assoc_get(p.packages@, package_name@) is Some
                                        &&& ({
                                            let newpkg = assoc_get(
                                                p.packages@,
                                                package_name@,
                                            )->Some_0;
                                            &&& spec_committed(
                                                pkg,
                                                newpkg,
                                                list,
                                                old(self).auth.username@,
                                                comment,
                                            )
                                            &&& spec_listing_of(
                                                d,
                                                newpkg,
                                                package_name@,
                                                newpkg.revisions@.len() as usize,
                                                newpkg.revisions@.last(),
                                            )
                                        })
                                    })
                                },
                            }
                        })
                    },
                }
            }),
    {
        if let Err(e) = check_auth(&self.auth, auth) {
            return Err(e);
        }
        let ghost pn = project_name@;
        let ghost kn = package_name@;
        let pidx = assoc_index(&self.projects, project_name);
        let pi = match pidx {
            Some(i) => i,
            None => {
                proof {
                    lemma_assoc_get_none(self.projects@, pn);
                }
                return Err(unknown_project(project_name));
            },
        };
        proof {
            lemma_assoc_get_at(self.projects@, pn, pi as int);
        }
        let kidx = assoc_index(&self.projects[pi].1.packages, package_name);
        let ki = match kidx {
            Some(i) => i,
            None => {
                proof {
                    lemma_assoc_get_none(self.projects@[pi as int].1.packages@, kn);
                }
                return Err(unknown_package(package_name));
            },
        };
        proof {
            lemma_assoc_get_at(self.projects@[pi as int].1.packages@, kn, ki as int);
        }
        let cmdq = find_query_param(query, "cmd");
        let cmd = match cmdq {
            Some(c) => c,
            None => {
                return Err(
                    ApiError::new(
                        400,
                        String::from_str("missing_parameter"),
                        String::from_str("POST request without given cmd parameter"),
                    ),
                );
            },
        };
        let comment = find_query_param(query, "comment");
        if !str_eq(cmd.as_str(), "commitfilelist") {
            return Err(
                ApiError::new(
                    404,
                    String::from_str("illegal_request"),
                    String::from_str("invalid_command"),
                ),
            );
        }
        let list = match filelist {
            Ok(l) => l,
            Err(msg) => {
                return Err(
                    ApiError::new(400, String::from_str("400"), String::from_str(msg.as_str())),
                );
            },
        };

        let pkg_ref = &self.projects[pi].1.packages[ki].1;
        let ghost pkg0 = *pkg_ref;
        let time = now_secs();
        let mut missing: Vec<CommitEntry> = Vec::new();
        let mut entries: Vec<(String, MockEntry)> = Vec::new();
        let mut i: usize = 0;
        while i < list.len()
            invariant
                i <= list@.len(),
                missing@ == spec_missing_of(pkg0.files@, list@.take(i as int)),
                entries@.len() == spec_present_of(pkg0.files@, list@.take(i as int)).len(),
                forall|j: int|
                    0 <= j < entries@.len() ==> {
                        let pe = spec_present_of(pkg0.files@, list@.take(i as int))[j];
                        &&& (#[trigger] entries@[j]).0 == pe.name
                        &&& entries@[j].1.md5 == pe.md5
                        &&& entries@[j].1.mtime == time
                    },
                forall|j: int|
                    0 <= j < entries@.len() ==> assoc_has(
                        pkg0.files@,
                        ((#[trigger] entries@[j]).0@, entries@[j].1.md5@),
                    ),
                pkg0 == self.projects@[pi as int].1.packages@[ki as int].1,
                pi < self.projects@.len(),
                ki < self.projects@[pi as int].1.packages@.len(),
            decreases list@.len() - i,
        {
            proof {
                assert(list@.take(i + 1).drop_last() =~= list@.take(i as int));
                assert(list@.take(i + 1).last() == list@[i as int]);
            }
            let fi = file_index(
                &self.projects[pi].1.packages[ki].1.files,
                list[i].name.as_str(),
                list[i].md5.as_str(),
            );
            match fi {
                Some(_) => {
                    proof {
                        assert(assoc_has(pkg0.files@, (list@[i as int].name@, list@[
                            i as int
                        ].md5@)));
                    }
                    entries.push(
                        (list[i].name.clone(), MockEntry { md5: list[i].md5.clone(), mtime: time }),
                    );
                },
                None => {
                    proof {
                        assert(!assoc_has(pkg0.files@, (list@[i as int].name@, list@[
                            i as int
                        ].md5@)));
                    }
                    missing.push(list[i].clone());
                },
            }
            i = i + 1;
        }
        proof {
            assert(list@.take(list@.len() as int) =~= list@);
        }
        if missing.len() > 0 {
            return Ok(CommitOutcome::Missing(missing));
        }

        if self.projects[pi].1.packages[ki].1.revisions.len() == usize::MAX {
            return Err(
                ApiError::new(
                    500,
                    String::from_str("500"),
                    String::from_str("revision limit reached"),
                ),
            );
        }

        let options = MockRevisionOptions {
            srcmd5: crate::checksum::random_md5(),
            version: None,
            time,
            user: self.auth.username.clone(),
            comment,
        };
        let ghost opts = options;
        let (pname, mut proj) = self.projects.remove(pi);
        let ghost old_packages = proj.packages@;
        let (kname, mut pkg) = proj.packages.remove(ki);
        pkg.add_revision(options, entries);
        let rid = pkg.revisions.len();
        let last = rid - 1;
        let d = build_listing(&pkg, package_name, rid, &pkg.revisions[last]);
        proj.packages.insert(ki, (kname, pkg));
        proof {
            assert(proj.packages@ =~= old_packages.update(ki as int, (kname, pkg)));
            lemma_assoc_get_at(proj.packages@, kn, ki as int);
            assert forall|k: Seq<char>| k != kn implies #[trigger]
                assoc_get(proj.packages@, k) == assoc_get(old_packages, k) by {
                lemma_assoc_get_update_other(old_packages, ki as int, (kname, pkg), k);
            }
        }
        self.projects.insert(pi, (pname, proj));
        proof {
            assert(self.projects@ =~= old(self).projects@.update(pi as int, (pname, proj)));
            lemma_assoc_get_at(self.projects@, pn, pi as int);
            assert forall|n: Seq<char>| n != pn implies #[trigger]
                assoc_get(self.projects@, n) == assoc_get(old(self).projects@, n) by {
                lemma_assoc_get_update_other(old(self).projects@, pi as int, (pname, proj), n);
            }
            assert forall|i2: int|
                0 <= i2 < self.projects@.len() implies (#[trigger] self.projects@[
                i2
            ]).1.wf() by {
                if i2 != pi as int {
                    assert(self.projects@[i2] == old(self).projects@[i2]);
                } else {
                    assert forall|j: int|
                        0 <= j < proj.packages@.len() implies (#[trigger] proj.packages@[
                        j
                    ]).1.wf() by {
                        if j != ki as int {
                            assert(proj.packages@[j] == old_packages[j]);
                        }
                    }
                }
            }
            assert(spec_committed(pkg0, pkg, list@, old(self).auth.username@, opts.comment));
        }
        Ok(CommitOutcome::Added(d))
    }
}

} // verus!
