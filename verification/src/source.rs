//! A package's source state: the content-addressed file store, the two
//! append-only revision streams (sources and metadata), the branch-link
//! records carried from revision to revision, and the per-version revision
//! counters.

use vstd::prelude::*;
use vstd::string::StringExecFns;
use crate::assoc::{
    assoc_get, assoc_has, lemma_assoc_get_at, lemma_assoc_get_none, lemma_assoc_get_push,
    lemma_assoc_get_update_other, str_eq,
};
use crate::checksum::{hex_of, md5_of, md5_hex, random_md5};
use crate::clock::now_secs;
use crate::xmltext::{meta_xml_of, render_package_meta};
use crate::ADMIN_USER;

verus! {

/// Path of the generated package metadata file.
pub const META_PATH: &'static str = "_meta";

/// Checksum of the synthetic empty revision zero, the same for every package.
pub const ZERO_REV_SRCMD5: &'static str = "d41d8cd98f00b204e9800998ecf8427e";

/// Key of one slot of the content store: a path together with the checksum
/// of the bytes stored under it.
#[derive(Debug)]
pub struct MockSourceFileKey {
    pub path: String,
    pub md5: String,
}

impl View for MockSourceFileKey {
    type V = (Seq<char>, Seq<char>);

    open spec fn view(&self) -> (Seq<char>, Seq<char>) {
        (self.path@, self.md5@)
    }
}

impl Clone for MockSourceFileKey {
    fn clone(&self) -> (r: Self)
        ensures
            r == *self,
    {
        MockSourceFileKey { path: self.path.clone(), md5: self.md5.clone() }
    }
}

impl MockSourceFileKey {
    /// Key over the given path and checksum.
    pub fn borrowed(path: &str, md5: &str) -> (r: Self)
        ensures
            r.path@ == path@,
            r.md5@ == md5@,
    {
        MockSourceFileKey { path: String::from_str(path), md5: String::from_str(md5) }
    }

    /// The key itself: every key owns its strings.
    pub fn into_owned(self) -> (r: Self)
        ensures
            r == self,
    {
        self
    }
}

/// A source file on its way into the store: a path and the bytes to place
/// under it.
#[derive(Debug)]
pub struct MockSourceFile {
    pub path: String,
    pub contents: Vec<u8>,
}

impl MockSourceFile {
    /// The generated `_meta` document for a package identity.
    pub fn new_metadata(project: &str, package: &str) -> (r: MockSourceFile)
        ensures
            r.path@ == "_meta"@,
            r.contents@ == meta_xml_of(project@, package@),
    {
        MockSourceFile {
            path: String::from_str(META_PATH),
            contents: render_package_meta(project, package),
        }
    }

    /// Content checksum of the file's bytes.
    pub fn md5(&self) -> (r: String)
        ensures
            r@ == hex_of(md5_of(self.contents@)),
    {
        md5_hex(self.contents.as_slice())
    }

    /// The store key of this file and the bytes to hold under it.
    pub fn into_key_and_contents(self) -> (r: (MockSourceFileKey, Vec<u8>))
        ensures
            r.0.path == self.path,
            r.0.md5@ == hex_of(md5_of(self.contents@)),
            r.1 == self.contents,
    {
        let md5 = md5_hex(self.contents.as_slice());
        (MockSourceFileKey { path: self.path, md5 }, self.contents)
    }
}

/// One entry of a revision: the checksum the path resolves to and its
/// modification time in seconds since the Unix epoch.
#[derive(Debug)]
pub struct MockEntry {
    pub md5: String,
    pub mtime: u64,
}

impl Clone for MockEntry {
    fn clone(&self) -> (r: Self)
        ensures
            r == *self,
    {
        MockEntry { md5: self.md5.clone(), mtime: self.mtime }
    }
}

impl MockEntry {
    /// Entry naming the checksum of a store key.
    pub fn from_key(key: &MockSourceFileKey, mtime: u64) -> (r: MockEntry)
        ensures
            r.md5 == key.md5,
            r.mtime == mtime,
    {
        MockEntry { md5: key.md5.clone(), mtime }
    }
}

/// Record that a revision derives from another package's revision.
#[derive(Debug)]
pub struct MockLinkInfo {
    pub project: String,
    pub package: String,
    pub baserev: String,
    pub srcmd5: String,
    pub lsrcmd5: String,
    pub xsrcmd5: String,
}

impl Clone for MockLinkInfo {
    fn clone(&self) -> (r: Self)
        ensures
            r == *self,
    {
        MockLinkInfo {
            project: self.project.clone(),
            package: self.package.clone(),
            baserev: self.baserev.clone(),
            srcmd5: self.srcmd5.clone(),
            lsrcmd5: self.lsrcmd5.clone(),
            xsrcmd5: self.xsrcmd5.clone(),
        }
    }
}

/// Caller-supplied description of a revision to create.
#[derive(Debug)]
pub struct MockRevisionOptions {
    pub srcmd5: String,
    pub version: Option<String>,
    pub time: u64,
    pub user: String,
    pub comment: Option<String>,
}

impl Default for MockRevisionOptions {
    /// A fresh tree checksum, the current time and the administrative user.
    fn default() -> (r: Self)
        ensures
            r.srcmd5@.len() == 32,
            r.version is None,
            r.user@ == "Admin"@,
            r.comment is None,
    {
        MockRevisionOptions {
            srcmd5: random_md5(),
            version: None,
            time: now_secs(),
            user: String::from_str(ADMIN_USER),
            comment: None,
        }
    }
}

/// One immutable revision of a package stream.
#[derive(Debug)]
pub struct MockRevision {
    pub vrev: Option<usize>,
    pub linkinfo: Vec<MockLinkInfo>,
    pub options: MockRevisionOptions,
    pub entries: Vec<(String, MockEntry)>,
}

/// Key of a per-version revision counter: the optional version tag.
#[derive(Debug)]
pub struct VersionKey {
    pub version: Option<String>,
}

impl View for VersionKey {
    type V = Option<Seq<char>>;

    open spec fn view(&self) -> Option<Seq<char>> {
        match self.version {
            Some(ref s) => Some(s@),
            None => None,
        }
    }
}

/// View of an optional version tag.
pub open spec fn opt_str_view(v: Option<String>) -> Option<Seq<char>> {
    match v {
        Some(s) => Some(s@),
        None => None,
    }
}

/// Copy of an optional version tag.
pub fn clone_opt_string(v: &Option<String>) -> (r: Option<String>)
    ensures
        r == *v,
{
    match v {
        Some(s) => Some(s.clone()),
        None => None,
    }
}

/// Copy of a byte payload.
pub fn clone_bytes(v: &Vec<u8>) -> (r: Vec<u8>)
    ensures
        r@ == v@,
{
    vstd::slice::slice_to_vec(v.as_slice())
}

/// Copy of a list of branch-link records.
pub fn clone_linkinfos(v: &Vec<MockLinkInfo>) -> (r: Vec<MockLinkInfo>)
    ensures
        r@ == v@,
{
    let mut r: Vec<MockLinkInfo> = Vec::new();
    let mut i: usize = 0;
    while i < v.len()
        invariant
            i <= v@.len(),
            r@ == v@.take(i as int),
        decreases v@.len() - i,
    {
        r.push(v[i].clone());
        proof {
            assert(v@.take(i + 1) =~= v@.take(i as int).push(v@[i as int]));
        }
        i = i + 1;
    }
    proof {
        assert(v@.take(v@.len() as int) =~= v@);
    }
    r
}

/// Copy of a content store: the same keys, slot for slot, over copies of the
/// byte payloads.
pub fn clone_files(v: &Vec<(MockSourceFileKey, Vec<u8>)>) -> (r: Vec<(MockSourceFileKey, Vec<u8>)>)
    ensures
        r@.len() == v@.len(),
        forall|i: int|
            0 <= i < v@.len() ==> (#[trigger] r@[i]).0 == v@[i].0 && r@[i].1@ == v@[i].1@,
{
    let mut r: Vec<(MockSourceFileKey, Vec<u8>)> = Vec::new();
    let mut i: usize = 0;
    while i < v.len()
        invariant
            i <= v@.len(),
            r@.len() == i,
            forall|j: int|
                0 <= j < i ==> (#[trigger] r@[j]).0 == v@[j].0 && r@[j].1@ == v@[j].1@,
        decreases v@.len() - i,
    {
        r.push((v[i].0.clone(), clone_bytes(&v[i].1)));
        i = i + 1;
    }
    r
}

/// Two stores with the same keys slot for slot and view-equal payloads
/// resolve every lookup alike, to view-equal payloads.
pub proof fn lemma_files_like(
    a: Seq<(MockSourceFileKey, Vec<u8>)>,
    b: Seq<(MockSourceFileKey, Vec<u8>)>,
)
    requires
        a.len() == b.len(),
        forall|i: int| 0 <= i < a.len() ==> (#[trigger] b[i]).0 == a[i].0 && b[i].1@ == a[i].1@,
    ensures
        forall|k: (Seq<char>, Seq<char>)|
            match (#[trigger] assoc_get(a, k), assoc_get(b, k)) {
                (Some(x), Some(y)) => x@ == y@,
                (None, None) => true,
                _ => false,
            },
        forall|k: (Seq<char>, Seq<char>)|
            #[trigger] assoc_has(a, k) ==> assoc_has(b, k),
    decreases a.len(),
{
    if a.len() > 0 {
        assert(forall|i: int|
            0 <= i < a.len() - 1 ==> (#[trigger] a.skip(1)[i]) == a[i + 1] && b.skip(1)[i] == b[
                i + 1
            ]);
        lemma_files_like(a.skip(1), b.skip(1));
        assert forall|k: (Seq<char>, Seq<char>)|
            match (#[trigger] assoc_get(a, k), assoc_get(b, k)) {
                (Some(x), Some(y)) => x@ == y@,
                (None, None) => true,
                _ => false,
            } by {
            if a[0].0@ == k {
            } else {
                assert(assoc_get(a, k) == assoc_get(a.skip(1), k));
                assert(assoc_get(b, k) == assoc_get(b.skip(1), k));
            }
        }
        assert forall|k: (Seq<char>, Seq<char>)| #[trigger]
            assoc_has(a, k) implies assoc_has(b, k) by {
            let i = choose|i: int| 0 <= i < a.len() && (#[trigger] a[i]).0@ == k;
            assert((#[trigger] b[i]).0@ == k);
        }
    }
}

/// What placing a file in a package's store leaves behind: the revision
/// streams and counters untouched, the file's bytes under its own checksum,
/// and every other slot unchanged.
pub open spec fn spec_file_stored(oldp: MockPackage, newp: MockPackage, file: MockSourceFile) -> bool {
    &&& newp.revisions@ == oldp.revisions@
    &&& newp.meta_revisions@ == oldp.meta_revisions@
    &&& newp.latest_vrevs@ == oldp.latest_vrevs@
    &&& assoc_get(newp.files@, (file.path@, hex_of(md5_of(file.contents@)))) == Some(
        file.contents,
    )
    &&& forall|k: (Seq<char>, Seq<char>)|
        k != (file.path@, hex_of(md5_of(file.contents@))) ==> #[trigger] assoc_get(
            newp.files@,
            k,
        ) == assoc_get(oldp.files@, k)
}

/// What placing bytes at a path leaves behind, stated over the path and the
/// byte views alone.
pub open spec fn spec_file_stored_at(
    oldp: MockPackage,
    newp: MockPackage,
    path: Seq<char>,
    contents: Vec<u8>,
) -> bool {
    &&& newp.revisions@ == oldp.revisions@
    &&& newp.meta_revisions@ == oldp.meta_revisions@
    &&& newp.latest_vrevs@ == oldp.latest_vrevs@
    &&& assoc_get(newp.files@, (path, hex_of(md5_of(contents@)))) == Some(contents)
    &&& forall|k: (Seq<char>, Seq<char>)|
        k != (path, hex_of(md5_of(contents@))) ==> #[trigger] assoc_get(newp.files@, k)
            == assoc_get(oldp.files@, k)
}

/// What appending a source revision leaves behind: the store and the
/// metadata stream untouched, one revision appended with the next counter of
/// its version tag and the previous revision's links, and only that one
/// counter advanced.
pub open spec fn spec_revision_added(
    oldp: MockPackage,
    newp: MockPackage,
    options: MockRevisionOptions,
    entries: Vec<(String, MockEntry)>,
) -> bool {
    &&& newp.files@ == oldp.files@
    &&& newp.meta_revisions@ == oldp.meta_revisions@
    &&& newp.revisions@.len() == oldp.revisions@.len() + 1
    &&& newp.revisions@.drop_last() == oldp.revisions@
    &&& ({
        let r = newp.revisions@.last();
        &&& r.vrev == Some(
            (spec_cur_vrev(oldp.latest_vrevs@, opt_str_view(options.version)) + 1) as usize,
        )
        &&& r.options == options
        &&& r.entries == entries
        &&& r.linkinfo@ == if oldp.revisions@.len() == 0 {
            Seq::<MockLinkInfo>::empty()
        } else {
            oldp.revisions@.last().linkinfo@
        }
    })
    &&& spec_cur_vrev(newp.latest_vrevs@, opt_str_view(options.version)) == spec_cur_vrev(
        oldp.latest_vrevs@,
        opt_str_view(options.version),
    ) + 1
    &&& forall|v: Option<Seq<char>>|
        v != opt_str_view(options.version) ==> #[trigger] spec_cur_vrev(newp.latest_vrevs@, v)
            == spec_cur_vrev(oldp.latest_vrevs@, v)
}

/// Copy of a revision's entry list.
pub fn clone_entries(v: &Vec<(String, MockEntry)>) -> (r: Vec<(String, MockEntry)>)
    ensures
        r@ == v@,
{
    let mut r: Vec<(String, MockEntry)> = Vec::new();
    let mut i: usize = 0;
    while i < v.len()
        invariant
            i <= v@.len(),
            r@ == v@.take(i as int),
        decreases v@.len() - i,
    {
        r.push((v[i].0.clone(), v[i].1.clone()));
        proof {
            assert(v@.take(i + 1) =~= v@.take(i as int).push(v@[i as int]));
        }
        i = i + 1;
    }
    proof {
        assert(v@.take(v@.len() as int) =~= v@);
    }
    r
}

/// The source state of one package.
#[derive(Debug)]
pub struct MockPackage {
    /// Content store: bytes by path and content checksum; entries are never
    /// removed.
    pub files: Vec<(MockSourceFileKey, Vec<u8>)>,
    /// Append-only stream of source revisions, 1-indexed externally.
    pub revisions: Vec<MockRevision>,
    /// Append-only stream of metadata revisions; never empty.
    pub meta_revisions: Vec<MockRevision>,
    /// Monotonic revision counter for each version tag.
    pub latest_vrevs: Vec<(VersionKey, usize)>,
}

/// Every entry of the revision names a slot present in the store.
pub open spec fn rev_entries_in(files: Seq<(MockSourceFileKey, Vec<u8>)>, rev: MockRevision) -> bool {
    forall|j: int|
        0 <= j < rev.entries@.len() ==> assoc_has(
            files,
            ((#[trigger] rev.entries@[j]).0@, rev.entries@[j].1.md5@),
        )
}

/// The current counter of a version tag; zero before the first revision.
pub open spec fn spec_cur_vrev(m: Seq<(VersionKey, usize)>, v: Option<Seq<char>>) -> int {
    match assoc_get(m, v) {
        Some(n) => n as int,
        None => 0,
    }
}

/// What a freshly created package looks like: no source revisions, one
/// generated metadata revision over the given options, and the metadata
/// document as the only store slot.
pub open spec fn spec_fresh_package(
    r: MockPackage,
    project: Seq<char>,
    package: Seq<char>,
    options: MockPackageOptions,
) -> bool {
    &&& r.wf()
    &&& r.revisions@.len() == 0
    &&& r.meta_revisions@.len() == 1
    &&& ({
        let m = r.meta_revisions@[0];
        &&& m.vrev is None
        &&& m.options.srcmd5 == options.initial_meta_srcmd5
        &&& m.options.version is None
        &&& m.options.time == options.time
        &&& m.options.user == options.user
        &&& m.options.comment is None
        &&& m.linkinfo@.len() == 0
        &&& m.entries@.len() == 1
        &&& m.entries@[0].0@ == "_meta"@
        &&& m.entries@[0].1.md5@ == hex_of(md5_of(meta_xml_of(project, package)))
        &&& m.entries@[0].1.mtime == options.time
    })
    &&& r.files@.len() == 1
    &&& r.files@[0].0@ == ("_meta"@, hex_of(md5_of(meta_xml_of(project, package))))
    &&& r.files@[0].1@ == meta_xml_of(project, package)
    &&& r.latest_vrevs@.len() == 0
}

/// What branching leaves in the destination: the origin's store plus a fresh
/// metadata document, a single source revision over the origin's latest
/// entries whose one link record points back at the origin, a fresh metadata
/// revision, and the untagged counter already at one.
pub open spec fn spec_branched_package(
    b: MockPackage,
    origin: MockPackage,
    origin_project: Seq<char>,
    origin_package: Seq<char>,
    dest_project: Seq<char>,
    dest_package: Seq<char>,
    options: MockBranchOptions,
) -> bool {
    &&& b.wf()
    &&& b.revisions@.len() == 1
    &&& ({
        let r = b.revisions@[0];
        &&& r.vrev == Some(1usize)
        &&& r.options.srcmd5 == options.srcmd5
        &&& r.options.version is None
        &&& r.options.time == options.time
        &&& r.options.user == options.user
        &&& r.options.comment == options.comment
        &&& r.entries@ == origin.revisions@.last().entries@
        &&& r.linkinfo@.len() == 1
        &&& ({
            let li = r.linkinfo@[0];
            &&& li.project@ == origin_project
            &&& li.package@ == origin_package
            &&& li.baserev == origin.revisions@.last().options.srcmd5
            &&& li.srcmd5 == origin.revisions@.last().options.srcmd5
            &&& li.xsrcmd5 == options.xsrcmd5
            &&& li.lsrcmd5 == options.srcmd5
        })
    })
    &&& b.meta_revisions@.len() == 1
    &&& ({
        let m = b.meta_revisions@[0];
        &&& m.vrev is None
        &&& m.options.version is None
        &&& m.options.time == options.time
        &&& m.options.user == options.user
        &&& m.options.comment == options.comment
        &&& m.options.srcmd5@.len() == 32
        &&& m.linkinfo@.len() == 0
        &&& m.entries@.len() == 1
        &&& m.entries@[0].0@ == "_meta"@
        &&& m.entries@[0].1.md5@ == hex_of(md5_of(meta_xml_of(dest_project, dest_package)))
        &&& m.entries@[0].1.mtime == options.time
    })
    &&& spec_cur_vrev(b.latest_vrevs@, None) == 1
    &&& ({
        let mk = ("_meta"@, hex_of(md5_of(meta_xml_of(dest_project, dest_package))));
        &&& assoc_get(b.files@, mk) is Some
        &&& (assoc_get(b.files@, mk)->Some_0)@ == meta_xml_of(dest_project, dest_package)
        &&& forall|k: (Seq<char>, Seq<char>)|
            k != mk ==> match (#[trigger] assoc_get(b.files@, k), assoc_get(origin.files@, k)) {
                (Some(x), Some(y)) => x@ == y@,
                (None, None) => true,
                _ => false,
            }
    })
}

impl MockPackage {
    /// A revision never references content that is not simultaneously in the
    /// store, the metadata stream is never empty, and no version counter
    /// outruns the number of source revisions.
    pub open spec fn wf(&self) -> bool {
        &&& self.meta_revisions@.len() >= 1
        &&& forall|i: int|
            0 <= i < self.revisions@.len() ==> rev_entries_in(
                self.files@,
                #[trigger] self.revisions@[i],
            )
        &&& forall|i: int|
            0 <= i < self.meta_revisions@.len() ==> rev_entries_in(
                self.files@,
                #[trigger] self.meta_revisions@[i],
            )
        &&& forall|v: Option<Seq<char>>|
            #[trigger] spec_cur_vrev(self.latest_vrevs@, v) <= self.revisions@.len()
        &&& forall|i: int|
            0 <= i < self.meta_revisions@.len() ==> assoc_has(
                (#[trigger] self.meta_revisions@[i]).entries@,
                "_meta"@,
            )
    }

    /// A new package: an empty source stream, one generated metadata
    /// revision, and the metadata document already in the store.
    pub fn new_with_metadata(project_name: &str, package_name: &str, options: MockPackageOptions) -> (r:
        MockPackage)
        ensures
            r.wf(),
            r.revisions@.len() == 0,
            r.meta_revisions@.len() == 1,
            ({
                let m = r.meta_revisions@[0];
                &&& m.vrev is None
                &&& m.options.srcmd5 == options.initial_meta_srcmd5
                &&& m.options.version is None
                &&& m.options.time == options.time
                &&& m.options.user == options.user
                &&& m.options.comment is None
                &&& m.linkinfo@.len() == 0
                &&& m.entries@.len() == 1
                &&& m.entries@[0].0@ == "_meta"@
                &&& m.entries@[0].1.md5@ == hex_of(
                    md5_of(meta_xml_of(project_name@, package_name@)),
                )
                &&& m.entries@[0].1.mtime == options.time
            }),
            r.files@.len() == 1,
            r.files@[0].0@ == ("_meta"@, hex_of(md5_of(meta_xml_of(project_name@, package_name@)))),
            r.files@[0].1@ == meta_xml_of(project_name@, package_name@),
            r.latest_vrevs@.len() == 0,
            spec_fresh_package(r, project_name@, package_name@, options),
    {
        let meta = MockSourceFile::new_metadata(project_name, package_name);
        let ghost meta_path = meta.path@;
        let (key, contents) = meta.into_key_and_contents();
        let entry = MockEntry::from_key(&key, options.time);
        let mut files: Vec<(MockSourceFileKey, Vec<u8>)> = Vec::new();
        let mut entries: Vec<(String, MockEntry)> = Vec::new();
        entries.push((String::from_str(META_PATH), entry));
        files.push((key, contents));
        let mut meta_revisions: Vec<MockRevision> = Vec::new();
        meta_revisions.push(
            MockRevision {
                vrev: None,
                options: MockRevisionOptions {
                    srcmd5: options.initial_meta_srcmd5,
                    version: None,
                    time: options.time,
                    user: options.user,
                    comment: None,
                },
                entries,
                linkinfo: Vec::new(),
            },
        );
        let r = MockPackage {
            files,
            revisions: Vec::new(),
            meta_revisions,
            latest_vrevs: Vec::new(),
        };
        proof {
            assert(r.files@[0].0@ == (r.meta_revisions@[0].entries@[0].0@,
                r.meta_revisions@[0].entries@[0].1.md5@));
            assert(rev_entries_in(r.files@, r.meta_revisions@[0]));
        }
        r
    }

    /// Appends a source revision over entries whose content is already in
    /// the store, drawing the next counter of the revision's version tag and
    /// carrying the previous revision's links forward.
    pub fn add_revision(&mut self, options: MockRevisionOptions, entries: Vec<(String, MockEntry)>)
        requires
            old(self).wf(),
            forall|j: int|
                0 <= j < entries@.len() ==> assoc_has(
                    old(self).files@,
                    ((#[trigger] entries@[j]).0@, entries@[j].1.md5@),
                ),
            spec_cur_vrev(old(self).latest_vrevs@, opt_str_view(options.version)) < usize::MAX,
        ensures
            final(self).wf(),
            final(self).files@ == old(self).files@,
            final(self).meta_revisions@ == old(self).meta_revisions@,
            final(self).revisions@.len() == old(self).revisions@.len() + 1,
            final(self).revisions@.drop_last() == old(self).revisions@,
            ({
                let r = final(self).revisions@.last();
                &&& r.vrev == Some(
                    (spec_cur_vrev(old(self).latest_vrevs@, opt_str_view(options.version))
                        + 1) as usize,
                )
                &&& r.options == options
                &&& r.entries == entries
                &&& r.linkinfo@ == if old(self).revisions@.len() == 0 {
                    Seq::<MockLinkInfo>::empty()
                } else {
                    old(self).revisions@.last().linkinfo@
                }
            }),
            spec_cur_vrev(final(self).latest_vrevs@, opt_str_view(options.version))
                == spec_cur_vrev(old(self).latest_vrevs@, opt_str_view(options.version)) + 1,
            forall|v: Option<Seq<char>>|
                v != opt_str_view(options.version) ==> #[trigger] spec_cur_vrev(
                    final(self).latest_vrevs@,
                    v,
                ) == spec_cur_vrev(old(self).latest_vrevs@, v),
            spec_revision_added(*old(self), *final(self), options, entries),
    {
        let ghost vkey = opt_str_view(options.version);
        let idx = vrev_index(&self.latest_vrevs, &options.version);
        let vrev: usize;
        match idx {
            Some(i) => {
                proof {
                    lemma_assoc_get_at(self.latest_vrevs@, vkey, i as int);
                }
                let cur = self.latest_vrevs[i].1;
                vrev = cur + 1;
                let pair = self.latest_vrevs.remove(i);
                self.latest_vrevs.insert(i, (pair.0, vrev));
                proof {
                    assert(self.latest_vrevs@ =~= old(self).latest_vrevs@.update(
                        i as int,
                        (old(self).latest_vrevs@[i as int].0, vrev),
                    ));
                    lemma_assoc_get_at(self.latest_vrevs@, vkey, i as int);
                    assert forall|v: Option<Seq<char>>|
                        v != vkey implies #[trigger] spec_cur_vrev(self.latest_vrevs@, v)
                        == spec_cur_vrev(old(self).latest_vrevs@, v) by {
                        lemma_assoc_get_update_other(
                            old(self).latest_vrevs@,
                            i as int,
                            (old(self).latest_vrevs@[i as int].0, vrev),
                            v,
                        );
                    }
                }
            },
            None => {
                vrev = 1;
                proof {
                    lemma_assoc_get_none(self.latest_vrevs@, vkey);
                }
                let key = VersionKey { version: clone_opt_string(&options.version) };
                proof {
                    assert(key@ == vkey);
                }
                self.latest_vrevs.push((key, 1));
                proof {
                    assert forall|v: Option<Seq<char>>| #[trigger]
                        spec_cur_vrev(self.latest_vrevs@, v) == if v == vkey {
                            1int
                        } else {
                            spec_cur_vrev(old(self).latest_vrevs@, v)
                        } by {
                        lemma_assoc_get_push(
                            old(self).latest_vrevs@,
                            (VersionKey { version: options.version }, 1usize),
                            v,
                        );
                        assert(self.latest_vrevs@.last().0@ == vkey);
                        if v != vkey {
                            if assoc_get(old(self).latest_vrevs@, v) is None {
                                lemma_assoc_get_push(
                                    self.latest_vrevs@.drop_last(),
                                    self.latest_vrevs@.last(),
                                    v,
                                );
                                assert(self.latest_vrevs@.drop_last().push(
                                    self.latest_vrevs@.last(),
                                ) =~= self.latest_vrevs@);
                            } else {
                                lemma_assoc_get_push(
                                    self.latest_vrevs@.drop_last(),
                                    self.latest_vrevs@.last(),
                                    v,
                                );
                                assert(self.latest_vrevs@.drop_last().push(
                                    self.latest_vrevs@.last(),
                                ) =~= self.latest_vrevs@);
                                assert(self.latest_vrevs@.drop_last()
                                    =~= old(self).latest_vrevs@);
                            }
                        } else {
                            lemma_assoc_get_push(
                                self.latest_vrevs@.drop_last(),
                                self.latest_vrevs@.last(),
                                v,
                            );
                            assert(self.latest_vrevs@.drop_last().push(
                                self.latest_vrevs@.last(),
                            ) =~= self.latest_vrevs@);
                            assert(self.latest_vrevs@.drop_last() =~= old(self).latest_vrevs@);
                        }
                    }
                }
            },
        }
        let linkinfo: Vec<MockLinkInfo> = if self.revisions.len() == 0 {
            Vec::new()
        } else {
            let last = self.revisions.len() - 1;
            clone_linkinfos(&self.revisions[last].linkinfo)
        };
        self.revisions.push(
            MockRevision { vrev: Some(vrev), options, entries, linkinfo },
        );
        proof {
            assert(final(self).revisions@.drop_last() =~= old(self).revisions@);
            assert forall|i: int|
                0 <= i < final(self).revisions@.len() implies rev_entries_in(
                final(self).files@,
                #[trigger] final(self).revisions@[i],
            ) by {
                if i < old(self).revisions@.len() {
                    assert(final(self).revisions@[i] == old(self).revisions@[i]);
                }
            }
        }
    }
}

/// Places a file's bytes in a content store under the checksum of the
/// bytes, replacing any slot with the same path and checksum.
pub fn files_upsert(files: &mut Vec<(MockSourceFileKey, Vec<u8>)>, file: MockSourceFile) -> (key:
    MockSourceFileKey)
    ensures
        key.path == file.path,
        key.md5@ == hex_of(md5_of(file.contents@)),
        assoc_get(final(files)@, (file.path@, hex_of(md5_of(file.contents@)))) == Some(
            file.contents,
        ),
        forall|k: (Seq<char>, Seq<char>)|
            k != (file.path@, hex_of(md5_of(file.contents@))) ==> #[trigger] assoc_get(
                final(files)@,
                k,
            ) == assoc_get(old(files)@, k),
        forall|k: (Seq<char>, Seq<char>)|
            assoc_has(old(files)@, k) ==> #[trigger] assoc_has(final(files)@, k),
{
    let ghost old_files = files@;
    let (key, contents) = file.into_key_and_contents();
    let ret = key.clone();
    let ghost kv = key@;
    let idx = file_index(files, key.path.as_str(), key.md5.as_str());
    match idx {
        Some(i) => {
            let _old_pair = files.remove(i);
            files.insert(i, (key, contents));
            proof {
                assert(files@ =~= old_files.update(i as int, (key, contents)));
                lemma_assoc_get_at(files@, kv, i as int);
                assert forall|k: (Seq<char>, Seq<char>)| k != kv implies #[trigger]
                    assoc_get(files@, k) == assoc_get(old_files, k) by {
                    lemma_assoc_get_update_other(old_files, i as int, (key, contents), k);
                }
                assert forall|k: (Seq<char>, Seq<char>)|
                    assoc_has(old_files, k) implies #[trigger] assoc_has(files@, k) by {
                    let j = choose|j: int|
                        0 <= j < old_files.len() && (#[trigger] old_files[j]).0@ == k;
                    assert((#[trigger] files@[j]).0@ == k);
                }
            }
        },
        None => {
            files.push((key, contents));
            proof {
                lemma_assoc_get_none(old_files, kv);
                assert forall|k: (Seq<char>, Seq<char>)| #[trigger]
                    assoc_get(files@, k) == if k == kv {
                        Some(contents)
                    } else {
                        assoc_get(old_files, k)
                    } by {
                    lemma_assoc_get_push(old_files, (key, contents), k);
                    if k != kv && assoc_get(old_files, k) is None {
                    }
                }
                assert forall|k: (Seq<char>, Seq<char>)|
                    assoc_has(old_files, k) implies #[trigger] assoc_has(files@, k) by {
                    let j = choose|j: int|
                        0 <= j < old_files.len() && (#[trigger] old_files[j]).0@ == k;
                    assert((#[trigger] files@[j]).0@ == k);
                }
            }
        },
    }
    ret
}

impl MockPackage {
    /// Places a file's bytes in the content store under the checksum of the
    /// bytes, replacing any slot with the same path and checksum; the
    /// revision streams and counters are untouched.
    pub fn store_file(&mut self, file: MockSourceFile) -> (key: MockSourceFileKey)
        requires
            old(self).wf(),
        ensures
            final(self).wf(),
            key.path == file.path,
            key.md5@ == hex_of(md5_of(file.contents@)),
            final(self).revisions@ == old(self).revisions@,
            final(self).meta_revisions@ == old(self).meta_revisions@,
            final(self).latest_vrevs@ == old(self).latest_vrevs@,
            assoc_get(final(self).files@, (file.path@, hex_of(md5_of(file.contents@)))) == Some(
                file.contents,
            ),
            forall|k: (Seq<char>, Seq<char>)|
                k != (file.path@, hex_of(md5_of(file.contents@))) ==> #[trigger] assoc_get(
                    final(self).files@,
                    k,
                ) == assoc_get(old(self).files@, k),
            forall|k: (Seq<char>, Seq<char>)|
                assoc_has(old(self).files@, k) ==> #[trigger] assoc_has(final(self).files@, k),
            spec_file_stored(*old(self), *final(self), file),
            spec_file_stored_at(*old(self), *final(self), file.path@, file.contents),
    {
        let ghost old_files = self.files@;
        let key = files_upsert(&mut self.files, file);
        proof {
            assert forall|i: int|
                0 <= i < self.revisions@.len() implies rev_entries_in(
                self.files@,
                #[trigger] self.revisions@[i],
            ) by {
                assert(rev_entries_in(old_files, self.revisions@[i]));
            }
            assert forall|i: int|
                0 <= i < self.meta_revisions@.len() implies rev_entries_in(
                self.files@,
                #[trigger] self.meta_revisions@[i],
            ) by {
                assert(rev_entries_in(old_files, self.meta_revisions@[i]));
            }
        }
        key
    }
}

/// Caller-supplied description of a package to create.
pub struct MockPackageOptions {
    pub initial_meta_srcmd5: String,
    pub time: u64,
    pub user: String,
}

impl Default for MockPackageOptions {
    /// A fresh metadata checksum, the current time and the administrative
    /// user.
    fn default() -> (r: Self)
        ensures
            r.initial_meta_srcmd5@.len() == 32,
            r.user@ == "Admin"@,
    {
        MockPackageOptions {
            initial_meta_srcmd5: random_md5(),
            time: now_secs(),
            user: String::from_str(ADMIN_USER),
        }
    }
}

/// Caller-supplied description of a branch operation.
pub struct MockBranchOptions {
    pub srcmd5: String,
    pub xsrcmd5: String,
    pub user: String,
    pub time: u64,
    pub comment: Option<String>,
}

impl Default for MockBranchOptions {
    /// Fresh checksums, the current time and the administrative user.
    fn default() -> (r: Self)
        ensures
            r.srcmd5@.len() == 32,
            r.xsrcmd5@.len() == 32,
            r.user@ == "Admin"@,
            r.comment is None,
    {
        MockBranchOptions {
            srcmd5: random_md5(),
            xsrcmd5: random_md5(),
            user: String::from_str(ADMIN_USER),
            time: now_secs(),
            comment: None,
        }
    }
}

/// Index of the first store slot with the given path and checksum, if any.
pub fn file_index(files: &Vec<(MockSourceFileKey, Vec<u8>)>, path: &str, md5: &str) -> (r: Option<
    usize,
>)
    ensures
        match r {
            Some(i) => i < files@.len() && files@[i as int].0@ == (path@, md5@) && forall|j: int|
                0 <= j < i ==> (#[trigger] files@[j]).0@ != (path@, md5@),
            None => forall|j: int|
                0 <= j < files@.len() ==> (#[trigger] files@[j]).0@ != (path@, md5@),
        },
        r is Some <==> assoc_has(files@, (path@, md5@)),
{
    let mut i: usize = 0;
    while i < files.len()
        invariant
            i <= files@.len(),
            forall|j: int| 0 <= j < i ==> (#[trigger] files@[j]).0@ != (path@, md5@),
        decreases files@.len() - i,
    {
        if str_eq(files[i].0.path.as_str(), path) && str_eq(files[i].0.md5.as_str(), md5) {
            return Some(i);
        }
        i = i + 1;
    }
    None
}

/// Index of the counter for the given version tag, if any.
pub fn vrev_index(m: &Vec<(VersionKey, usize)>, version: &Option<String>) -> (r: Option<usize>)
    ensures
        match r {
            Some(i) => i < m@.len() && m@[i as int].0@ == opt_str_view(*version) && forall|j: int|
                0 <= j < i ==> (#[trigger] m@[j]).0@ != opt_str_view(*version),
            None => forall|j: int|
                0 <= j < m@.len() ==> (#[trigger] m@[j]).0@ != opt_str_view(*version),
        },
{
    let mut i: usize = 0;
    while i < m.len()
        invariant
            i <= m@.len(),
            forall|j: int| 0 <= j < i ==> (#[trigger] m@[j]).0@ != opt_str_view(*version),
        decreases m@.len() - i,
    {
        let same = match (&m[i].0.version, version) {
            (Some(a), Some(b)) => str_eq(a.as_str(), b.as_str()),
            (None, None) => true,
            _ => false,
        };
        if same {
            return Some(i);
        }
        i = i + 1;
    }
    None
}

} // verus!
