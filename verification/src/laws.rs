//! Laws the emulation obeys across operations, stated over the same spec
//! functions the operations' own contracts use.

use vstd::prelude::*;
use crate::assoc::assoc_has;
use crate::checksum::{hex_of, md5_of};
use crate::handlers_source::{
    spec_committed, spec_listing_of, spec_missing_of, spec_present_of, CommitEntry, SourceListing,
};
use crate::source::{
    spec_branched_package, spec_cur_vrev, spec_file_stored_at, spec_revision_added,
    MockBranchOptions, MockEntry, MockPackage, MockRevisionOptions, MockSourceFileKey,
    opt_str_view,
};

verus! {

/// When no candidate is missing, the present candidates are the whole list,
/// in order.
pub proof fn lemma_present_is_all(
    files: Seq<(MockSourceFileKey, Vec<u8>)>,
    l: Seq<CommitEntry>,
)
    requires
        spec_missing_of(files, l).len() == 0,
    ensures
        spec_present_of(files, l) == l,
    decreases l.len(),
{
    if l.len() > 0 {
        if assoc_has(files, (l.last().name@, l.last().md5@)) {
            lemma_present_is_all(files, l.drop_last());
            assert(spec_present_of(files, l) =~= l.drop_last().push(l.last()));
            assert(l.drop_last().push(l.last()) =~= l);
        } else {
            assert(spec_missing_of(files, l).len() > 0);
        }
    } else {
        assert(spec_present_of(files, l) =~= l);
    }
}

/// Committing a file list whose checksums are all already uploaded creates a
/// revision whose listing shows exactly the list's entries, name for name
/// and checksum for checksum.
pub proof fn lemma_commit_roundtrip(
    oldp: MockPackage,
    newp: MockPackage,
    l: Seq<CommitEntry>,
    user: Seq<char>,
    comment: Option<String>,
    d: SourceListing,
    package_name: Seq<char>,
)
    requires
        spec_missing_of(oldp.files@, l).len() == 0,
        spec_committed(oldp, newp, l, user, comment),
        spec_listing_of(
            d,
            newp,
            package_name,
            newp.revisions@.len() as usize,
            newp.revisions@.last(),
        ),
    ensures
        d.entries@.len() == l.len(),
        forall|i: int|
            0 <= i < l.len() ==> (#[trigger] d.entries@[i]).name@ == l[i].name@
                && d.entries@[i].md5@ == l[i].md5@,
{
    lemma_present_is_all(oldp.files@, l);
    let rev = newp.revisions@.last();
    assert(rev.entries@.len() == l.len());
    assert forall|i: int|
        0 <= i < l.len() implies (#[trigger] d.entries@[i]).name@ == l[i].name@ && d.entries@[
        i
    ].md5@ == l[i].md5@ by {
        assert(rev.entries@[i].0 == spec_present_of(oldp.files@, l)[i].name);
        assert(rev.entries@[i].1.md5 == spec_present_of(oldp.files@, l)[i].md5);
        assert(d.entries@[i].name@ == rev.entries@[i].0@);
        assert(d.entries@[i].md5@ == rev.entries@[i].1.md5@);
    }
}

/// Placing identical bytes under the same path twice yields the same
/// checksum both times and never touches the revision streams.
pub proof fn lemma_store_idempotent(
    p0: MockPackage,
    p1: MockPackage,
    p2: MockPackage,
    path: Seq<char>,
    c1: Vec<u8>,
    c2: Vec<u8>,
)
    requires
        spec_file_stored_at(p0, p1, path, c1),
        spec_file_stored_at(p1, p2, path, c2),
        c1@ == c2@,
    ensures
        hex_of(md5_of(c1@)) == hex_of(md5_of(c2@)),
        p2.revisions@ == p0.revisions@,
        p2.meta_revisions@ == p0.meta_revisions@,
        p2.latest_vrevs@ == p0.latest_vrevs@,
{
}

/// Two revisions without a version tag draw one counter sequence: their
/// counters are consecutive.
pub proof fn lemma_vrev_shared_counter(
    p0: MockPackage,
    p1: MockPackage,
    p2: MockPackage,
    o1: MockRevisionOptions,
    o2: MockRevisionOptions,
    e1: Vec<(String, MockEntry)>,
    e2: Vec<(String, MockEntry)>,
)
    requires
        spec_revision_added(p0, p1, o1, e1),
        spec_revision_added(p1, p2, o2, e2),
        o1.version is None,
        o2.version is None,
    ensures
        p1.revisions@.last().vrev == Some(
            (spec_cur_vrev(p0.latest_vrevs@, None) + 1) as usize,
        ),
        p2.revisions@.last().vrev == Some(
            (spec_cur_vrev(p0.latest_vrevs@, None) + 2) as usize,
        ),
{
    assert(opt_str_view(o1.version) == None::<Seq<char>>);
    assert(opt_str_view(o2.version) == None::<Seq<char>>);
    assert(spec_cur_vrev(p1.latest_vrevs@, None) == spec_cur_vrev(p0.latest_vrevs@, None) + 1);
}

/// A revision tagged with a version whose counter was never drawn starts its
/// own counter at one, and leaves the untagged counter alone.
pub proof fn lemma_vrev_fresh_tag(
    p0: MockPackage,
    p1: MockPackage,
    o: MockRevisionOptions,
    e: Vec<(String, MockEntry)>,
)
    requires
        spec_revision_added(p0, p1, o, e),
        o.version is Some,
        spec_cur_vrev(p0.latest_vrevs@, opt_str_view(o.version)) == 0,
    ensures
        p1.revisions@.last().vrev == Some(1usize),
        spec_cur_vrev(p1.latest_vrevs@, None) == spec_cur_vrev(p0.latest_vrevs@, None),
{
    assert(opt_str_view(o.version) != None::<Seq<char>>);
}

/// A branched package's first revision carries exactly one link record: its
/// local checksum is the branch checksum, its expanded checksum the supplied
/// one, and its tree checksums the origin's current checksum.
pub proof fn lemma_branch_linkage(
    b: MockPackage,
    origin: MockPackage,
    origin_project: Seq<char>,
    origin_package: Seq<char>,
    dest_project: Seq<char>,
    dest_package: Seq<char>,
    options: MockBranchOptions,
)
    requires
        spec_branched_package(
            b,
            origin,
            origin_project,
            origin_package,
            dest_project,
            dest_package,
            options,
        ),
    ensures
        b.revisions@.len() == 1,
        b.revisions@[0].linkinfo@.len() == 1,
        b.revisions@[0].linkinfo@[0].lsrcmd5 == options.srcmd5,
        b.revisions@[0].linkinfo@[0].xsrcmd5 == options.xsrcmd5,
        b.revisions@[0].linkinfo@[0].srcmd5 == origin.revisions@.last().options.srcmd5,
        b.revisions@[0].linkinfo@[0].baserev == origin.revisions@.last().options.srcmd5,
        b.revisions@[0].options.srcmd5 == options.srcmd5,
{
}

} // verus!
