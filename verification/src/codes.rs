//! Lifecycle codes of a repository build queue and build codes of a single
//! package, with their total mapping to and from the wire strings.

use vstd::prelude::*;

verus! {

/// Lifecycle code of one repository/architecture build queue.
#[derive(Copy, Clone, Debug, PartialEq, Eq, Structural)]
pub enum MockRepositoryCode {
    Unknown,
    Broken,
    Scheduling,
    Blocked,
    Building,
    Finished,
    Publishing,
    Published,
    Unpublished,
}

/// Build code of a single package in one repository/architecture.
#[derive(Copy, Clone, Debug, PartialEq, Eq, Structural)]
pub enum MockPackageCode {
    Unresolvable,
    Succeeded,
    Dispatching,
    Failed,
    Broken,
    Disabled,
    Excluded,
    Blocked,
    Locked,
    Unknown,
    Scheduled,
    Building,
    Finished,
}

pub open spec fn spec_repo_code_str(c: MockRepositoryCode) -> Seq<char> {
    match c {
        MockRepositoryCode::Unknown => "unknown"@,
        MockRepositoryCode::Broken => "broken"@,
        MockRepositoryCode::Scheduling => "scheduling"@,
        MockRepositoryCode::Blocked => "blocked"@,
        MockRepositoryCode::Building => "building"@,
        MockRepositoryCode::Finished => "finished"@,
        MockRepositoryCode::Publishing => "publishing"@,
        MockRepositoryCode::Published => "published"@,
        MockRepositoryCode::Unpublished => "unpublished"@,
    }
}

pub open spec fn spec_package_code_str(c: MockPackageCode) -> Seq<char> {
    match c {
        MockPackageCode::Unresolvable => "unresolvable"@,
        MockPackageCode::Succeeded => "succeeded"@,
        MockPackageCode::Dispatching => "dispatching"@,
        MockPackageCode::Failed => "failed"@,
        MockPackageCode::Broken => "broken"@,
        MockPackageCode::Disabled => "disabled"@,
        MockPackageCode::Excluded => "excluded"@,
        MockPackageCode::Blocked => "blocked"@,
        MockPackageCode::Locked => "locked"@,
        MockPackageCode::Unknown => "unknown"@,
        MockPackageCode::Scheduled => "scheduled"@,
        MockPackageCode::Building => "building"@,
        MockPackageCode::Finished => "finished"@,
    }
}

/// Wire string of a repository lifecycle code.
pub fn repo_code_str(c: MockRepositoryCode) -> (r: &'static str)
    ensures
        r@ == spec_repo_code_str(c),
{
    match c {
        MockRepositoryCode::Unknown => "unknown",
        MockRepositoryCode::Broken => "broken",
        MockRepositoryCode::Scheduling => "scheduling",
        MockRepositoryCode::Blocked => "blocked",
        MockRepositoryCode::Building => "building",
        MockRepositoryCode::Finished => "finished",
        MockRepositoryCode::Publishing => "publishing",
        MockRepositoryCode::Published => "published",
        MockRepositoryCode::Unpublished => "unpublished",
    }
}

/// Wire string of a package build code.
pub fn package_code_str(c: MockPackageCode) -> (r: &'static str)
    ensures
        r@ == spec_package_code_str(c),
{
    match c {
        MockPackageCode::Unresolvable => "unresolvable",
        MockPackageCode::Succeeded => "succeeded",
        MockPackageCode::Dispatching => "dispatching",
        MockPackageCode::Failed => "failed",
        MockPackageCode::Broken => "broken",
        MockPackageCode::Disabled => "disabled",
        MockPackageCode::Excluded => "excluded",
        MockPackageCode::Blocked => "blocked",
        MockPackageCode::Locked => "locked",
        MockPackageCode::Unknown => "unknown",
        MockPackageCode::Scheduled => "scheduled",
        MockPackageCode::Building => "building",
        MockPackageCode::Finished => "finished",
    }
}

pub open spec fn spec_parse_package_code(s: Seq<char>) -> Option<MockPackageCode> {
    if s == "unresolvable"@ {
        Some(MockPackageCode::Unresolvable)
    } else if s == "succeeded"@ {
        Some(MockPackageCode::Succeeded)
    } else if s == "dispatching"@ {
        Some(MockPackageCode::Dispatching)
    } else if s == "failed"@ {
        Some(MockPackageCode::Failed)
    } else if s == "broken"@ {
        Some(MockPackageCode::Broken)
    } else if s == "disabled"@ {
        Some(MockPackageCode::Disabled)
    } else if s == "excluded"@ {
        Some(MockPackageCode::Excluded)
    } else if s == "blocked"@ {
        Some(MockPackageCode::Blocked)
    } else if s == "locked"@ {
        Some(MockPackageCode::Locked)
    } else if s == "unknown"@ {
        Some(MockPackageCode::Unknown)
    } else if s == "scheduled"@ {
        Some(MockPackageCode::Scheduled)
    } else if s == "building"@ {
        Some(MockPackageCode::Building)
    } else if s == "finished"@ {
        Some(MockPackageCode::Finished)
    } else {
        None
    }
}

/// Package build code named by a wire string, if any.
pub fn parse_package_code(s: &str) -> (r: Option<MockPackageCode>)
    ensures
        r == spec_parse_package_code(s@),
{
    if crate::assoc::str_eq(s, "unresolvable") {
        Some(MockPackageCode::Unresolvable)
    } else if crate::assoc::str_eq(s, "succeeded") {
        Some(MockPackageCode::Succeeded)
    } else if crate::assoc::str_eq(s, "dispatching") {
        Some(MockPackageCode::Dispatching)
    } else if crate::assoc::str_eq(s, "failed") {
        Some(MockPackageCode::Failed)
    } else if crate::assoc::str_eq(s, "broken") {
        Some(MockPackageCode::Broken)
    } else if crate::assoc::str_eq(s, "disabled") {
        Some(MockPackageCode::Disabled)
    } else if crate::assoc::str_eq(s, "excluded") {
        Some(MockPackageCode::Excluded)
    } else if crate::assoc::str_eq(s, "blocked") {
        Some(MockPackageCode::Blocked)
    } else if crate::assoc::str_eq(s, "locked") {
        Some(MockPackageCode::Locked)
    } else if crate::assoc::str_eq(s, "unknown") {
        Some(MockPackageCode::Unknown)
    } else if crate::assoc::str_eq(s, "scheduled") {
        Some(MockPackageCode::Scheduled)
    } else if crate::assoc::str_eq(s, "building") {
        Some(MockPackageCode::Building)
    } else if crate::assoc::str_eq(s, "finished") {
        Some(MockPackageCode::Finished)
    } else {
        None
    }
}

/// Whether a package build code is terminal for the status monitor.
///
/// The service does not pin this partition down; here the final codes are
/// exactly `Unresolvable`, `Succeeded`, `Failed`, `Broken`, `Disabled` and
/// `Excluded`, and every other code asks for another poll.
pub open spec fn spec_is_final(c: MockPackageCode) -> bool {
    match c {
        MockPackageCode::Unresolvable => true,
        MockPackageCode::Succeeded => true,
        MockPackageCode::Failed => true,
        MockPackageCode::Broken => true,
        MockPackageCode::Disabled => true,
        MockPackageCode::Excluded => true,
        _ => false,
    }
}

impl MockPackageCode {
    /// Whether the monitor may stop watching a pair that shows this code;
    /// see `spec_is_final` for the chosen partition.
    pub fn is_final(&self) -> (r: bool)
        ensures
            r == spec_is_final(*self),
    {
        match self {
            MockPackageCode::Unresolvable => true,
            MockPackageCode::Succeeded => true,
            MockPackageCode::Failed => true,
            MockPackageCode::Broken => true,
            MockPackageCode::Disabled => true,
            MockPackageCode::Excluded => true,
            _ => false,
        }
    }
}

/// Reading a code back from its wire string restores the code.
pub proof fn lemma_package_code_str_roundtrip(c: MockPackageCode)
    ensures
        spec_parse_package_code(spec_package_code_str(c)) == Some(c),
{
    reveal_strlit("unresolvable");
    reveal_strlit("succeeded");
    reveal_strlit("dispatching");
    reveal_strlit("failed");
    reveal_strlit("broken");
    reveal_strlit("disabled");
    reveal_strlit("excluded");
    reveal_strlit("blocked");
    reveal_strlit("locked");
    reveal_strlit("unknown");
    reveal_strlit("scheduled");
    reveal_strlit("building");
    reveal_strlit("finished");
    assert("unresolvable"@.len() == 12);
    assert("succeeded"@.len() == 9);
    assert("dispatching"@.len() == 11);
    assert("failed"@.len() == 6);
    assert("broken"@.len() == 6);
    assert("disabled"@.len() == 8);
    assert("excluded"@.len() == 8);
    assert("blocked"@.len() == 7);
    assert("locked"@.len() == 6);
    assert("unknown"@.len() == 7);
    assert("scheduled"@.len() == 9);
    assert("building"@.len() == 8);
    assert("finished"@.len() == 8);
    assert("failed"@[0] == 'f' && "broken"@[0] == 'b' && "locked"@[0] == 'l');
    assert("disabled"@[0] == 'd' && "excluded"@[0] == 'e' && "building"@[0] == 'b'
        && "finished"@[0] == 'f');
    assert("blocked"@[0] == 'b' && "unknown"@[0] == 'u');
    assert("succeeded"@[1] == 'u' && "scheduled"@[1] == 'c');
    assert("failed"@ != "broken"@ && "failed"@ != "locked"@ && "broken"@ != "locked"@);
    assert("disabled"@ != "excluded"@ && "disabled"@ != "building"@
        && "disabled"@ != "finished"@ && "excluded"@ != "building"@
        && "excluded"@ != "finished"@ && "building"@ != "finished"@);
    assert("blocked"@ != "unknown"@);
    assert("succeeded"@ != "scheduled"@);
    match c {
        MockPackageCode::Unresolvable => {
            assert(spec_parse_package_code("unresolvable"@) == Some(c));
        },
        MockPackageCode::Succeeded => {
            assert(spec_parse_package_code("succeeded"@) == Some(c));
        },
        MockPackageCode::Dispatching => {
            assert(spec_parse_package_code("dispatching"@) == Some(c));
        },
        MockPackageCode::Failed => {
            assert(spec_parse_package_code("failed"@) == Some(c));
        },
        MockPackageCode::Broken => {
            assert(spec_parse_package_code("broken"@) == Some(c));
        },
        MockPackageCode::Disabled => {
            assert(spec_parse_package_code("disabled"@) == Some(c));
        },
        MockPackageCode::Excluded => {
            assert(spec_parse_package_code("excluded"@) == Some(c));
        },
        MockPackageCode::Blocked => {
            assert(spec_parse_package_code("blocked"@) == Some(c));
        },
        MockPackageCode::Locked => {
            assert(spec_parse_package_code("locked"@) == Some(c));
        },
        MockPackageCode::Unknown => {
            assert(spec_parse_package_code("unknown"@) == Some(c));
        },
        MockPackageCode::Scheduled => {
            assert(spec_parse_package_code("scheduled"@) == Some(c));
        },
        MockPackageCode::Building => {
            assert(spec_parse_package_code("building"@) == Some(c));
        },
        MockPackageCode::Finished => {
            assert(spec_parse_package_code("finished"@) == Some(c));
        },
    }
}

} // verus!
