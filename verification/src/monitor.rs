//! The client-side status monitor: it polls the result matrix, keeps one
//! observation per repository/architecture pair, never lets a transient
//! `Unknown` overwrite a known code, stops when every observed code is
//! final, and classifies the overall outcome.

use vstd::prelude::*;
use crate::assoc::str_eq;
use crate::codes::{spec_is_final, MockPackageCode};
use crate::handlers_build::PackageStatusView;

verus! {

/// One result of a poll: a repository/architecture pair, whether the result
/// is still being recomputed, and the package statuses it carries.
pub struct PollResult {
    pub repository: String,
    pub arch: String,
    pub dirty: bool,
    pub statuses: Vec<PackageStatusView>,
}

/// The monitor's stored observation of one repository/architecture pair.
#[derive(Debug)]
pub struct MonitorData {
    pub repository: String,
    pub arch: String,
    pub code: MockPackageCode,
}

impl Clone for MonitorData {
    fn clone(&self) -> (r: Self)
        ensures
            r == *self,
    {
        MonitorData {
            repository: self.repository.clone(),
            arch: self.arch.clone(),
            code: self.code,
        }
    }
}

impl View for MonitorData {
    type V = (Seq<char>, Seq<char>, MockPackageCode);

    open spec fn view(&self) -> (Seq<char>, Seq<char>, MockPackageCode) {
        (self.repository@, self.arch@, self.code)
    }
}

/// A transition the monitor reports: the pair, its new code, and whether the
/// pair was seen for the first time.
#[derive(Debug)]
pub struct MonitorEvent {
    pub repository: String,
    pub arch: String,
    pub code: MockPackageCode,
    pub first: bool,
}

impl View for MonitorEvent {
    type V = ((Seq<char>, Seq<char>, MockPackageCode), bool);

    open spec fn view(&self) -> ((Seq<char>, Seq<char>, MockPackageCode), bool) {
        ((self.repository@, self.arch@, self.code), self.first)
    }
}

/// The observations of a stored list, in order.
pub open spec fn obs_seq(s: Seq<MonitorData>) -> Seq<(Seq<char>, Seq<char>, MockPackageCode)> {
    Seq::new(s.len(), |i: int| s[i]@)
}

/// First-match status of a package within one poll result.
pub open spec fn spec_find_status(s: Seq<PackageStatusView>, k: Seq<char>) -> Option<
    PackageStatusView,
>
    decreases s.len(),
{
    if s.len() == 0 {
        None
    } else if s[0].package@ == k {
        Some(s[0])
    } else {
        spec_find_status(s.skip(1), k)
    }
}

/// What the monitor observes of one poll result: the pair and its code,
/// forced to `Unknown` while the result is dirty.
pub open spec fn spec_observed(r: PollResult, package: Seq<char>) -> (
    Seq<char>,
    Seq<char>,
    MockPackageCode,
) {
    (
        r.repository@,
        r.arch@,
        if r.dirty {
            MockPackageCode::Unknown
        } else {
            (spec_find_status(r.statuses@, package)->Some_0).code
        },
    )
}

/// First stored observation of a repository/architecture pair, if any.
pub open spec fn spec_obs_find(
    s: Seq<(Seq<char>, Seq<char>, MockPackageCode)>,
    repo: Seq<char>,
    arch: Seq<char>,
) -> Option<int>
    decreases s.len(),
{
    if s.len() == 0 {
        None
    } else if s[0].0 == repo && s[0].1 == arch {
        Some(0)
    } else {
        match spec_obs_find(s.skip(1), repo, arch) {
            Some(i) => Some(i + 1),
            None => None,
        }
    }
}

pub proof fn lemma_obs_find_at(
    s: Seq<(Seq<char>, Seq<char>, MockPackageCode)>,
    repo: Seq<char>,
    arch: Seq<char>,
    i: int,
)
    requires
        0 <= i < s.len(),
        s[i].0 == repo && s[i].1 == arch,
        forall|j: int| 0 <= j < i ==> !((#[trigger] s[j]).0 == repo && s[j].1 == arch),
    ensures
        spec_obs_find(s, repo, arch) == Some(i),
    decreases i,
{
    if i > 0 {
        assert(forall|j: int| 0 <= j < i - 1 ==> (#[trigger] s.skip(1)[j]) == s[j + 1]);
        assert(s.skip(1)[i - 1] == s[i]);
        lemma_obs_find_at(s.skip(1), repo, arch, i - 1);
    }
}

pub proof fn lemma_obs_find_none(
    s: Seq<(Seq<char>, Seq<char>, MockPackageCode)>,
    repo: Seq<char>,
    arch: Seq<char>,
)
    requires
        forall|j: int| 0 <= j < s.len() ==> !((#[trigger] s[j]).0 == repo && s[j].1 == arch),
    ensures
        spec_obs_find(s, repo, arch) is None,
    decreases s.len(),
{
    if s.len() > 0 {
        assert(forall|j: int| 0 <= j < s.len() - 1 ==> (#[trigger] s.skip(1)[j]) == s[j + 1]);
        lemma_obs_find_none(s.skip(1), repo, arch);
    }
}

/// One observation folded into the stored list: a new pair is recorded with
/// a first-seen event; a known pair changes, with an event, only to a
/// different code that is not `Unknown`.
pub open spec fn spec_step(
    last: Seq<(Seq<char>, Seq<char>, MockPackageCode)>,
    ob: (Seq<char>, Seq<char>, MockPackageCode),
) -> (
    Seq<(Seq<char>, Seq<char>, MockPackageCode)>,
    Option<((Seq<char>, Seq<char>, MockPackageCode), bool)>,
) {
    match spec_obs_find(last, ob.0, ob.1) {
        Some(i) => if ob.2 != MockPackageCode::Unknown && last[i].2 != ob.2 {
            (last.update(i, ob), Some((ob, false)))
        } else {
            (last, None)
        },
        None => (last.push(ob), Some((ob, true))),
    }
}

/// A whole poll folded into the stored list, result by result, collecting
/// the emitted events.
pub open spec fn spec_fold(
    last: Seq<(Seq<char>, Seq<char>, MockPackageCode)>,
    results: Seq<PollResult>,
    package: Seq<char>,
) -> (
    Seq<(Seq<char>, Seq<char>, MockPackageCode)>,
    Seq<((Seq<char>, Seq<char>, MockPackageCode), bool)>,
)
    decreases results.len(),
{
    if results.len() == 0 {
        (last, Seq::empty())
    } else {
        let stepped = spec_step(last, spec_observed(results[0], package));
        let rest = spec_fold(stepped.0, results.skip(1), package);
        (
            rest.0,
            match stepped.1 {
                Some(e) => seq![e] + rest.1,
                None => rest.1,
            },
        )
    }
}

/// Folding one more result at the end extends the fold by one step.
pub proof fn lemma_fold_snoc(
    last: Seq<(Seq<char>, Seq<char>, MockPackageCode)>,
    results: Seq<PollResult>,
    r: PollResult,
    package: Seq<char>,
)
    ensures
        ({
            let whole = spec_fold(last, results.push(r), package);
            let front = spec_fold(last, results, package);
            let stepped = spec_step(front.0, spec_observed(r, package));
            whole.0 == stepped.0 && whole.1 == front.1 + match stepped.1 {
                Some(e) => seq![e],
                None => Seq::empty(),
            }
        }),
    decreases results.len(),
{
    if results.len() == 0 {
        assert(results.push(r)[0] == r);
        assert(results.push(r).skip(1) =~= Seq::<PollResult>::empty());
        let stepped = spec_step(last, spec_observed(r, package));
        assert(spec_fold(stepped.0, Seq::empty(), package).0 == stepped.0);
        match stepped.1 {
            Some(e) => {
                assert(spec_fold(last, results.push(r), package).1 =~= seq![e]);
                assert(spec_fold(last, results, package).1 + seq![e] =~= seq![e]);
            },
            None => {
                assert(spec_fold(last, results, package).1 + Seq::<(
                    (Seq<char>, Seq<char>, MockPackageCode),
                    bool,
                )>::empty() =~= spec_fold(last, results.push(r), package).1);
            },
        }
    } else {
        assert(results.push(r)[0] == results[0]);
        assert(results.push(r).skip(1) =~= results.skip(1).push(r));
        let stepped0 = spec_step(last, spec_observed(results[0], package));
        lemma_fold_snoc(stepped0.0, results.skip(1), r, package);
        let front = spec_fold(last, results, package);
        let frontrest = spec_fold(stepped0.0, results.skip(1), package);
        let stepped = spec_step(front.0, spec_observed(r, package));
        match stepped0.1 {
            Some(e0) => {
                assert(front.1 == seq![e0] + frontrest.1);
                match stepped.1 {
                    Some(e) => {
                        assert(seq![e0] + (frontrest.1 + seq![e]) =~= (seq![e0] + frontrest.1)
                            + seq![e]);
                    },
                    None => {
                        assert(front.1 + Seq::<(
                            (Seq<char>, Seq<char>, MockPackageCode),
                            bool,
                        )>::empty() =~= front.1);
                        assert(frontrest.1 + Seq::<(
                            (Seq<char>, Seq<char>, MockPackageCode),
                            bool,
                        )>::empty() =~= frontrest.1);
                    },
                }
            },
            None => {
                match stepped.1 {
                    Some(e) => {
                    },
                    None => {
                        assert(front.1 + Seq::<(
                            (Seq<char>, Seq<char>, MockPackageCode),
                            bool,
                        )>::empty() =~= front.1);
                        assert(frontrest.1 + Seq::<(
                            (Seq<char>, Seq<char>, MockPackageCode),
                            bool,
                        )>::empty() =~= frontrest.1);
                    },
                }
            },
        }
    }
}

/// First status of the package in a poll result's status list, if any.
pub fn find_status(statuses: &Vec<PackageStatusView>, package: &str) -> (r: Option<usize>)
    ensures
        match r {
            Some(i) => i < statuses@.len() && statuses@[i as int].package@ == package@
                && forall|j: int|
                0 <= j < i ==> (#[trigger] statuses@[j]).package@ != package@,
            None => forall|j: int|
                0 <= j < statuses@.len() ==> (#[trigger] statuses@[j]).package@ != package@,
        },
        r is Some <==> spec_find_status(statuses@, package@) is Some,
        r is Some ==> spec_find_status(statuses@, package@) == Some(statuses@[r->Some_0 as int]),
{
    let mut i: usize = 0;
    while i < statuses.len()
        invariant
            i <= statuses@.len(),
            forall|j: int| 0 <= j < i ==> (#[trigger] statuses@[j]).package@ != package@,
        decreases statuses@.len() - i,
    {
        if str_eq(statuses[i].package.as_str(), package) {
            proof {
                lemma_find_status_at(statuses@, package@, i as int);
            }
            return Some(i);
        }
        i = i + 1;
    }
    proof {
        lemma_find_status_none(statuses@, package@);
    }
    None
}

pub proof fn lemma_find_status_at(s: Seq<PackageStatusView>, k: Seq<char>, i: int)
    requires
        0 <= i < s.len(),
        s[i].package@ == k,
        forall|j: int| 0 <= j < i ==> (#[trigger] s[j]).package@ != k,
    ensures
        spec_find_status(s, k) == Some(s[i]),
    decreases i,
{
    if i > 0 {
        assert(forall|j: int| 0 <= j < i - 1 ==> (#[trigger] s.skip(1)[j]) == s[j + 1]);
        assert(s.skip(1)[i - 1] == s[i]);
        lemma_find_status_at(s.skip(1), k, i - 1);
    }
}

pub proof fn lemma_find_status_none(s: Seq<PackageStatusView>, k: Seq<char>)
    requires
        forall|j: int| 0 <= j < s.len() ==> (#[trigger] s[j]).package@ != k,
    ensures
        spec_find_status(s, k) is None,
    decreases s.len(),
{
    if s.len() > 0 {
        assert(forall|j: int| 0 <= j < s.len() - 1 ==> (#[trigger] s.skip(1)[j]) == s[j + 1]);
        lemma_find_status_none(s.skip(1), k);
    }
}

impl MonitorData {
    /// The observation one poll result yields for the watched package: its
    /// code, or `Unknown` while the result is dirty.
    pub fn from_result(r: &PollResult, package: &str) -> (d: MonitorData)
        requires
            spec_find_status(r.statuses@, package@) is Some,
        ensures
            d@ == spec_observed(*r, package@),
    {
        let si = find_status(&r.statuses, package);
        let code = match si {
            Some(i) => {
                if r.dirty {
                    MockPackageCode::Unknown
                } else {
                    r.statuses[i].code
                }
            },
            None => {
                proof {
                    assert(false);
                }
                MockPackageCode::Unknown
            },
        };
        MonitorData { repository: r.repository.clone(), arch: r.arch.clone(), code }
    }
}

/// First stored observation with the given repository and architecture.
pub fn obs_index(last: &Vec<MonitorData>, repo: &str, arch: &str) -> (r: Option<usize>)
    ensures
        match r {
            Some(i) => i < last@.len() && last@[i as int].repository@ == repo@ && last@[
                i as int
            ].arch@ == arch@ && forall|j: int|
                0 <= j < i ==> !((#[trigger] last@[j]).repository@ == repo@ && last@[j].arch@
                    == arch@),
            None => forall|j: int|
                0 <= j < last@.len() ==> !((#[trigger] last@[j]).repository@ == repo@ && last@[
                    j
                ].arch@ == arch@),
        },
{
    let mut i: usize = 0;
    while i < last.len()
        invariant
            i <= last@.len(),
            forall|j: int|
                0 <= j < i ==> !((#[trigger] last@[j]).repository@ == repo@ && last@[j].arch@
                    == arch@),
        decreases last@.len() - i,
    {
        if str_eq(last[i].repository.as_str(), repo) && str_eq(last[i].arch.as_str(), arch) {
            return Some(i);
        }
        i = i + 1;
    }
    None
}

/// Folds one poll's results into the stored observations and reports the
/// transitions, exactly as `spec_fold` describes.
pub fn monitor_step(last: &mut Vec<MonitorData>, results: &Vec<PollResult>, package: &str) -> (events:
    Vec<MonitorEvent>)
    requires
        forall|i: int|
            0 <= i < results@.len() ==> spec_find_status(
                (#[trigger] results@[i]).statuses@,
                package@,
            ) is Some,
    ensures
        ({
            let folded = spec_fold(obs_seq(old(last)@), results@, package@);
            obs_seq(final(last)@) == folded.0 && events@.map_values(|e: MonitorEvent| e@)
                == folded.1
        }),
{
    let mut events: Vec<MonitorEvent> = Vec::new();
    let mut ri: usize = 0;
    proof {
        assert(results@.take(0) =~= Seq::<PollResult>::empty());
        assert(obs_seq(last@) == spec_fold(obs_seq(old(last)@), results@.take(0), package@).0);
        assert(events@.map_values(|e: MonitorEvent| e@) =~= spec_fold(
            obs_seq(old(last)@),
            results@.take(0),
            package@,
        ).1);
    }
    while ri < results.len()
        invariant
            ri <= results@.len(),
            forall|i: int|
                0 <= i < results@.len() ==> spec_find_status(
                    (#[trigger] results@[i]).statuses@,
                    package@,
                ) is Some,
            obs_seq(last@) == spec_fold(obs_seq(old(last)@), results@.take(ri as int), package@).0,
            events@.map_values(|e: MonitorEvent| e@) == spec_fold(
                obs_seq(old(last)@),
                results@.take(ri as int),
                package@,
            ).1,
        decreases results@.len() - ri,
    {
        let ghost pre_obs = obs_seq(last@);
        let r = &results[ri];
        let data = MonitorData::from_result(r, package);
        let ghost ob = spec_observed(results@[ri as int], package@);
        proof {
            assert(data@ == ob);
        }

        let found = obs_index(last, data.repository.as_str(), data.arch.as_str());
        proof {
            match found {
                Some(f) => {
                    assert(obs_seq(last@)[f as int].0 == ob.0 && obs_seq(last@)[f as int].1
                        == ob.1);
                    assert(forall|j: int|
                        0 <= j < f ==> !((#[trigger] obs_seq(last@)[j]).0 == ob.0 && obs_seq(
                            last@,
                        )[j].1 == ob.1));
                    lemma_obs_find_at(obs_seq(last@), ob.0, ob.1, f as int);
                },
                None => {
                    assert(forall|j: int|
                        0 <= j < obs_seq(last@).len() ==> !((#[trigger] obs_seq(last@)[j]).0
                            == ob.0 && obs_seq(last@)[j].1 == ob.1));
                    lemma_obs_find_none(obs_seq(last@), ob.0, ob.1);
                },
            }
        }
        match found {
            Some(f) => {
                let changed = match data.code {
                    MockPackageCode::Unknown => false,
                    _ => {
                        let old_code = last[f].code;
                        !codes_equal(old_code, data.code)
                    },
                };
                if changed {
                    events.push(
                        MonitorEvent {
                            repository: data.repository.clone(),
                            arch: data.arch.clone(),
                            code: data.code,
                            first: false,
                        },
                    );
                    let _old = last.remove(f);
                    last.insert(f, data);
                    proof {
                        assert(last@ =~= old(last)@.subrange(0, 0) + last@);
                        assert(obs_seq(last@) =~= pre_obs.update(f as int, ob));
                    }
                } else {
                    proof {
                        assert(obs_seq(last@) =~= pre_obs);
                    }
                }
            },
            None => {
                events.push(
                    MonitorEvent {
                        repository: data.repository.clone(),
                        arch: data.arch.clone(),
                        code: data.code,
                        first: true,
                    },
                );
                last.push(data);
                proof {
                    assert(obs_seq(last@) =~= pre_obs.push(ob));
                }
            },
        }
        proof {
            lemma_fold_snoc(
                obs_seq(old(last)@),
                results@.take(ri as int),
                results@[ri as int],
                package@,
            );
            assert(results@.take(ri as int).push(results@[ri as int]) =~= results@.take(
                ri + 1,
            ));
            assert(events@.map_values(|e: MonitorEvent| e@) =~= spec_fold(
                obs_seq(old(last)@),
                results@.take(ri + 1),
                package@,
            ).1);
        }
        ri = ri + 1;
    }
    proof {
        assert(results@.take(results@.len() as int) =~= results@);
    }
    events
}

/// Structural comparison of two package codes.
pub fn codes_equal(a: MockPackageCode, b: MockPackageCode) -> (r: bool)
    ensures
        r == (a == b),
{
    a == b
}

/// Whether every stored observation carries a final code; vacuously true of
/// an empty list.
pub open spec fn spec_all_final(s: Seq<(Seq<char>, Seq<char>, MockPackageCode)>) -> bool {
    forall|i: int| 0 <= i < s.len() ==> spec_is_final((#[trigger] s[i]).2)
}

/// Whether the monitor may stop: every stored observation is final.
pub fn all_final(last: &Vec<MonitorData>) -> (r: bool)
    ensures
        r == spec_all_final(obs_seq(last@)),
{
    let mut i: usize = 0;
    while i < last.len()
        invariant
            i <= last@.len(),
            forall|j: int| 0 <= j < i ==> spec_is_final((#[trigger] obs_seq(last@)[j]).2),
        decreases last@.len() - i,
    {
        if !last[i].code.is_final() {
            proof {
                assert(!spec_is_final(obs_seq(last@)[i as int].2));
            }
            return false;
        }
        i = i + 1;
    }
    true
}

/// How a finished monitoring run classifies.
#[derive(Copy, Clone, Debug, PartialEq, Eq, Structural)]
pub enum MonitorOutcome {
    /// Every pair ended excluded or disabled; nothing was built.
    ExcludedDisabled,
    /// Some pair ended failed.
    BuildFailed,
    /// Everything that was built succeeded.
    Succeeded,
}

/// The classification of a stored observation list: all pairs excluded or
/// disabled count as the distinct excluded outcome, any failed pair as a
/// build failure, anything else as success.
pub open spec fn spec_outcome(s: Seq<(Seq<char>, Seq<char>, MockPackageCode)>) -> MonitorOutcome {
    if forall|i: int|
        0 <= i < s.len() ==> ((#[trigger] s[i]).2 == MockPackageCode::Excluded || s[i].2
            == MockPackageCode::Disabled) {
        MonitorOutcome::ExcludedDisabled
    } else if exists|i: int| 0 <= i < s.len() && (#[trigger] s[i]).2 == MockPackageCode::Failed {
        MonitorOutcome::BuildFailed
    } else {
        MonitorOutcome::Succeeded
    }
}

/// Classifies the stored observations once polling has stopped.
pub fn monitor_outcome(last: &Vec<MonitorData>) -> (r: MonitorOutcome)
    ensures
        r == spec_outcome(obs_seq(last@)),
{
    let mut all_excluded = true;
    let mut any_failed = false;
    let mut i: usize = 0;
    while i < last.len()
        invariant
            i <= last@.len(),
            all_excluded == forall|j: int|
                0 <= j < i ==> ((#[trigger] obs_seq(last@)[j]).2 == MockPackageCode::Excluded
                    || obs_seq(last@)[j].2 == MockPackageCode::Disabled),
            any_failed == exists|j: int|
                0 <= j < i && (#[trigger] obs_seq(last@)[j]).2 == MockPackageCode::Failed,
        decreases last@.len() - i,
    {
        let c = last[i].code;
        let is_excl = match c {
            MockPackageCode::Excluded => true,
            MockPackageCode::Disabled => true,
            _ => false,
        };
        let is_failed = match c {
            MockPackageCode::Failed => true,
            _ => false,
        };
        proof {
            assert(obs_seq(last@)[i as int].2 == c);
        }
        all_excluded = all_excluded && is_excl;
        any_failed = any_failed || is_failed;
        i = i + 1;
    }
    if all_excluded {
        MonitorOutcome::ExcludedDisabled
    } else if any_failed {
        MonitorOutcome::BuildFailed
    } else {
        MonitorOutcome::Succeeded
    }
}

/// The stored observations after the first `n` polls of a fixed sequence.
pub open spec fn spec_monitor_state(
    polls: Seq<Vec<PollResult>>,
    package: Seq<char>,
    n: int,
) -> Seq<(Seq<char>, Seq<char>, MockPackageCode)>
    decreases n,
{
    if n <= 0 {
        Seq::empty()
    } else {
        spec_fold(spec_monitor_state(polls, package, n - 1), polls[n - 1]@, package).0
    }
}

/// Runs the monitor over a fixed sequence of poll responses: polls are
/// consumed in order until every stored code is final, and the outcome is
/// classified then; the sequence may run out first.
pub fn run_monitor(polls: &Vec<Vec<PollResult>>, package: &str) -> (r: Option<(
    MonitorOutcome,
    usize,
)>)
    requires
        forall|p: int, i: int|
            0 <= p < polls@.len() && 0 <= i < polls@[p]@.len() ==> spec_find_status(
                (#[trigger] polls@[p]@[i]).statuses@,
                package@,
            ) is Some,
    ensures
        match r {
            Some((o, n)) => {
                &&& 1 <= n <= polls@.len()
                &&& spec_all_final(spec_monitor_state(polls@, package@, n as int))
                &&& (forall|m: int|
                    1 <= m < n ==> !spec_all_final(
                        spec_monitor_state(polls@, package@, m),
                    ))
                &&& o == spec_outcome(spec_monitor_state(polls@, package@, n as int))
            },
            None => forall|m: int|
                1 <= m <= polls@.len() ==> !spec_all_final(
                    spec_monitor_state(polls@, package@, m),
                ),
        },
{
    let mut last: Vec<MonitorData> = Vec::new();
    let mut n: usize = 0;
    proof {
        assert(obs_seq(last@) =~= spec_monitor_state(polls@, package@, 0));
    }
    while n < polls.len()
        invariant
            n <= polls@.len(),
            forall|p: int, i: int|
                0 <= p < polls@.len() && 0 <= i < polls@[p]@.len() ==> spec_find_status(
                    (#[trigger] polls@[p]@[i]).statuses@,
                    package@,
                ) is Some,
            obs_seq(last@) == spec_monitor_state(polls@, package@, n as int),
            forall|m: int|
                1 <= m <= n ==> !spec_all_final(spec_monitor_state(polls@, package@, m)),
        decreases polls@.len() - n,
    {
        let _events = monitor_step(&mut last, &polls[n], package);
        n = n + 1;
        proof {
            assert(obs_seq(last@) == spec_monitor_state(polls@, package@, n as int));
        }
        if all_final(&last) {
            let o = monitor_outcome(&last);
            return Some((o, n));
        }
    }
    None
}

} // verus!
