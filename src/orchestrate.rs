use vstd::prelude::*;
use vstd::string::*;

use crate::packages::Packages;

verus! {

/// Why a run stops before its first build.
#[derive(Debug)]
pub enum RunError {
    /// Both the release shorthand and an explicit profile were given.
    ConfigConflict,
    /// An excluded name is not among the resolved dependencies (any more).
    UnknownExclusion(String),
    /// No dependency is left to build.
    NoDependencies,
}

/// The profile a run builds with: `release` for the release shorthand, the
/// named profile where one is given, and `dev` where neither is.
pub open spec fn profile_spec(release: bool, profile: Option<Seq<char>>) -> Seq<char> {
    match profile {
        Some(p) => p,
        None => if release {
            "release"@
        } else {
            "dev"@
        },
    }
}

/// The arguments of the build tool for one dependency: build the package
/// `name@version` with `profile`, for the target triple `triple` where one is given.
pub open spec fn invocation_args(
    name: Seq<char>,
    version: Seq<char>,
    profile: Seq<char>,
    triple: Seq<char>,
) -> Seq<Seq<char>> {
    let base = seq!["build"@, "-p"@, name + "@"@ + version, "--profile"@, profile];
    if triple.len() == 0 {
        base
    } else {
        base.push("--target="@ + triple)
    }
}

/// The mapping left after taking out each of `excluded` in turn, or the first
/// of them that is not in the mapping at its turn.
pub open spec fn exclude(
    m: Map<Seq<char>, Seq<char>>,
    excluded: Seq<Seq<char>>,
) -> Result<Map<Seq<char>, Seq<char>>, Seq<char>>
    decreases excluded.len(),
{
    if excluded.len() == 0 {
        Ok(m)
    } else if m.contains_key(excluded[0]) {
        exclude(m.remove(excluded[0]), excluded.drop_first())
    } else {
        Err(excluded[0])
    }
}

/// The strings of `v`, as sequences of characters.
pub open spec fn views(v: Seq<String>) -> Seq<Seq<char>> {
    v.map_values(|s: String| s@)
}

/// Settles the profile from the release shorthand and an explicit profile name,
/// which exclude each other.
pub fn effective_profile(release: bool, profile: Option<String>) -> (r: Result<String, RunError>)
    ensures
        match r {
            Ok(p) => !(release && profile is Some) && p@ == profile_spec(
                release,
                match profile {
                    Some(s) => Some(s@),
                    None => None,
                },
            ),
            Err(e) => release && profile is Some && e is ConfigConflict,
        },
{
    match profile {
        Some(p) => if release {
            Err(RunError::ConfigConflict)
        } else {
            Ok(p)
        },
        None => if release {
            Ok(String::from_str("release"))
        } else {
            Ok(String::from_str("dev"))
        },
    }
}

/// The arguments of the build tool for the package `name` at `version`.
pub fn build_args(name: &String, version: &String, profile: &String, triple: &String) -> (r: Vec<String>)
    ensures
        views(r@) == invocation_args(name@, version@, profile@, triple@),
{
    let mut r: Vec<String> = Vec::new();
    r.push(String::from_str("build"));
    r.push(String::from_str("-p"));
    r.push(name.clone().concat("@").concat(version.as_str()));
    r.push(String::from_str("--profile"));
    r.push(profile.clone());
    if !triple.as_str().is_empty() {
        r.push(String::from_str("--target=").concat(triple.as_str()));
    }
    assert(views(r@) =~= invocation_args(name@, version@, profile@, triple@));
    r
}

/// Takes each of `excluded` out of `packages`, failing at the first name that
/// is not there.
pub fn apply_exclusions(packages: &mut Packages, excluded: &Vec<String>) -> (r: Result<(), RunError>)
    requires
        old(packages).wf(),
    ensures
        final(packages).wf(),
        match exclude(old(packages)@, views(excluded@)) {
            Ok(m) => r is Ok && final(packages)@ == m,
            Err(x) => match r {
                Err(RunError::UnknownExclusion(s)) => s@ == x,
                _ => false,
            },
        },
{
    let mut i: usize = 0;
    assert(views(excluded@).subrange(0, excluded@.len() as int) =~= views(excluded@));
    while i < excluded.len()
        invariant
            packages.wf(),
            i <= excluded@.len(),
            exclude(old(packages)@, views(excluded@)) == exclude(
                packages@,
                views(excluded@).subrange(i as int, excluded@.len() as int),
            ),
        decreases excluded@.len() - i,
    {
        let ghost rest = views(excluded@).subrange(i as int, excluded@.len() as int);
        assert(rest.drop_first() =~= views(excluded@).subrange(i + 1, excluded@.len() as int));
        assert(rest[0] == excluded@[i as int]@);
        match packages.remove(&excluded[i]) {
            Some(_) => {},
            None => {
                return Err(RunError::UnknownExclusion(excluded[i].clone()));
            },
        }
        i = i + 1;
    }
    assert(views(excluded@).subrange(i as int, excluded@.len() as int) =~= Seq::<Seq<char>>::empty());
    Ok(())
}

} // verus!

verus! {

/// How one build invocation ended.
#[derive(Clone, Copy, PartialEq, Eq, Structural, Debug)]
pub enum Outcome {
    Success,
    /// The build tool exited with this nonzero status code.
    Exited(i32),
    /// The build tool was terminated by a signal.
    Signaled,
    /// The build tool could not be started.
    SpawnFailed,
}

impl Outcome {
    /// Classifies an exit status: whether it reports success, and its code if it has one.
    pub fn classify(success: bool, code: Option<i32>) -> (r: Outcome)
        ensures
            success ==> r is Success,
            !success ==> match code {
                Some(c) => r == Outcome::Exited(c),
                None => r is Signaled,
            },
    {
        if success {
            Outcome::Success
        } else {
            match code {
                Some(c) => Outcome::Exited(c),
                None => Outcome::Signaled,
            }
        }
    }
}

/// What the build loop does next.
#[derive(Debug)]
pub enum Step {
    /// Run the build tool with these arguments.
    Build(Vec<String>),
    /// Stop; the run succeeded if the flag is set.
    Finish(bool),
}

/// What a recorded outcome asks of the caller.
#[derive(Clone, Copy, PartialEq, Eq, Structural, Debug)]
pub enum Verdict {
    Succeeded,
    /// The build failed; report it and go on.
    Tolerated,
    /// The build failed; the run stops here.
    Aborted,
}

/// The last outcome in `outcomes` that is not a success.
pub open spec fn last_failure_of(outcomes: Seq<Outcome>) -> Option<Outcome>
    decreases outcomes.len(),
{
    if outcomes.len() == 0 {
        None
    } else if outcomes.last() is Success {
        last_failure_of(outcomes.drop_last())
    } else {
        Some(outcomes.last())
    }
}

pub open spec fn all_succeeded(outcomes: Seq<Outcome>) -> bool {
    forall|i: int| 0 <= i < outcomes.len() ==> #[trigger] outcomes[i] is Success
}

/// `targets` lists the mapping `m`: each of its names once, with its version.
pub open spec fn lists(targets: Seq<(Seq<char>, Seq<char>)>, m: Map<Seq<char>, Seq<char>>) -> bool {
    &&& forall|i: int, j: int| 0 <= i < j < targets.len() ==> targets[i].0 != targets[j].0
    &&& forall|n: Seq<char>|
        m.contains_key(n) <==> exists|i: int| 0 <= i < targets.len() && #[trigger] targets[i].0 == n
    &&& forall|i: int| 0 <= i < targets.len() ==> m[#[trigger] targets[i].0] == targets[i].1
}

proof fn lemma_no_failure(outcomes: Seq<Outcome>)
    ensures
        last_failure_of(outcomes) is None <==> all_succeeded(outcomes),
    decreases outcomes.len(),
{
    if outcomes.len() > 0 {
        lemma_no_failure(outcomes.drop_last());
        if all_succeeded(outcomes) {
            assert(outcomes.last() is Success);
        }
        if last_failure_of(outcomes) is None {
            assert forall|i: int| 0 <= i < outcomes.len() implies #[trigger] outcomes[i] is Success by {
                if i < outcomes.len() - 1 {
                    assert(outcomes.drop_last()[i] == outcomes[i]);
                }
            }
        }
    }
}

/// What a run is configured with, fixed for its whole length.
pub struct RunConfig {
    pub profile: String,
    /// The target triple to build for; empty for the host's.
    pub target: String,
    pub ignore_errors: bool,
    pub excluded: Vec<String>,
}

impl RunConfig {
    /// The configuration given by the command line's flags: the release
    /// shorthand and an explicit profile exclude each other.
    pub fn new(
        release: bool,
        profile: Option<String>,
        target: Option<String>,
        ignore_errors: bool,
        excluded: Vec<String>,
    ) -> (r: Result<RunConfig, RunError>)
        ensures
            match r {
                Ok(c) => {
                    &&& !(release && profile is Some)
                    &&& c.profile@ == profile_spec(
                        release,
                        match profile {
                            Some(s) => Some(s@),
                            None => None,
                        },
                    )
                    &&& c.target@ == match target {
                        Some(t) => t@,
                        None => Seq::empty(),
                    }
                    &&& c.ignore_errors == ignore_errors
                    &&& c.excluded@ == excluded@
                },
                Err(e) => release && profile is Some && e is ConfigConflict,
            },
    {
        let profile = match effective_profile(release, profile) {
            Ok(p) => p,
            Err(e) => {
                return Err(e);
            },
        };
        let target = match target {
            Some(t) => t,
            None => String::new(),
        };
        Ok(RunConfig { profile, target, ignore_errors, excluded })
    }
}

/// A run of builds, one per resolved dependency, in a fixed order.
pub struct BuildRun {
    targets: Vec<(String, String)>,
    profile: String,
    triple: String,
    ignore_errors: bool,
    attempted: usize,
    last_failure: Option<Outcome>,
    outcomes: Ghost<Seq<Outcome>>,
}

impl BuildRun {
    /// The dependencies to build, in the order of the run.
    pub closed spec fn targets(&self) -> Seq<(Seq<char>, Seq<char>)> {
        self.targets@.map_values(|t: (String, String)| (t.0@, t.1@))
    }

    /// The outcomes of the builds attempted so far.
    pub closed spec fn outcomes(&self) -> Seq<Outcome> {
        self.outcomes@
    }

    pub closed spec fn profile(&self) -> Seq<char> {
        self.profile@
    }

    pub closed spec fn triple(&self) -> Seq<char> {
        self.triple@
    }

    pub closed spec fn tolerant(&self) -> bool {
        self.ignore_errors
    }

    pub closed spec fn wf(&self) -> bool {
        &&& self.attempted == self.outcomes@.len()
        &&& self.outcomes@.len() <= self.targets@.len()
        &&& self.last_failure == last_failure_of(self.outcomes@)
        &&& !self.ignore_errors ==> forall|i: int|
            0 <= i < self.outcomes@.len() - 1 ==> #[trigger] self.outcomes@[i] is Success
    }

    /// No build is left to run: each was attempted, or one failed and failures
    /// are not tolerated.
    pub open spec fn halted(&self) -> bool {
        ||| self.outcomes().len() == self.targets().len()
        ||| (!self.tolerant() && !all_succeeded(self.outcomes()))
    }

    /// Starts a run over `packages`, less the configuration's exclusions.
    pub fn start(config: RunConfig, packages: Packages) -> (r: Result<BuildRun, RunError>)
        requires
            packages.wf(),
        ensures
            match exclude(packages@, views(config.excluded@)) {
                Err(x) => match r {
                    Err(RunError::UnknownExclusion(s)) => s@ == x,
                    _ => false,
                },
                Ok(m) => if m == Map::<Seq<char>, Seq<char>>::empty() {
                    r matches Err(RunError::NoDependencies)
                } else {
                    match r {
                        Ok(run) => {
                            &&& run.wf()
                            &&& lists(run.targets(), m)
                            &&& run.outcomes() == Seq::<Outcome>::empty()
                            &&& run.profile() == config.profile@
                            &&& run.triple() == config.target@
                            &&& run.tolerant() == config.ignore_errors
                        },
                        Err(_) => false,
                    }
                },
            },
    {
        let mut packages = packages;
        match apply_exclusions(&mut packages, &config.excluded) {
            Ok(()) => {},
            Err(e) => {
                return Err(e);
            },
        }
        if packages.is_empty() {
            return Err(RunError::NoDependencies);
        }
        let targets = packages.to_vec();
        let run = BuildRun {
            targets,
            profile: config.profile,
            triple: config.target,
            ignore_errors: config.ignore_errors,
            attempted: 0,
            last_failure: None,
            outcomes: Ghost(Seq::empty()),
        };
        assert forall|n: Seq<char>|
            packages@.contains_key(n) <==> exists|i: int|
                0 <= i < run.targets().len() && #[trigger] run.targets()[i].0 == n by {
            if packages@.contains_key(n) {
                let i = choose|i: int| 0 <= i < run.targets@.len() && #[trigger] run.targets@[i].0@ == n;
                assert(run.targets()[i].0 == n);
            }
            if exists|i: int| 0 <= i < run.targets().len() && #[trigger] run.targets()[i].0 == n {
                let i = choose|i: int| 0 <= i < run.targets().len() && #[trigger] run.targets()[i].0 == n;
                assert(run.targets@[i].0@ == n);
            }
        }
        assert forall|i: int| 0 <= i < run.targets().len() implies packages@[#[trigger] run.targets()[i].0]
            == run.targets()[i].1 by {
            assert(run.targets()[i].0 == run.targets@[i].0@);
        }
        Ok(run)
    }

    /// What to do next: build the next dependency, or finish, reporting
    /// success exactly when every attempted build succeeded.
    pub fn next_step(&self) -> (r: Step)
        requires
            self.wf(),
        ensures
            !self.halted() ==> match r {
                Step::Build(args) => {
                    let t = self.targets()[self.outcomes().len() as int];
                    views(args@) == invocation_args(t.0, t.1, self.profile(), self.triple())
                },
                Step::Finish(_) => false,
            },
            self.halted() ==> match r {
                Step::Finish(success) => success == all_succeeded(self.outcomes()),
                Step::Build(_) => false,
            },
    {
        proof {
            lemma_no_failure(self.outcomes@);
        }
        if self.attempted == self.targets.len() || (!self.ignore_errors && self.last_failure.is_some()) {
            Step::Finish(self.last_failure.is_none())
        } else {
            let t = &self.targets[self.attempted];
            Step::Build(build_args(&t.0, &t.1, &self.profile, &self.triple))
        }
    }

    /// Records how the build that `next_step` asked for ended.
    pub fn record(&mut self, outcome: Outcome) -> (r: Verdict)
        requires
            old(self).wf(),
            !old(self).halted(),
        ensures
            final(self).wf(),
            final(self).outcomes() == old(self).outcomes().push(outcome),
            final(self).targets() == old(self).targets(),
            final(self).profile() == old(self).profile(),
            final(self).triple() == old(self).triple(),
            final(self).tolerant() == old(self).tolerant(),
            r == if outcome is Success {
                Verdict::Succeeded
            } else if old(self).tolerant() {
                Verdict::Tolerated
            } else {
                Verdict::Aborted
            },
    {
        proof {
            lemma_no_failure(self.outcomes@);
        }
        let ghost before = self.outcomes@;
        let n: usize = self.targets.len();
        assert(self.targets().len() == n);
        self.outcomes = Ghost(self.outcomes@.push(outcome));
        self.attempted = self.attempted + 1;
        assert(self.outcomes@.drop_last() =~= before);
        match outcome {
            Outcome::Success => Verdict::Succeeded,
            _ => {
                self.last_failure = Some(outcome);
                if self.ignore_errors {
                    Verdict::Tolerated
                } else {
                    Verdict::Aborted
                }
            },
        }
    }

    /// The last failing outcome so far, if any build failed.
    pub fn last_failure(&self) -> (r: Option<Outcome>)
        requires
            self.wf(),
        ensures
            r == last_failure_of(self.outcomes()),
    {
        self.last_failure
    }

    /// The number of builds attempted so far.
    pub fn attempted(&self) -> (r: usize)
        requires
            self.wf(),
        ensures
            r == self.outcomes().len(),
    {
        self.attempted
    }
}

/// Exclusion takes out exactly the named entries: where it succeeds, what is
/// left is the mapping less those names, each of which it held; where a name
/// is not in the mapping, it fails, and a failure names one of the excluded.
pub proof fn exclusion_removes_exactly(m: Map<Seq<char>, Seq<char>>, excluded: Seq<Seq<char>>)
    ensures
        exclude(m, excluded) is Ok ==> exclude(m, excluded)->Ok_0 == m.remove_keys(excluded.to_set())
            && excluded.to_set().subset_of(m.dom()),
        (exists|i: int| 0 <= i < excluded.len() && !m.contains_key(#[trigger] excluded[i])) ==> exclude(
            m,
            excluded,
        ) is Err,
        exclude(m, excluded) is Err ==> excluded.contains(exclude(m, excluded)->Err_0),
    decreases excluded.len(),
{
    if excluded.len() > 0 {
        let x = excluded[0];
        let rest = excluded.drop_first();
        assert(excluded.to_set() =~= rest.to_set().insert(x)) by {
            assert forall|a: Seq<char>| excluded.contains(a) implies #[trigger] rest.contains(a) || a == x by {
                let i = choose|i: int| 0 <= i < excluded.len() && excluded[i] == a;
                if i > 0 {
                    assert(rest[i - 1] == a);
                }
            }
            assert forall|a: Seq<char>| rest.contains(a) implies #[trigger] excluded.contains(a) by {
                let i = choose|i: int| 0 <= i < rest.len() && rest[i] == a;
                assert(excluded[i + 1] == a);
            }
            assert(excluded.contains(x)) by {
                assert(excluded[0] == x);
            }
        }
        if m.contains_key(x) {
            exclusion_removes_exactly(m.remove(x), rest);
            if exclude(m, excluded) is Ok {
                assert(m.remove(x).remove_keys(rest.to_set()) =~= m.remove_keys(excluded.to_set()));
            }
            if exists|i: int| 0 <= i < excluded.len() && !m.contains_key(#[trigger] excluded[i]) {
                let i = choose|i: int| 0 <= i < excluded.len() && !m.contains_key(#[trigger] excluded[i]);
                assert(i != 0);
                assert(!m.remove(x).contains_key(rest[i - 1]));
            }
            if exclude(m, excluded) is Err {
                let y = exclude(m, excluded)->Err_0;
                assert(rest.contains(y));
                let j = choose|j: int| 0 <= j < rest.len() && rest[j] == y;
                assert(excluded[j + 1] == y);
            }
        } else {
            assert(excluded[0] == x);
        }
    }
}

/// A halted run attempted every build, or stopped at its first failure with
/// failures not tolerated: a tolerant run attempts every build, and an
/// intolerant one attempts none after a failure.
pub proof fn halted_run(run: &BuildRun)
    requires
        run.wf(),
        run.halted(),
    ensures
        run.tolerant() ==> run.outcomes().len() == run.targets().len(),
        !run.tolerant() && !all_succeeded(run.outcomes()) ==> {
            &&& !(run.outcomes().last() is Success)
            &&& forall|i: int| 0 <= i < run.outcomes().len() - 1 ==> #[trigger] run.outcomes()[i] is Success
        },
{
    if !run.tolerant() && !all_succeeded(run.outcomes()) {
        let os = run.outcomes();
        let k = choose|k: int| 0 <= k < os.len() && !(#[trigger] os[k] is Success);
        assert(k == os.len() - 1);
    }
}

} // verus!
