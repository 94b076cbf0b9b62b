//! Classification of finished tasks by what they left behind.
use vstd::prelude::*;

use crate::event_log::TaskExitReason;
use crate::seqs;
use crate::text;

verus! {

/// Outcome class of a task.
#[derive(Debug, Clone, Copy, PartialEq, Eq, Structural)]
pub enum Outcome {
    /// Done, the claimed files are in the diff, CI is green.
    CleanSuccess,
    /// Done, CI fails on formatting only.
    CosmeticFailure,
    /// Done, CI fails on tests or lints.
    BugInOutput,
    /// Done, the commit message claims files that are not in the diff.
    HollowCommit,
    /// Done, a claimed pull request does not exist.
    LyingState,
    /// Done, nothing was changed.
    NarrativeNoAction,
    /// The budget was used up.
    BudgetHalted,
    /// The task ended with an error.
    ErrorExit,
    /// The watchdog tripped.
    Timeout,
    /// A human stopped the task.
    OperatorIntervention,
    /// No rule applied.
    Unclassified,
}

/// Strength of a classification.
#[derive(Debug, Clone, Copy, PartialEq, Eq, Structural)]
pub enum Confidence {
    /// The rule is unambiguous.
    Definite,
    /// The rule rests on heuristics.
    Probable,
    /// No rule applied.
    Inferred,
}

/// Result of classifying a task.
#[derive(Debug, Clone, PartialEq, Eq)]
pub struct Classification {
    pub outcome: Outcome,
    pub confidence: Confidence,
    /// One line that says why.
    pub rationale: String,
}

/// What [`classify_task`] reads.
#[derive(Debug, Clone, Copy)]
pub struct ClassificationInputs<'a> {
    pub telemetry: &'a TaskTelemetrySnapshot,
    /// The commit, if there is one.
    pub commit: Option<&'a CommitInfo>,
    /// State of pull request and CI, if it is known.
    pub pr: Option<&'a PrInfo>,
}

/// The telemetry of a task, as far as classification reads it.
#[derive(Debug, Clone, PartialEq, Eq)]
pub struct TaskTelemetrySnapshot {
    pub task_id: String,
    pub session_id: String,
    pub exit_reason: TaskExitReason,
}

#[derive(Debug, Clone, PartialEq, Eq)]
pub struct CommitInfo {
    pub sha: String,
    pub message: String,
    /// The files that the commit changed.
    pub diff_files: Vec<String>,
}

#[derive(Debug, Clone, PartialEq, Eq)]
pub struct PrInfo {
    /// The claimed number.
    pub claimed_number: Option<u32>,
    /// Whether the claimed pull request exists; `None` if that was not checked.
    pub exists_on_origin: Option<bool>,
    /// CI status, if known.
    pub ci: Option<CiStatus>,
}

#[derive(Debug, Clone, Copy, PartialEq, Eq, Structural)]
pub struct CiStatus {
    pub fmt_pass: bool,
    pub clippy_pass: bool,
    pub test_pass: bool,
}

impl CiStatus {
    /// Whether every job passed.
    pub fn all_pass(&self) -> (r: bool)
        ensures
            r == (self.fmt_pass && self.clippy_pass && self.test_pass),
    {
        self.fmt_pass && self.clippy_pass && self.test_pass
    }

    /// Whether formatting failed and nothing else.
    pub fn fmt_only_fail(&self) -> (r: bool)
        ensures
            r == (!self.fmt_pass && self.clippy_pass && self.test_pass),
    {
        !self.fmt_pass && self.clippy_pass && self.test_pass
    }
}

/// The characters that separate the words of a commit message.
pub open spec fn separates(c: char) -> bool {
    text::is_white_space(c) || c == '`' || c == '"' || c == '\'' || c == '(' || c == ')' || c == '['
        || c == ']' || c == '{' || c == '}' || c == ',' || c == ';' || c == ':'
}

fn is_separator(c: char) -> (r: bool)
    ensures
        r == separates(c),
{
    text::white_space(c) || c == '`' || c == '"' || c == '\'' || c == '(' || c == ')' || c == '[' || c
        == ']' || c == '{' || c == '}' || c == ',' || c == ';' || c == ':'
}

/// The characters that may trail a path at the end of a clause.
pub open spec fn punctuates(c: char) -> bool {
    c == '.' || c == ',' || c == ';' || c == ':' || c == ')' || c == ']' || c == '}' || c == '!' || c
        == '?'
}

fn is_punctuation(c: char) -> (r: bool)
    ensures
        r == punctuates(c),
{
    c == '.' || c == ',' || c == ';' || c == ':' || c == ')' || c == ']' || c == '}' || c == '!' || c
        == '?'
}

/// Whether `s` looks like a path that a commit message claims to have touched: a fixed top-level
/// name, a source or test file of a crate, a document under `specs/`, or a script.
pub open spec fn is_claim(s: Seq<char>) -> bool {
    ||| s == "justfile"@
    ||| s == "README.md"@
    ||| s == "Cargo.toml"@
    ||| is_crate_file(s)
    ||| text::has_prefix(s, "specs/"@) && text::has_suffix(s, ".md"@)
    ||| text::has_prefix(s, "scripts/"@) && text::has_suffix(s, ".sh"@)
}

/// Whether `s` is `crates/<crate>/src/...rs` or `crates/<crate>/tests/...rs`.
pub open spec fn is_crate_file(s: Seq<char>) -> bool {
    text::has_prefix(s, "crates/"@) && text::has_suffix(s, ".rs"@) && match text::split_once_view(
        s.skip("crates/"@.len() as int),
        '/',
    ) {
        Some((_, inner)) => text::has_prefix(inner, "src/"@) || text::has_prefix(inner, "tests/"@),
        None => false,
    }
}

/// Decides [`is_claim`].
pub fn matches_any_claim_pattern(s: &str) -> (r: bool)
    ensures
        r == is_claim(s@),
{
    if text::same(s, "justfile") || text::same(s, "README.md") || text::same(s, "Cargo.toml") {
        return true;
    }
    if text::ends_with(s, ".rs") {
        if let Some(rest) = text::strip_prefix(s, "crates/") {
            if let Some((_, inner)) = text::split_once(rest, '/') {
                if text::starts_with(inner, "src/") || text::starts_with(inner, "tests/") {
                    return true;
                }
            }
        }
    }
    if text::starts_with(s, "specs/") && text::ends_with(s, ".md") {
        return true;
    }
    text::starts_with(s, "scripts/") && text::ends_with(s, ".sh")
}

/// The paths among `words`, without trailing punctuation, each at its first place only.
pub open spec fn claims_among(words: Seq<Seq<char>>) -> Seq<Seq<char>>
    decreases words.len(),
{
    if words.len() == 0 {
        Seq::empty()
    } else {
        let found = claims_among(words.drop_last());
        let path = text::strip_back(words.last(), |c: char| punctuates(c));
        if path.len() > 0 && is_claim(path) && !found.contains(path) {
            found.push(path)
        } else {
            found
        }
    }
}

/// The paths that a commit message claims to have touched, in order and without duplicates.
pub open spec fn claimed_files(message: Seq<char>) -> Seq<Seq<char>> {
    claims_among(text::pieces(message, |c: char| separates(c)))
}

/// The paths that a commit message claims to have touched, in order and without duplicates.
pub fn extract_claimed_files(message: &str) -> (r: Vec<String>)
    ensures
        r.deep_view() == claimed_files(message@),
{
    let words = text::split_where(
        message,
        is_separator,
        Ghost(|c: char| separates(c)),
    );
    let ghost all = words.deep_view();
    let mut found: Vec<String> = Vec::new();
    let mut i: usize = 0;
    proof {
        assert(found.deep_view() =~= Seq::empty());
    }
    while i < words.len()
        invariant
            i <= words@.len(),
            all == words.deep_view(),
            found.deep_view() == claims_among(all.take(i as int)),
        decreases words@.len() - i,
    {
        let path = text::trim_end_where(
            words[i],
            is_punctuation,
            Ghost(|c: char| punctuates(c)),
        );
        let ghost sofar = found.deep_view();
        proof {
            assert(all.take(i + 1).drop_last() =~= all.take(i as int));
            assert(all.take(i + 1).last() == words@[i as int]@);
        }
        if path.unicode_len() > 0 && matches_any_claim_pattern(path)
            && !crate::context::rope::contains_string(&found, path) {
            found.push(path.to_owned());
            proof {
                assert(found.deep_view() =~= sofar.push(path@));
            }
        }
        i += 1;
    }
    proof {
        assert(all.take(all.len() as int) =~= all);
    }
    found
}

/// The claimed files that are not in the diff, in order.
pub open spec fn missing_files(commit: &CommitInfo) -> Seq<Seq<char>> {
    claimed_files(commit.message@).filter(|f: Seq<char>| !commit.diff_files.deep_view().contains(f))
}

fn find_missing(commit: &CommitInfo) -> (r: Vec<String>)
    ensures
        r.deep_view() == missing_files(commit),
{
    let claimed = extract_claimed_files(&commit.message);
    let ghost all = claimed.deep_view();
    let ghost p = |f: Seq<char>| !commit.diff_files.deep_view().contains(f);
    let mut r: Vec<String> = Vec::new();
    let mut i: usize = 0;
    proof {
        seqs::lemma_filter_start(all, p);
        assert(r.deep_view() =~= Seq::empty());
    }
    while i < claimed.len()
        invariant
            i <= claimed@.len(),
            all == claimed.deep_view(),
            p == (|f: Seq<char>| !commit.diff_files.deep_view().contains(f)),
            r.deep_view() == all.take(i as int).filter(p),
        decreases claimed@.len() - i,
    {
        let ghost sofar = r.deep_view();
        proof {
            assert(all[i as int] == claimed@[i as int]@);
            seqs::lemma_filter_step(all, i as int, p);
        }
        if !crate::context::rope::contains_string(&commit.diff_files, &claimed[i]) {
            r.push(claimed[i].clone());
            proof {
                assert(r.deep_view() =~= sofar.push(all[i as int]));
            }
        }
        i += 1;
    }
    proof {
        seqs::lemma_filter_start(all, p);
    }
    r
}

/// The first three of `missing`, joined, with a mark if there are more.
pub open spec fn preview(missing: Seq<Seq<char>>) -> Seq<char> {
    let shown = if missing.len() > 3 {
        missing.take(3)
    } else {
        missing
    };
    text::join_view(shown, ", "@) + if missing.len() > 3 {
        ", ..."@
    } else {
        ""@
    }
}

fn preview_of(missing: &Vec<String>) -> (r: String)
    ensures
        r@ == preview(missing.deep_view()),
{
    let ghost all = missing.deep_view();
    let mut shown: Vec<String> = Vec::new();
    let mut i: usize = 0;
    proof {
        assert(shown.deep_view() =~= all.take(0));
    }
    while i < missing.len() && i < 3
        invariant
            i <= missing@.len(),
            i <= 3,
            all == missing.deep_view(),
            shown.deep_view() == all.take(i as int),
        decreases missing@.len() - i,
    {
        let ghost sofar = shown.deep_view();
        shown.push(missing[i].clone());
        proof {
            assert(shown.deep_view() =~= sofar.push(all[i as int]));
            assert(all.take(i + 1) =~= all.take(i as int).push(all[i as int]));
        }
        i += 1;
    }
    proof {
        assert(all.take(all.len() as int) =~= all);
    }
    let head = text::join(&shown, ", ");
    head.concat(
        if missing.len() > 3 {
            ", ..."
        } else {
            ""
        },
    )
}

/// The classification of a task: the first rule that applies decides.
pub open spec fn classification(inputs: &ClassificationInputs<'_>) -> (
    Outcome,
    Confidence,
    Seq<char>,
) {
    match inputs.telemetry.exit_reason {
        TaskExitReason::BudgetCap => (
            Outcome::BudgetHalted,
            Confidence::Definite,
            "exit_reason=BudgetCap"@,
        ),
        TaskExitReason::Error => (Outcome::ErrorExit, Confidence::Definite, "exit_reason=Error"@),
        TaskExitReason::Timeout => (Outcome::Timeout, Confidence::Definite, "exit_reason=Timeout"@),
        TaskExitReason::Cancelled => (
            Outcome::OperatorIntervention,
            Confidence::Definite,
            "exit_reason=Cancelled"@,
        ),
        TaskExitReason::OperatorStopped => (
            Outcome::OperatorIntervention,
            Confidence::Definite,
            "exit_reason=OperatorStopped"@,
        ),
        TaskExitReason::Done => match inputs.commit {
            None => (
                Outcome::NarrativeNoAction,
                Confidence::Definite,
                "exit=Done, no commit produced"@,
            ),
            Some(commit) => if commit.diff_files@.len() == 0 {
                (
                    Outcome::NarrativeNoAction,
                    Confidence::Probable,
                    "exit=Done, commit "@ + commit.sha@ + " has empty diff"@,
                )
            } else if lies(inputs.pr) {
                (
                    Outcome::LyingState,
                    Confidence::Definite,
                    "claimed PR #"@ + text::decimal_view(
                        inputs.pr->0.claimed_number->0 as nat,
                    ) + " does not exist on origin"@,
                )
            } else if missing_files(commit).len() > 0 {
                (
                    Outcome::HollowCommit,
                    Confidence::Probable,
                    "commit "@ + commit.sha@ + " claims "@ + text::decimal_view(
                        missing_files(commit).len(),
                    ) + " file(s) not in diff: "@ + preview(missing_files(commit)),
                )
            } else {
                by_ci(commit.sha@, ci_of(inputs.pr))
            },
        },
    }
}

/// Whether a pull request was claimed that is known not to exist.
pub open spec fn lies(pr: Option<&PrInfo>) -> bool {
    pr matches Some(pr) && pr.claimed_number is Some && pr.exists_on_origin == Some(false)
}

/// The CI status, if it is known.
pub open spec fn ci_of(pr: Option<&PrInfo>) -> Option<CiStatus> {
    match pr {
        Some(pr) => pr.ci,
        None => None,
    }
}

/// The classification of an honest commit by its CI status.
pub open spec fn by_ci(sha: Seq<char>, ci: Option<CiStatus>) -> (Outcome, Confidence, Seq<char>) {
    match ci {
        Some(ci) => if !ci.clippy_pass || !ci.test_pass {
            (
                Outcome::BugInOutput,
                Confidence::Definite,
                "commit "@ + sha + " + CI fail (test_pass="@ + text::bool_view(ci.test_pass)
                    + ", clippy_pass="@ + text::bool_view(ci.clippy_pass) + ")"@,
            )
        } else if ci.fmt_pass {
            (Outcome::CleanSuccess, Confidence::Definite, "commit "@ + sha + " + CI all-pass"@)
        } else {
            (
                Outcome::CosmeticFailure,
                Confidence::Definite,
                "commit "@ + sha + " + CI fmt-only-fail"@,
            )
        },
        None => (
            Outcome::Unclassified,
            Confidence::Inferred,
            "Done exit with commit "@ + sha
                + " but no other discriminator matched (no PR/CI info)"@,
        ),
    }
}

/// Classifies a task. The rules are tried in order and the first that applies decides.
pub fn classify_task(inputs: &ClassificationInputs<'_>) -> (r: Classification)
    ensures
        (r.outcome, r.confidence, r.rationale@) == classification(inputs),
{
    match inputs.telemetry.exit_reason {
        TaskExitReason::BudgetCap => {
            return Classification {
                outcome: Outcome::BudgetHalted,
                confidence: Confidence::Definite,
                rationale: "exit_reason=BudgetCap".to_owned(),
            };
        },
        TaskExitReason::Error => {
            return Classification {
                outcome: Outcome::ErrorExit,
                confidence: Confidence::Definite,
                rationale: "exit_reason=Error".to_owned(),
            };
        },
        TaskExitReason::Timeout => {
            return Classification {
                outcome: Outcome::Timeout,
                confidence: Confidence::Definite,
                rationale: "exit_reason=Timeout".to_owned(),
            };
        },
        TaskExitReason::Cancelled => {
            return Classification {
                outcome: Outcome::OperatorIntervention,
                confidence: Confidence::Definite,
                rationale: "exit_reason=Cancelled".to_owned(),
            };
        },
        TaskExitReason::OperatorStopped => {
            return Classification {
                outcome: Outcome::OperatorIntervention,
                confidence: Confidence::Definite,
                rationale: "exit_reason=OperatorStopped".to_owned(),
            };
        },
        TaskExitReason::Done => {},
    }
    let commit = match inputs.commit {
        None => {
            return Classification {
                outcome: Outcome::NarrativeNoAction,
                confidence: Confidence::Definite,
                rationale: "exit=Done, no commit produced".to_owned(),
            };
        },
        Some(commit) => commit,
    };
    if commit.diff_files.len() == 0 {
        return Classification {
            outcome: Outcome::NarrativeNoAction,
            confidence: Confidence::Probable,
            rationale: "exit=Done, commit ".to_owned().concat(&commit.sha).concat(
                " has empty diff",
            ),
        };
    }
    if let Some(pr) = inputs.pr {
        if let (Some(claimed), Some(false)) = (pr.claimed_number, pr.exists_on_origin) {
            return Classification {
                outcome: Outcome::LyingState,
                confidence: Confidence::Definite,
                rationale: "claimed PR #".to_owned().concat(&text::decimal(claimed as u64)).concat(
                    " does not exist on origin",
                ),
            };
        }
    }
    let missing = find_missing(commit);
    if missing.len() > 0 {
        return Classification {
            outcome: Outcome::HollowCommit,
            confidence: Confidence::Probable,
            rationale: "commit ".to_owned().concat(&commit.sha).concat(" claims ").concat(
                &text::decimal(missing.len() as u64),
            ).concat(" file(s) not in diff: ").concat(&preview_of(&missing)),
        };
    }
    if let Some(pr) = inputs.pr {
        if let Some(ci) = pr.ci {
            if ci.all_pass() {
                return Classification {
                    outcome: Outcome::CleanSuccess,
                    confidence: Confidence::Definite,
                    rationale: "commit ".to_owned().concat(&commit.sha).concat(" + CI all-pass"),
                };
            }
            if ci.fmt_only_fail() {
                return Classification {
                    outcome: Outcome::CosmeticFailure,
                    confidence: Confidence::Definite,
                    rationale: "commit ".to_owned().concat(&commit.sha).concat(
                        " + CI fmt-only-fail",
                    ),
                };
            }
            return Classification {
                outcome: Outcome::BugInOutput,
                confidence: Confidence::Definite,
                rationale: "commit ".to_owned().concat(&commit.sha).concat(
                    " + CI fail (test_pass=",
                ).concat(text::bool_str(ci.test_pass)).concat(", clippy_pass=").concat(
                    text::bool_str(ci.clippy_pass),
                ).concat(")"),
            };
        }
    }
    Classification {
        outcome: Outcome::Unclassified,
        confidence: Confidence::Inferred,
        rationale: "Done exit with commit ".to_owned().concat(&commit.sha).concat(
            " but no other discriminator matched (no PR/CI info)",
        ),
    }
}

/// The claimed files are distinct, and each looks like a path claim.
pub proof fn law_claims_are_distinct_paths(message: Seq<char>)
    ensures
        claimed_files(message).no_duplicates(),
        forall|i: int|
            0 <= i < claimed_files(message).len() ==> is_claim(#[trigger] claimed_files(message)[i]),
{
    lemma_claims_among(text::pieces(message, |c: char| separates(c)));
}

proof fn lemma_claims_among(words: Seq<Seq<char>>)
    ensures
        claims_among(words).no_duplicates(),
        forall|i: int|
            0 <= i < claims_among(words).len() ==> is_claim(#[trigger] claims_among(words)[i]),
    decreases words.len(),
{
    if words.len() > 0 {
        lemma_claims_among(words.drop_last());
    }
}

/// A task that did not end as done is classified by its exit reason alone, and definitely.
pub proof fn law_terminal_exits_are_definite(
    a: &ClassificationInputs<'_>,
    b: &ClassificationInputs<'_>,
)
    requires
        a.telemetry.exit_reason == b.telemetry.exit_reason,
        !(a.telemetry.exit_reason is Done),
    ensures
        classification(a) == classification(b),
        classification(a).1 is Definite,
{
}

/// A task is a clean success exactly if it is done, its commit changed something and claims
/// nothing else, no claimed pull request is known to be absent, and every CI job passed.
pub proof fn law_clean_success(inputs: &ClassificationInputs<'_>)
    ensures
        classification(inputs).0 is CleanSuccess <==> {
            &&& inputs.telemetry.exit_reason is Done
            &&& inputs.commit is Some
            &&& inputs.commit->0.diff_files@.len() > 0
            &&& !lies(inputs.pr)
            &&& missing_files(inputs.commit->0).len() == 0
            &&& ci_of(inputs.pr) matches Some(ci) && ci.fmt_pass && ci.clippy_pass && ci.test_pass
        },
{
}

/// Whether a task is done and left a commit that changed something.
pub open spec fn left_work(inputs: &ClassificationInputs<'_>) -> bool {
    inputs.telemetry.exit_reason is Done && inputs.commit is Some
        && inputs.commit->0.diff_files@.len() > 0
}

/// Whether a pull request is claimed that was looked for and not found.
pub open spec fn claims_absent_request(inputs: &ClassificationInputs<'_>) -> bool {
    inputs.pr is Some && inputs.pr->0.claimed_number is Some && inputs.pr->0.exists_on_origin is Some
        && !inputs.pr->0.exists_on_origin->0
}

/// Whether every file that the message of a commit claims is in its diff.
pub open spec fn is_honest(commit: &CommitInfo) -> bool {
    forall|f: Seq<char>|
        claimed_files(commit.message@).contains(f)
            ==> #[trigger] commit.diff_files.deep_view().contains(f)
}

/// What CI said of the task, if it said anything.
pub open spec fn has_verdict(
    inputs: &ClassificationInputs<'_>,
    fmt: bool,
    clippy: bool,
    test: bool,
) -> bool {
    inputs.pr is Some && inputs.pr->0.ci is Some && inputs.pr->0.ci->0.fmt_pass == fmt
        && inputs.pr->0.ci->0.clippy_pass == clippy && inputs.pr->0.ci->0.test_pass == test
}

/// The files that are missing are those that are claimed and not in the diff, and there are none
/// exactly if the commit is honest.
pub proof fn law_missing_files_are_claimed_and_not_changed(commit: &CommitInfo)
    ensures
        forall|f: Seq<char>| #[trigger]
            missing_files(commit).contains(f) <==> claimed_files(commit.message@).contains(f)
                && !commit.diff_files.deep_view().contains(f),
        missing_files(commit).len() == 0 <==> is_honest(commit),
{
    let all = claimed_files(commit.message@);
    let p = |f: Seq<char>| !commit.diff_files.deep_view().contains(f);
    let missing = missing_files(commit);
    seqs::lemma_filter_contains(all, p);
    if missing.len() > 0 {
        assert(missing.contains(missing[0]));
    } else {
        assert forall|f: Seq<char>| all.contains(f) implies #[trigger]
            commit.diff_files.deep_view().contains(f) by {
            assert(!missing.contains(f));
        }
    }
}

/// Each outcome comes exactly when it should. A task that did not end as done is classified by how
/// it ended. Of the others, one that left no change did nothing; one that claims an absent request
/// lies; one that claims files it did not change is hollow; and one of which neither holds is
/// classified by CI: clean if everything passed, cosmetic if only formatting failed, a bug if lints
/// or tests failed, whatever formatting did, and unclassified without CI.
pub proof fn law_each_outcome_comes_exactly_when_it_should(inputs: &ClassificationInputs<'_>)
    ensures
        classification(inputs).0 is BudgetHalted <==> inputs.telemetry.exit_reason is BudgetCap,
        classification(inputs).0 is ErrorExit <==> inputs.telemetry.exit_reason is Error,
        classification(inputs).0 is Timeout <==> inputs.telemetry.exit_reason is Timeout,
        classification(inputs).0 is OperatorIntervention
            <==> inputs.telemetry.exit_reason is Cancelled
            || inputs.telemetry.exit_reason is OperatorStopped,
        classification(inputs).0 is NarrativeNoAction <==> inputs.telemetry.exit_reason is Done
            && !left_work(inputs),
        classification(inputs).0 is LyingState <==> left_work(inputs) && claims_absent_request(
            inputs,
        ),
        classification(inputs).0 is HollowCommit <==> left_work(inputs) && !claims_absent_request(
            inputs,
        ) && !is_honest(inputs.commit->0),
        classification(inputs).0 is CleanSuccess <==> left_work(inputs) && !claims_absent_request(
            inputs,
        ) && is_honest(inputs.commit->0) && has_verdict(inputs, true, true, true),
        classification(inputs).0 is CosmeticFailure <==> left_work(inputs)
            && !claims_absent_request(inputs) && is_honest(inputs.commit->0) && has_verdict(
            inputs,
            false,
            true,
            true,
        ),
        classification(inputs).0 is BugInOutput <==> left_work(inputs) && !claims_absent_request(
            inputs,
        ) && is_honest(inputs.commit->0) && inputs.pr is Some && inputs.pr->0.ci is Some && (
        !inputs.pr->0.ci->0.clippy_pass || !inputs.pr->0.ci->0.test_pass),
        classification(inputs).0 is Unclassified <==> left_work(inputs) && !claims_absent_request(
            inputs,
        ) && is_honest(inputs.commit->0) && (inputs.pr is None || inputs.pr->0.ci is None),
{
    if inputs.commit is Some {
        law_missing_files_are_claimed_and_not_changed(inputs.commit->0);
    }
}

/// What rests on reading a message or an empty diff is probable, what no rule covers is inferred,
/// and everything else is definite.
pub proof fn law_confidence_fits_the_evidence(inputs: &ClassificationInputs<'_>)
    ensures
        classification(inputs).1 is Probable <==> classification(inputs).0 is HollowCommit || (
        classification(inputs).0 is NarrativeNoAction && inputs.commit is Some),
        classification(inputs).1 is Inferred <==> classification(inputs).0 is Unclassified,
{
}

/// The reason that is given names the commit, or the request that was claimed.
pub proof fn law_rationales_name_what_they_are_about(inputs: &ClassificationInputs<'_>)
    ensures
        ({
            let (outcome, _, why) = classification(inputs);
            let sha = inputs.commit->0.sha@;
            &&& outcome is CleanSuccess || outcome is CosmeticFailure || outcome is BugInOutput
                || outcome is HollowCommit ==> text::has_prefix(why, "commit "@ + sha)
            &&& outcome is NarrativeNoAction && inputs.commit is Some ==> text::has_prefix(
                why,
                "exit=Done, commit "@ + sha,
            )
            &&& outcome is Unclassified ==> text::has_prefix(why, "Done exit with commit "@ + sha)
            &&& outcome is LyingState ==> text::has_prefix(
                why,
                "claimed PR #"@ + text::decimal_view(inputs.pr->0.claimed_number->0 as nat),
            )
            &&& outcome is HollowCommit ==> text::has_prefix(
                why,
                "commit "@ + sha + " claims "@ + text::decimal_view(
                    missing_files(inputs.commit->0).len(),
                ),
            )
            &&& outcome is BugInOutput && inputs.pr->0.ci->0.test_pass ==> text::has_suffix(
                why,
                "(test_pass=true, clippy_pass=false)"@,
            )
            &&& outcome is BugInOutput && inputs.pr->0.ci->0.clippy_pass ==> text::has_suffix(
                why,
                "(test_pass=false, clippy_pass=true)"@,
            )
        }),
{
    let (outcome, _, why) = classification(inputs);
    let sha = inputs.commit->0.sha@;
    let named = "commit "@ + sha;
    if outcome is HollowCommit {
        let n = text::decimal_view(missing_files(inputs.commit->0).len());
        let head = named + " claims "@ + n;
        assert(why.take(named.len() as int) =~= named);
        assert(why.take(head.len() as int) =~= head);
    } else if outcome is LyingState {
        let head = "claimed PR #"@ + text::decimal_view(inputs.pr->0.claimed_number->0 as nat);
        assert(why.take(head.len() as int) =~= head);
    } else if outcome is NarrativeNoAction && inputs.commit is Some {
        let head = "exit=Done, commit "@ + sha;
        assert(why.take(head.len() as int) =~= head);
    } else if outcome is Unclassified {
        let head = "Done exit with commit "@ + sha;
        assert(why.take(head.len() as int) =~= head);
    } else if outcome is CleanSuccess || outcome is CosmeticFailure {
        assert(why.take(named.len() as int) =~= named);
    } else if outcome is BugInOutput {
        assert(why.take(named.len() as int) =~= named);
        reveal_strlit(" + CI fail (test_pass=");
        reveal_strlit(", clippy_pass=");
        reveal_strlit(")");
        reveal_strlit("true");
        reveal_strlit("false");
        reveal_strlit("(test_pass=true, clippy_pass=false)");
        reveal_strlit("(test_pass=false, clippy_pass=true)");
        if inputs.pr->0.ci->0.test_pass {
            let end = "(test_pass=true, clippy_pass=false)"@;
            assert(why.skip(why.len() - end.len()) =~= end);
        }
        if inputs.pr->0.ci->0.clippy_pass {
            let end = "(test_pass=false, clippy_pass=true)"@;
            assert(why.skip(why.len() - end.len()) =~= end);
        }
    }
}

/// A word of the message is a claim exactly if it is a path once the punctuation behind it is
/// gone: every such path is among the claimed files, and nothing else is.
pub proof fn law_every_path_in_the_message_is_claimed(words: Seq<Seq<char>>, path: Seq<char>)
    ensures
        claims_among(words).contains(path) <==> is_claim(path) && path.len() > 0 && exists|i: int|
            0 <= i < words.len() && path == text::strip_back(
                #[trigger] words[i],
                |c: char| punctuates(c),
            ),
    decreases words.len(),
{
    if words.len() > 0 {
        let t = words.drop_last();
        let n = words.len() - 1;
        let p = |c: char| punctuates(c);
        law_every_path_in_the_message_is_claimed(t, path);
        let found = claims_among(t);
        let last = text::strip_back(words.last(), p);
        seqs::lemma_push_contains(found, last);
        assert(words[n] == words.last());
        if found.contains(path) {
            let i = choose|i: int|
                0 <= i < t.len() && path == text::strip_back(#[trigger] t[i], p);
            assert(words[i] == t[i]);
        }
        if exists|i: int| 0 <= i < words.len() && path == text::strip_back(#[trigger] words[i], p) {
            let i = choose|i: int|
                0 <= i < words.len() && path == text::strip_back(#[trigger] words[i], p);
            if i < n {
                assert(t[i] == words[i]);
            }
        }
    }
}

/// A path that stands alone between separators of a message is claimed, with or without
/// punctuation behind it.
pub proof fn law_a_path_between_separators_is_claimed(
    before: Seq<char>,
    path: Seq<char>,
    stop: Seq<char>,
    after: Seq<char>,
)
    requires
        is_claim(path),
        path.len() > 0,
        !punctuates(path.last()),
        forall|i: int| 0 <= i < path.len() ==> !separates(#[trigger] path[i]),
        forall|i: int|
            0 <= i < stop.len() ==> punctuates(#[trigger] stop[i]) && !separates(stop[i]),
    ensures
        claimed_files(before.push(' ') + ((path + stop).push(' ') + after)).contains(path),
{
    let p = |c: char| separates(c);
    let q = |c: char| punctuates(c);
    let word = path + stop;
    let rest = word.push(' ') + after;
    let words = text::pieces(before.push(' ') + rest, p);
    assert forall|i: int| 0 <= i < word.len() implies !p(#[trigger] word[i]) by {
        if i < path.len() {
            assert(word[i] == path[i]);
        } else {
            assert(word[i] == stop[i - path.len()]);
        }
    }
    text::law_pieces_are_split_at_separators(before, ' ', rest, p);
    text::law_pieces_are_split_at_separators(word, ' ', after, p);
    let k = text::pieces(before, p).len() as int;
    assert(words[k] == word);
    text::law_stripping_takes_one_end(word, q);
    let r = text::strip_back(word, q);
    assert(word[path.len() - 1] == path.last());
    if r.len() > path.len() {
        assert(r.last() == word[r.len() - 1]);
        assert(word[r.len() - 1] == stop[r.len() - 1 - path.len()]);
    }
    assert(r =~= path);
    law_every_path_in_the_message_is_claimed(words, path);
}

/// What looks like a path: the three top-level names, a source or a test of a crate, a document
/// under `specs/`, a script under `scripts/`.
pub proof fn law_paths_that_can_be_claimed(name: Seq<char>, rest: Seq<char>)
    ensures
        is_claim("justfile"@) && is_claim("README.md"@) && is_claim("Cargo.toml"@),
        !name.contains('/') ==> is_claim("crates/"@ + name + "/src/"@ + rest + ".rs"@) && is_claim(
            "crates/"@ + name + "/tests/"@ + rest + ".rs"@,
        ),
        is_claim("specs/"@ + rest + ".md"@),
        is_claim("scripts/"@ + rest + ".sh"@),
        is_claim(rest) ==> rest == "justfile"@ || rest == "README.md"@ || rest == "Cargo.toml"@
            || text::has_suffix(rest, ".rs"@) || text::has_suffix(rest, ".md"@) || text::has_suffix(
            rest,
            ".sh"@,
        ),
        is_claim(rest) && text::has_prefix(rest, "crates/"@) ==> text::has_suffix(rest, ".rs"@)
            || text::has_prefix(rest, "specs/"@) || text::has_prefix(rest, "scripts/"@) || rest
            == "justfile"@ || rest == "README.md"@ || rest == "Cargo.toml"@,
{
    reveal_strlit("crates/");
    reveal_strlit("/src/");
    reveal_strlit("/tests/");
    reveal_strlit("src/");
    reveal_strlit("tests/");
    reveal_strlit(".rs");
    let a = "specs/"@ + rest + ".md"@;
    let b = "scripts/"@ + rest + ".sh"@;
    assert(a.take("specs/"@.len() as int) =~= "specs/"@);
    assert(a.skip(a.len() - ".md"@.len()) =~= ".md"@);
    assert(b.take("scripts/"@.len() as int) =~= "scripts/"@);
    assert(b.skip(b.len() - ".sh"@.len()) =~= ".sh"@);
    if !name.contains('/') {
        lemma_crate_file(name, "/src/"@, rest);
        lemma_crate_file(name, "/tests/"@, rest);
    }
}

proof fn lemma_crate_file(name: Seq<char>, dir: Seq<char>, rest: Seq<char>)
    requires
        !name.contains('/'),
        dir == "/src/"@ || dir == "/tests/"@,
    ensures
        is_crate_file("crates/"@ + name + dir + rest + ".rs"@),
{
    reveal_strlit("crates/");
    reveal_strlit("/src/");
    reveal_strlit("/tests/");
    reveal_strlit("src/");
    reveal_strlit("tests/");
    reveal_strlit(".rs");
    let s = "crates/"@ + name + dir + rest + ".rs"@;
    assert(s.take(7) =~= "crates/"@);
    assert(s.skip(s.len() - 3) =~= ".rs"@);
    let inner = s.skip(7);
    let n = name.len() as int;
    assert forall|j: int| 0 <= j < n implies inner[j] != '/' by {
        assert(inner[j] == name[j]);
        assert(name.contains(name[j]));
    }
    assert(inner[n] == dir[0]);
    text::lemma_first_index(inner, '/', n);
    let below = inner.skip(n + 1);
    if dir == "/src/"@ {
        assert(below.take(4) =~= "src/"@);
    } else {
        assert(below.take(6) =~= "tests/"@);
    }
}

/// Blanks, quotes, brackets, commas, semicolons and colons separate words, and what paths are made
/// of does not: of the printable ASCII characters these and no others.
pub proof fn law_what_separates_words(c: char)
    requires
        32 <= c as u32 <= 126,
    ensures
        separates(c) <==> " `\"'()[]{},;:"@.contains(c),
        punctuates(c) <==> ".,;:)]}!?"@.contains(c),
{
    reveal_strlit(" `\"'()[]{},;:");
    reveal_strlit(".,;:)]}!?");
    let a = " `\"'()[]{},;:"@;
    let b = ".,;:)]}!?"@;
    assert(a[0] == ' ' && a[1] == '`' && a[2] == '"' && a[3] == '\'' && a[4] == '(' && a[5] == ')'
        && a[6] == '[' && a[7] == ']' && a[8] == '{' && a[9] == '}' && a[10] == ',' && a[11] == ';'
        && a[12] == ':');
    assert(b[0] == '.' && b[1] == ',' && b[2] == ';' && b[3] == ':' && b[4] == ')' && b[5] == ']'
        && b[6] == '}' && b[7] == '!' && b[8] == '?');
}

/// At most three of the missing files are named, and a mark tells that there are more.
pub proof fn law_previews_name_three_at_most(missing: Seq<Seq<char>>)
    ensures
        missing.len() <= 3 ==> preview(missing) == text::join_view(missing, ", "@),
        missing.len() > 3 ==> preview(missing) == text::join_view(
            seq![missing[0], missing[1], missing[2]],
            ", "@,
        ) + ", ..."@,
{
    reveal_strlit("");
    if missing.len() <= 3 {
        assert(preview(missing) =~= text::join_view(missing, ", "@));
    } else {
        assert(missing.take(3) =~= seq![missing[0], missing[1], missing[2]]);
    }
}

/// A classified task has the outcome, the confidence and the reason that are due to it.
pub proof fn law_tasks_are_classified(inputs: &ClassificationInputs<'_>, r: Classification)
    requires
        call_ensures(classify_task, (inputs,), r),
    ensures
        r.outcome is NarrativeNoAction <==> inputs.telemetry.exit_reason is Done && !left_work(
            inputs,
        ),
        r.outcome is LyingState <==> left_work(inputs) && claims_absent_request(inputs),
        r.outcome is HollowCommit <==> left_work(inputs) && !claims_absent_request(inputs)
            && !is_honest(inputs.commit->0),
        r.outcome is CleanSuccess <==> left_work(inputs) && !claims_absent_request(inputs)
            && is_honest(inputs.commit->0) && has_verdict(inputs, true, true, true),
        r.outcome is CosmeticFailure <==> left_work(inputs) && !claims_absent_request(inputs)
            && is_honest(inputs.commit->0) && has_verdict(inputs, false, true, true),
        r.outcome is BugInOutput <==> left_work(inputs) && !claims_absent_request(inputs)
            && is_honest(inputs.commit->0) && inputs.pr is Some && inputs.pr->0.ci is Some && (
        !inputs.pr->0.ci->0.clippy_pass || !inputs.pr->0.ci->0.test_pass),
        r.confidence is Inferred <==> r.outcome is Unclassified,
        r.rationale@ == classification(inputs).2,
{
    law_each_outcome_comes_exactly_when_it_should(inputs);
    law_confidence_fits_the_evidence(inputs);
}

/// CI passed exactly if nothing failed, and failed on formatting alone exactly if just that failed.
pub proof fn law_ci_verdicts(ci: &CiStatus, all: bool, cosmetic: bool)
    requires
        call_ensures(CiStatus::all_pass, (ci,), all),
        call_ensures(CiStatus::fmt_only_fail, (ci,), cosmetic),
    ensures
        all <==> ci.fmt_pass && ci.clippy_pass && ci.test_pass,
        !(all && cosmetic),
        all || cosmetic <==> ci.clippy_pass && ci.test_pass,
{
}

} // verus!
