//! The review workflow: a state machine that decides, hook by hook, whether
//! to let a build script through, to have it reviewed, and what to archive.
//!
//! The caller performs each `Action` and answers with the matching `Input`:
//! the digest of the file that `Read` names, the editor's exit code, the
//! operator's decision, the end of an archive or save operation.
use vstd::prelude::*;

use crate::ledger::{
    associated, association_changes, record_or_default, trust_changes, trusted_in, with_trust,
    BuildTrustStore, LedgerView,
};
use crate::cargo::{build_packages, carries_build_script};
use crate::codec::{ledger_members, members_view, parse_ledger, LedgerError};
use crate::digest::{hex_of, hook_digest, sha256_of};
use crate::metadata::{Metadata, PackageMetadata};

verus! {

/// One build script to review: the identity of the package that carries it
/// and the path of its source file.
pub struct Hook {
    pub pkg_id: String,
    pub path: String,
}

/// Why a run stopped.
#[derive(Debug, Clone, Copy, PartialEq, Eq)]
pub enum AuditError {
    /// The editor did not exit with status 0; the exit code, if it had one.
    EditorFailed(Option<i32>),
    /// An input came that the current step does not wait for.
    OutOfOrder,
}

/// Where a run stands.
pub enum Phase {
    /// Waiting for the digest of the current hook's file.
    Reading,
    /// The editor is open on the current hook.
    Editing { digest: String },
    /// Waiting for the operator's decision on the current hook.
    Asking { digest: String },
    /// The current hook's file is being archived.
    Archiving { digest: String, trusted: bool },
    /// The ledger is being saved.
    Saving,
    Done,
    Aborted,
}

/// What the caller does next.
#[derive(Debug, PartialEq, Eq)]
pub enum Action {
    /// Read the file at `path` and answer with the digest of its bytes.
    Read { path: String },
    /// Open the editor on `path` and answer with its exit code.
    Edit { path: String },
    /// Ask the operator `message` and answer with the decision.
    Ask { message: String },
    /// Copy `source` to the archive file `snapshot`, stage it, commit it with
    /// `message` unless the archive is clean, and answer `Archived`.
    Archive { source: String, snapshot: String, message: String },
    /// Write and commit the ledger, and answer `Saved`.
    Save,
    /// The run is over.
    Finish,
    /// The run stops with this error.
    Fail(AuditError),
}

/// What the caller reports back.
pub enum Input {
    /// The digest of the current hook's file.
    Digest(String),
    /// The editor's exit code, `None` when it had none.
    EditorExited(Option<i32>),
    /// Whether the operator trusts the current hook.
    Decision(bool),
    Archived,
    Saved,
}

/// A review run: the ledger, the hooks in the order given, the current hook,
/// and whether a record changed so far.
pub struct Audit {
    pub ledger: BuildTrustStore,
    pub hooks: Vec<Hook>,
    pub index: usize,
    pub changed: bool,
    pub phase: Phase,
}

// Mathematical model.

pub enum Stage {
    Reading,
    Editing(Seq<char>),
    Asking(Seq<char>),
    Archiving(Seq<char>, bool),
    Saving,
    Done,
    Aborted,
}

pub enum Step {
    Read(Seq<char>),
    Edit(Seq<char>),
    Ask(Seq<char>),
    Archive(Seq<char>, Seq<char>, Seq<char>),
    Save,
    Finish,
    Fail(AuditError),
}

pub enum Signal {
    Digest(Seq<char>),
    EditorExited(Option<i32>),
    Decision(bool),
    Archived,
    Saved,
}

/// The model of a run; a hook is its package identity and its path.
pub struct AuditState {
    pub ledger: LedgerView,
    pub hooks: Seq<(Seq<char>, Seq<char>)>,
    pub index: nat,
    pub changed: bool,
    pub stage: Stage,
}

impl View for Phase {
    type V = Stage;

    open spec fn view(&self) -> Stage {
        match self {
            Phase::Reading => Stage::Reading,
            Phase::Editing { digest } => Stage::Editing(digest@),
            Phase::Asking { digest } => Stage::Asking(digest@),
            Phase::Archiving { digest, trusted } => Stage::Archiving(digest@, *trusted),
            Phase::Saving => Stage::Saving,
            Phase::Done => Stage::Done,
            Phase::Aborted => Stage::Aborted,
        }
    }
}

impl View for Action {
    type V = Step;

    open spec fn view(&self) -> Step {
        match self {
            Action::Read { path } => Step::Read(path@),
            Action::Edit { path } => Step::Edit(path@),
            Action::Ask { message } => Step::Ask(message@),
            Action::Archive { source, snapshot, message } => Step::Archive(
                source@,
                snapshot@,
                message@,
            ),
            Action::Save => Step::Save,
            Action::Finish => Step::Finish,
            Action::Fail(e) => Step::Fail(*e),
        }
    }
}

impl View for Input {
    type V = Signal;

    open spec fn view(&self) -> Signal {
        match self {
            Input::Digest(d) => Signal::Digest(d@),
            Input::EditorExited(c) => Signal::EditorExited(*c),
            Input::Decision(t) => Signal::Decision(*t),
            Input::Archived => Signal::Archived,
            Input::Saved => Signal::Saved,
        }
    }
}

pub open spec fn hook_views(hooks: Seq<Hook>) -> Seq<(Seq<char>, Seq<char>)> {
    hooks.map_values(|h: Hook| (h.pkg_id@, h.path@))
}

impl View for Audit {
    type V = AuditState;

    open spec fn view(&self) -> AuditState {
        AuditState {
            ledger: self.ledger.view(),
            hooks: hook_views(self.hooks@),
            index: self.index as nat,
            changed: self.changed,
            stage: self.phase@,
        }
    }
}

/// The question put to the operator about the build script of `pkg`.
pub open spec fn ask_message(pkg: Seq<char>) -> Seq<char> {
    "Do you trust the build.rs file in "@ + pkg + "? [y/N] "@
}

/// The commit message of the archived build script of `pkg`.
pub open spec fn archive_message(pkg: Seq<char>) -> Seq<char> {
    "audit-build: add build.rs for "@ + pkg
}

impl AuditState {
    /// The current hook stands in the list while one is being handled, and a
    /// digest under review is not trusted.
    pub open spec fn inv(self) -> bool {
        &&& self.index <= self.hooks.len()
        &&& match self.stage {
            Stage::Reading => self.index < self.hooks.len(),
            Stage::Editing(d) => self.index < self.hooks.len() && !trusted_in(self.ledger, d),
            Stage::Asking(d) => self.index < self.hooks.len() && !trusted_in(self.ledger, d),
            Stage::Archiving(d, _) => self.index < self.hooks.len() && !trusted_in(self.ledger, d),
            _ => true,
        }
    }

    pub open spec fn pkg(self) -> Seq<char> {
        self.hooks[self.index as int].0
    }

    pub open spec fn path(self) -> Seq<char> {
        self.hooks[self.index as int].1
    }
}

/// The run after the current hook is done, with the ledger `ledger`: on to
/// the next hook, or else to a save if a record changed, or else to the end.
pub open spec fn after_hook(s: AuditState, ledger: LedgerView, changed: bool) -> (
    AuditState,
    Step,
) {
    let i = s.index + 1;
    if i < s.hooks.len() {
        (
            AuditState { ledger, index: i, changed, stage: Stage::Reading, ..s },
            Step::Read(s.hooks[i as int].1),
        )
    } else if changed {
        (AuditState { ledger, index: i, changed, stage: Stage::Saving, ..s }, Step::Save)
    } else {
        (AuditState { ledger, index: i, changed, stage: Stage::Done, ..s }, Step::Finish)
    }
}

/// The start of a run over `hooks` with the ledger as loaded.
pub open spec fn begin(ledger: LedgerView, hooks: Seq<(Seq<char>, Seq<char>)>) -> (
    AuditState,
    Step,
) {
    if hooks.len() > 0 {
        (
            AuditState { ledger, hooks, index: 0, changed: false, stage: Stage::Reading },
            Step::Read(hooks[0].1),
        )
    } else {
        (
            AuditState { ledger, hooks, index: 0, changed: false, stage: Stage::Done },
            Step::Finish,
        )
    }
}

/// The aborted run.
pub open spec fn aborted(s: AuditState, e: AuditError) -> (AuditState, Step) {
    (AuditState { stage: Stage::Aborted, ..s }, Step::Fail(e))
}

/// One transition of the run.
pub open spec fn next(s: AuditState, e: Signal) -> (AuditState, Step) {
    match s.stage {
        Stage::Reading => match e {
            Signal::Digest(d) => if s.index >= s.hooks.len() {
                aborted(s, AuditError::OutOfOrder)
            } else if trusted_in(s.ledger, d) {
                after_hook(
                    s,
                    associated(s.ledger, d, s.pkg()),
                    s.changed || association_changes(s.ledger, d, s.pkg()),
                )
            } else {
                (AuditState { stage: Stage::Editing(d), ..s }, Step::Edit(s.path()))
            },
            _ => aborted(s, AuditError::OutOfOrder),
        },
        Stage::Editing(d) => match e {
            Signal::EditorExited(code) => if code == Some(0i32) {
                (AuditState { stage: Stage::Asking(d), ..s }, Step::Ask(ask_message(s.pkg())))
            } else {
                aborted(s, AuditError::EditorFailed(code))
            },
            _ => aborted(s, AuditError::OutOfOrder),
        },
        Stage::Asking(d) => match e {
            Signal::Decision(t) => (
                AuditState { stage: Stage::Archiving(d, t), ..s },
                Step::Archive(s.path(), s.pkg(), archive_message(s.pkg())),
            ),
            _ => aborted(s, AuditError::OutOfOrder),
        },
        Stage::Archiving(d, t) => match e {
            Signal::Archived => after_hook(
                s,
                with_trust(s.ledger, d, t, s.pkg()),
                s.changed || trust_changes(s.ledger, d, t),
            ),
            _ => aborted(s, AuditError::OutOfOrder),
        },
        Stage::Saving => match e {
            Signal::Saved => (AuditState { stage: Stage::Done, ..s }, Step::Finish),
            _ => aborted(s, AuditError::OutOfOrder),
        },
        _ => aborted(s, AuditError::OutOfOrder),
    }
}

/// The run after `inputs`, one after the other, and the steps it asked for.
pub open spec fn run(s: AuditState, inputs: Seq<Signal>) -> (AuditState, Seq<Step>)
    decreases inputs.len(),
{
    if inputs.len() == 0 {
        (s, Seq::empty())
    } else {
        let (t, a) = next(s, inputs[0]);
        let (u, rest) = run(t, inputs.drop_first());
        (u, seq![a] + rest)
    }
}


fn ask_text(pkg: &str) -> (r: String)
    ensures
        r@ == ask_message(pkg@),
{
    String::from_str("Do you trust the build.rs file in ").concat(pkg).concat("? [y/N] ")
}

fn archive_text(pkg: &str) -> (r: String)
    ensures
        r@ == archive_message(pkg@),
{
    String::from_str("audit-build: add build.rs for ").concat(pkg)
}

/// The hooks of the packages of `meta` that carry a build script, in their
/// order: each package's identity and the source of its first build target.
pub fn hooks_of(meta: &Metadata) -> (r: Vec<Hook>)
    ensures
        r.len() == build_packages(meta.packages@).len(),
        forall|i: int|
            0 <= i < r.len() ==> {
                let p = #[trigger] build_packages(meta.packages@)[i];
                &&& r[i].pkg_id@ == p.id_view()
                &&& exists|t: int|
                    0 <= t < p.targets.len() && p.targets[t].is_build() && (forall|k: int|
                        0 <= k < t ==> !p.targets[k].is_build()) && r[i].path@
                        == p.targets[t].src_path@
            },
{
    let pkgs = crate::cargo::find_build_rs(meta);
    let ghost sel = build_packages(meta.packages@);
    assert(pkgs@.map_values(|p: &PackageMetadata| *p) == sel);
    assert(pkgs@.len() == pkgs@.map_values(|p: &PackageMetadata| *p).len());
    let mut out: Vec<Hook> = Vec::new();
    let mut i: usize = 0;
    while i < pkgs.len()
        invariant
            i <= pkgs.len(),
            pkgs@.map_values(|p: &PackageMetadata| *p) == sel,
            pkgs@.len() == sel.len(),
            sel == build_packages(meta.packages@),
            out.len() == i,
            forall|j: int|
                0 <= j < i ==> {
                    let p = #[trigger] sel[j];
                    &&& out[j].pkg_id@ == p.id_view()
                    &&& exists|t: int|
                        0 <= t < p.targets.len() && p.targets[t].is_build() && (forall|k: int|
                            0 <= k < t ==> !p.targets[k].is_build()) && out[j].path@
                            == p.targets[t].src_path@
                },
        decreases pkgs.len() - i,
    {
        let pkg = pkgs[i];
        assert(sel[i as int] == *pkg);
        proof {
            meta.packages@.lemma_filter_pred(carries_build_script(), i as int);
        }
        let hook = Hook { pkg_id: pkg.package_id(), path: pkg.build_script() };
        out.push(hook);
        i += 1;
    }
    out
}

impl Audit {
    pub open spec fn wf(&self) -> bool {
        self.ledger.wf() && self@.inv()
    }

    /// Starts a run over `hooks` with the ledger as loaded.
    pub fn new(ledger: BuildTrustStore, hooks: Vec<Hook>) -> (r: (Audit, Action))
        requires
            ledger.wf(),
        ensures
            r.0.wf(),
            (r.0@, r.1@) == begin(ledger.view(), hook_views(hooks@)),
    {
        if hooks.len() > 0 {
            let path = hooks[0].path.clone();
            let a = Audit { ledger, hooks, index: 0, changed: false, phase: Phase::Reading };
            (a, Action::Read { path })
        } else {
            let a = Audit { ledger, hooks, index: 0, changed: false, phase: Phase::Done };
            (a, Action::Finish)
        }
    }

    /// Starts a run over `hooks` with the ledger that the ledger file `text`
    /// holds. When `text` is not a ledger file no run starts: no hook is read,
    /// reviewed or archived.
    pub fn load(text: &str, hooks: Vec<Hook>) -> (r: Result<(Audit, Action), LedgerError>)
        ensures
            match ledger_members(text@) {
                None => r is Err,
                Some(ms) => r matches Ok((a, act)) && a.wf() && (a@, act@) == begin(
                    members_view(ms),
                    hook_views(hooks@),
                ),
            },
    {
        match parse_ledger(text) {
            Ok(ledger) => Ok(Audit::new(ledger, hooks)),
            Err(e) => Err(e),
        }
    }

    /// Takes the bytes of the file that the last `Read` named, files them under
    /// their digest, and says what to do next.
    pub fn step_contents(&mut self, contents: &[u8]) -> (r: Action)
        requires
            old(self).wf(),
        ensures
            final(self).wf(),
            (final(self)@, r@) == next(old(self)@, Signal::Digest(hex_of(sha256_of(contents@)))),
    {
        let digest = hook_digest(contents);
        self.step(Input::Digest(digest))
    }

    /// Ends the run with `e`.
    fn abort(&mut self, e: AuditError) -> (r: Action)
        requires
            old(self).wf(),
        ensures
            final(self).wf(),
            (final(self)@, r@) == aborted(old(self)@, e),
    {
        self.phase = Phase::Aborted;
        Action::Fail(e)
    }

    /// Moves past the current hook, whose work is done.
    fn finish_hook(&mut self) -> (r: Action)
        requires
            old(self).ledger.wf(),
            old(self).index < old(self).hooks.len(),
        ensures
            final(self).wf(),
            (final(self)@, r@) == after_hook(old(self)@, old(self).ledger.view(), old(self).changed),
    {
        self.index = self.index + 1;
        if self.index < self.hooks.len() {
            self.phase = Phase::Reading;
            Action::Read { path: self.hooks[self.index].path.clone() }
        } else if self.changed {
            self.phase = Phase::Saving;
            Action::Save
        } else {
            self.phase = Phase::Done;
            Action::Finish
        }
    }

    /// Takes the caller's report on the last action and says what to do next.
    pub fn step(&mut self, input: Input) -> (r: Action)
        requires
            old(self).wf(),
        ensures
            final(self).wf(),
            (final(self)@, r@) == next(old(self)@, input@),
    {
        match input {
            Input::Digest(d) => {
                if !matches!(self.phase, Phase::Reading) || self.index >= self.hooks.len() {
                    return self.abort(AuditError::OutOfOrder);
                }
                if self.ledger.is_trusted(d.as_str()) {
                    let c = self.ledger.record_association(
                        d.as_str(),
                        self.hooks[self.index].pkg_id.as_str(),
                    );
                    self.changed = self.changed || c;
                    self.finish_hook()
                } else {
                    let path = self.hooks[self.index].path.clone();
                    self.phase = Phase::Editing { digest: d };
                    Action::Edit { path }
                }
            },
            Input::EditorExited(code) => {
                let d = match &self.phase {
                    Phase::Editing { digest } => digest.clone(),
                    _ => {
                        return self.abort(AuditError::OutOfOrder);
                    },
                };
                match code {
                    Some(0) => {
                        let message = ask_text(self.hooks[self.index].pkg_id.as_str());
                        self.phase = Phase::Asking { digest: d };
                        Action::Ask { message }
                    },
                    _ => self.abort(AuditError::EditorFailed(code)),
                }
            },
            Input::Decision(trusted) => {
                let d = match &self.phase {
                    Phase::Asking { digest } => digest.clone(),
                    _ => {
                        return self.abort(AuditError::OutOfOrder);
                    },
                };
                let hook = &self.hooks[self.index];
                let action = Action::Archive {
                    source: hook.path.clone(),
                    snapshot: hook.pkg_id.clone(),
                    message: archive_text(hook.pkg_id.as_str()),
                };
                self.phase = Phase::Archiving { digest: d, trusted };
                action
            },
            Input::Archived => {
                let (d, trusted) = match &self.phase {
                    Phase::Archiving { digest, trusted } => (digest.clone(), *trusted),
                    _ => {
                        return self.abort(AuditError::OutOfOrder);
                    },
                };
                let c = self.ledger.set_trust(
                    d.as_str(),
                    trusted,
                    self.hooks[self.index].pkg_id.as_str(),
                );
                self.changed = self.changed || c;
                self.finish_hook()
            },
            Input::Saved => {
                if !matches!(self.phase, Phase::Saving) {
                    return self.abort(AuditError::OutOfOrder);
                }
                self.phase = Phase::Done;
                Action::Finish
            },
        }
    }
}


/// Every transition keeps the model's invariant.
pub proof fn lemma_next_inv(s: AuditState, e: Signal)
    requires
        s.inv(),
    ensures
        next(s, e).0.inv(),
{
}

/// A trusted digest stays trusted through any transition, and keeps every
/// package it was associated with.
pub proof fn lemma_trusted_stays(s: AuditState, e: Signal, d: Seq<char>, p: Seq<char>)
    requires
        s.inv(),
        trusted_in(s.ledger, d),
        record_or_default(s.ledger, d).1.contains(p),
    ensures
        trusted_in(next(s, e).0.ledger, d),
        record_or_default(next(s, e).0.ledger, d).1.contains(p),
{
}

/// A trusted digest stays trusted through any run, and keeps every package it
/// was associated with.
pub proof fn lemma_trusted_stays_in_run(s: AuditState, inputs: Seq<Signal>, d: Seq<char>, p: Seq<char>)
    requires
        s.inv(),
        trusted_in(s.ledger, d),
        record_or_default(s.ledger, d).1.contains(p),
    ensures
        run(s, inputs).0.inv(),
        trusted_in(run(s, inputs).0.ledger, d),
        record_or_default(run(s, inputs).0.ledger, d).1.contains(p),
    decreases inputs.len(),
{
    if inputs.len() > 0 {
        let t = next(s, inputs[0]).0;
        lemma_next_inv(s, inputs[0]);
        lemma_trusted_stays(s, inputs[0], d, p);
        lemma_trusted_stays_in_run(t, inputs.drop_first(), d, p);
    }
}

/// Once the package of the current hook has been reviewed and trusted with
/// digest `d`, any later hook with the same digest is let through without
/// editor or question, whatever came in between; afterwards both packages
/// are associates of `d`.
pub proof fn lemma_shared_digest_reviewed_once(s: AuditState, d: Seq<char>, between: Seq<Signal>)
    requires
        s.inv(),
        s.stage == Stage::Archiving(d, true),
    ensures
        ({
            let reviewed = s.pkg();
            let t = next(s, Signal::Archived).0;
            let u = run(t, between).0;
            u.stage == Stage::Reading ==> {
                let (w, a) = next(u, Signal::Digest(d));
                &&& a !is Edit
                &&& a !is Ask
                &&& record_or_default(w.ledger, d).1.contains(reviewed)
                &&& record_or_default(w.ledger, d).1.contains(u.pkg())
            }
        }),
{
    let reviewed = s.pkg();
    let t = next(s, Signal::Archived).0;
    lemma_next_inv(s, Signal::Archived);
    assert(record_or_default(t.ledger, d).1.contains(reviewed));
    lemma_trusted_stays_in_run(t, between, d, reviewed);
}

/// A transition keeps every digest of the ledger, with its associates.
pub proof fn lemma_next_keeps_records(s: AuditState, e: Signal)
    ensures
        forall|d: Seq<char>| #[trigger] s.ledger.contains_key(d) ==> {
            &&& next(s, e).0.ledger.contains_key(d)
            &&& s.ledger[d].1.subset_of(next(s, e).0.ledger[d].1)
        },
{
}

/// Over a run the ledger only grows: every digest stays, and keeps every
/// package it was associated with.
pub proof fn lemma_run_keeps_records(s: AuditState, inputs: Seq<Signal>)
    ensures
        forall|d: Seq<char>| #[trigger] s.ledger.contains_key(d) ==> {
            &&& run(s, inputs).0.ledger.contains_key(d)
            &&& s.ledger[d].1.subset_of(run(s, inputs).0.ledger[d].1)
        },
    decreases inputs.len(),
{
    if inputs.len() > 0 {
        let t = next(s, inputs[0]).0;
        lemma_next_keeps_records(s, inputs[0]);
        lemma_run_keeps_records(t, inputs.drop_first());
        assert forall|d: Seq<char>| #[trigger] s.ledger.contains_key(d) implies {
            &&& run(s, inputs).0.ledger.contains_key(d)
            &&& s.ledger[d].1.subset_of(run(s, inputs).0.ledger[d].1)
        } by {
            assert(t.ledger.contains_key(d));
        }
    }
}

/// Whether a record has changed never turns back to false.
pub proof fn lemma_changed_stays(s: AuditState, inputs: Seq<Signal>)
    requires
        s.changed,
    ensures
        run(s, inputs).0.changed,
    decreases inputs.len(),
{
    if inputs.len() > 0 {
        lemma_changed_stays(next(s, inputs[0]).0, inputs.drop_first());
    }
}

proof fn lemma_run_without_change(s: AuditState, inputs: Seq<Signal>)
    requires
        !run(s, inputs).0.changed,
    ensures
        forall|i: int| 0 <= i < run(s, inputs).1.len() ==> run(s, inputs).1[i] != Step::Save,
    decreases inputs.len(),
{
    if inputs.len() > 0 {
        let (t, a) = next(s, inputs[0]);
        if t.changed {
            lemma_changed_stays(t, inputs.drop_first());
        }
        lemma_run_without_change(t, inputs.drop_first());
        let steps = run(s, inputs).1;
        assert forall|i: int| 0 <= i < steps.len() implies steps[i] != Step::Save by {
            if i > 0 {
                assert(steps[i] == run(t, inputs.drop_first()).1[i - 1]);
            }
        }
    }
}

/// A run in which no record changed never asks for the ledger to be saved,
/// so the ledger file is left as it was.
pub proof fn lemma_unchanged_run_never_saves(
    ledger: LedgerView,
    hooks: Seq<(Seq<char>, Seq<char>)>,
    inputs: Seq<Signal>,
)
    ensures
        ({
            let (s0, a0) = begin(ledger, hooks);
            let (t, steps) = run(s0, inputs);
            !t.changed ==> a0 != Step::Save && forall|i: int|
                0 <= i < steps.len() ==> steps[i] != Step::Save
        }),
{
    let s0 = begin(ledger, hooks).0;
    if !run(s0, inputs).0.changed {
        lemma_run_without_change(s0, inputs);
    }
}

} // verus!
