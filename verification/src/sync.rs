//! The synchronization engine: computing the install/remove delta between the
//! desired package set and the installed package set, and the apply state
//! machine that drives the package-operations collaborator with fail-fast or
//! continue-on-error semantics.

use vstd::prelude::*;

use crate::{PackageList, PackageView};

verus! {

/// The character sequences of a vector of names.
pub open spec fn names_of(v: Seq<String>) -> Seq<Seq<char>> {
    v.map_values(|s: String| s@)
}

/// The names of the packages in a list, in order, duplicates kept.
pub open spec fn list_names(l: Seq<PackageView>) -> Seq<Seq<char>> {
    l.map_values(|p: PackageView| p.name)
}

/// Whether `v` holds a string equal to `name`.
fn vec_contains_name(v: &Vec<String>, name: &String) -> (r: bool)
    ensures
        r == names_of(v@).contains(name@),
{
    let mut i: usize = 0;
    while i < v.len()
        invariant
            i <= v@.len(),
            forall|j: int| 0 <= j < i ==> names_of(v@)[j] != name@,
        decreases v@.len() - i,
    {
        if v[i].eq(name) {
            assert(names_of(v@)[i as int] == name@);
            return true;
        }
        i = i + 1;
    }
    false
}

/// Whether the list holds a package whose name equals `name`.
fn list_contains_name(l: &PackageList, name: &String) -> (r: bool)
    ensures
        r == list_names(l@).contains(name@),
{
    let mut i: usize = 0;
    while i < l.packages.len()
        invariant
            i <= l.packages@.len(),
            forall|j: int| 0 <= j < i ==> list_names(l@)[j] != name@,
        decreases l.packages@.len() - i,
    {
        if l.packages[i].name.eq(name) {
            assert(list_names(l@)[i as int] == name@);
            return true;
        }
        i = i + 1;
    }
    false
}

/// One step of deduplicated set difference: pushing a fresh element that is
/// in the source but not excluded extends the accumulated characterization by
/// one source position.
proof fn lemma_dedup_push(
    acc: Seq<Seq<char>>,
    x: Seq<char>,
    src: Seq<Seq<char>>,
    i: int,
    excl: Seq<Seq<char>>,
)
    requires
        0 <= i < src.len(),
        x == src[i],
        !excl.contains(x),
        forall|n: Seq<char>| #[trigger]
            acc.contains(n) <==> src.take(i).contains(n) && !excl.contains(n),
    ensures
        forall|n: Seq<char>| #[trigger]
            acc.push(x).contains(n) <==> src.take(i + 1).contains(n) && !excl.contains(n),
{
    assert forall|n: Seq<char>| #[trigger]
        acc.push(x).contains(n) implies src.take(i + 1).contains(n) && !excl.contains(n) by {
        let a = acc.push(x);
        let k = choose|k: int| 0 <= k < a.len() && a[k] == n;
        if k < acc.len() {
            assert(acc[k] == n);
            assert(acc.contains(n));
            assert(src.take(i).contains(n));
            let m = choose|m: int| 0 <= m < src.take(i).len() && src.take(i)[m] == n;
            assert(src.take(i + 1)[m] == n);
            assert(src.take(i + 1).contains(n));
        } else {
            assert(n == x);
            assert(src.take(i + 1)[i] == n);
            assert(src.take(i + 1).contains(n));
        }
    }
    assert forall|n: Seq<char>|
        src.take(i + 1).contains(n) && !excl.contains(n) implies #[trigger] acc.push(x).contains(
        n,
    ) by {
        let t = src.take(i + 1);
        let m = choose|m: int| 0 <= m < t.len() && t[m] == n;
        if m < i {
            assert(src.take(i)[m] == n);
            assert(src.take(i).contains(n));
            assert(acc.contains(n));
            let k = choose|k: int| 0 <= k < acc.len() && acc[k] == n;
            assert(acc.push(x)[k] == n);
            assert(acc.push(x).contains(n));
        } else {
            assert(n == x);
            assert(acc.push(x)[acc.len() as int] == n);
            assert(acc.push(x).contains(n));
        }
    }
}

/// One step of deduplicated set difference: skipping an element that is
/// excluded or already accumulated leaves the characterization intact.
proof fn lemma_dedup_skip(
    acc: Seq<Seq<char>>,
    x: Seq<char>,
    src: Seq<Seq<char>>,
    i: int,
    excl: Seq<Seq<char>>,
)
    requires
        0 <= i < src.len(),
        x == src[i],
        excl.contains(x) || acc.contains(x),
        forall|n: Seq<char>| #[trigger]
            acc.contains(n) <==> src.take(i).contains(n) && !excl.contains(n),
    ensures
        forall|n: Seq<char>| #[trigger]
            acc.contains(n) <==> src.take(i + 1).contains(n) && !excl.contains(n),
{
    assert forall|n: Seq<char>|
        src.take(i + 1).contains(n) && !excl.contains(n) implies #[trigger] acc.contains(n) by {
        let t = src.take(i + 1);
        let m = choose|m: int| 0 <= m < t.len() && t[m] == n;
        if m < i {
            assert(src.take(i)[m] == n);
            assert(src.take(i).contains(n));
        } else {
            assert(n == x);
            assert(!excl.contains(x) && (excl.contains(x) || acc.contains(x)));
        }
    }
    assert forall|n: Seq<char>| #[trigger]
        acc.contains(n) implies src.take(i + 1).contains(n) && !excl.contains(n) by {
        assert(src.take(i).contains(n));
        let m = choose|m: int| 0 <= m < src.take(i).len() && src.take(i)[m] == n;
        assert(src.take(i + 1)[m] == n);
        assert(src.take(i + 1).contains(n));
    }
}

/// A fresh element keeps the accumulated names free of duplicates.
proof fn lemma_push_no_duplicates(acc: Seq<Seq<char>>, x: Seq<char>)
    requires
        acc.no_duplicates(),
        !acc.contains(x),
    ensures
        acc.push(x).no_duplicates(),
{
    assert forall|p: int, q: int|
        0 <= p < acc.push(x).len() && 0 <= q < acc.push(x).len() && p != q implies acc.push(x)[p]
        != acc.push(x)[q] by {
        if p < acc.len() && q < acc.len() {
        } else if p < acc.len() {
            assert(acc.push(x)[q] == x);
            if acc[p] == x {
                assert(acc.contains(x));
            }
        } else {
            assert(acc.push(x)[p] == x);
            if acc[q] == x {
                assert(acc.contains(x));
            }
        }
    }
}

/// Compute the delta between the desired list and the installed names:
/// `(to_install, to_remove)`. `to_install` holds exactly the desired names
/// that are not installed, `to_remove` exactly the installed names that are
/// not desired; both without duplicates. When the two sets of names agree,
/// both results are empty.
pub fn compute_delta(desired: &PackageList, installed: &Vec<String>) -> (delta: (
    Vec<String>,
    Vec<String>,
))
    ensures
        forall|n: Seq<char>| #[trigger]
            names_of(delta.0@).contains(n) <==> list_names(desired@).contains(n) && !names_of(
                installed@,
            ).contains(n),
        forall|n: Seq<char>| #[trigger]
            names_of(delta.1@).contains(n) <==> names_of(installed@).contains(n) && !list_names(
                desired@,
            ).contains(n),
        names_of(delta.0@).no_duplicates(),
        names_of(delta.1@).no_duplicates(),
{
    let ghost wanted = list_names(desired@);
    let ghost have = names_of(installed@);
    let mut to_install: Vec<String> = Vec::new();
    let mut i: usize = 0;
    while i < desired.packages.len()
        invariant
            i <= desired.packages@.len(),
            wanted == list_names(desired@),
            have == names_of(installed@),
            wanted.len() == desired.packages@.len(),
            names_of(to_install@).no_duplicates(),
            forall|n: Seq<char>| #[trigger]
                names_of(to_install@).contains(n) <==> wanted.take(i as int).contains(n)
                    && !have.contains(n),
        decreases desired.packages@.len() - i,
    {
        let name = &desired.packages[i].name;
        assert(wanted[i as int] == name@);
        let ghost acc = names_of(to_install@);
        if !vec_contains_name(installed, name) && !vec_contains_name(&to_install, name) {
            to_install.push(name.clone());
            proof {
                assert(names_of(to_install@) =~= acc.push(name@));
                lemma_dedup_push(acc, name@, wanted, i as int, have);
                lemma_push_no_duplicates(acc, name@);
            }
        } else {
            proof {
                lemma_dedup_skip(acc, name@, wanted, i as int, have);
            }
        }
        i = i + 1;
    }
    proof {
        assert(wanted.take(desired.packages@.len() as int) =~= wanted);
    }
    let mut to_remove: Vec<String> = Vec::new();
    let mut k: usize = 0;
    while k < installed.len()
        invariant
            k <= installed@.len(),
            wanted == list_names(desired@),
            have == names_of(installed@),
            have.len() == installed@.len(),
            names_of(to_remove@).no_duplicates(),
            forall|n: Seq<char>| #[trigger]
                names_of(to_remove@).contains(n) <==> have.take(k as int).contains(n)
                    && !wanted.contains(n),
        decreases installed@.len() - k,
    {
        let name = &installed[k];
        assert(have[k as int] == name@);
        let ghost acc = names_of(to_remove@);
        if !list_contains_name(desired, name) && !vec_contains_name(&to_remove, name) {
            to_remove.push(name.clone());
            proof {
                assert(names_of(to_remove@) =~= acc.push(name@));
                lemma_dedup_push(acc, name@, have, k as int, wanted);
                lemma_push_no_duplicates(acc, name@);
            }
        } else {
            proof {
                lemma_dedup_skip(acc, name@, have, k as int, wanted);
            }
        }
        k = k + 1;
    }
    proof {
        assert(have.take(installed@.len() as int) =~= have);
    }
    (to_install, to_remove)
}

// ---------------------------------------------------------------------------
// The apply state machine
// ---------------------------------------------------------------------------

/// One request handed to the package-operations collaborator.
#[derive(Debug)]
pub enum Action {
    Remove(Vec<String>),
    Install(Vec<String>),
}

/// The mathematical content of an [`Action`].
pub enum ActionView {
    Remove(Seq<Seq<char>>),
    Install(Seq<Seq<char>>),
}

impl View for Action {
    type V = ActionView;

    open spec fn view(&self) -> ActionView {
        match self {
            Action::Remove(v) => ActionView::Remove(names_of(v@)),
            Action::Install(v) => ActionView::Install(names_of(v@)),
        }
    }
}

/// A copy of a name vector whose strings equal the originals.
fn clone_names(v: &Vec<String>) -> (r: Vec<String>)
    ensures
        r@ == v@,
{
    let mut r: Vec<String> = Vec::new();
    let mut i: usize = 0;
    while i < v.len()
        invariant
            i <= v@.len(),
            r@.len() == i,
            forall|j: int| 0 <= j < i ==> r@[j] == v@[j],
        decreases v@.len() - i,
    {
        r.push(v[i].clone());
        i = i + 1;
    }
    proof {
        assert(r@ =~= v@);
    }
    r
}

/// The names joined by the separator, in order.
pub open spec fn join_names(names: Seq<Seq<char>>, sep: Seq<char>) -> Seq<char>
    decreases names.len(),
{
    if names.len() == 0 {
        Seq::<char>::empty()
    } else {
        join_names(names.drop_last(), sep) + (if names.len() == 1 {
            Seq::<char>::empty()
        } else {
            sep
        }) + names.last()
    }
}

/// The aggregated failure message: failed removals first, then failed
/// installs, each category only when nonempty, newline-terminated.
pub open spec fn failure_report(
    failed_removals: Seq<Seq<char>>,
    failed_installs: Seq<Seq<char>>,
) -> Seq<char> {
    (if failed_removals.len() > 0 {
        "Failed to remove packages: "@ + join_names(failed_removals, ", "@) + "\n"@
    } else {
        Seq::<char>::empty()
    }) + (if failed_installs.len() > 0 {
        "Failed to install packages: "@ + join_names(failed_installs, ", "@) + "\n"@
    } else {
        Seq::<char>::empty()
    })
}

/// Append the names joined by `", "` to `out`.
fn append_joined(out: &mut String, names: &Vec<String>)
    ensures
        final(out)@ == old(out)@ + join_names(names_of(names@), ", "@),
{
    proof {
        assert(old(out)@ + join_names(names_of(names@).take(0), ", "@) =~= old(out)@);
    }
    let mut i: usize = 0;
    while i < names.len()
        invariant
            i <= names@.len(),
            out@ == old(out)@ + join_names(names_of(names@).take(i as int), ", "@),
        decreases names@.len() - i,
    {
        if i > 0 {
            out.append(", ");
        }
        out.append(names[i].as_str());
        proof {
            let ns = names_of(names@);
            assert(ns.take(i + 1).drop_last() =~= ns.take(i as int));
            assert(ns.take(i + 1).last() == names@[i as int]@);
            assert(out@ =~= old(out)@ + join_names(ns.take(i + 1), ", "@));
        }
        i = i + 1;
    }
    proof {
        assert(names_of(names@).take(names@.len() as int) =~= names_of(names@));
    }
}

/// The apply run over a computed delta. The plan removes before it installs.
/// Under fail-fast each nonempty phase is one batch call, and a failed batch
/// ends the run with the later phase never attempted; under continue-on-error
/// each name is one call, a failure is recorded, and the run goes on to the
/// end. The caller performs each action it is handed and reports back whether
/// the call succeeded.
pub struct ApplyEngine {
    pub to_remove: Vec<String>,
    pub to_install: Vec<String>,
    pub continue_on_error: bool,
    pub pos: usize,
    pub failed_removals: Vec<String>,
    pub failed_installs: Vec<String>,
    pub remove_batch_failed: bool,
    pub install_batch_failed: bool,
}

impl ApplyEngine {
    /// How many collaborator calls the plan makes in all.
    pub open spec fn action_count(self) -> int {
        if self.continue_on_error {
            self.to_remove@.len() + self.to_install@.len() as int
        } else {
            (if self.to_remove@.len() > 0 {
                1int
            } else {
                0int
            }) + (if self.to_install@.len() > 0 {
                1int
            } else {
                0int
            })
        }
    }

    /// Whether a fail-fast batch has failed, which ends the run early.
    pub open spec fn aborted(self) -> bool {
        self.remove_batch_failed || self.install_batch_failed
    }

    pub open spec fn wf(self) -> bool {
        &&& 0 <= self.pos <= self.action_count()
        &&& self.to_remove@.len() + self.to_install@.len() <= usize::MAX
        &&& (!self.continue_on_error ==> self.failed_removals@.len() == 0
            && self.failed_installs@.len() == 0)
        &&& (self.continue_on_error ==> !self.remove_batch_failed && !self.install_batch_failed)
    }

    /// Whether the run is over: every planned call made, or a batch failed.
    pub open spec fn spec_done(self) -> bool {
        self.aborted() || self.pos == self.action_count()
    }

    /// The action planned at position `i`: removals first, then installs.
    pub open spec fn planned_action(self, i: int) -> ActionView {
        if self.continue_on_error {
            if i < self.to_remove@.len() {
                ActionView::Remove(seq![self.to_remove@[i]@])
            } else {
                ActionView::Install(seq![self.to_install@[i - self.to_remove@.len()]@])
            }
        } else {
            if i == 0 && self.to_remove@.len() > 0 {
                ActionView::Remove(names_of(self.to_remove@))
            } else {
                ActionView::Install(names_of(self.to_install@))
            }
        }
    }

    /// Whether the finished run reconciled everything it attempted.
    pub open spec fn succeeded(self) -> bool {
        !self.aborted() && self.failed_removals@.len() == 0 && self.failed_installs@.len() == 0
    }

    /// The error text of a failed run: a phase-failure message under
    /// fail-fast, else the aggregated per-package report.
    pub open spec fn outcome_message(self) -> Seq<char> {
        if self.remove_batch_failed {
            "Failed to remove some packages"@
        } else if self.install_batch_failed {
            "Failed to install some packages"@
        } else {
            failure_report(names_of(self.failed_removals@), names_of(self.failed_installs@))
        }
    }

    /// Start an apply run over the delta.
    pub fn new(to_remove: Vec<String>, to_install: Vec<String>, continue_on_error: bool) -> (e:
        ApplyEngine)
        requires
            to_remove@.len() + to_install@.len() <= usize::MAX,
        ensures
            e.wf(),
            e.to_remove@ == to_remove@,
            e.to_install@ == to_install@,
            e.continue_on_error == continue_on_error,
            e.pos == 0,
            e.failed_removals@.len() == 0,
            e.failed_installs@.len() == 0,
            !e.aborted(),
    {
        ApplyEngine {
            to_remove,
            to_install,
            continue_on_error,
            pos: 0,
            failed_removals: Vec::new(),
            failed_installs: Vec::new(),
            remove_batch_failed: false,
            install_batch_failed: false,
        }
    }

    /// Whether the run is over.
    pub fn done(&self) -> (r: bool)
        requires
            self.wf(),
        ensures
            r == self.spec_done(),
    {
        if self.remove_batch_failed || self.install_batch_failed {
            true
        } else if self.continue_on_error {
            self.pos >= self.to_remove.len() && self.pos - self.to_remove.len()
                >= self.to_install.len()
        } else {
            let rm: usize = if self.to_remove.len() > 0 {
                1
            } else {
                0
            };
            let ins: usize = if self.to_install.len() > 0 {
                1
            } else {
                0
            };
            self.pos >= rm + ins
        }
    }

    /// The next action to perform, or nothing when the run is over.
    pub fn next_action(&self) -> (a: Option<Action>)
        requires
            self.wf(),
        ensures
            match a {
                Some(act) => !self.spec_done() && act@ == self.planned_action(self.pos as int),
                None => self.spec_done(),
            },
    {
        if self.done() {
            return None;
        }
        if self.continue_on_error {
            if self.pos < self.to_remove.len() {
                let mut names: Vec<String> = Vec::new();
                names.push(self.to_remove[self.pos].clone());
                proof {
                    assert(names_of(names@) =~= seq![self.to_remove@[self.pos as int]@]);
                }
                Some(Action::Remove(names))
            } else {
                let idx = self.pos - self.to_remove.len();
                let mut names: Vec<String> = Vec::new();
                names.push(self.to_install[idx].clone());
                proof {
                    assert(names_of(names@) =~= seq![self.to_install@[idx as int]@]);
                }
                Some(Action::Install(names))
            }
        } else {
            if self.pos == 0 && self.to_remove.len() > 0 {
                Some(Action::Remove(clone_names(&self.to_remove)))
            } else {
                Some(Action::Install(clone_names(&self.to_install)))
            }
        }
    }

    /// How one recorded result changes the engine state: the position
    /// advances; a success changes nothing else; a failed name is recorded in
    /// its phase's failure list under continue-on-error; a failed batch marks
    /// its phase failed under fail-fast.
    pub open spec fn recorded(self, post: ApplyEngine, success: bool) -> bool {
        &&& post.to_remove == self.to_remove
        &&& post.to_install == self.to_install
        &&& post.continue_on_error == self.continue_on_error
        &&& post.pos == self.pos + 1
        &&& (success ==> post.failed_removals == self.failed_removals && post.failed_installs
            == self.failed_installs && !post.aborted())
        &&& (!success && self.continue_on_error ==> !post.aborted() && (if self.pos
            < self.to_remove@.len() {
            post.failed_removals@ == self.failed_removals@.push(self.to_remove@[self.pos as int])
                && post.failed_installs == self.failed_installs
        } else {
            post.failed_installs@ == self.failed_installs@.push(
                self.to_install@[self.pos - self.to_remove@.len()],
            ) && post.failed_removals == self.failed_removals
        }))
        &&& (!success && !self.continue_on_error ==> post.failed_removals@.len() == 0
            && post.failed_installs@.len() == 0 && (if self.pos == 0 && self.to_remove@.len()
            > 0 {
            post.remove_batch_failed && !post.install_batch_failed
        } else {
            post.install_batch_failed && !post.remove_batch_failed
        }))
    }

    /// Record whether the action at the current position succeeded. Under
    /// continue-on-error a failed name is recorded in its phase's failure
    /// list; under fail-fast a failed batch ends the run.
    pub fn record(&mut self, success: bool)
        requires
            old(self).wf(),
            !old(self).spec_done(),
        ensures
            final(self).wf(),
            old(self).recorded(*final(self), success),
    {
        if !success {
            if self.continue_on_error {
                if self.pos < self.to_remove.len() {
                    let name = self.to_remove[self.pos].clone();
                    self.failed_removals.push(name);
                } else {
                    let idx = self.pos - self.to_remove.len();
                    let name = self.to_install[idx].clone();
                    self.failed_installs.push(name);
                }
            } else {
                if self.pos == 0 && self.to_remove.len() > 0 {
                    self.remove_batch_failed = true;
                } else {
                    self.install_batch_failed = true;
                }
            }
        }
        self.pos = self.pos + 1;
    }

    /// The aggregated outcome of a finished run.
    pub fn outcome(&self) -> (r: Result<(), String>)
        requires
            self.wf(),
            self.spec_done(),
        ensures
            match r {
                Ok(u) => self.succeeded(),
                Err(m) => !self.succeeded() && m@ == self.outcome_message(),
            },
    {
        if self.remove_batch_failed {
            return Err("Failed to remove some packages".to_owned());
        }
        if self.install_batch_failed {
            return Err("Failed to install some packages".to_owned());
        }
        if self.failed_removals.len() == 0 && self.failed_installs.len() == 0 {
            return Ok(());
        }
        let mut msg = String::new();
        if self.failed_removals.len() > 0 {
            msg.append("Failed to remove packages: ");
            append_joined(&mut msg, &self.failed_removals);
            msg.append("\n");
        }
        if self.failed_installs.len() > 0 {
            msg.append("Failed to install packages: ");
            append_joined(&mut msg, &self.failed_installs);
            msg.append("\n");
        }
        proof {
            assert(msg@ =~= self.outcome_message());
        }
        Err(msg)
    }
}

/// The names among the first `i` whose paired result is a failure, in order.
pub open spec fn failed_prefix(names: Seq<Seq<char>>, results: Seq<bool>, i: int) -> Seq<Seq<char>>
    decreases i,
{
    if i <= 0 {
        Seq::<Seq<char>>::empty()
    } else {
        failed_prefix(names, results, i - 1) + (if results[i - 1] {
            Seq::<Seq<char>>::empty()
        } else {
            seq![names[i - 1]]
        })
    }
}

/// How many collaborator calls a full apply run makes.
pub open spec fn planned_call_count(n_remove: nat, n_install: nat, continue_on_error: bool) -> int {
    if continue_on_error {
        n_remove + n_install as int
    } else {
        (if n_remove > 0 {
            1int
        } else {
            0int
        }) + (if n_install > 0 {
            1int
        } else {
            0int
        })
    }
}

/// The outcome of a whole apply run, as a function of the delta, the failure
/// policy, and the success of each collaborator call in plan order. Under
/// fail-fast a failed remove batch ends the run with the install batch never
/// consulted; under continue-on-error every call is made and the failures are
/// aggregated into the report.
pub open spec fn spec_apply_outcome(
    to_remove: Seq<Seq<char>>,
    to_install: Seq<Seq<char>>,
    continue_on_error: bool,
    results: Seq<bool>,
) -> Result<(), Seq<char>> {
    if continue_on_error {
        let failed_removals = failed_prefix(to_remove, results, to_remove.len() as int);
        let failed_installs = failed_prefix(
            to_install,
            results.skip(to_remove.len() as int),
            to_install.len() as int,
        );
        if failed_removals.len() == 0 && failed_installs.len() == 0 {
            Ok(())
        } else {
            Err(failure_report(failed_removals, failed_installs))
        }
    } else {
        if to_remove.len() > 0 && !results[0] {
            Err("Failed to remove some packages"@)
        } else {
            let k: int = if to_remove.len() > 0 {
                1
            } else {
                0
            };
            if to_install.len() > 0 && !results[k] {
                Err("Failed to install some packages"@)
            } else {
                Ok(())
            }
        }
    }
}

/// Run a whole apply over the delta with the given call results, in plan
/// order: the result at each position answers the collaborator call the plan
/// makes there. Returns exactly what [`spec_apply_outcome`] says; under
/// fail-fast the results after a failed batch are never consulted.
pub fn apply_with_results(
    to_remove: Vec<String>,
    to_install: Vec<String>,
    continue_on_error: bool,
    results: &Vec<bool>,
) -> (r: Result<(), String>)
    requires
        to_remove@.len() + to_install@.len() <= usize::MAX,
        results@.len() >= planned_call_count(
            to_remove@.len(),
            to_install@.len(),
            continue_on_error,
        ),
    ensures
        ({
            let outcome = spec_apply_outcome(
                names_of(to_remove@),
                names_of(to_install@),
                continue_on_error,
                results@,
            );
            match r {
                Ok(u) => outcome == Result::<(), Seq<char>>::Ok(()),
                Err(m) => outcome is Err && m@ == outcome->Err_0,
            }
        }),
{
    let ghost rm_names = names_of(to_remove@);
    let ghost ins_names = names_of(to_install@);
    let ghost rm_len = to_remove@.len() as int;
    let ghost rm1: int = if to_remove@.len() > 0 {
        1int
    } else {
        0int
    };
    let mut engine = ApplyEngine::new(to_remove, to_install, continue_on_error);
    while !engine.done()
        invariant
            engine.wf(),
            names_of(engine.to_remove@) == rm_names,
            names_of(engine.to_install@) == ins_names,
            engine.to_remove@.len() == rm_len,
            engine.continue_on_error == continue_on_error,
            results@.len() >= engine.action_count(),
            rm1 == (if rm_len > 0 {
                1int
            } else {
                0int
            }),
            continue_on_error ==> !engine.aborted() && names_of(engine.failed_removals@)
                == failed_prefix(
                rm_names,
                results@,
                if engine.pos <= rm_len {
                    engine.pos as int
                } else {
                    rm_len
                },
            ) && names_of(engine.failed_installs@) == failed_prefix(
                ins_names,
                results@.skip(rm_len),
                if engine.pos <= rm_len {
                    0int
                } else {
                    engine.pos - rm_len
                },
            ),
            !continue_on_error ==> (engine.remove_batch_failed <==> (rm1 == 1 && engine.pos >= 1
                && !results@[0])),
            !continue_on_error ==> (engine.install_batch_failed <==> (engine.pos >= rm1 + 1
                && !results@[rm1])),
            !continue_on_error && engine.remove_batch_failed ==> engine.pos == 1,
        decreases engine.action_count() - engine.pos,
    {
        let ghost pre = engine;
        let success = results[engine.pos];
        engine.record(success);
        proof {
            if continue_on_error {
                if pre.pos < rm_len {
                    assert(failed_prefix(rm_names, results@, pre.pos + 1) == failed_prefix(
                        rm_names,
                        results@,
                        pre.pos as int,
                    ) + (if results@[pre.pos as int] {
                        Seq::<Seq<char>>::empty()
                    } else {
                        seq![rm_names[pre.pos as int]]
                    }));
                    if !success {
                        assert(names_of(engine.failed_removals@) =~= names_of(
                            pre.failed_removals@,
                        ).push(pre.to_remove@[pre.pos as int]@));
                        assert(rm_names[pre.pos as int] == pre.to_remove@[pre.pos as int]@);
                        assert(names_of(engine.failed_removals@) =~= failed_prefix(
                            rm_names,
                            results@,
                            pre.pos + 1,
                        ));
                    } else {
                        assert(names_of(engine.failed_removals@) =~= failed_prefix(
                            rm_names,
                            results@,
                            pre.pos + 1,
                        ));
                    }
                } else {
                    let idx = pre.pos - rm_len;
                    let tail = results@.skip(rm_len);
                    assert(tail[idx] == results@[pre.pos as int]);
                    assert(failed_prefix(ins_names, tail, idx + 1) == failed_prefix(
                        ins_names,
                        tail,
                        idx,
                    ) + (if tail[idx] {
                        Seq::<Seq<char>>::empty()
                    } else {
                        seq![ins_names[idx]]
                    }));
                    if !success {
                        assert(names_of(engine.failed_installs@) =~= names_of(
                            pre.failed_installs@,
                        ).push(pre.to_install@[idx]@));
                        assert(ins_names[idx] == pre.to_install@[idx]@);
                        assert(names_of(engine.failed_installs@) =~= failed_prefix(
                            ins_names,
                            tail,
                            idx + 1,
                        ));
                    } else {
                        assert(names_of(engine.failed_installs@) =~= failed_prefix(
                            ins_names,
                            tail,
                            idx + 1,
                        ));
                    }
                }
            }
        }
    }
    proof {
        if continue_on_error {
            assert(engine.pos == rm_len + engine.to_install@.len());
            assert(names_of(engine.failed_removals@) == failed_prefix(rm_names, results@, rm_len));
            assert(names_of(engine.failed_installs@) == failed_prefix(
                ins_names,
                results@.skip(rm_len),
                ins_names.len() as int,
            ));
        }
    }
    engine.outcome()
}

/// The removal phase runs before the install phase: once the plan reaches an
/// install action, every later action is an install as well.
pub proof fn lemma_removals_before_installs(e: ApplyEngine, i: int, j: int)
    requires
        0 <= i <= j < e.action_count(),
        e.planned_action(i) is Install,
    ensures
        e.planned_action(j) is Install,
{
}

/// Applying a computed delta reconciles the host, so a repeated apply with no
/// outside change is a no-op: when `first_install` and `first_remove` are the
/// delta between `wanted` and `installed` (as [`compute_delta`] states it),
/// and `now` is the installed set once those removals are gone and those
/// installs are present, then the delta between `wanted` and `now` is empty
/// on both sides.
pub proof fn lemma_second_apply_is_noop(
    wanted: Seq<Seq<char>>,
    installed: Seq<Seq<char>>,
    first_install: Seq<Seq<char>>,
    first_remove: Seq<Seq<char>>,
    now: Seq<Seq<char>>,
    second_install: Seq<Seq<char>>,
    second_remove: Seq<Seq<char>>,
)
    requires
        forall|n: Seq<char>| #[trigger]
            first_install.contains(n) <==> wanted.contains(n) && !installed.contains(n),
        forall|n: Seq<char>| #[trigger]
            first_remove.contains(n) <==> installed.contains(n) && !wanted.contains(n),
        forall|n: Seq<char>| #[trigger]
            now.contains(n) <==> (installed.contains(n) && !first_remove.contains(n))
                || first_install.contains(n),
        forall|n: Seq<char>| #[trigger]
            second_install.contains(n) <==> wanted.contains(n) && !now.contains(n),
        forall|n: Seq<char>| #[trigger]
            second_remove.contains(n) <==> now.contains(n) && !wanted.contains(n),
    ensures
        second_install.len() == 0,
        second_remove.len() == 0,
{
    assert(forall|n: Seq<char>| #[trigger] now.contains(n) <==> wanted.contains(n));
    if second_install.len() > 0 {
        assert(second_install.contains(second_install[0]));
    }
    if second_remove.len() > 0 {
        assert(second_remove.contains(second_remove[0]));
    }
}

} // verus!
