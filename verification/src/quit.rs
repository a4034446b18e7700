//! The course of a command-line run once its targets are known: announce
//! them, send each a quit request, wait, force-quit stragglers when asked to,
//! report, exit. The run asks for each piece of outside work (a request to an
//! app, a wait) and is told how it went.
use vstd::prelude::*;

use crate::apps::App;
use crate::cli::{
    announce, announcement, describe, description, escalate, escalation, escalation_notice,
    exit_status, summary, summary_line, Waits,
};
use crate::plan::string_views;
use crate::text::push_str;

verus! {

/// Where a run stands.
pub enum Stage {
    /// The quit request to target `next` is out.
    Sending { next: usize },
    /// Waiting for the apps that got a request to exit.
    FirstWait,
    /// The force-quit of `alive[next]` is out; `alive` are the apps still
    /// running after the first wait.
    Escalating { alive: Vec<usize>, next: usize },
    /// Waiting for the force-quit apps `waited` to exit.
    SecondWait { waited: Vec<usize> },
    /// The run is over.
    Finished,
}

/// The outside work a run asks for next.
pub enum Request {
    /// Ask target `target` to quit, or force-quit it; answer with `delivered`.
    Send { target: usize, force: bool },
    /// Wait up to `secs` seconds for the targets `targets` to exit; answer
    /// with `still_running`, one flag per target in that order.
    Wait { targets: Vec<usize>, secs: u64 },
    /// Exit with this status.
    Exit(u8),
}

/// What a run does at one step: lines to print, then a request.
pub struct Step {
    /// Lines for standard output.
    pub out: Vec<String>,
    /// Lines for standard error.
    pub err: Vec<String>,
    pub request: Request,
}

/// The answer a run waits for.
#[derive(PartialEq, Eq, Debug, Structural)]
pub enum Pending {
    /// Whether the last `Send` was delivered.
    Delivery,
    /// Which of the waited targets are still running.
    Running,
    /// Nothing: the run is over.
    Nothing,
}

/// The exit status for `failed` failures: 0 when none.
pub open spec fn status_of(failed: int) -> u8 {
    if failed == 0 {
        0
    } else {
        1
    }
}

/// The targets of `waited` whose flag in `flags` is set (a missing flag counts
/// as not running).
pub open spec fn still_alive(waited: Seq<usize>, flags: Seq<bool>) -> Seq<usize>
    decreases waited.len(),
{
    if waited.len() == 0 {
        Seq::empty()
    } else {
        let rest = still_alive(waited.drop_last(), flags);
        let k = waited.len() - 1;
        if k < flags.len() && flags[k] {
            rest.push(waited.last())
        } else {
            rest
        }
    }
}

/// The message for a quit request that could not be sent.
pub open spec fn not_sent_message(app: App) -> Seq<char> {
    "nuke: could not send quit to "@ + description(app)
}

/// The message for a force-quit that could not be sent.
pub open spec fn not_forced_message(app: App) -> Seq<char> {
    "nuke: could not force quit "@ + description(app)
}

/// The message for an app that outlived the waits.
pub open spec fn still_running_message(app: App) -> Seq<char> {
    "nuke: "@ + description(app) + " is still running (unsaved changes?)"@
}

/// The line when there is nothing to quit.
pub open spec fn nothing_message() -> Seq<char> {
    "Nothing to quit."@
}

/// A run of the command-line tool, from the first quit request to the exit.
pub struct QuitRun {
    targets: Vec<App>,
    force: bool,
    quiet: bool,
    no_wait: bool,
    waits: Waits,
    progress: Progress,
}

/// What changes during a run.
struct Progress {
    sent: Vec<usize>,
    failed: usize,
    stage: Stage,
}

impl QuitRun {
    #[verifier::type_invariant]
    closed spec fn wf(self) -> bool {
        let n = self.targets@.len();
        &&& forall|k: int| 0 <= k < self.progress.sent@.len() ==> #[trigger] self.progress.sent@[k] < n
        &&& match self.progress.stage {
            Stage::Sending { next } => next < n && self.progress.failed + self.progress.sent@.len() == next,
            Stage::FirstWait => self.progress.failed + self.progress.sent@.len() == n,
            Stage::Escalating { alive, next } => {
                &&& self.progress.failed + self.progress.sent@.len() == n
                &&& next < alive@.len() <= self.progress.sent@.len()
                &&& forall|k: int| 0 <= k < alive@.len() ==> #[trigger] alive@[k] < n
            },
            Stage::SecondWait { waited } => {
                &&& self.progress.failed + self.progress.sent@.len() == n
                &&& waited@.len() <= self.progress.sent@.len()
                &&& forall|k: int| 0 <= k < waited@.len() ==> #[trigger] waited@[k] < n
            },
            Stage::Finished => self.progress.failed <= n,
        }
    }

    /// The apps of the run, in order.
    pub closed spec fn targets(self) -> Seq<App> {
        self.targets@
    }

    /// The run was asked to force-quit from the start.
    pub closed spec fn force(self) -> bool {
        self.force
    }

    /// The run prints errors only.
    pub closed spec fn quiet(self) -> bool {
        self.quiet
    }

    /// The run does not wait for apps to exit.
    pub closed spec fn no_wait(self) -> bool {
        self.no_wait
    }

    /// How long the run waits.
    pub closed spec fn waits(self) -> Waits {
        self.waits
    }

    /// The targets whose quit request was delivered, in order.
    pub closed spec fn sent(self) -> Seq<usize> {
        self.progress.sent@
    }

    /// How many apps failed to quit so far.
    pub closed spec fn failed(self) -> nat {
        self.progress.failed as nat
    }

    /// Where the run stands.
    pub closed spec fn stage(self) -> Stage {
        self.progress.stage
    }

    /// The answer the run waits for.
    pub open spec fn spec_pending(self) -> Pending {
        match self.stage() {
            Stage::Sending { .. } => Pending::Delivery,
            Stage::Escalating { .. } => Pending::Delivery,
            Stage::FirstWait => Pending::Running,
            Stage::SecondWait { .. } => Pending::Running,
            Stage::Finished => Pending::Nothing,
        }
    }

    /// The answer the run waits for.
    pub fn pending(&self) -> (r: Pending)
        ensures
            r == self.spec_pending(),
    {
        match &self.progress.stage {
            Stage::Sending { .. } => Pending::Delivery,
            Stage::Escalating { .. } => Pending::Delivery,
            Stage::FirstWait => Pending::Running,
            Stage::SecondWait { .. } => Pending::Running,
            Stage::Finished => Pending::Nothing,
        }
    }

    /// Starts a run on `targets`: announces them (unless `quiet`, or always
    /// with `dry_run`), then asks for the first quit request, or exits at once
    /// when there is nothing to quit or on a dry run.
    pub fn start(
        targets: Vec<App>,
        dry_run: bool,
        force: bool,
        no_wait: bool,
        quiet: bool,
        waits: Waits,
    ) -> (r: (QuitRun, Step))
        ensures
            r.0.targets() == targets@,
            r.0.force() == force,
            r.0.quiet() == quiet,
            r.0.no_wait() == no_wait,
            r.0.waits() == waits,
            r.0.sent().len() == 0,
            r.0.failed() == 0,
            r.1.err@.len() == 0,
            targets@.len() == 0 ==> {
                &&& string_views(r.1.out@) == (if quiet {
                    Seq::empty()
                } else {
                    seq![nothing_message()]
                })
                &&& r.1.request == Request::Exit(0)
                &&& r.0.stage() is Finished
            },
            targets@.len() > 0 ==> {
                &&& string_views(r.1.out@) == (if !quiet || dry_run {
                    targets@.map_values(|a: App| announcement(force, a))
                } else {
                    Seq::empty()
                })
                &&& dry_run ==> r.1.request == Request::Exit(0) && r.0.stage() is Finished
                &&& !dry_run ==> r.1.request == Request::Send { target: 0, force }
                    && r.0.stage() == Stage::Sending { next: 0 }
            },
    {
        let mut out: Vec<String> = Vec::new();
        let n = targets.len();
        if n == 0 {
            if !quiet {
                out.push(message("Nothing to quit."));
            }
            assert(string_views(out@) =~= (if quiet {
                Seq::empty()
            } else {
                seq![nothing_message()]
            }));
            let run = QuitRun {
                targets,
                force,
                quiet,
                no_wait,
                waits,
                progress: Progress { sent: Vec::new(), failed: 0, stage: Stage::Finished },
            };
            return (run, Step { out, err: Vec::new(), request: Request::Exit(0) });
        }
        if !quiet || dry_run {
            let mut i: usize = 0;
            while i < n
                invariant
                    n == targets@.len(),
                    i <= n,
                    string_views(out@) == targets@.take(i as int).map_values(
                        |a: App| announcement(force, a),
                    ),
                decreases n - i,
            {
                out.push(announce(force, &targets[i]));
                assert(targets@.take(i + 1).map_values(|a: App| announcement(force, a))
                    =~= targets@.take(i as int).map_values(|a: App| announcement(force, a)).push(
                    announcement(force, targets@[i as int]),
                ));
                assert(string_views(out@) =~= string_views(out@.drop_last()).push(out@.last()@));
                i = i + 1;
            }
            assert(targets@.take(n as int) =~= targets@);
        } else {
            assert(string_views(out@) =~= Seq::empty());
        }
        let (stage, request) = if dry_run {
            (Stage::Finished, Request::Exit(0))
        } else {
            (Stage::Sending { next: 0 }, Request::Send { target: 0, force })
        };
        let run = QuitRun {
            targets,
            force,
            quiet,
            no_wait,
            waits,
            progress: Progress { sent: Vec::new(), failed: 0, stage },
        };
        (run, Step { out, err: Vec::new(), request })
    }

    /// Takes whether the last `Send` reached its app. A failed quit request is
    /// reported and counted; the next target is asked, or, after the last one,
    /// the run exits (`no_wait`) or waits for the apps that got the request.
    /// During escalation, a failed force-quit is reported, and the next
    /// straggler is force-quit, or, after the last one, they are waited for.
    pub fn delivered(&mut self, ok: bool) -> (step: Step)
        requires
            old(self).spec_pending() == Pending::Delivery,
        ensures
            final(self).targets() == old(self).targets(),
            final(self).force() == old(self).force(),
            final(self).quiet() == old(self).quiet(),
            final(self).no_wait() == old(self).no_wait(),
            final(self).waits() == old(self).waits(),
            match old(self).stage() {
                Stage::Sending { next } => {
                    let n = old(self).targets().len();
                    let app = old(self).targets()[next as int];
                    &&& final(self).sent() == (if ok {
                        old(self).sent().push(next)
                    } else {
                        old(self).sent()
                    })
                    &&& final(self).failed() == old(self).failed() + (if ok {
                        0nat
                    } else {
                        1nat
                    })
                    &&& step.out@.len() == 0
                    &&& string_views(step.err@) == (if ok {
                        Seq::empty()
                    } else {
                        seq![not_sent_message(app)]
                    })
                    &&& if next + 1 < n {
                        &&& step.request == Request::Send {
                            target: (next + 1) as usize,
                            force: old(self).force(),
                        }
                        &&& final(self).stage() == Stage::Sending { next: (next + 1) as usize }
                    } else if old(self).no_wait() {
                        &&& step.request == Request::Exit(status_of(final(self).failed() as int))
                        &&& final(self).stage() is Finished
                    } else {
                        &&& step.request matches Request::Wait { targets, secs } && targets@
                            == final(self).sent() && secs == old(self).waits().wait
                        &&& final(self).stage() is FirstWait
                    }
                },
                Stage::Escalating { alive, next } => {
                    let app = old(self).targets()[alive@[next as int] as int];
                    &&& final(self).sent() == old(self).sent()
                    &&& final(self).failed() == old(self).failed()
                    &&& string_views(step.err@) == (if ok {
                        Seq::empty()
                    } else {
                        seq![not_forced_message(app)]
                    })
                    &&& if next + 1 < alive@.len() {
                        let following = old(self).targets()[alive@[next + 1] as int];
                        &&& string_views(step.out@) == (if old(self).quiet() {
                            Seq::empty()
                        } else {
                            seq![escalation_notice(following, old(self).waits().wait)]
                        })
                        &&& step.request == Request::Send {
                            target: alive@[next + 1],
                            force: true,
                        }
                        &&& final(self).stage() matches Stage::Escalating { alive: a, next: m }
                            && a@ == alive@ && m == next + 1
                    } else {
                        &&& step.out@.len() == 0
                        &&& step.request matches Request::Wait { targets, secs } && targets@
                            == alive@ && secs == old(self).waits().timeout
                        &&& final(self).stage() matches Stage::SecondWait { waited }
                            && waited@ == alive@
                    }
                },
                _ => false,
            },
    {
        proof {
            use_type_invariant(&*self);
        }
        let mut out: Vec<String> = Vec::new();
        let mut err: Vec<String> = Vec::new();
        match &self.progress.stage {
            Stage::Sending { next } => {
                let next = *next;
                let n = self.targets.len();
                let mut sent = self.progress.sent.clone();
                let mut failed = self.progress.failed;
                if ok {
                    sent.push(next);
                } else {
                    failed = failed + 1;
                    let mut m = message("nuke: could not send quit to ");
                    let d = describe(&self.targets[next]);
                    push_str(&mut m, d.as_str());
                    err.push(m);
                }
                assert(string_views(err@) =~= (if ok {
                    Seq::empty()
                } else {
                    seq![not_sent_message(self.targets@[next as int])]
                }));
                let (stage, request) = if next + 1 < n {
                    (Stage::Sending { next: next + 1 }, Request::Send { target: next + 1, force: self.force })
                } else if self.no_wait {
                    (Stage::Finished, Request::Exit(exit_status(failed)))
                } else {
                    (Stage::FirstWait, Request::Wait { targets: sent.clone(), secs: self.waits.wait })
                };
                self.progress = Progress { sent, failed, stage };
                Step { out, err, request }
            },
            Stage::Escalating { alive, next } => {
                let next = *next;
                let alive = alive.clone();
                if !ok {
                    let mut m = message("nuke: could not force quit ");
                    let d = describe(&self.targets[alive[next]]);
                    push_str(&mut m, d.as_str());
                    err.push(m);
                }
                assert(string_views(err@) =~= (if ok {
                    Seq::empty()
                } else {
                    seq![not_forced_message(self.targets@[alive@[next as int] as int])]
                }));
                let (stage, request) = if next + 1 < alive.len() {
                    if !self.quiet {
                        out.push(escalation(&self.targets[alive[next + 1]], self.waits.wait));
                    }
                    let target = alive[next + 1];
                    (Stage::Escalating { alive, next: next + 1 }, Request::Send { target, force: true })
                } else {
                    let waited = alive.clone();
                    (Stage::SecondWait { waited }, Request::Wait { targets: alive, secs: self.waits.timeout })
                };
                let sent = self.progress.sent.clone();
                self.progress = Progress { sent, failed: self.progress.failed, stage };
                Step { out, err, request }
            },
            _ => Step { out, err, request: Request::Exit(0) },
        }
    }

    /// Takes which of the waited targets are still running (one flag per
    /// waited target, in order). After the first wait, when `force_after` is
    /// set, the run did not force-quit from the start and some app is still
    /// running, the stragglers are force-quit one by one. Otherwise the run
    /// reports the apps still running as failures, prints the summary (unless
    /// `quiet`) and exits.
    pub fn still_running(&mut self, flags: &[bool]) -> (step: Step)
        requires
            old(self).spec_pending() == Pending::Running,
        ensures
            final(self).targets() == old(self).targets(),
            final(self).force() == old(self).force(),
            final(self).quiet() == old(self).quiet(),
            final(self).no_wait() == old(self).no_wait(),
            final(self).waits() == old(self).waits(),
            final(self).sent() == old(self).sent(),
            ({
                let waited = match old(self).stage() {
                    Stage::SecondWait { waited } => waited@,
                    _ => old(self).sent(),
                };
                let alive = still_alive(waited, flags@);
                let targets = old(self).targets();
                if old(self).stage() is FirstWait && alive.len() > 0 && old(self).waits().force_after is Some
                    && !old(self).force() {
                    &&& final(self).stage() matches Stage::Escalating { alive: a, next: m } && a@
                        == alive && m == 0
                    &&& final(self).failed() == old(self).failed()
                    &&& step.err@.len() == 0
                    &&& string_views(step.out@) == (if old(self).quiet() {
                        Seq::empty()
                    } else {
                        seq![escalation_notice(targets[alive[0] as int], old(self).waits().wait)]
                    })
                    &&& step.request == Request::Send { target: alive[0], force: true }
                } else {
                    &&& final(self).failed() == old(self).failed() + alive.len()
                    &&& string_views(step.err@) == alive.map_values(
                        |k: usize| still_running_message(targets[k as int]),
                    )
                    &&& string_views(step.out@) == (if old(self).quiet() {
                        Seq::empty()
                    } else {
                        seq![
                            summary_line(
                                (old(self).sent().len() - alive.len()) as u64,
                                targets.len() as u64,
                            ),
                        ]
                    })
                    &&& step.request == Request::Exit(status_of(final(self).failed() as int))
                    &&& final(self).stage() is Finished
                }
            }),
    {
        proof {
            use_type_invariant(&*self);
        }
        let n = self.targets.len();
        let first = match &self.progress.stage {
            Stage::FirstWait => true,
            _ => false,
        };
        let waited: Vec<usize> = match &self.progress.stage {
            Stage::SecondWait { waited } => waited.clone(),
            _ => self.progress.sent.clone(),
        };
        let mut alive: Vec<usize> = Vec::new();
        let mut i: usize = 0;
        while i < waited.len()
            invariant
                i <= waited@.len(),
                waited@.len() <= self.progress.sent@.len(),
                n == self.targets@.len(),
                forall|k: int| 0 <= k < waited@.len() ==> #[trigger] waited@[k] < n,
                alive@ == still_alive(waited@.take(i as int), flags@),
                alive@.len() <= i,
                forall|k: int| 0 <= k < alive@.len() ==> #[trigger] alive@[k] < n,
            decreases waited@.len() - i,
        {
            assert(waited@.take(i + 1).drop_last() =~= waited@.take(i as int));
            assert(waited@.take(i + 1).last() == waited@[i as int]);
            if i < flags.len() && flags[i] {
                alive.push(waited[i]);
            }
            i = i + 1;
        }
        assert(waited@.take(waited@.len() as int) =~= waited@);
        let mut out: Vec<String> = Vec::new();
        let mut err: Vec<String> = Vec::new();
        if first && escalate(alive.len(), self.waits.force_after, self.force) {
            if !self.quiet {
                out.push(escalation(&self.targets[alive[0]], self.waits.wait));
            }
            assert(string_views(out@) =~= (if self.quiet {
                Seq::empty()
            } else {
                seq![escalation_notice(self.targets@[alive@[0] as int], self.waits.wait)]
            }));
            let target = alive[0];
            let sent = self.progress.sent.clone();
            self.progress = Progress {
                sent,
                failed: self.progress.failed,
                stage: Stage::Escalating { alive, next: 0 },
            };
            return Step { out, err, request: Request::Send { target, force: true } };
        }
        let mut j: usize = 0;
        while j < alive.len()
            invariant
                j <= alive@.len(),
                n == self.targets@.len(),
                forall|k: int| 0 <= k < alive@.len() ==> #[trigger] alive@[k] < n,
                string_views(err@) == alive@.take(j as int).map_values(
                    |k: usize| still_running_message(self.targets@[k as int]),
                ),
            decreases alive@.len() - j,
        {
            let mut m = message("nuke: ");
            let d = describe(&self.targets[alive[j]]);
            push_str(&mut m, d.as_str());
            push_str(&mut m, " is still running (unsaved changes?)");
            err.push(m);
            assert(alive@.take(j + 1).map_values(|k: usize| still_running_message(self.targets@[k as int]))
                =~= alive@.take(j as int).map_values(
                |k: usize| still_running_message(self.targets@[k as int]),
            ).push(still_running_message(self.targets@[alive@[j as int] as int])));
            assert(string_views(err@) =~= string_views(err@.drop_last()).push(err@.last()@));
            j = j + 1;
        }
        assert(alive@.take(alive@.len() as int) =~= alive@);
        let failed = self.progress.failed + alive.len();
        if !self.quiet {
            out.push(summary(self.progress.sent.len() as u64, alive.len() as u64, n as u64));
        }
        assert(string_views(out@) =~= (if self.quiet {
            Seq::empty()
        } else {
            seq![
                summary_line(
                    (self.progress.sent@.len() - alive@.len()) as u64,
                    n as u64,
                ),
            ]
        }));
        let sent = self.progress.sent.clone();
        self.progress = Progress { sent, failed, stage: Stage::Finished };
        Step { out, err, request: Request::Exit(exit_status(failed)) }
    }
}

/// A fresh `String` holding `s`.
fn message(s: &str) -> (r: String)
    ensures
        r@ == s@,
{
    let mut r = String::new();
    push_str(&mut r, s);
    assert(r@ =~= s@);
    r
}

} // verus!
