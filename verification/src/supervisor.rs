//! Decisions of the process manager's run loop: when to start and stop the
//! backup scheduler, kill the process and stop running.

use vstd::prelude::*;
use crate::manager::ManagerState;

verus! {

/// What the run loop observed.
#[derive(Debug, Clone, PartialEq, Eq)]
pub enum LoopEvent {
    /// The cron schedule changed (`None`: backups disabled).
    CronChanged(Option<String>),
    /// The sender of schedule changes is gone.
    CronChannelClosed,
    /// The shutdown signal changed; `true` when a shutdown is requested.
    Shutdown(bool),
    /// The TigerBeetle process exited.
    ChildExited,
}

/// What the run loop must do, in order.
#[derive(Debug, Clone, PartialEq, Eq)]
pub enum LoopAction {
    /// Shut the running backup scheduler down.
    StopScheduler,
    /// Build and start a backup scheduler for this cron pattern.
    StartScheduler(String),
    /// Kill the process and wait for it.
    KillChild,
    /// Leave the loop.
    Exit,
}

/// State of the run loop's decisions.
#[derive(Debug)]
pub struct Supervisor {
    scheduler_running: bool,
    finished: bool,
}

/// `StopScheduler` when a scheduler runs, else nothing.
pub open spec fn stop_if(running: bool) -> Seq<LoopAction> {
    if running {
        seq![LoopAction::StopScheduler]
    } else {
        Seq::empty()
    }
}

/// The actions the loop takes on `ev` with a scheduler running or not.
pub open spec fn spec_actions(running: bool, ev: LoopEvent) -> Seq<LoopAction> {
    match ev {
        LoopEvent::CronChanged(s) => stop_if(running) + match s {
            Some(p) => seq![LoopAction::StartScheduler(p)],
            None => Seq::empty(),
        },
        LoopEvent::CronChannelClosed => seq![LoopAction::Exit],
        LoopEvent::Shutdown(requested) => if requested {
            stop_if(running) + seq![LoopAction::KillChild, LoopAction::Exit]
        } else {
            Seq::empty()
        },
        LoopEvent::ChildExited => stop_if(running) + seq![LoopAction::Exit],
    }
}

/// Whether the loop stops after `ev`.
pub open spec fn spec_exits(ev: LoopEvent) -> bool {
    match ev {
        LoopEvent::CronChanged(_) => false,
        LoopEvent::CronChannelClosed => true,
        LoopEvent::Shutdown(requested) => requested,
        LoopEvent::ChildExited => true,
    }
}

fn push_stop(out: &mut Vec<LoopAction>, running: bool)
    ensures
        final(out)@ == old(out)@ + stop_if(running),
{
    if running {
        out.push(LoopAction::StopScheduler);
    }
    assert(final(out)@ =~= old(out)@ + stop_if(running));
}

impl Supervisor {
    /// Whether a backup scheduler runs.
    pub closed spec fn scheduler_running(&self) -> bool {
        self.scheduler_running
    }

    /// Whether the loop has stopped.
    pub closed spec fn finished(&self) -> bool {
        self.finished
    }

    /// The state before the loop, and its first actions: a scheduler for
    /// the initial cron schedule, if one is set. The started process (OS
    /// process id `pid`) is recorded in `state` first, before any of these
    /// actions.
    pub fn start(state: &mut ManagerState, pid: Option<u32>, initial_cron: Option<String>) -> (r: (
        Supervisor,
        Vec<LoopAction>,
    ))
        ensures
            *final(state) == (ManagerState { process_running: true, pid, ..*old(state) }),
            !r.0.scheduler_running(),
            !r.0.finished(),
            r.1@ == match initial_cron {
                Some(p) => seq![LoopAction::StartScheduler(p)],
                None => Seq::<LoopAction>::empty(),
            },
    {
        state.process_started(pid);
        let mut actions: Vec<LoopAction> = Vec::new();
        match initial_cron {
            Some(p) => {
                actions.push(LoopAction::StartScheduler(p));
            },
            None => {},
        }
        proof {
            if initial_cron is None {
                assert(actions@ =~= Seq::<LoopAction>::empty());
            }
        }
        (Supervisor { scheduler_running: false, finished: false }, actions)
    }

    /// Record whether starting a scheduler succeeded.
    pub fn scheduler_started(&mut self, ok: bool)
        ensures
            final(self).scheduler_running() == ok,
            final(self).finished() == old(self).finished(),
    {
        self.scheduler_running = ok;
    }

    /// The actions to take on `ev`. Any running scheduler is stopped before
    /// a new one starts, before the process is killed and before the loop
    /// ends on the process's exit; a closed schedule channel ends the loop
    /// at once.
    pub fn on_event(&mut self, ev: LoopEvent) -> (actions: Vec<LoopAction>)
        requires
            !old(self).finished(),
        ensures
            actions@ == spec_actions(old(self).scheduler_running(), ev),
            final(self).finished() == spec_exits(ev),
            final(self).scheduler_running() == (match ev {
                LoopEvent::CronChannelClosed => old(self).scheduler_running(),
                LoopEvent::Shutdown(requested) => !requested && old(self).scheduler_running(),
                _ => false,
            }),
    {
        let mut out: Vec<LoopAction> = Vec::new();
        let running = self.scheduler_running;
        match ev {
            LoopEvent::CronChanged(s) => {
                push_stop(&mut out, running);
                self.scheduler_running = false;
                let ghost before = out@;
                match s {
                    Some(p) => {
                        out.push(LoopAction::StartScheduler(p));
                    },
                    None => {},
                }
                proof {
                    if s is None {
                        assert(out@ =~= before + Seq::<LoopAction>::empty());
                    }
                }
            },
            LoopEvent::CronChannelClosed => {
                out.push(LoopAction::Exit);
                self.finished = true;
            },
            LoopEvent::Shutdown(requested) => {
                if requested {
                    push_stop(&mut out, running);
                    out.push(LoopAction::KillChild);
                    out.push(LoopAction::Exit);
                    self.scheduler_running = false;
                    self.finished = true;
                    assert(out@ =~= stop_if(running) + seq![LoopAction::KillChild, LoopAction::Exit]);
                } else {
                    assert(out@ =~= Seq::<LoopAction>::empty());
                }
            },
            LoopEvent::ChildExited => {
                push_stop(&mut out, running);
                out.push(LoopAction::Exit);
                self.scheduler_running = false;
                self.finished = true;
            },
        }
        proof {
            assert(Seq::<LoopAction>::empty() + stop_if(running) =~= stop_if(running));
        }
        out
    }
}

/// A scheduler never outlives the loop: whenever the process exits or a
/// shutdown is requested, the actions stop any running scheduler before
/// the loop ends, and end the loop.
pub proof fn law_scheduler_stopped_before_exit(running: bool, ev: LoopEvent)
    requires
        ev is ChildExited || ev == LoopEvent::Shutdown(true),
    ensures
        spec_actions(running, ev).last() == LoopAction::Exit,
        running ==> spec_actions(running, ev)[0] == LoopAction::StopScheduler,
{
}

/// A change of the cron schedule rebuilds the scheduler without touching
/// the process: its actions neither kill the process nor end the loop.
pub proof fn law_schedule_change_keeps_process(running: bool, schedule: Option<String>)
    ensures
        forall|k: int|
            0 <= k < spec_actions(running, LoopEvent::CronChanged(schedule)).len() ==> {
                let a = #[trigger] spec_actions(running, LoopEvent::CronChanged(schedule))[k];
                a != LoopAction::KillChild && a != LoopAction::Exit
            },
{
}

} // verus!
