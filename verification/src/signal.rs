//! What happens on the way out: the exit hooks, and the steps after a termination signal.
use vstd::prelude::*;
use vstd::string::*;

verus! {

/// Maximum number of seconds to wait for the re-raised `SIGTERM` to end the process.
pub const EXIT_WAIT: u64 = 5;

/// The hooks to run when the process ends, in the order in which they were registered.
pub struct ExitHooks<H> {
    hooks: Vec<H>,
}

impl<H> ExitHooks<H> {
    /// The hooks that are registered.
    pub closed spec fn registered(self) -> Seq<H> {
        self.hooks@
    }

    /// No hook is registered.
    pub fn new() -> (h: ExitHooks<H>)
        ensures
            h.registered().len() == 0,
    {
        ExitHooks { hooks: Vec::new() }
    }

    /// Registers a hook behind those that are there.
    pub fn register_exit_hook(&mut self, hook: H)
        ensures
            final(self).registered() == old(self).registered().push(hook),
    {
        self.hooks.push(hook);
    }

    /// Takes out every hook, to be run in order. Each is handed out once, and one that is
    /// registered meanwhile waits for the next time.
    pub fn post_process(&mut self) -> (taken: Vec<H>)
        ensures
            taken@ == old(self).registered(),
            final(self).registered().len() == 0,
    {
        let mut taken: Vec<H> = Vec::new();
        std::mem::swap(&mut taken, &mut self.hooks);
        taken
    }
}

/// One step of ending the process.
#[derive(Debug, Clone, Copy, PartialEq, Eq)]
pub enum ExitStep {
    /// Run the exit hooks.
    RunHooks,
    /// Start the timer that ends the process after [`EXIT_WAIT`] seconds.
    ScheduleFallbackExit,
    /// Re-raise `SIGTERM` at its default disposition.
    ReraiseSigterm,
}

/// The way out. The fallback timer is started once, however many signals arrive.
#[derive(Debug)]
pub struct Shutdown {
    armed: bool,
}

/// The steps after a termination signal: the hooks come first, and the process is not told to die
/// before the timer that makes sure of it runs.
pub open spec fn exit_steps(armed: bool) -> Seq<ExitStep> {
    if armed {
        seq![ExitStep::RunHooks, ExitStep::ReraiseSigterm]
    } else {
        seq![ExitStep::RunHooks, ExitStep::ScheduleFallbackExit, ExitStep::ReraiseSigterm]
    }
}

impl Shutdown {
    /// Whether the fallback timer was started.
    pub closed spec fn is_armed(self) -> bool {
        self.armed
    }

    /// No signal has arrived.
    pub fn new() -> (s: Shutdown)
        ensures
            !s.is_armed(),
    {
        Shutdown { armed: false }
    }

    /// A termination signal has arrived: what is to be done, in order.
    pub fn on_terminate(&mut self) -> (steps: Vec<ExitStep>)
        ensures
            steps@ == exit_steps(old(self).is_armed()),
            final(self).is_armed(),
    {
        let mut steps: Vec<ExitStep> = Vec::new();
        steps.push(ExitStep::RunHooks);
        if !self.armed {
            self.armed = true;
            steps.push(ExitStep::ScheduleFallbackExit);
        }
        steps.push(ExitStep::ReraiseSigterm);
        assert(steps@ =~= exit_steps(old(self).is_armed()));
        steps
    }
}

/// The line that is logged for a snapshot of the counters.
pub fn on_sigusr1(snapshot: &str) -> (s: String)
    ensures
        s@ == "KCP SNMP:"@ + snapshot@,
{
    let mut s = "KCP SNMP:".to_owned();
    s.append(snapshot);
    s
}

/// The hooks run before anything else, the signal is re-raised after everything else, and the
/// fallback is armed in between unless it was armed before.
pub proof fn the_hooks_come_first_and_the_signal_last(armed: bool)
    ensures
        exit_steps(armed).first() == ExitStep::RunHooks,
        exit_steps(armed).last() == ExitStep::ReraiseSigterm,
        exit_steps(armed).contains(ExitStep::ScheduleFallbackExit) <==> !armed,
{
    if armed {
        assert forall|i: int| 0 <= i < 2 implies exit_steps(true)[i]
            != ExitStep::ScheduleFallbackExit by {}
    } else {
        assert(exit_steps(false)[1] == ExitStep::ScheduleFallbackExit);
    }
}

} // verus!
