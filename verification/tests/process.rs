//! The number of worker threads, and the way out.
use kcptun_std::runtime::{
    built_workers, parse_gomaxprocs, worker_threads_for, GOMAXPROCS, WORKER_NAME,
};
use kcptun_std::signal::{on_sigusr1, ExitHooks, ExitStep, Shutdown, EXIT_WAIT};
use std::cell::RefCell;
use std::rc::Rc;

/// Values that are used.
#[test]
fn test_parse_gomaxprocs_valid() {
    assert_eq!(parse_gomaxprocs("1"), Some(1));
    assert_eq!(parse_gomaxprocs("8"), Some(8));
    assert_eq!(parse_gomaxprocs("+8"), Some(8));
    assert_eq!(parse_gomaxprocs("0008"), Some(8));
    assert_eq!(parse_gomaxprocs("2147483647"), Some(2_147_483_647));
}

/// Values that are ignored.
#[test]
fn test_parse_gomaxprocs_invalid() {
    for s in [
        "",
        "+",
        "-",
        "abc",
        "4x",
        "0x4",
        "0o4",
        "1_0",
        " 4",
        "4 ",
        "4\n",
        "4.0",
        "2147483648",
        "99999999999",
        "0",
        "-1",
        "-2147483648",
    ] {
        assert_eq!(parse_gomaxprocs(s), None, "GOMAXPROCS={s:?}");
    }
}

/// A valid value wins; an invalid one and an unset variable both fall back to the CPU count.
#[test]
fn test_worker_threads_for() {
    let cpus = 12;
    assert_eq!(worker_threads_for(Some("3"), cpus), 3);
    assert_eq!(worker_threads_for(Some("1"), cpus), 1);

    assert_eq!(worker_threads_for(None, cpus), cpus);
    assert_eq!(worker_threads_for(Some(""), cpus), cpus);
    assert_eq!(worker_threads_for(Some("bogus"), cpus), cpus);
    assert_eq!(worker_threads_for(Some("0"), cpus), cpus);
    assert_eq!(worker_threads_for(Some("-2"), cpus), cpus);
}

#[test]
fn a_runtime_has_a_worker() {
    assert_eq!(built_workers(2), 2);
    assert_eq!(built_workers(0), 1);
    assert_eq!((GOMAXPROCS, WORKER_NAME), ("GOMAXPROCS", "kcptun-worker"));
}

// ---------------------------------------------------------------------------------------
// The exit hooks
// ---------------------------------------------------------------------------------------

type Hook = Box<dyn FnOnce()>;

/// The hooks of a test, shared with the hooks themselves.
type Registry = Rc<RefCell<ExitHooks<Hook>>>;

fn registry() -> Registry {
    Rc::new(RefCell::new(ExitHooks::new()))
}

/// Runs what is registered.
fn post_process(hooks: &Registry) {
    let taken = hooks.borrow_mut().post_process();
    for hook in taken {
        hook();
    }
}

#[test]
fn test_post_process_runs_hooks_in_order_once() {
    let hooks = registry();
    let ran = Rc::new(RefCell::new(Vec::new()));
    for name in ["first", "second", "third"] {
        let ran = Rc::clone(&ran);
        hooks
            .borrow_mut()
            .register_exit_hook(Box::new(move || ran.borrow_mut().push(name)));
    }
    assert!(ran.borrow().is_empty(), "hooks run on the signal only");

    post_process(&hooks);
    assert_eq!(*ran.borrow(), ["first", "second", "third"]);

    // A hook is consumed when it runs.
    post_process(&hooks);
    assert_eq!(*ran.borrow(), ["first", "second", "third"]);
}

/// A hook may register another one while it runs.
#[test]
fn test_exit_hook_may_register_another() {
    let hooks = registry();
    let ran = Rc::new(RefCell::new(Vec::new()));
    let ran_outer = Rc::clone(&ran);
    let again = Rc::clone(&hooks);
    hooks.borrow_mut().register_exit_hook(Box::new(move || {
        ran_outer.borrow_mut().push("outer");
        let ran_inner = Rc::clone(&ran_outer);
        again
            .borrow_mut()
            .register_exit_hook(Box::new(move || ran_inner.borrow_mut().push("inner")));
    }));

    post_process(&hooks);
    assert_eq!(*ran.borrow(), ["outer"]);
    post_process(&hooks);
    assert_eq!(*ran.borrow(), ["outer", "inner"]);
}

/// The hooks run first, then the fallback is armed, then the signal is re-raised.
#[test]
fn test_on_terminate_runs_hooks_then_terminates() {
    let hooks = registry();
    let events = Rc::new(RefCell::new(Vec::new()));
    let seen = Rc::clone(&events);
    hooks
        .borrow_mut()
        .register_exit_hook(Box::new(move || seen.borrow_mut().push("hook")));
    let mut shutdown = Shutdown::new();
    for step in shutdown.on_terminate() {
        match step {
            ExitStep::RunHooks => post_process(&hooks),
            ExitStep::ScheduleFallbackExit => events.borrow_mut().push("fallback exit"),
            ExitStep::ReraiseSigterm => events.borrow_mut().push("re-raise SIGTERM"),
        }
    }
    assert_eq!(
        *events.borrow(),
        ["hook", "fallback exit", "re-raise SIGTERM"]
    );

    // A second signal does not arm the fallback again.
    assert_eq!(
        shutdown.on_terminate(),
        [ExitStep::RunHooks, ExitStep::ReraiseSigterm]
    );
}

#[test]
fn test_exit_wait_matches_go() {
    assert_eq!(EXIT_WAIT, 5);
}

#[test]
fn the_counters_are_logged_behind_their_name() {
    assert_eq!(on_sigusr1("&{BytesSent:0}"), "KCP SNMP:&{BytesSent:0}");
}
