use moesniper::lock::{lock_step, parse_holder_pid, LockAction, LockAttempt, LockEvent, SniperLock};

fn attempt() -> LockAttempt {
    LockAttempt {
        filepath: "f.txt".to_string(),
        lock_path: ".sniper/sniper.abc.lock".to_string(),
        timeout_secs: 30,
        timeout_nanos: 0,
        holder: None,
    }
}

#[test]
fn lock_holder_pid() {
    assert_eq!(parse_holder_pid(" 1234\n"), Some(1234));
    assert_eq!(parse_holder_pid("4294967296"), None);
    assert_eq!(parse_holder_pid("pid"), None);
}

#[test]
fn lock_steps() {
    let (_, a) = lock_step(attempt(), LockEvent::Created);
    assert!(matches!(a, LockAction::Acquired));
    let (_, a) = lock_step(attempt(), LockEvent::Busy { elapsed: Some((1, 0)) });
    assert!(matches!(a, LockAction::WaitAndRetry));
    let (_, a) = lock_step(attempt(), LockEvent::Busy { elapsed: Some((30, 1)) });
    assert!(matches!(a, LockAction::ReadHolder));
    let (_, a) = lock_step(attempt(), LockEvent::Busy { elapsed: None });
    assert!(matches!(a, LockAction::ReadHolder));
    let (st, a) = lock_step(attempt(), LockEvent::HolderText(Some("99999".to_string())));
    assert!(matches!(a, LockAction::CheckAlive(99999)));
    assert_eq!(st.holder, Some(99999));
    let (_, a) = lock_step(st, LockEvent::HolderAlive(false));
    assert!(matches!(a, LockAction::RemoveAndRetry));
}

#[test]
fn lock_failures() {
    let mut st = attempt();
    st.holder = Some(42);
    match lock_step(st, LockEvent::HolderAlive(true)).1 {
        LockAction::Fail(m) => assert_eq!(
            m,
            "timeout: another sniper process (PID 42) is editing f.txt (lock held for >30s; lock file: \".sniper/sniper.abc.lock\")"
        ),
        _ => panic!("expected a failure"),
    }
    match lock_step(attempt(), LockEvent::HolderText(None)).1 {
        LockAction::Fail(m) => assert!(m.starts_with("timeout: another sniper process (PID unknown)")),
        _ => panic!("expected a failure"),
    }
    match lock_step(attempt(), LockEvent::OpenFailed("Permission denied".to_string())).1 {
        LockAction::Fail(m) => assert_eq!(m, "lock acquire for f.txt: Permission denied"),
        _ => panic!("expected a failure"),
    }
    let lock = SniperLock { lock_path: "x".to_string() };
    assert_eq!(lock.lock_path, "x");
}
