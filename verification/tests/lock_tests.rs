use flist::codec::{decode_lock, encode_lock};
use flist::lock::{
    acquire_or_forward, acquire_step, AcquireOutcome, AcquireStep, Lock, LockFile,
    LockedWithListener, LockedWithoutListener,
};

#[test]
fn stale_lock_is_reclaimed() {
    // a listenerless lock 61 seconds old is stale: the project is owned
    let now = 1_000_000;
    let existing = Some(Lock::WithoutListener(LockedWithoutListener { time_locked: now - 61 }));
    assert_eq!(acquire_or_forward(existing, now, false), AcquireOutcome::Owned);
}

#[test]
fn fresh_lock_is_refused() {
    // a listenerless lock 10 seconds old is honoured: startup is refused
    let now = 1_000_000;
    let existing = Some(Lock::WithoutListener(LockedWithoutListener { time_locked: now - 10 }));
    assert_eq!(acquire_or_forward(existing, now, false), AcquireOutcome::Refused(now - 10));
}

#[test]
fn boundary_of_the_grace_window() {
    let now = 1_000_000;
    let at_60 = Some(Lock::WithoutListener(LockedWithoutListener { time_locked: now - 60 }));
    assert_eq!(acquire_or_forward(at_60, now, false), AcquireOutcome::Owned);
    let at_59 = Some(Lock::WithoutListener(LockedWithoutListener { time_locked: now - 59 }));
    assert_eq!(acquire_or_forward(at_59, now, false), AcquireOutcome::Refused(now - 59));
}

#[test]
fn reachable_listener_forwards() {
    let existing = Some(Lock::WithListener(LockedWithListener {
        hostname: "127.0.0.1".to_string(),
        listener_port: 4321,
    }));
    assert_eq!(acquire_or_forward(existing, 5, true), AcquireOutcome::Forwarded);
}

#[test]
fn dead_listener_is_reclaimed() {
    let existing = Some(Lock::WithListener(LockedWithListener {
        hostname: "127.0.0.1".to_string(),
        listener_port: 4321,
    }));
    assert_eq!(acquire_or_forward(existing, 5, false), AcquireOutcome::Owned);
}

#[test]
fn no_record_means_owned() {
    assert_eq!(acquire_or_forward(None, 5, false), AcquireOutcome::Owned);
    assert_eq!(acquire_step(None, 5), AcquireStep::Fresh);
}

#[test]
fn listener_record_asks_for_a_probe() {
    let existing = Some(Lock::WithListener(LockedWithListener {
        hostname: "localhost".to_string(),
        listener_port: 80,
    }));
    assert_eq!(
        acquire_step(existing, 5),
        AcquireStep::TryForward { hostname: "localhost".to_string(), listener_port: 80 }
    );
}

#[test]
fn lock_file_names_record_and_path() {
    let (file, lock) = LockFile::new("/tmp/project", 42);
    assert_eq!(file.path, Some("/tmp/project/flist.lock".to_string()));
    match lock {
        Lock::WithoutListener(t) => assert_eq!(t.time_locked, 42),
        _ => panic!("expected a listenerless record"),
    }
    let upgraded = file.set_listener("127.0.0.1".to_string(), 9000);
    match upgraded {
        Lock::WithListener(l) => {
            assert_eq!(l.hostname, "127.0.0.1");
            assert_eq!(l.listener_port, 9000);
        },
        _ => panic!("expected a listener record"),
    }
}

#[test]
fn lock_encoding_is_exact() {
    let lock = Lock::with_listener("127.0.0.1".to_string(), 4321);
    assert_eq!(encode_lock(&lock), r#"{"hostname":"127.0.0.1","listener_port":4321}"#);
    let lock = Lock::without_listener(-7);
    assert_eq!(encode_lock(&lock), r#"{"time_locked":-7}"#);
    let lock = Lock::without_listener(0);
    assert_eq!(encode_lock(&lock), r#"{"time_locked":0}"#);
}

#[test]
fn lock_decoding_round_trips() {
    for lock in [
        Lock::with_listener("localhost".to_string(), 0),
        Lock::with_listener("::1".to_string(), 65535),
        Lock::without_listener(i64::MIN),
        Lock::without_listener(i64::MAX),
        Lock::without_listener(1_700_000_000),
    ] {
        let text = encode_lock(&lock);
        match (decode_lock(&text), &lock) {
            (Some(Lock::WithListener(a)), Lock::WithListener(b)) => {
                assert_eq!(a.hostname, b.hostname);
                assert_eq!(a.listener_port, b.listener_port);
            },
            (Some(Lock::WithoutListener(a)), Lock::WithoutListener(b)) => {
                assert_eq!(a.time_locked, b.time_locked);
            },
            _ => panic!("round trip failed for {}", text),
        }
    }
}

#[test]
fn malformed_lock_records_are_rejected() {
    for bad in [
        "",
        "{}",
        "not json",
        r#"{"hostname":"x"}"#,
        r#"{"listener_port":1}"#,
        r#"{"hostname":"x","listener_port":1,"time_locked":2}"#,
        r#"{"hostname":"x","time_locked":2}"#,
        r#"{"hostname":"x","listener_port":65536}"#,
        r#"{"hostname":"x","listener_port":-1}"#,
        r#"{"time_locked":9223372036854775808}"#,
        r#"{"hostname":"x","listener_port":1} trailing"#,
        r#"{"hostname":"x","hostname":"y","listener_port":1}"#,
    ] {
        assert!(decode_lock(bad).is_none(), "accepted: {}", bad);
    }
}

#[test]
fn lock_decoding_tolerates_whitespace() {
    let r = decode_lock(" {\n\t\"time_locked\" :\r 12 } ");
    match r {
        Some(Lock::WithoutListener(t)) => assert_eq!(t.time_locked, 12),
        _ => panic!("expected a listenerless record"),
    }
}
