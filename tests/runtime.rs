use jan::{eval_outcome, eval_shared, with_shared_runtime, InitLatch, Janet, JanetRuntime, JanetTable, RuntimeError};

const ENV: JanetTable = JanetTable { address: 0x1000 };
const NULL_ENV: JanetTable = JanetTable { address: 0 };

#[test]
fn latch_records_success_and_never_reverts() {
    let mut latch = InitLatch::Uninitialized;
    assert!(latch.needs_init());
    assert_eq!(latch.record_init(3), Err(RuntimeError::InitFailed));
    assert_eq!(latch, InitLatch::Uninitialized);
    assert_eq!(latch.record_init(0), Ok(()));
    assert_eq!(latch, InitLatch::Initialized);
    assert!(!latch.needs_init());
    let _ = latch.record_init(1);
    assert_eq!(latch, InitLatch::Initialized);
}

#[test]
fn construction_needs_init_and_an_environment() {
    assert_eq!(JanetRuntime::new(InitLatch::Uninitialized, ENV), Err(RuntimeError::InitFailed));
    assert_eq!(JanetRuntime::new(InitLatch::Initialized, NULL_ENV), Err(RuntimeError::NoCoreEnv));
    let rt = JanetRuntime::new(InitLatch::Initialized, ENV).unwrap();
    assert_eq!(rt.env, ENV);
    assert!(!rt.tears_down());
}

#[test]
fn eval_prepares_a_request() {
    let rt = JanetRuntime::new(InitLatch::Initialized, ENV).unwrap();
    let req = rt.eval("(print 42)").unwrap();
    assert_eq!(req.env, ENV);
    assert_eq!(req.source, "(print 42)");
    assert_eq!(req.label, "repl");
    assert_eq!(rt.eval("(print \"a\0b\")").unwrap_err(), RuntimeError::InvalidSource);
}

#[test]
fn eval_status_is_interpreted() {
    assert_eq!(eval_outcome(0), Ok(()));
    assert_eq!(eval_outcome(1), Err(RuntimeError::EvalFailed));
    assert_eq!(eval_outcome(-1), Err(RuntimeError::EvalFailed));
}

#[test]
fn shared_runtime_is_built_once() {
    let mut shared: Option<JanetRuntime> = None;
    assert_eq!(with_shared_runtime(&mut shared, InitLatch::Uninitialized, ENV), Err(RuntimeError::InitFailed));
    assert_eq!(shared, None);
    let first = with_shared_runtime(&mut shared, InitLatch::Initialized, ENV).unwrap();
    assert_eq!(shared, Some(first));
    let other = JanetTable { address: 0x2000 };
    let second = with_shared_runtime(&mut shared, InitLatch::Initialized, other).unwrap();
    assert_eq!(second, first);
    assert_eq!(second.env, ENV);
}

#[test]
fn shared_state_persists_across_calls() {
    let mut shared: Option<JanetRuntime> = None;
    let def = eval_shared(&mut shared, InitLatch::Initialized, ENV, "(def x 5)").unwrap();
    let print = eval_shared(&mut shared, InitLatch::Initialized, NULL_ENV, "(print x)").unwrap();
    assert_eq!(def.env, print.env);
    assert_eq!(print.source, "(print x)");
    assert_eq!(
        eval_shared(&mut None, InitLatch::Initialized, NULL_ENV, "(print 1)").unwrap_err(),
        RuntimeError::NoCoreEnv
    );
}

#[test]
fn error_messages() {
    assert_eq!(RuntimeError::InitFailed.message(), "Failed to initialize Janet runtime");
    assert_eq!(RuntimeError::NoCoreEnv.message(), "Failed to get Janet core environment");
    assert_eq!(RuntimeError::InvalidSource.message(), "Invalid string");
    assert_eq!(RuntimeError::EvalFailed.message(), "Janet evaluation failed");
}

#[test]
fn zeroed_value_slot() {
    assert_eq!(Janet::zeroed(), Janet { lo: 0, hi: 0 });
    assert!(NULL_ENV.is_null());
    assert!(!ENV.is_null());
}
