use vstd::prelude::*;
use crate::janet::{construct, request_for, EvalRequest, InitLatch, JanetRuntime, JanetTable, RuntimeError};

verus! {

/// The slot of the shared handle after a request for it.
pub open spec fn shared_after(
    shared: Option<JanetRuntime>,
    latch: InitLatch,
    env: JanetTable,
) -> Option<JanetRuntime> {
    match shared {
        Some(rt) => Some(rt),
        None => match construct(latch, env) {
            Ok(rt) => Some(rt),
            Err(_) => None,
        },
    }
}

/// What a request for the shared handle yields.
pub open spec fn shared_result(
    shared: Option<JanetRuntime>,
    latch: InitLatch,
    env: JanetTable,
) -> Result<JanetRuntime, RuntimeError> {
    match shared {
        Some(rt) => Ok(rt),
        None => construct(latch, env),
    }
}

/// Hands out the shared handle held in `shared`, which the caller guards with
/// a lock. The first request builds it from `latch` and `env` and keeps it for
/// every later one; a failed build leaves the slot empty.
pub fn with_shared_runtime(
    shared: &mut Option<JanetRuntime>,
    latch: InitLatch,
    env: JanetTable,
) -> (r: Result<JanetRuntime, RuntimeError>)
    ensures
        r == shared_result(*old(shared), latch, env),
        *final(shared) == shared_after(*old(shared), latch, env),
{
    match shared {
        Some(rt) => Ok(*rt),
        None => {
            let built = JanetRuntime::new(latch, env);
            if let Ok(rt) = built {
                *shared = Some(rt);
            }
            built
        },
    }
}

/// Once a request for the shared handle has succeeded, every later request
/// yields that same handle, whatever latch and environment it is given.
pub proof fn lemma_shared_handle_persists(
    shared: Option<JanetRuntime>,
    latch: InitLatch,
    env: JanetTable,
    later_latch: InitLatch,
    later_env: JanetTable,
)
    requires
        shared_result(shared, latch, env) is Ok,
    ensures
        shared_result(shared_after(shared, latch, env), later_latch, later_env) == shared_result(
            shared,
            latch,
            env,
        ),
        shared_after(shared_after(shared, latch, env), later_latch, later_env) == shared_after(
            shared,
            latch,
            env,
        ),
{
}

/// Prepares the evaluation of `code` on the shared handle, building the
/// handle first if there is none yet.
pub fn eval_shared(
    shared: &mut Option<JanetRuntime>,
    latch: InitLatch,
    env: JanetTable,
    code: &str,
) -> (r: Result<EvalRequest, RuntimeError>)
    ensures
        *final(shared) == shared_after(*old(shared), latch, env),
        match shared_result(*old(shared), latch, env) {
            Ok(rt) => if code@.contains('\0') {
                r == Err::<EvalRequest, _>(RuntimeError::InvalidSource)
            } else {
                r is Ok && request_for(r->Ok_0, rt, code@)
            },
            Err(e) => r == Err::<EvalRequest, _>(e),
        },
{
    match with_shared_runtime(shared, latch, env) {
        Ok(rt) => rt.eval(code),
        Err(e) => Err(e),
    }
}

} // verus!
