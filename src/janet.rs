use vstd::prelude::*;

verus! {

/// A value of the interpreter: sixteen opaque bytes, held as two words.
#[derive(Clone, Copy, Debug, PartialEq, Eq, Structural)]
pub struct Janet {
    pub lo: u64,
    pub hi: u64,
}

impl Janet {
    /// The zeroed slot that an evaluation writes its result into.
    pub fn zeroed() -> (r: Janet)
        ensures
            r.lo == 0 && r.hi == 0,
    {
        Janet { lo: 0, hi: 0 }
    }
}

/// A binding environment of the interpreter, known by its address.
/// Address zero stands for "no environment".
#[derive(Clone, Copy, Debug, PartialEq, Eq, Structural)]
pub struct JanetTable {
    pub address: usize,
}

impl JanetTable {
    pub fn is_null(&self) -> (r: bool)
        ensures
            r == (self.address == 0),
    {
        self.address == 0
    }
}

/// Why the interpreter could not be used.
#[derive(Clone, Copy, Debug, PartialEq, Eq, Structural)]
pub enum RuntimeError {
    /// Global initialization reported failure.
    InitFailed,
    /// The core environment could not be obtained.
    NoCoreEnv,
    /// The source text holds a NUL character and cannot be handed over.
    InvalidSource,
    /// Compiling or running the source reported failure.
    EvalFailed,
}

impl RuntimeError {
    pub fn message(&self) -> (r: &'static str)
        ensures
            *self == RuntimeError::InitFailed ==> r@ == "Failed to initialize Janet runtime"@,
            *self == RuntimeError::NoCoreEnv ==> r@ == "Failed to get Janet core environment"@,
            *self == RuntimeError::InvalidSource ==> r@ == "Invalid string"@,
            *self == RuntimeError::EvalFailed ==> r@ == "Janet evaluation failed"@,
    {
        match self {
            RuntimeError::InitFailed => "Failed to initialize Janet runtime",
            RuntimeError::NoCoreEnv => "Failed to get Janet core environment",
            RuntimeError::InvalidSource => "Invalid string",
            RuntimeError::EvalFailed => "Janet evaluation failed",
        }
    }
}

/// The process-wide one-time initialization latch. Once `Initialized`, it
/// never goes back.
#[derive(Clone, Copy, Debug, PartialEq, Eq, Structural)]
pub enum InitLatch {
    Uninitialized,
    Initialized,
}

impl InitLatch {
    /// Whether global initialization still has to be performed.
    pub fn needs_init(&self) -> (r: bool)
        ensures
            r == (*self == InitLatch::Uninitialized),
    {
        match self {
            InitLatch::Uninitialized => true,
            InitLatch::Initialized => false,
        }
    }

    /// Records the status that global initialization returned: zero is
    /// success. A failure leaves the latch as it was, so a later attempt
    /// may retry.
    pub fn record_init(&mut self, status: i32) -> (r: Result<(), RuntimeError>)
        ensures
            status == 0 ==> *final(self) == InitLatch::Initialized && r == Ok::<
                (),
                RuntimeError,
            >(()),
            status != 0 ==> *final(self) == *old(self) && r == Err::<(), _>(
                RuntimeError::InitFailed,
            ),
            *old(self) == InitLatch::Initialized ==> *final(self) == InitLatch::Initialized,
    {
        if status == 0 {
            *self = InitLatch::Initialized;
            Ok(())
        } else {
            Err(RuntimeError::InitFailed)
        }
    }
}

/// A handle on one interpreter environment.
///
/// `owns_global` says whether this handle is entitled to tear the global
/// interpreter state down when it goes away.
#[derive(Clone, Copy, Debug, PartialEq, Eq, Structural)]
pub struct JanetRuntime {
    pub owns_global: bool,
    pub env: JanetTable,
}

/// A request to compile and run `source` in `env`, under the name `label`.
#[derive(Clone, Debug)]
pub struct EvalRequest {
    pub env: JanetTable,
    pub source: String,
    pub label: String,
}

/// What constructing a handle yields, given the latch and the core environment.
pub open spec fn construct(latch: InitLatch, env: JanetTable) -> Result<JanetRuntime, RuntimeError> {
    if latch == InitLatch::Uninitialized {
        Err(RuntimeError::InitFailed)
    } else if env.address == 0 {
        Err(RuntimeError::NoCoreEnv)
    } else {
        Ok(JanetRuntime { owns_global: false, env })
    }
}

/// The label under which every source text is submitted.
pub open spec fn source_label() -> Seq<char> {
    seq!['r', 'e', 'p', 'l']
}

/// `q` asks to run `code` in the environment of `rt`.
pub open spec fn request_for(q: EvalRequest, rt: JanetRuntime, code: Seq<char>) -> bool {
    q.env == rt.env && q.source@ == code && q.label@ == source_label()
}

impl JanetRuntime {
    /// Builds a handle once global initialization has been done and the core
    /// environment `env` has been obtained. The handle never owns the global
    /// state: other handles share it.
    pub fn new(latch: InitLatch, env: JanetTable) -> (r: Result<JanetRuntime, RuntimeError>)
        ensures
            r == construct(latch, env),
    {
        if latch.needs_init() {
            Err(RuntimeError::InitFailed)
        } else if env.is_null() {
            Err(RuntimeError::NoCoreEnv)
        } else {
            Ok(JanetRuntime { owns_global: false, env })
        }
    }

    /// Whether dropping this handle must deinitialize the interpreter.
    pub fn tears_down(&self) -> (r: bool)
        ensures
            r == self.owns_global,
    {
        self.owns_global
    }

    /// Prepares the evaluation of `code` in this handle's environment.
    /// Source text with a NUL character cannot be handed over and is refused.
    pub fn eval(&self, code: &str) -> (r: Result<EvalRequest, RuntimeError>)
        ensures
            code@.contains('\0') ==> r == Err::<EvalRequest, _>(RuntimeError::InvalidSource),
            !code@.contains('\0') ==> r is Ok && request_for(r->Ok_0, *self, code@),
    {
        let len = code.unicode_len();
        let mut i: usize = 0;
        while i < len
            invariant
                i <= len,
                len == code@.len(),
                forall|j: int| 0 <= j < i ==> code@[j] != '\0',
            decreases len - i,
        {
            if code.get_char(i) == '\0' {
                return Err(RuntimeError::InvalidSource);
            }
            i = i + 1;
        }
        proof {
            reveal_strlit("repl");
        }
        let label = String::from_str("repl");
        assert(label@ =~= source_label());
        Ok(EvalRequest { env: self.env, source: String::from_str(code), label })
    }
}

/// Interprets the status that an evaluation returned: zero is success.
pub fn eval_outcome(status: i32) -> (r: Result<(), RuntimeError>)
    ensures
        status == 0 <==> r is Ok,
        status != 0 ==> r == Err::<(), _>(RuntimeError::EvalFailed),
{
    if status == 0 {
        Ok(())
    } else {
        Err(RuntimeError::EvalFailed)
    }
}

} // verus!
