//! The convergence controller: when to compile again, and when to stop.
//!
//! Typesetting with cross-references needs an unknown number of compiler
//! passes: each pass writes a side-output file, and only when two
//! consecutive passes produce byte-identical side-output has the document
//! converged.  [`NeedsBuildChecker`] is the state machine behind that loop.
//! It performs no I/O itself: the caller runs the compiler and reads the
//! side-output file, and feeds both results back in as plain values, so
//! every decision here is verified.
//!
//! The loop is hardened with a configurable ceiling on the number of
//! passes: a side-output that never stabilises (a pathological
//! cross-reference cycle can oscillate forever) ends in
//! [`Phase::ConvergenceTimeout`] instead of looping indefinitely.

use vstd::prelude::*;

use crate::error::Error;
use crate::rebuild::needs_rebuild;
use crate::rebuild::rebuild_result;
use crate::snapshot::missing_at;
use crate::snapshot::Snapshot;
use vstd::utf8::encode_utf8;
use vstd::utf8::valid_utf8;

verus! {

/// Where the controller stands.
pub enum Phase {
    /// Constructed; sources not yet examined.
    Initial,
    /// A compiler pass should be run.
    NeedsAnotherPass,
    /// A pass succeeded; the side-output file should be read.
    AwaitingSideOutput,
    /// Two consecutive passes agreed (or no work was needed): done.
    Converged,
    /// The compiler reported failure, or sources could not be examined.
    Failed,
    /// The ceiling was reached before the side-output stabilised.
    ConvergenceTimeout,
}

/// The convergence state machine.  The caller drives it:
/// [`NeedsBuildChecker::check_sources`] once, then alternately
/// [`NeedsBuildChecker::on_pass_result`] and
/// [`NeedsBuildChecker::on_side_output`] while
/// [`NeedsBuildChecker::needs_build`] answers `true`.
pub struct NeedsBuildChecker {
    /// The side-output bytes of the previous pass; `None` before the first
    /// pass of a project never built.
    pub old_aux: Option<Vec<u8>>,
    /// How many compiler passes have been run.
    pub iterations: u64,
    /// The most passes ever to run; at least one.
    pub max_passes: u64,
    /// Where the controller stands.
    pub phase: Phase,
    /// What the compiler printed on the most recent pass; kept for
    /// diagnostics when it fails.
    pub last_output: Vec<u8>,
}

impl NeedsBuildChecker {
    /// The controller never exceeds its ceiling, and asks for a pass only
    /// while strictly below it.
    pub open spec fn inv(self) -> bool {
        &&& self.max_passes >= 1
        &&& self.iterations <= self.max_passes
        &&& self.phase is NeedsAnotherPass ==> self.iterations < self.max_passes
        &&& self.phase is Initial ==> self.iterations == 0
    }

    /// The caller should run a compiler pass now.
    pub open spec fn wants_pass(self) -> bool {
        self.phase is NeedsAnotherPass
    }

    /// The loop is over.
    pub open spec fn is_terminal(self) -> bool {
        self.phase is Converged || self.phase is Failed || self.phase is ConvergenceTimeout
    }

    /// Create a controller.  `old_aux` holds the side-output bytes as they
    /// were before any pass (absent when the file does not exist: the
    /// project was never built); `max_passes` is the pass ceiling.
    pub fn new(old_aux: Option<Vec<u8>>, max_passes: u64) -> (r: NeedsBuildChecker)
        requires
            max_passes >= 1,
        ensures
            r.old_aux == old_aux,
            r.iterations == 0,
            r.max_passes == max_passes,
            r.phase is Initial,
            r.last_output@ == Seq::<u8>::empty(),
            r.inv(),
    {
        NeedsBuildChecker {
            old_aux,
            iterations: 0,
            max_passes,
            phase: Phase::Initial,
            last_output: Vec::new(),
        }
    }

    /// Examine the sources once, before any compiler pass: if the artifact
    /// is missing or any dependency is newer, a pass is required; if
    /// everything is up to date, the controller converges with zero
    /// passes; and an error examining the sources is fatal.
    pub fn check_sources(&mut self, fs: &Snapshot, artifact: usize, deps: &Vec<usize>) -> (r:
        Result<bool, Error>)
        requires
            old(self).inv(),
            old(self).phase is Initial,
            fs.wf(),
            (artifact as int) < fs.nodes@.len(),
            forall|k: int|
                #![trigger deps@[k]]
                0 <= k < deps@.len() ==> (deps@[k] as int) < fs.nodes@.len(),
        ensures
            rebuild_result(fs.nodes@, artifact, deps@, r),
            final(self).inv(),
            match r {
                Ok(true) => *final(self) == (NeedsBuildChecker {
                    phase: Phase::NeedsAnotherPass,
                    ..*old(self)
                }),
                Ok(false) => *final(self) == (NeedsBuildChecker {
                    phase: Phase::Converged,
                    ..*old(self)
                }),
                Err(_) => *final(self) == (NeedsBuildChecker { phase: Phase::Failed, ..*old(self) }),
            },
    {
        match needs_rebuild(fs, artifact, deps) {
            Ok(true) => {
                self.phase = Phase::NeedsAnotherPass;
                Ok(true)
            },
            Ok(false) => {
                self.phase = Phase::Converged;
                Ok(false)
            },
            Err(e) => {
                self.phase = Phase::Failed;
                Err(e)
            },
        }
    }

    /// What recording a pass result does to the state.
    pub open spec fn step_pass(self, success: bool, output: Vec<u8>) -> NeedsBuildChecker {
        NeedsBuildChecker {
            iterations: (self.iterations + 1) as u64,
            phase: if success {
                Phase::AwaitingSideOutput
            } else {
                Phase::Failed
            },
            last_output: output,
            ..self
        }
    }

    /// Record that a compiler pass ran: its success flag and captured
    /// output.  A failed pass is fatal — the loop does not retry.
    pub fn on_pass_result(&mut self, success: bool, output: Vec<u8>)
        requires
            old(self).inv(),
            old(self).phase is NeedsAnotherPass,
        ensures
            *final(self) == old(self).step_pass(success, output),
            final(self).inv(),
    {
        self.iterations = self.iterations + 1;
        self.last_output = output;
        self.phase = if success {
            Phase::AwaitingSideOutput
        } else {
            Phase::Failed
        };
    }

    /// What recording a side-output read does to the state.
    ///
    /// Identical bytes mean convergence.  Different bytes mean another
    /// pass, unless the ceiling is reached.  An unreadable side-output is
    /// "no change yet" on the very first pass of a never-built project,
    /// and convergence otherwise — the deliberate fail-safe that keeps the
    /// loop from spinning on a file it can never read.
    pub open spec fn step_side(self, read: Option<Vec<u8>>) -> NeedsBuildChecker {
        match read {
            Option::None => {
                if self.old_aux is None && self.iterations == 1 {
                    if self.iterations >= self.max_passes {
                        NeedsBuildChecker { phase: Phase::ConvergenceTimeout, ..self }
                    } else {
                        NeedsBuildChecker { phase: Phase::NeedsAnotherPass, ..self }
                    }
                } else {
                    NeedsBuildChecker { phase: Phase::Converged, ..self }
                }
            },
            Option::Some(bytes) => {
                if self.old_aux matches Some(prev) && prev@ == bytes@ {
                    NeedsBuildChecker { phase: Phase::Converged, ..self }
                } else if self.iterations >= self.max_passes {
                    NeedsBuildChecker {
                        phase: Phase::ConvergenceTimeout,
                        old_aux: Some(bytes),
                        ..self
                    }
                } else {
                    NeedsBuildChecker {
                        phase: Phase::NeedsAnotherPass,
                        old_aux: Some(bytes),
                        ..self
                    }
                }
            },
        }
    }

    /// Record what reading the side-output file after a successful pass
    /// gave: its bytes, or `None` when it could not be read.
    pub fn on_side_output(&mut self, read: Option<Vec<u8>>)
        requires
            old(self).inv(),
            old(self).phase is AwaitingSideOutput,
        ensures
            *final(self) == old(self).step_side(read),
            final(self).inv(),
    {
        match read {
            None => {
                if self.old_aux.is_none() && self.iterations == 1 {
                    if self.iterations >= self.max_passes {
                        self.phase = Phase::ConvergenceTimeout;
                    } else {
                        self.phase = Phase::NeedsAnotherPass;
                    }
                } else {
                    self.phase = Phase::Converged;
                }
            },
            Some(bytes) => {
                let same = match &self.old_aux {
                    Some(prev) => bytes_equal(prev, &bytes),
                    None => false,
                };
                if same {
                    self.phase = Phase::Converged;
                } else {
                    self.old_aux = Some(bytes);
                    if self.iterations >= self.max_passes {
                        self.phase = Phase::ConvergenceTimeout;
                    } else {
                        self.phase = Phase::NeedsAnotherPass;
                    }
                }
            },
        }
    }

    /// Should the caller run (another) compiler pass?
    pub fn needs_build(&self) -> (r: bool)
        ensures
            r == self.wants_pass(),
    {
        matches!(self.phase, Phase::NeedsAnotherPass)
    }

    /// The captured output of the most recent pass, as text: what a
    /// caller shows the user when the compiler fails.  Bytes that are not
    /// valid text are an [`Error::Encoding`].
    pub fn last_output_text(&self) -> (r: Result<String, Error>)
        ensures
            r is Ok <==> valid_utf8(self.last_output@),
            r matches Ok(s) ==> encode_utf8(s@) == self.last_output@,
            r matches Err(e) ==> e == Error::Encoding,
    {
        decode_output(&self.last_output)
    }
}

/// Relies on `String::from_utf8`: it succeeds exactly on valid UTF-8 and
/// returns the string holding those very bytes.
#[verifier::external_body]
fn decode_output(bytes: &Vec<u8>) -> (r: Result<String, Error>)
    ensures
        r is Ok <==> valid_utf8(bytes@),
        r matches Ok(s) ==> encode_utf8(s@) == bytes@,
        r matches Err(e) ==> e == Error::Encoding,
{
    match String::from_utf8(bytes.clone()) {
        Ok(s) => Ok(s),
        Err(_) => Err(Error::Encoding),
    }
}

/// Byte-for-byte comparison of two side-output captures.
pub fn bytes_equal(a: &Vec<u8>, b: &Vec<u8>) -> (r: bool)
    ensures
        r == (a@ == b@),
{
    if a.len() != b.len() {
        assert(a@ != b@) by {
            assert(a@.len() != b@.len());
        }
        return false;
    }
    let mut i: usize = 0;
    while i < a.len()
        invariant
            a@.len() == b@.len(),
            i <= a@.len(),
            forall|j: int| 0 <= j < i ==> a@[j] == b@[j],
        decreases a@.len() - i,
    {
        if a[i] != b[i] {
            return false;
        }
        i += 1;
    }
    proof {
        assert(a@ =~= b@);
    }
    true
}

/// The project can be built only when its entry file exists.
pub fn can_build(fs: &Snapshot, entry: usize) -> (r: Result<(), Error>)
    requires
        (entry as int) < fs.nodes@.len(),
    ensures
        r == if missing_at(fs.nodes@, entry as int) {
            Err::<(), Error>(Error::NoEntry)
        } else {
            Ok::<(), Error>(())
        },
{
    if matches!(&fs.nodes[entry], crate::snapshot::Node::Missing { .. }) {
        Err(Error::NoEntry)
    } else {
        Ok(())
    }
}

/// The state after driving the controller through a sequence of rounds,
/// each a successful compiler pass followed by one side-output read, for
/// as long as the controller keeps asking for passes.
pub open spec fn run_rounds(c: NeedsBuildChecker, reads: Seq<Option<Vec<u8>>>) -> NeedsBuildChecker
    decreases reads.len(),
{
    if reads.len() == 0 || !c.wants_pass() {
        c
    } else {
        run_rounds(c.step_pass(true, c.last_output).step_side(reads[0]), reads.drop_first())
    }
}

/// The pass ceiling really bounds the loop: however the side-output file
/// behaves — even oscillating between two values forever — once the
/// ceiling's worth of rounds has run, the controller no longer asks for a
/// pass, and a controller that was asking for one has reached a terminal
/// state.
pub proof fn lemma_ceiling_terminates(c: NeedsBuildChecker, reads: Seq<Option<Vec<u8>>>)
    requires
        c.inv(),
        reads.len() >= c.max_passes - c.iterations,
    ensures
        c.inv() ==> run_rounds(c, reads).inv(),
        !run_rounds(c, reads).wants_pass(),
        run_rounds(c, reads).iterations <= c.max_passes,
        c.wants_pass() ==> run_rounds(c, reads).is_terminal(),
    decreases reads.len(),
{
    if reads.len() == 0 || !c.wants_pass() {
    } else {
        let c1 = c.step_pass(true, c.last_output).step_side(reads[0]);
        assert(c1.inv());
        assert(c1.iterations == c.iterations + 1);
        if c1.wants_pass() {
            lemma_ceiling_terminates(c1, reads.drop_first());
        } else {
            lemma_ceiling_terminates(c1, reads.drop_first());
        }
    }
}

/// Convergence on stable output: once a pass has produced the bytes the
/// previous pass produced, the very next round converges — exactly one
/// pass beyond the pass that first produced those bytes.
pub proof fn lemma_stable_converges(c: NeedsBuildChecker, w: Vec<u8>)
    requires
        c.inv(),
        c.wants_pass(),
        c.old_aux matches Some(prev) && prev@ == w@,
    ensures
        run_rounds(c, seq![Some(w)]).phase is Converged,
        run_rounds(c, seq![Some(w)]).iterations == c.iterations + 1,
{
    let c1 = c.step_pass(true, c.last_output).step_side(Some(w));
    assert(c1.phase is Converged);
    assert(seq![Some(w)].drop_first().len() == 0);
    assert(run_rounds(c, seq![Some(w)]) == run_rounds(c1, seq![Some(w)].drop_first()));
}

} // verus!
