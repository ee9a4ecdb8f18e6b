//! Sandbox runtime: loads a portable bytecode module, validates it, and
//! interprets it under hard resource limits. The plugin's only
//! capabilities are reading its declared input bytes and appending to its
//! single output stream; it sees nothing else of the orchestrator.
//!
//! Module format: two magic bytes, then two bytes per instruction
//! (opcode, operand). Loading rejects anything else.

use vstd::prelude::*;

verus! {

/// First magic byte of a module.
pub const MAGIC_0: u8 = 0xa5;

/// Second magic byte of a module.
pub const MAGIC_1: u8 = 0x1d;

/// Opcode of `Emit`.
pub const OP_EMIT: u8 = 1;

/// Opcode of `EmitInput`.
pub const OP_EMIT_INPUT: u8 = 2;

/// Opcode of `Jump`.
pub const OP_JUMP: u8 = 3;

/// Opcode of `Exit`.
pub const OP_EXIT: u8 = 4;

/// One instruction of the sandboxed virtual machine.
#[derive(Clone, Copy, PartialEq, Eq, Structural)]
pub enum Instr {
    /// Append the operand byte to the output stream.
    Emit(u8),
    /// Append the input byte at the operand index; a read past the input
    /// is a trap.
    EmitInput(u8),
    /// Continue at the operand instruction index.
    Jump(u8),
    /// Stop with the operand as the plugin-reported status code.
    Exit(u8),
}

/// Resource limits of one execution.
#[derive(Clone, Copy, PartialEq, Eq, Structural)]
pub struct Limits {
    /// Executed instructions allowed before the run times out.
    pub max_steps: u64,
    /// Output bytes allowed before the run exceeds its space.
    pub max_output: u64,
}

/// Failures of the sandbox.
#[derive(Clone, Copy, Debug, PartialEq, Eq, Structural)]
pub enum SandboxError {
    /// The module failed structural validation and was never run.
    LoadError,
    /// The time (step) limit was exceeded; partial output is discarded.
    Timeout,
    /// The output (space) limit was exceeded; partial output is discarded.
    ResourceExceeded,
    /// The plugin trapped: bad jump, bad input read, or running off the
    /// end of the module.
    TrapFault,
}

/// What one successful execution produced.
pub struct ExecutionResult {
    /// The plugin-reported status: zero is success, nonzero is a
    /// plugin-reported failure (not itself a sandbox failure).
    pub exit_code: u8,
    /// The single captured output stream.
    pub output: Vec<u8>,
    /// Instructions executed, the measure of the run's duration.
    pub steps: u64,
}

/// The model of an execution's outcome.
pub enum RunModel {
    Done { exit_code: u8, output: Seq<u8>, steps: nat },
    Timeout,
    SpaceExceeded,
    Trap,
}

/// Decoding of the instruction area: two bytes per instruction, known
/// opcodes only.
pub open spec fn spec_decode(b: Seq<u8>) -> Option<Seq<Instr>>
    decreases b.len(),
{
    if b.len() == 0 {
        Some(Seq::<Instr>::empty())
    } else if b.len() == 1 {
        None
    } else {
        let op = b[0];
        let arg = b[1];
        match spec_decode(b.subrange(2, b.len() as int)) {
            None => None,
            Some(rest) => if op == OP_EMIT {
                Some(seq![Instr::Emit(arg)] + rest)
            } else if op == OP_EMIT_INPUT {
                Some(seq![Instr::EmitInput(arg)] + rest)
            } else if op == OP_JUMP {
                Some(seq![Instr::Jump(arg)] + rest)
            } else if op == OP_EXIT {
                Some(seq![Instr::Exit(arg)] + rest)
            } else {
                None
            },
        }
    }
}

/// Every jump target lies inside the module.
pub open spec fn jumps_in_range(prog: Seq<Instr>) -> bool {
    forall|i: int|
        0 <= i < prog.len() ==> match #[trigger] prog[i] {
            Instr::Jump(t) => (t as int) < prog.len(),
            _ => true,
        }
}

/// Structural validation of a module: magic bytes, a well-formed
/// instruction area, and in-range jump targets.
pub open spec fn spec_load(module: Seq<u8>) -> Option<Seq<Instr>> {
    if module.len() < 2 || module[0] != MAGIC_0 || module[1] != MAGIC_1 {
        None
    } else {
        match spec_decode(module.subrange(2, module.len() as int)) {
            None => None,
            Some(prog) => if jumps_in_range(prog) {
                Some(prog)
            } else {
                None
            },
        }
    }
}

/// Adds one executed step to a finished run.
pub open spec fn bump(r: RunModel) -> RunModel {
    match r {
        RunModel::Done { exit_code, output, steps } => RunModel::Done {
            exit_code,
            output,
            steps: steps + 1,
        },
        other => other,
    }
}

/// Small-step semantics of the machine, with `fuel` instructions left.
pub open spec fn spec_run(
    prog: Seq<Instr>,
    input: Seq<u8>,
    pc: nat,
    out: Seq<u8>,
    fuel: nat,
    max_out: nat,
) -> RunModel
    decreases fuel,
{
    if pc >= prog.len() {
        RunModel::Trap
    } else if fuel == 0 {
        RunModel::Timeout
    } else {
        match prog[pc as int] {
            Instr::Emit(x) => if out.len() >= max_out {
                RunModel::SpaceExceeded
            } else {
                bump(spec_run(prog, input, pc + 1, out.push(x), (fuel - 1) as nat, max_out))
            },
            Instr::EmitInput(i) => if i as int >= input.len() {
                RunModel::Trap
            } else if out.len() >= max_out {
                RunModel::SpaceExceeded
            } else {
                bump(
                    spec_run(
                        prog,
                        input,
                        pc + 1,
                        out.push(input[i as int]),
                        (fuel - 1) as nat,
                        max_out,
                    ),
                )
            },
            Instr::Jump(t) => bump(
                spec_run(prog, input, t as nat, out, (fuel - 1) as nat, max_out),
            ),
            Instr::Exit(c) => RunModel::Done { exit_code: c, output: out, steps: 1 },
        }
    }
}

/// The outcome the whole sandbox owes for a module and input under the
/// given limits.
pub open spec fn spec_execute(module: Seq<u8>, input: Seq<u8>, limits: Limits) -> Result<
    RunModel,
    SandboxError,
> {
    match spec_load(module) {
        None => Err(SandboxError::LoadError),
        Some(prog) => Ok(
            spec_run(
                prog,
                input,
                0,
                Seq::<u8>::empty(),
                limits.max_steps as nat,
                limits.max_output as nat,
            ),
        ),
    }
}

fn decode_from(b: &Vec<u8>, i: usize) -> (r: Option<Vec<Instr>>)
    requires
        i <= b.len(),
    ensures
        match spec_decode(b@.subrange(i as int, b@.len() as int)) {
            Some(is) => r matches Some(v) && v@ == is,
            None => r is None,
        },
    decreases b.len() - i,
{
    let ghost tail = b@.subrange(i as int, b@.len() as int);
    if i == b.len() {
        proof {
            assert(tail =~= Seq::<u8>::empty());
        }
        return Some(Vec::new());
    }
    if i + 1 == b.len() {
        return None;
    }
    let op = b[i];
    let arg = b[i + 1];
    proof {
        assert(tail[0] == b@[i as int]);
        assert(tail[1] == b@[i + 1]);
        assert(tail.subrange(2, tail.len() as int) =~= b@.subrange(i + 2, b@.len() as int));
    }
    let rest = decode_from(b, i + 2);
    match rest {
        None => None,
        Some(mut v) => {
            let ins = if op == OP_EMIT {
                Instr::Emit(arg)
            } else if op == OP_EMIT_INPUT {
                Instr::EmitInput(arg)
            } else if op == OP_JUMP {
                Instr::Jump(arg)
            } else if op == OP_EXIT {
                Instr::Exit(arg)
            } else {
                return None;
            };
            v.insert(0, ins);
            proof {
                assert(v@ =~= seq![ins] + v@.subrange(1, v@.len() as int));
            }
            Some(v)
        },
    }
}

/// Loads and validates a module; rejects with `LoadError` whatever fails
/// structural validation.
pub fn load(module: &Vec<u8>) -> (r: Result<Vec<Instr>, SandboxError>)
    ensures
        match spec_load(module@) {
            Some(prog) => r matches Ok(v) && v@ == prog,
            None => r matches Err(e) && e == SandboxError::LoadError,
        },
{
    if module.len() < 2 || module[0] != MAGIC_0 || module[1] != MAGIC_1 {
        return Err(SandboxError::LoadError);
    }
    let decoded = decode_from(module, 2);
    match decoded {
        None => Err(SandboxError::LoadError),
        Some(prog) => {
            let mut i: usize = 0;
            while i < prog.len()
                invariant
                    i <= prog@.len(),
                    module@.len() >= 2,
                    module@[0] == MAGIC_0,
                    module@[1] == MAGIC_1,
                    spec_decode(module@.subrange(2, module@.len() as int)) == Some(prog@),
                    forall|j: int|
                        0 <= j < i ==> match #[trigger] prog@[j] {
                            Instr::Jump(t) => (t as int) < prog@.len(),
                            _ => true,
                        },
                decreases prog@.len() - i,
            {
                if let Instr::Jump(t) = prog[i] {
                    if (t as usize) >= prog.len() {
                        proof {
                            assert(!jumps_in_range(prog@)) by {
                                assert(prog@[i as int] matches Instr::Jump(u) && (u as int)
                                    >= prog@.len());
                            }
                        }
                        return Err(SandboxError::LoadError);
                    }
                }
                i = i + 1;
            }
            Ok(prog)
        },
    }
}

/// Executes one loaded module under the limits; equal to the machine's
/// small-step semantics on every outcome. Partial output is returned only
/// on a completed run; a breached limit or a trap discards it.
pub fn execute(module: &Vec<u8>, input: &Vec<u8>, limits: Limits) -> (r: Result<
    ExecutionResult,
    SandboxError,
>)
    ensures
        match spec_execute(module@, input@, limits) {
            Err(e) => r matches Err(a) && a == e,
            Ok(model) => match model {
                RunModel::Done { exit_code, output, steps } => r matches Ok(res)
                    && res.exit_code == exit_code && res.output@ == output && res.steps == steps,
                RunModel::Timeout => r matches Err(a) && a == SandboxError::Timeout,
                RunModel::SpaceExceeded => r matches Err(a) && a == SandboxError::ResourceExceeded,
                RunModel::Trap => r matches Err(a) && a == SandboxError::TrapFault,
            },
        },
{
    let prog = match load(module) {
        Ok(p) => p,
        Err(e) => {
            return Err(e);
        },
    };
    let mut pc: usize = 0;
    let mut out: Vec<u8> = Vec::new();
    let mut fuel: u64 = limits.max_steps;
    let mut used: u64 = 0;
    let ghost prog0 = prog@;
    loop
        invariant
            prog@ == prog0,
            spec_load(module@) == Some(prog0),
            used == limits.max_steps - fuel,
            fuel <= limits.max_steps,
            spec_run(
                prog0,
                input@,
                0,
                Seq::<u8>::empty(),
                limits.max_steps as nat,
                limits.max_output as nat,
            ) == add_steps(
                spec_run(
                    prog0,
                    input@,
                    pc as nat,
                    out@,
                    fuel as nat,
                    limits.max_output as nat,
                ),
                used as nat,
            ),
        decreases fuel,
    {
        if pc >= prog.len() {
            return Err(SandboxError::TrapFault);
        }
        if fuel == 0 {
            return Err(SandboxError::Timeout);
        }
        let ghost pre_run = spec_run(
            prog0,
            input@,
            pc as nat,
            out@,
            fuel as nat,
            limits.max_output as nat,
        );
        match prog[pc] {
            Instr::Emit(x) => {
                if out.len() as u64 >= limits.max_output {
                    return Err(SandboxError::ResourceExceeded);
                }
                out.push(x);
                pc = pc + 1;
            },
            Instr::EmitInput(i) => {
                if (i as usize) >= input.len() {
                    return Err(SandboxError::TrapFault);
                }
                if out.len() as u64 >= limits.max_output {
                    return Err(SandboxError::ResourceExceeded);
                }
                out.push(input[i as usize]);
                pc = pc + 1;
            },
            Instr::Jump(t) => {
                pc = t as usize;
            },
            Instr::Exit(c) => {
                proof {
                    lemma_add_steps_compose(pre_run, used as nat);
                }
                return Ok(ExecutionResult { exit_code: c, output: out, steps: used + 1 });
            },
        }
        proof {
            lemma_add_steps_compose(pre_run, used as nat);
        }
        fuel = fuel - 1;
        used = used + 1;
    }
}

/// Adds `k` executed steps to a finished run.
pub open spec fn add_steps(r: RunModel, k: nat) -> RunModel {
    match r {
        RunModel::Done { exit_code, output, steps } => RunModel::Done {
            exit_code,
            output,
            steps: steps + k,
        },
        other => other,
    }
}

proof fn lemma_add_steps_compose(r: RunModel, k: nat)
    ensures
        add_steps(bump(r), k) == add_steps(r, k + 1),
        add_steps(r, 0) == r,
{
    match r {
        RunModel::Done { exit_code, output, steps } => {
        },
        _ => {
        },
    }
}

/// A completed run's output never exceeds the space limit.
pub proof fn lemma_run_output_len(
    prog: Seq<Instr>,
    input: Seq<u8>,
    pc: nat,
    out: Seq<u8>,
    fuel: nat,
    max_out: nat,
)
    requires
        out.len() <= max_out,
    ensures
        spec_run(prog, input, pc, out, fuel, max_out) matches RunModel::Done { output, .. }
            ==> output.len() <= max_out,
    decreases fuel,
{
    if pc < prog.len() && fuel > 0 {
        match prog[pc as int] {
            Instr::Emit(x) => {
                if out.len() < max_out {
                    lemma_run_output_len(prog, input, pc + 1, out.push(x), (fuel - 1) as nat, max_out);
                }
            },
            Instr::EmitInput(i) => {
                if (i as int) < input.len() && out.len() < max_out {
                    lemma_run_output_len(
                        prog, input, pc + 1, out.push(input[i as int]), (fuel - 1) as nat, max_out);
                }
            },
            Instr::Jump(t) => {
                lemma_run_output_len(prog, input, t as nat, out, (fuel - 1) as nat, max_out);
            },
            Instr::Exit(c) => {
            },
        }
    }
}

} // verus!
