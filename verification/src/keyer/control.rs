//! What the keyer thread decides between two waits.

use crate::keyer::config::KeyerConfig;
use crate::keyer::engine::{longest, EngineModel, KeyerEngine, KeyerOutput};
use crate::keyer::laws::run;
use crate::keyer::morse::text_elements;
use vstd::prelude::*;

verus! {

/// A command to the keyer thread.
#[derive(Debug)]
pub enum KeyerCommand {
    UpdateConfig(Box<KeyerConfig>),
    SendMacro(String),
    AbortMacro,
    Stop,
}

/// The engine after a command.
pub open spec fn commanded(m: EngineModel, command: KeyerCommand) -> EngineModel {
    match command {
        KeyerCommand::UpdateConfig(config) => EngineModel { config: *config, ..m },
        KeyerCommand::SendMacro(text) => EngineModel {
            text_queue: m.text_queue + text_elements(text@),
            text_sending: true,
            ..m
        },
        KeyerCommand::AbortMacro => m.text_aborted(),
        KeyerCommand::Stop => m,
    }
}

/// Carries a command out. Returns whether the thread goes on.
pub fn apply_command(engine: &mut KeyerEngine, command: KeyerCommand) -> (go_on: bool)
    ensures
        final(engine)@ == commanded(old(engine)@, command),
        go_on == !(command is Stop),
        old(engine)@.wf() ==> final(engine)@.wf(),
{
    match command {
        KeyerCommand::UpdateConfig(config) => {
            engine.update_config(*config);
            true
        },
        KeyerCommand::SendMacro(text) => {
            engine.send_text(text.as_str());
            true
        },
        KeyerCommand::AbortMacro => {
            engine.abort_text();
            true
        },
        KeyerCommand::Stop => false,
    }
}

/// Longest wait for paddles while the engine is doing something.
pub const ACTIVE_WAIT_MS: u64 = 1;

/// Longest wait for paddles while it is not.
pub const IDLE_WAIT_MS: u64 = 100;

/// Longest wait for a change of the paddles before the engine is to be ticked.
pub fn wait_timeout_ms(engine: &KeyerEngine) -> (ms: u64)
    ensures
        ms == if !(engine@.state is Idle) || engine@.ptt_active || engine@.text_queue.len() > 0 {
            ACTIVE_WAIT_MS
        } else {
            IDLE_WAIT_MS
        },
{
    if engine.is_active() {
        ACTIVE_WAIT_MS
    } else {
        IDLE_WAIT_MS
    }
}

/// Most ticks that are made up for at once.
pub const MAX_CATCH_UP_TICKS: u32 = 4;

/// What is to be done about the time that has passed.
#[derive(Debug, Clone, Copy, PartialEq, Eq, Structural)]
pub struct TickPlan {
    /// Number of ticks to run.
    pub ticks: u32,
    /// The rest of the time is given up: the next tick counts from now. Else it
    /// counts from the last tick.
    pub resync: bool,
}

/// Plans the ticks for the whole milliseconds since the last tick.
pub fn plan_ticks(passed_ms: u32) -> (plan: TickPlan)
    ensures
        plan.ticks == if passed_ms < MAX_CATCH_UP_TICKS {
            passed_ms
        } else {
            MAX_CATCH_UP_TICKS
        },
        plan.resync == (passed_ms > MAX_CATCH_UP_TICKS),
{
    if passed_ms > MAX_CATCH_UP_TICKS {
        TickPlan { ticks: MAX_CATCH_UP_TICKS, resync: true }
    } else {
        TickPlan { ticks: passed_ms, resync: false }
    }
}

/// The outputs of `n` ticks in order.
pub open spec fn outputs(m: EngineModel, n: nat) -> Seq<KeyerOutput>
    decreases n,
{
    if n == 0 {
        Seq::empty()
    } else {
        let before = outputs(m, (n - 1) as nat);
        match run(m, (n - 1) as nat).ticked().1 {
            Some(out) => before.push(out),
            None => before,
        }
    }
}

/// Runs `ticks` ticks and collects their outputs.
pub fn run_ticks(engine: &mut KeyerEngine, ticks: u32) -> (out: Vec<KeyerOutput>)
    requires
        old(engine)@.wf(),
        old(engine)@.elapsed + ticks * old(engine)@.tick + 2 * longest() <= u64::MAX,
    ensures
        final(engine)@ == run(old(engine)@, ticks as nat),
        out@ == outputs(old(engine)@, ticks as nat),
        final(engine)@.wf(),
{
    let ghost m = engine@;
    let mut out: Vec<KeyerOutput> = Vec::new();
    let mut i: u32 = 0;
    while i < ticks
        invariant
            i <= ticks,
            engine@ == run(m, i as nat),
            engine@.wf(),
            engine@.tick == m.tick,
            engine@.elapsed == m.elapsed + i * m.tick,
            m.elapsed + ticks * m.tick + 2 * longest() <= u64::MAX,
            out@ == outputs(m, i as nat),
        decreases ticks - i,
    {
        assert(i * m.tick + m.tick == (i + 1) * m.tick) by (nonlinear_arith);
        assert((i + 1) * m.tick <= ticks * m.tick) by (nonlinear_arith)
            requires
                i < ticks,
                m.tick > 0,
        ;
        let output: Option<KeyerOutput> = engine.tick();
        if let Some(o) = output {
            out.push(o);
        }
        proof {
            crate::keyer::laws::lemma_tick_keeps_clock(run(m, i as nat));
        }
        i = i + 1;
    }
    out
}

} // verus!
