//! A queued text goes out completely.

use crate::keyer::control::outputs;
use crate::keyer::engine::{EngineModel, KeyerOutput};
use crate::keyer::laws::{lemma_run_adds, run};
use crate::keyer::morse::{is_mark, lemma_text_is_well_spaced, text_elements, MorseElement};
use vstd::prelude::*;

verus! {

/// Free paddles in a mode that sends text, and nothing left of earlier presses.
pub open spec fn text_may_go_out(m: EngineModel) -> bool {
    &&& !(m.config.mode is Straight)
    &&& !m.dit_held && !m.dash_held && !m.dit_memory && !m.dash_memory
    &&& m.tick > 0
}

/// The engine is between two elements of a text.
pub open spec fn between_elements(m: EngineModel) -> bool {
    text_may_go_out(m) && m.state is Idle && !m.key_active
}

/// What the marks of a text ask of the transmitter once it is on: the key goes
/// down and up for each of them.
pub open spec fn keying(queue: Seq<MorseElement>) -> Seq<KeyerOutput>
    decreases queue.len(),
{
    if queue.len() == 0 {
        Seq::empty()
    } else if is_mark(queue[0]) {
        seq![KeyerOutput::KeyDown, KeyerOutput::KeyUp] + keying(queue.drop_first())
    } else {
        keying(queue.drop_first())
    }
}

/// The request for the transmitter, unless it is on already.
pub open spec fn request(m: EngineModel) -> Seq<KeyerOutput> {
    if m.ptt_active {
        Seq::empty()
    } else {
        seq![KeyerOutput::PttRequest(true)]
    }
}

proof fn lemma_outputs_add(m: EngineModel, a: nat, b: nat)
    ensures
        outputs(m, a + b) == outputs(m, a) + outputs(run(m, a), b),
    decreases b,
{
    if b == 0 {
        assert(outputs(m, a) + outputs(run(m, a), 0) =~= outputs(m, a));
    } else {
        let c = (b - 1) as nat;
        lemma_outputs_add(m, a, c);
        lemma_run_adds(m, a, c);
        assert(outputs(m, a + b) =~= outputs(m, a) + outputs(run(m, a), b));
    }
}

/// `n` ticks lead from `m` to `after` with these outputs.
#[verifier::opaque]
spec fn leads_to(m: EngineModel, n: nat, after: EngineModel, out: Seq<KeyerOutput>) -> bool {
    run(m, n) == after && outputs(m, n) == out
}

proof fn lemma_chain(
    m: EngineModel,
    a: nat,
    mid: EngineModel,
    first: Seq<KeyerOutput>,
    b: nat,
    after: EngineModel,
    second: Seq<KeyerOutput>,
)
    requires
        leads_to(m, a, mid, first),
        leads_to(mid, b, after, second),
    ensures
        leads_to(m, a + b, after, first + second),
{
    reveal(leads_to);
    lemma_run_adds(m, a, b);
    lemma_outputs_add(m, a, b);
}

/// What a tick gives out.
spec fn given_out(out: Option<KeyerOutput>) -> Seq<KeyerOutput> {
    match out {
        Some(o) => seq![o],
        None => Seq::empty(),
    }
}

proof fn lemma_one_tick(m: EngineModel)
    ensures
        leads_to(m, 1, m.ticked().0, given_out(m.ticked().1)),
{
    reveal(leads_to);
    assert(run(m, 0) == m);
    assert(outputs(m, 0) =~= Seq::empty());
    assert(outputs(m, 1) =~= given_out(m.ticked().1));
}

/// A mark of the text is going out.
spec fn mark_goes_out(m: EngineModel) -> bool {
    &&& text_may_go_out(m)
    &&& m.state is SendDit || m.state is SendDash
    &&& m.key_active && m.ptt_active && m.text_sending && m.single_paddle_decided
}

proof fn lemma_mark_tick(m: EngineModel)
    requires
        mark_goes_out(m),
    ensures
        ({
            let next = m.ticked().0;
            &&& next.text_queue == m.text_queue && next.config == m.config
            &&& m.elapsed + m.tick < m.phase_end ==> mark_goes_out(next) && next.elapsed
                == m.elapsed + m.tick && next.tick == m.tick && next.phase_end == m.phase_end
                && m.ticked().1 is None
            &&& m.elapsed + m.tick >= m.phase_end ==> between_elements(next) && next.ptt_active
                && m.ticked().1 == Some(KeyerOutput::KeyUp)
        }),
{
}

proof fn lemma_mark_ends(m: EngineModel) -> (r: (nat, EngineModel))
    requires
        mark_goes_out(m),
    ensures
        leads_to(m, r.0, r.1, seq![KeyerOutput::KeyUp]),
        between_elements(r.1),
        r.1.ptt_active,
        r.1.text_queue == m.text_queue,
        r.1.config == m.config,
    decreases (if m.phase_end > m.elapsed {
        m.phase_end - m.elapsed
    } else {
        0
    }),
{
    lemma_mark_tick(m);
    lemma_one_tick(m);
    let next = m.ticked().0;
    if m.elapsed + m.tick < m.phase_end {
        let (n, after) = lemma_mark_ends(next);
        lemma_chain(m, 1, next, Seq::empty(), n, after, seq![KeyerOutput::KeyUp]);
        assert(Seq::empty() + seq![KeyerOutput::KeyUp] =~= seq![KeyerOutput::KeyUp]);
        (1 + n, after)
    } else {
        (1, next)
    }
}

/// The transmitter is being requested for a mark of the text.
spec fn mark_waits(m: EngineModel) -> bool {
    &&& text_may_go_out(m)
    &&& m.state is SendDit || m.state is SendDash
    &&& !m.key_active && m.ptt_active && m.text_sending && m.single_paddle_decided
}

proof fn lemma_mark_starts(m: EngineModel)
    requires
        between_elements(m),
        m.text_queue.len() > 0,
        is_mark(m.text_queue[0]),
    ensures
        ({
            let next = m.ticked().0;
            &&& next.text_queue == m.text_queue.drop_first() && next.config == m.config
            &&& m.ptt_active ==> mark_goes_out(next) && m.ticked().1 == Some(KeyerOutput::KeyDown)
            &&& !m.ptt_active ==> mark_waits(next) && m.ticked().1 == Some(
                KeyerOutput::PttRequest(true),
            )
        }),
{
}

proof fn lemma_mark_is_keyed(m: EngineModel)
    requires
        mark_waits(m),
    ensures
        mark_goes_out(m.ticked().0),
        m.ticked().0.text_queue == m.text_queue,
        m.ticked().0.config == m.config,
        m.ticked().1 == Some(KeyerOutput::KeyDown),
{
}

proof fn lemma_mark_is_sent(m: EngineModel) -> (r: (nat, EngineModel))
    requires
        between_elements(m),
        m.text_queue.len() > 0,
        is_mark(m.text_queue[0]),
    ensures
        leads_to(m, r.0, r.1, request(m) + seq![KeyerOutput::KeyDown, KeyerOutput::KeyUp]),
        between_elements(r.1),
        r.1.ptt_active,
        r.1.text_queue == m.text_queue.drop_first(),
        r.1.config == m.config,
{
    let down = seq![KeyerOutput::KeyDown];
    let up = seq![KeyerOutput::KeyUp];
    assert(down + up =~= seq![KeyerOutput::KeyDown, KeyerOutput::KeyUp]);
    let first = m.ticked().0;
    lemma_mark_starts(m);
    lemma_one_tick(m);
    if m.ptt_active {
        let (n, after) = lemma_mark_ends(first);
        lemma_chain(m, 1, first, down, n, after, up);
        assert(request(m) + (down + up) =~= down + up);
        (1 + n, after)
    } else {
        let second = first.ticked().0;
        lemma_mark_is_keyed(first);
        lemma_one_tick(first);
        let (n, after) = lemma_mark_ends(second);
        lemma_chain(first, 1, second, down, n, after, up);
        lemma_chain(m, 1, first, request(m), 1 + n, after, down + up);
        (2 + n, after)
    }
}

/// A gap of the text is going on, and more of the text follows.
spec fn gap_goes_on(m: EngineModel) -> bool {
    &&& text_may_go_out(m)
    &&& m.state is DitDelay
    &&& !m.key_active && m.text_sending && m.text_queue.len() > 0
}

proof fn lemma_gap_tick(m: EngineModel)
    requires
        gap_goes_on(m),
    ensures
        ({
            let next = m.ticked().0;
            &&& next.text_queue == m.text_queue && next.config == m.config && next.ptt_active
                == m.ptt_active && m.ticked().1 is None
            &&& m.elapsed + m.tick < m.phase_end ==> gap_goes_on(next) && next.elapsed == m.elapsed
                + m.tick && next.tick == m.tick && next.phase_end == m.phase_end
            &&& m.elapsed + m.tick >= m.phase_end ==> between_elements(next)
        }),
{
}

proof fn lemma_gap_ends(m: EngineModel) -> (r: (nat, EngineModel))
    requires
        gap_goes_on(m),
    ensures
        leads_to(m, r.0, r.1, Seq::empty()),
        between_elements(r.1),
        r.1.ptt_active == m.ptt_active,
        r.1.text_queue == m.text_queue,
        r.1.config == m.config,
    decreases (if m.phase_end > m.elapsed {
        m.phase_end - m.elapsed
    } else {
        0
    }),
{
    lemma_gap_tick(m);
    lemma_one_tick(m);
    let next = m.ticked().0;
    if m.elapsed + m.tick < m.phase_end {
        let (n, after) = lemma_gap_ends(next);
        lemma_chain(m, 1, next, Seq::empty(), n, after, Seq::empty());
        assert(Seq::<KeyerOutput>::empty() + Seq::empty() =~= Seq::empty());
        (1 + n, after)
    } else {
        (1, next)
    }
}

proof fn lemma_gap_starts(m: EngineModel)
    requires
        between_elements(m),
        m.text_queue.len() > 1,
        !is_mark(m.text_queue[0]),
    ensures
        gap_goes_on(m.ticked().0),
        m.ticked().0.text_queue == m.text_queue.drop_first(),
        m.ticked().0.config == m.config,
        m.ticked().0.ptt_active == m.ptt_active,
        m.ticked().1 is None,
{
}

proof fn lemma_gap_is_kept(m: EngineModel) -> (r: (nat, EngineModel))
    requires
        between_elements(m),
        m.text_queue.len() > 1,
        !is_mark(m.text_queue[0]),
    ensures
        leads_to(m, r.0, r.1, Seq::empty()),
        between_elements(r.1),
        r.1.ptt_active == m.ptt_active,
        r.1.text_queue == m.text_queue.drop_first(),
        r.1.config == m.config,
{
    let next = m.ticked().0;
    lemma_gap_starts(m);
    lemma_one_tick(m);
    let (n, after) = lemma_gap_ends(next);
    lemma_chain(m, 1, next, Seq::empty(), n, after, Seq::empty());
    assert(Seq::<KeyerOutput>::empty() + Seq::empty() =~= Seq::empty());
    (1 + n, after)
}

proof fn lemma_queue_goes_out(m: EngineModel) -> (r: (nat, EngineModel))
    requires
        between_elements(m),
        m.text_queue.len() > 0,
        is_mark(m.text_queue.last()),
    ensures
        leads_to(m, r.0, r.1, request(m) + keying(m.text_queue)),
        between_elements(r.1),
        r.1.ptt_active,
        r.1.text_queue.len() == 0,
    decreases m.text_queue.len(),
{
    let q = m.text_queue;
    let rest = q.drop_first();
    let one = seq![KeyerOutput::KeyDown, KeyerOutput::KeyUp];
    if is_mark(q[0]) {
        let (a, next) = lemma_mark_is_sent(m);
        if rest.len() == 0 {
            assert(keying(rest) =~= Seq::empty());
            assert(request(m) + keying(q) =~= request(m) + one);
            (a, next)
        } else {
            assert(rest.last() == q.last());
            let (b, after) = lemma_queue_goes_out(next);
            lemma_chain(m, a, next, request(m) + one, b, after, request(next) + keying(rest));
            assert(request(m) + one + (request(next) + keying(rest)) =~= request(m) + keying(q));
            (a + b, after)
        }
    } else {
        if q.len() == 1 {
            assert(q.last() == q[0]);
        }
        assert(rest.last() == q.last());
        let (a, next) = lemma_gap_is_kept(m);
        let (b, after) = lemma_queue_goes_out(next);
        lemma_chain(m, a, next, Seq::empty(), b, after, request(next) + keying(rest));
        assert(Seq::empty() + (request(next) + keying(rest)) =~= request(m) + keying(q));
        (a + b, after)
    }
}

/// A queue that ends with a mark is sent completely: after some ticks it is empty
/// with the key up, and what came out is the request for the transmitter and a
/// key-down and a key-up for each mark.
pub proof fn lemma_queue_is_sent(m: EngineModel) -> (n: nat)
    requires
        between_elements(m),
        m.text_queue.len() > 0,
        is_mark(m.text_queue.last()),
    ensures
        between_elements(run(m, n)),
        run(m, n).ptt_active,
        run(m, n).text_queue.len() == 0,
        outputs(m, n) == request(m) + keying(m.text_queue),
{
    reveal(leads_to);
    let (n, after) = lemma_queue_goes_out(m);
    n
}

/// A text is sent completely: queued while nothing else goes on, it puts the key
/// down and up once for each of its marks, in order, and leaves the key up.
pub proof fn lemma_text_is_sent(m: EngineModel, text: Seq<char>) -> (n: nat)
    requires
        between_elements(m),
        m.text_queue == text_elements(text),
        text_elements(text).len() > 0,
    ensures
        between_elements(run(m, n)),
        run(m, n).text_queue.len() == 0,
        outputs(m, n) == request(m) + keying(text_elements(text)),
{
    lemma_text_is_well_spaced(text);
    lemma_queue_is_sent(m)
}

} // verus!
