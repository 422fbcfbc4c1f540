//! The connection lifecycle state machine.
//!
//! One [`ConnInfo`] exists per tracked connection.  It is created on
//! the first packet of a new flow, if the admission pass of
//! `L4FirstPacket` does not drop the flow, and then walks the levels
//! in non-decreasing order, one evaluation pass per visited level.
//! Each pass runs the level's compiled program and reports which
//! callbacks must run now; a one-shot callback is consumed by its
//! first run, a streaming callback stays subscribed until it detaches.
//! A `Drop` from any filter gate, and the `L4Terminated` pass, end the
//! connection: the tracked record is released and no later pass runs.

use vstd::prelude::*;

use crate::ast::FilterResult;
use crate::compile::{
    run_level, some_filter_drops, CompiledCallback, CompiledSubscription,
};
use crate::eval::{spec_eval, AtomEnv};
use crate::layout::TrackedLayout;
use crate::level::Level;

verus! {

// ---------------------------------------------------------------------
// The tracked record
// ---------------------------------------------------------------------

/// Runtime state of one field of the combined record: whether the
/// connection participates in the field (it does not when a parser
/// the field needs is not enabled), and how many updates the field
/// has received.
#[derive(Clone, Copy, Debug, PartialEq, Eq, Structural)]
pub struct FieldState {
    /// The connection is tracked by this field.  Excluded fields stay
    /// inactive for the connection's whole life; the rest of the
    /// record continues.
    pub active: bool,
    /// How many update hooks have been applied to the field.
    pub updates: u64,
}

/// The combined per-connection record: the union of all tracked state
/// wired into the subscription, the raw packets buffered while level
/// transitions are pending, and the owning core.  Exactly one exists
/// per live connection; it is released when the connection ends.
#[derive(Debug)]
pub struct TrackedWrapper {
    /// The core that owns the connection.
    pub core_id: u32,
    /// Handles of buffered raw packets awaiting level transitions.
    pub packets: Vec<u64>,
    /// One state per field of the layout.
    pub fields: Vec<FieldState>,
}

/// A count one higher, capped at the counter's ceiling.
pub open spec fn sat_inc(x: u64) -> u64 {
    if x == u64::MAX {
        x
    } else {
        (x + 1) as u64
    }
}

/// The name stands in the list.
pub open spec fn name_listed(en: Seq<Vec<u8>>, w: Seq<u8>) -> bool {
    exists|e: int| 0 <= e < en.len() && (#[trigger] en[e])@ == w
}

/// Every parser the field needs is enabled.
pub open spec fn parsers_on(ps: Seq<Vec<u8>>, en: Seq<Vec<u8>>) -> bool {
    forall|j: int| 0 <= j < ps.len() ==> name_listed(en, (#[trigger] ps[j])@)
}

/// One level pass applied its update hooks: every active field hooked
/// at the level counts one more update, every other field is
/// untouched.
pub open spec fn fields_updated(
    pre: Seq<FieldState>,
    post: Seq<FieldState>,
    lay: Seq<crate::layout::FieldLayout>,
    lidx: int,
) -> bool {
    &&& post.len() == pre.len()
    &&& forall|k: int| 0 <= k < pre.len() ==> (#[trigger] post[k]).active == pre[k].active
    &&& forall|k: int|
        0 <= k < pre.len() && k < lay.len() ==> (#[trigger] post[k]).updates == (if 0 <= lidx
            < lay[k].hooks@.len() && lay[k].hooks@[lidx] && pre[k].active {
            sat_inc(pre[k].updates)
        } else {
            pre[k].updates
        })
}

/// Whether the name stands in the list.
fn name_in(list: &Vec<Vec<u8>>, w: &[u8]) -> (r: bool)
    ensures
        r == name_listed(list@, w@),
{
    let n = list.len();
    let mut i: usize = 0;
    while i < n
        invariant
            i <= n,
            n == list@.len(),
            forall|e: int| 0 <= e < i ==> (#[trigger] list@[e])@ != w@,
        decreases n - i,
    {
        if crate::parse::bytes_eq(list[i].as_slice(), w) {
            return true;
        }
        i = i + 1;
    }
    false
}

impl TrackedWrapper {
    /// A fresh record for a newly admitted connection: no packets
    /// buffered, no updates applied, and each field active exactly
    /// when every parser it needs is enabled.  A field whose parser is
    /// missing is excluded from tracking; the connection continues.
    pub fn new(lay: &TrackedLayout, enabled: &Vec<Vec<u8>>, core_id: u32) -> (tw: TrackedWrapper)
        ensures
            tw.core_id == core_id,
            tw.packets@.len() == 0,
            tw.fields@.len() == lay.fields@.len(),
            forall|k: int| 0 <= k < tw.fields@.len() ==> (#[trigger] tw.fields@[k]).updates == 0,
            forall|k: int|
                0 <= k < tw.fields@.len() ==> (#[trigger] tw.fields@[k]).active == parsers_on(
                    lay.fields@[k].parsers@,
                    enabled@,
                ),
    {
        let n = lay.fields.len();
        let mut fields: Vec<FieldState> = Vec::new();
        let mut k: usize = 0;
        while k < n
            invariant
                k <= n,
                n == lay.fields@.len(),
                fields@.len() == k,
                forall|j: int| 0 <= j < k ==> (#[trigger] fields@[j]).updates == 0,
                forall|j: int|
                    0 <= j < k ==> (#[trigger] fields@[j]).active == parsers_on(
                        lay.fields@[j].parsers@,
                        enabled@,
                    ),
            decreases n - k,
        {
            let ps = &lay.fields[k].parsers;
            let np = ps.len();
            let mut all_on = true;
            let mut j: usize = 0;
            while j < np
                invariant
                    j <= np,
                    np == ps@.len(),
                    all_on == forall|j2: int|
                        0 <= j2 < j ==> name_listed(enabled@, (#[trigger] ps@[j2])@),
                decreases np - j,
            {
                if !name_in(enabled, ps[j].as_slice()) {
                    all_on = false;
                }
                j = j + 1;
            }
            fields.push(FieldState { active: all_on, updates: 0 });
            k = k + 1;
        }
        TrackedWrapper { core_id, packets: Vec::new(), fields }
    }

    /// Buffer a raw packet handle until the next level transition.
    pub fn buffer_packet(&mut self, h: u64)
        ensures
            final(self).packets@ == old(self).packets@.push(h),
            final(self).core_id == old(self).core_id,
            final(self).fields@ == old(self).fields@,
    {
        self.packets.push(h);
    }

    /// Apply the update hooks of one level: every active field hooked
    /// at the level counts one more update.
    pub fn record_updates(&mut self, lay: &TrackedLayout, l: Level)
        requires
            old(self).fields@.len() == lay.fields@.len(),
        ensures
            final(self).core_id == old(self).core_id,
            final(self).packets@ == old(self).packets@,
            fields_updated(old(self).fields@, final(self).fields@, lay.fields@, l.ord()),
    {
        let lidx = l.index() as usize;
        let n = self.fields.len();
        let mut k: usize = 0;
        while k < n
            invariant
                k <= n,
                n == self.fields@.len(),
                self.fields@.len() == old(self).fields@.len(),
                lay.fields@.len() == n,
                lidx == l.ord(),
                self.core_id == old(self).core_id,
                self.packets@ == old(self).packets@,
                forall|j: int|
                    0 <= j < n ==> (#[trigger] self.fields@[j]).active == old(self).fields@[j].active,
                forall|j: int|
                    k <= j < n ==> (#[trigger] self.fields@[j]).updates == old(self).fields@[j].updates,
                forall|j: int|
                    0 <= j < k ==> (#[trigger] self.fields@[j]).updates == (if (lidx as int)
                        < lay.fields@[j].hooks@.len() && lay.fields@[j].hooks@[lidx as int]
                        && old(self).fields@[j].active {
                        sat_inc(old(self).fields@[j].updates)
                    } else {
                        old(self).fields@[j].updates
                    }),
            decreases n - k,
        {
            let hooked = lidx < lay.fields[k].hooks.len() && lay.fields[k].hooks[lidx];
            let f = self.fields[k];
            if hooked && f.active {
                let bumped = if f.updates == u64::MAX {
                    f.updates
                } else {
                    f.updates + 1
                };
                self.fields.set(k, FieldState { active: f.active, updates: bumped });
            }
            k = k + 1;
        }
    }
}

// ---------------------------------------------------------------------
// Lifecycle events
// ---------------------------------------------------------------------

/// A transition trigger reported by the runtime dispatcher.
#[derive(Clone, Copy, Debug, PartialEq, Eq, Structural)]
pub enum LevelEvent {
    /// A subsequent packet with payload, before protocol discovery.
    PayloadPacket,
    /// The session parser identified the application protocol.
    ProtocolDiscovered,
    /// The session parser signalled that header data is final.
    HeadersDone,
    /// Connection close or idle timeout.
    ConnClosed,
}

impl LevelEvent {
    /// The level the event drives the connection to.
    pub open spec fn spec_level(self) -> Level {
        match self {
            LevelEvent::PayloadPacket => Level::L4InPayload,
            LevelEvent::ProtocolDiscovered => Level::L7OnDisc,
            LevelEvent::HeadersDone => Level::L7EndHdrs,
            LevelEvent::ConnClosed => Level::L4Terminated,
        }
    }

    /// The level the event drives the connection to.
    pub fn level(self) -> (r: Level)
        ensures
            r == self.spec_level(),
    {
        match self {
            LevelEvent::PayloadPacket => Level::L4InPayload,
            LevelEvent::ProtocolDiscovered => Level::L7OnDisc,
            LevelEvent::HeadersDone => Level::L7EndHdrs,
            LevelEvent::ConnClosed => Level::L4Terminated,
        }
    }
}

/// The state machine accepts an event only forward along the level
/// order: `PayloadPacket` may repeat while the connection still stands
/// at `L4InPayload` or before, every other event must move strictly
/// later.  A connection never regresses.
pub open spec fn event_allowed(cur: Level, ev: LevelEvent) -> bool {
    if ev == LevelEvent::PayloadPacket {
        cur.ord() <= 1
    } else {
        cur.ord() < ev.spec_level().ord()
    }
}

// ---------------------------------------------------------------------
// Callback eligibility and pass actions
// ---------------------------------------------------------------------

/// Whether a callback may run in a pass: a streaming callback while it
/// is subscribed, a one-shot callback while it has not yet fired.
pub open spec fn cb_eligible(c: int, streaming: Seq<bool>, fired: Seq<bool>, active: Seq<
    bool,
>) -> bool {
    if streaming[c] {
        active[c]
    } else {
        !fired[c]
    }
}

/// The callbacks one pass tells the runtime to run, in program order:
/// the eligible callbacks whose predicate accepted, judged against the
/// state at the start of the pass.
pub open spec fn spec_acts(
    prog: Seq<CompiledCallback>,
    tr: Seq<FilterResult>,
    streaming: Seq<bool>,
    fired: Seq<bool>,
    active: Seq<bool>,
) -> Seq<int>
    decreases prog.len(),
{
    if prog.len() == 0 {
        Seq::empty()
    } else {
        let rest = spec_acts(prog.drop_last(), tr, streaming, fired, active);
        let e = prog.last();
        if spec_eval(e.node, tr) is Accept && cb_eligible(e.cb as int, streaming, fired, active) {
            rest.push(e.cb as int)
        } else {
            rest
        }
    }
}

/// The callback's predicate accepted somewhere in the pass's program.
pub open spec fn spec_fires(prog: Seq<CompiledCallback>, tr: Seq<FilterResult>, c: int) -> bool {
    exists|k: int|
        0 <= k < prog.len() && (#[trigger] prog[k]).cb == c && spec_eval(prog[k].node, tr)
            is Accept
}

/// Extending the program by one entry adds exactly that entry's match.
proof fn lemma_fires_extend(prog: Seq<CompiledCallback>, tr: Seq<FilterResult>, k: int, c: int)
    requires
        0 <= k < prog.len(),
    ensures
        spec_fires(prog.subrange(0, k + 1), tr, c) == (spec_fires(prog.subrange(0, k), tr, c)
            || (prog[k].cb == c && spec_eval(prog[k].node, tr) is Accept)),
{
    let s1 = prog.subrange(0, k + 1);
    let s0 = prog.subrange(0, k);
    if spec_fires(s1, tr, c) {
        let j = choose|j: int|
            0 <= j < s1.len() && (#[trigger] s1[j]).cb == c && spec_eval(s1[j].node, tr)
                is Accept;
        if j < k {
            assert(s0[j] == s1[j]);
            assert(spec_fires(s0, tr, c));
        } else {
            assert(s1[j] == prog[k]);
        }
    }
    if spec_fires(s0, tr, c) {
        let j = choose|j: int|
            0 <= j < s0.len() && (#[trigger] s0[j]).cb == c && spec_eval(s0[j].node, tr)
                is Accept;
        assert(s1[j] == s0[j]);
        assert(spec_fires(s1, tr, c));
    }
    if prog[k].cb == c && spec_eval(prog[k].node, tr) is Accept {
        assert(s1[k] == prog[k]);
        assert(spec_fires(s1, tr, c));
    }
}

/// One-shot callback idempotence: a one-shot callback that has already
/// fired for the connection is in no later pass's actions, however
/// often its predicate holds again.
pub proof fn lemma_one_shot_fires_once(
    prog: Seq<CompiledCallback>,
    tr: Seq<FilterResult>,
    streaming: Seq<bool>,
    fired: Seq<bool>,
    active: Seq<bool>,
    c: int,
)
    requires
        0 <= c < streaming.len(),
        streaming.len() == fired.len(),
        !streaming[c],
        fired[c],
    ensures
        !spec_acts(prog, tr, streaming, fired, active).contains(c),
    decreases prog.len(),
{
    if prog.len() > 0 {
        lemma_one_shot_fires_once(prog.drop_last(), tr, streaming, fired, active, c);
        let rest = spec_acts(prog.drop_last(), tr, streaming, fired, active);
        let e = prog.last();
        let whole = spec_acts(prog, tr, streaming, fired, active);
        if spec_eval(e.node, tr) is Accept && cb_eligible(e.cb as int, streaming, fired, active) {
            assert(whole == rest.push(e.cb as int));
            if whole.contains(c) {
                let j = choose|j: int| 0 <= j < whole.len() && whole[j] == c;
                if j < rest.len() {
                    assert(rest[j] == c);
                    assert(rest.contains(c));
                } else {
                    assert(whole[j] == e.cb as int);
                    assert(cb_eligible(c, streaming, fired, active));
                }
            }
        } else {
            assert(whole == rest);
        }
    }
}

// ---------------------------------------------------------------------
// The per-connection state
// ---------------------------------------------------------------------

/// The lifecycle state of one tracked connection.
pub struct ConnInfo {
    /// The last level evaluated for the connection.
    pub current: Level,
    /// The connection reached its end: a filter dropped it, the
    /// `L4Terminated` pass ran, or it was evicted.  Absorbing: no
    /// pass ever runs again, and the tracked record is released.
    pub ended: bool,
    /// Per callback, whether a one-shot callback has been consumed.
    pub fired: Vec<bool>,
    /// Per callback, whether a streaming callback is still subscribed.
    pub active_streaming: Vec<bool>,
    /// Per callback, whether its predicate has accepted at any pass:
    /// the matched-callback mask.
    pub matched: Vec<bool>,
    /// The combined tracked record; `None` exactly when ended.
    pub record: Option<TrackedWrapper>,
    /// The positions of the levels visited, in visiting order.
    pub history: Ghost<Seq<int>>,
}

impl ConnInfo {
    /// Well-formedness: masks sized to the subscription, the record
    /// held exactly while the connection lives, and the visited levels
    /// non-decreasing with only `L4InPayload` repeating.
    pub open spec fn wf(self, cs: CompiledSubscription) -> bool {
        &&& self.fired@.len() == cs.n_callbacks
        &&& self.active_streaming@.len() == cs.n_callbacks
        &&& self.matched@.len() == cs.n_callbacks
        &&& (self.ended <==> self.record is None)
        &&& self.history@.len() > 0
        &&& self.history@.last() == self.current.ord()
        &&& forall|k1: int, k2: int|
            0 <= k1 <= k2 < self.history@.len() ==> #[trigger] self.history@[k1]
                <= #[trigger] self.history@[k2]
        &&& forall|k1: int, k2: int|
            0 <= k1 < k2 < self.history@.len() && #[trigger] self.history@[k1]
                == #[trigger] self.history@[k2] ==> self.history@[k1] == 1
        &&& forall|k: int| 0 <= k < self.history@.len() ==> 0 <= #[trigger] self.history@[k] <= 4
    }
}

/// Level monotonicity: for any well-formed connection, the sequence of
/// visited levels is non-decreasing along the total order, and every
/// level but `L4InPayload` occurs at most once.
pub proof fn lemma_level_monotonicity(c: ConnInfo, cs: CompiledSubscription)
    requires
        c.wf(cs),
    ensures
        forall|k1: int, k2: int|
            0 <= k1 <= k2 < c.history@.len() ==> #[trigger] c.history@[k1]
                <= #[trigger] c.history@[k2],
        forall|k1: int, k2: int|
            0 <= k1 < k2 < c.history@.len() && #[trigger] c.history@[k1]
                == #[trigger] c.history@[k2] ==> c.history@[k1] == Level::L4InPayload.ord(),
{
}

/// What one accepted evaluation pass does to a connection: the
/// relation between the state before and after the pass driven by
/// `event`, under the atom outcomes `tr`, reporting the actions
/// `acts`.
pub open spec fn step_ok(
    pre: ConnInfo,
    post: ConnInfo,
    cs: CompiledSubscription,
    lay: TrackedLayout,
    event: LevelEvent,
    tr: Seq<FilterResult>,
    acts: Seq<int>,
) -> bool {
    let l = event.spec_level();
    let prog = cs.programs@[l.ord()];
    let dropped = some_filter_drops(prog.filters@, tr);
    &&& post.current == l
    &&& post.history@ == pre.history@.push(l.ord())
    &&& post.ended == (dropped || l == Level::L4Terminated)
    &&& (post.ended ==> post.record is None)
    &&& post.active_streaming@ == pre.active_streaming@
    &&& (dropped ==> acts == Seq::<int>::empty() && post.fired@ == pre.fired@
        && post.matched@ == pre.matched@)
    &&& (!dropped ==> acts == spec_acts(
        prog.callbacks@,
        tr,
        cs.streaming@,
        pre.fired@,
        pre.active_streaming@,
    ))
    &&& (!dropped ==> post.fired@.len() == pre.fired@.len() && forall|c: int|
        0 <= c < pre.fired@.len() ==> (#[trigger] post.fired@[c]) == (pre.fired@[c] || (
        !cs.streaming@[c] && spec_fires(prog.callbacks@, tr, c))))
    &&& (!dropped ==> post.matched@.len() == pre.matched@.len() && forall|c: int|
        0 <= c < pre.matched@.len() ==> (#[trigger] post.matched@[c]) == (pre.matched@[c]
            || spec_fires(prog.callbacks@, tr, c)))
    &&& (!post.ended ==> (pre.record matches Some(tw0) && (post.record matches Some(tw1) && (
    tw1.core_id == tw0.core_id && tw1.packets@ == tw0.packets@ && fields_updated(
        tw0.fields@,
        tw1.fields@,
        lay.fields@,
        l.ord(),
    )))))
}

impl ConnInfo {
    /// Drive the connection through one evaluation pass.
    ///
    /// The tracked record's update hooks of the event's level run
    /// first; then the level's shared program: the filter gates in
    /// order, and, unless one of them drops the connection, the
    /// callback predicates.  The returned indices are the callbacks
    /// the runtime must run now, in program order; each one-shot among
    /// them is consumed.  A `Drop` ends the connection at once: no
    /// callback of this pass runs, the record is released, and no pass
    /// ever runs again.
    pub fn advance(
        &mut self,
        cs: &CompiledSubscription,
        lay: &TrackedLayout,
        event: LevelEvent,
        env: &mut AtomEnv,
    ) -> (acts: Vec<usize>)
        requires
            cs.wf(),
            old(self).wf(*cs),
            !old(self).ended,
            event_allowed(old(self).current, event),
            old(env).wf(),
            old(env).truth@.len() == cs.atom_table@.len(),
            old(self).record matches Some(tw) ==> tw.fields@.len() == lay.fields@.len(),
        ensures
            final(self).wf(*cs),
            final(env).wf(),
            final(env).truth@ == old(env).truth@,
            step_ok(
                *old(self),
                *final(self),
                *cs,
                *lay,
                event,
                old(env).truth@,
                acts@.map_values(|u: usize| u as int),
            ),
            forall|k: int| 0 <= k < acts@.len() ==> (#[trigger] acts@[k]) < cs.n_callbacks,
    {
        let ghost pre = *self;
        let ghost tr = env.truth@;
        let l = event.level();
        let lidx = l.index() as usize;

        // apply this level's update hooks to the tracked record
        match &mut self.record {
            Some(tw) => {
                tw.record_updates(lay, l);
            },
            None => {},
        }

        // evaluate the level's shared program
        proof {
            assert(cs.programs@.len() == 5);
            assert(0 <= l.ord() < 5) by {
                crate::compile::lemma_ord_range(l);
            }
        }
        let verdict = run_level(&cs.programs[lidx], env);

        // the visit itself
        self.current = l;
        proof {
            let h0 = pre.history@;
            let h1 = h0.push(l.ord());
            assert(h1.last() == l.ord());
            assert forall|k1: int, k2: int|
                0 <= k1 <= k2 < h1.len() implies #[trigger] h1[k1] <= #[trigger] h1[k2] by {
                if k2 < h0.len() {
                } else if k1 < h0.len() {
                    assert(h0[k1] <= h0[h0.len() - 1]);
                    assert(h0[h0.len() - 1] == pre.current.ord());
                }
            }
            assert forall|k1: int, k2: int|
                0 <= k1 < k2 < h1.len() && #[trigger] h1[k1] == #[trigger] h1[k2]
                implies h1[k1] == 1 by {
                if k2 == h0.len() {
                    if event == LevelEvent::PayloadPacket {
                    } else {
                        assert(h0[k1] <= h0[h0.len() - 1]);
                        assert(h0[h0.len() - 1] == pre.current.ord());
                        assert(pre.current.ord() < l.ord());
                    }
                }
            }
        }
        self.history = Ghost(self.history@.push(l.ord() as int));

        if verdict.dropped {
            // immediate termination: no callbacks of this pass run,
            // the tracked record is released
            self.ended = true;
            self.record = None;
            let acts: Vec<usize> = Vec::new();
            proof {
                assert(acts@.map_values(|u: usize| u as int) =~= Seq::<int>::empty());
            }
            return acts;
        }

        // dispatch the level's callbacks
        let ghost fired0 = self.fired@;
        let ghost active0 = self.active_streaming@;
        let ghost matched0 = self.matched@;
        let ghost tracked_after = self.record;
        let ghost hist_after = self.history@;
        let ncb = cs.programs[lidx].callbacks.len();
        let mut acts: Vec<usize> = Vec::new();
        let mut k: usize = 0;
        proof {
            assert(cs.programs@[lidx as int].callbacks@.subrange(0, 0) =~= Seq::<
                CompiledCallback,
            >::empty());
            assert(acts@.map_values(|u: usize| u as int) =~= Seq::<int>::empty());
        }
        while k < ncb
            invariant
                k <= ncb,
                ncb == cs.programs@[lidx as int].callbacks@.len(),
                0 <= lidx < cs.programs@.len(),
                cs.programs@.len() == 5,
                lidx == l.ord(),
                cs.streaming@.len() == cs.n_callbacks,
                fired0.len() == cs.n_callbacks,
                active0.len() == cs.n_callbacks,
                matched0.len() == cs.n_callbacks,
                forall|j: int|
                    0 <= j < ncb ==> (#[trigger] cs.programs@[lidx as int].callbacks@[j]).cb
                        < cs.n_callbacks,
                forall|j1: int, j2: int|
                    #![trigger cs.programs@[lidx as int].callbacks@[j1], cs.programs@[lidx as int].callbacks@[j2]]
                    0 <= j1 < j2 < ncb ==> cs.programs@[lidx as int].callbacks@[j1].cb
                        < cs.programs@[lidx as int].callbacks@[j2].cb,
                !verdict.dropped,
                verdict.matched@.len() == ncb,
                forall|j: int|
                    0 <= j < ncb ==> verdict.matched@[j] == (spec_eval(
                        (#[trigger] cs.programs@[lidx as int].callbacks@[j]).node,
                        tr,
                    ) is Accept),
                self.current == l,
                self.ended == false,
                self.record == tracked_after,
                self.history@ == hist_after,
                self.active_streaming@ == active0,
                self.fired@.len() == cs.n_callbacks,
                self.matched@.len() == cs.n_callbacks,
                acts@.map_values(|u: usize| u as int) == spec_acts(
                    cs.programs@[lidx as int].callbacks@.subrange(0, k as int),
                    tr,
                    cs.streaming@,
                    fired0,
                    active0,
                ),
                forall|j: int| 0 <= j < acts@.len() ==> (#[trigger] acts@[j]) < cs.n_callbacks,
                forall|c: int|
                    0 <= c < cs.n_callbacks ==> (#[trigger] self.fired@[c]) == (fired0[c] || (
                    !cs.streaming@[c] && spec_fires(
                        cs.programs@[lidx as int].callbacks@.subrange(0, k as int),
                        tr,
                        c,
                    ))),
                forall|c: int|
                    0 <= c < cs.n_callbacks ==> (#[trigger] self.matched@[c]) == (matched0[c]
                        || spec_fires(
                        cs.programs@[lidx as int].callbacks@.subrange(0, k as int),
                        tr,
                        c,
                    )),
                forall|j: int|
                    k <= j < ncb ==> self.fired@[(
                    #[trigger] cs.programs@[lidx as int].callbacks@[j]).cb as int] == fired0[
                        cs.programs@[lidx as int].callbacks@[j].cb as int],
            decreases ncb - k,
        {
            let ghost prog = cs.programs@[lidx as int].callbacks@;
            proof {
                assert(prog.subrange(0, k + 1).drop_last() =~= prog.subrange(0, k as int));
                assert(prog.subrange(0, k + 1).last() == prog[k as int]);
                lemma_fires_extend(prog, tr, k as int, prog[k as int].cb as int);
            }
            let e_cb = cs.programs[lidx].callbacks[k].cb;
            let ghost acts0 = acts@;
            let ghost firedb = self.fired@;
            let ghost matchedb = self.matched@;
            if verdict.matched[k] {
                let eligible = if cs.streaming[e_cb] {
                    self.active_streaming[e_cb]
                } else {
                    !self.fired[e_cb]
                };
                if eligible {
                    acts.push(e_cb);
                }
                if !cs.streaming[e_cb] {
                    self.fired.set(e_cb, true);
                }
                self.matched.set(e_cb, true);
            }
            proof {
                let sub1 = prog.subrange(0, k + 1);
                // the actions of the extended prefix
                if verdict.matched@[k as int] && cb_eligible(
                    e_cb as int,
                    cs.streaming@,
                    fired0,
                    active0,
                ) {
                    assert(acts@ == acts0.push(e_cb));
                    assert(acts@.map_values(|u: usize| u as int) =~= acts0.map_values(
                        |u: usize| u as int,
                    ).push(e_cb as int));
                } else {
                    assert(acts@ == acts0);
                }
                // the masks of the extended prefix
                assert forall|c: int| 0 <= c < cs.n_callbacks implies (#[trigger] self.fired@[c])
                    == (fired0[c] || (!cs.streaming@[c] && spec_fires(sub1, tr, c))) by {
                    lemma_fires_extend(prog, tr, k as int, c);
                    if c != e_cb as int {
                        assert(self.fired@[c] == firedb[c]);
                    }
                }
                assert forall|c: int| 0 <= c < cs.n_callbacks implies (
                #[trigger] self.matched@[c]) == (matched0[c] || spec_fires(sub1, tr, c)) by {
                    lemma_fires_extend(prog, tr, k as int, c);
                    if c != e_cb as int {
                        assert(self.matched@[c] == matchedb[c]);
                    }
                }
                // entries not yet processed keep their pre-pass mask
                assert forall|j: int| k + 1 <= j < ncb implies self.fired@[(
                #[trigger] prog[j]).cb as int] == fired0[prog[j].cb as int] by {
                    assert(prog[k as int].cb < prog[j].cb);
                }
            }
            k = k + 1;
        }
        proof {
            assert(cs.programs@[lidx as int].callbacks@.subrange(0, ncb as int)
                =~= cs.programs@[lidx as int].callbacks@);
        }
        if matches!(l, Level::L4Terminated) {
            self.ended = true;
            self.record = None;
        }
        acts
    }

    /// Drive the connection through one event, refusing what the
    /// lifecycle forbids: an ended connection, and an event that would
    /// move it backwards, leave the connection untouched and report no
    /// actions.  This is drop finality: once a pass has dropped or
    /// terminated the connection, no evaluator for any level runs for
    /// it again.
    pub fn process_event(
        &mut self,
        cs: &CompiledSubscription,
        lay: &TrackedLayout,
        event: LevelEvent,
        env: &mut AtomEnv,
    ) -> (acts: Vec<usize>)
        requires
            cs.wf(),
            old(self).wf(*cs),
            old(env).wf(),
            old(env).truth@.len() == cs.atom_table@.len(),
            old(self).record matches Some(tw) ==> tw.fields@.len() == lay.fields@.len(),
        ensures
            final(self).wf(*cs),
            final(env).wf(),
            final(env).truth@ == old(env).truth@,
            (old(self).ended || !event_allowed(old(self).current, event)) ==> *final(self)
                == *old(self) && acts@.len() == 0 && *final(env) == *old(env),
            (!old(self).ended && event_allowed(old(self).current, event)) ==> step_ok(
                *old(self),
                *final(self),
                *cs,
                *lay,
                event,
                old(env).truth@,
                acts@.map_values(|u: usize| u as int),
            ),
            forall|k: int| 0 <= k < acts@.len() ==> (#[trigger] acts@[k]) < cs.n_callbacks,
    {
        if self.ended {
            return Vec::new();
        }
        let allowed = if matches!(event, LevelEvent::PayloadPacket) {
            self.current.index() <= 1
        } else {
            self.current.index() < event.level().index()
        };
        if !allowed {
            return Vec::new();
        }
        self.advance(cs, lay, event, env)
    }

    /// Let the runtime report a streaming callback's decision: `true`
    /// keeps it subscribed for later levels, `false` detaches it.
    pub fn report_streaming(&mut self, cs: &CompiledSubscription, c: usize, keep: bool)
        requires
            old(self).wf(*cs),
            c < cs.n_callbacks,
            cs.streaming@[c as int],
        ensures
            final(self).wf(*cs),
            final(self).active_streaming@ == old(self).active_streaming@.update(
                c as int,
                keep,
            ),
            final(self).fired@ == old(self).fired@,
            final(self).matched@ == old(self).matched@,
            final(self).current == old(self).current,
            final(self).ended == old(self).ended,
            final(self).record == old(self).record,
            final(self).history@ == old(self).history@,
    {
        self.active_streaming.set(c, keep);
    }

    /// Evict the connection (capacity pressure or idle timeout without
    /// a terminal pass): the tracked record is released unconditionally
    /// and no pass ever runs again.
    pub fn release(&mut self, cs: &CompiledSubscription)
        requires
            old(self).wf(*cs),
        ensures
            final(self).wf(*cs),
            final(self).ended,
            final(self).record is None,
            final(self).history@ == old(self).history@,
            final(self).fired@ == old(self).fired@,
            final(self).matched@ == old(self).matched@,
            final(self).active_streaming@ == old(self).active_streaming@,
            final(self).current == old(self).current,
    {
        self.ended = true;
        self.record = None;
    }
}


/// Drop finality: a pass in which some filter gate dropped the
/// connection ends it at once.  The pass reports no callback actions,
/// the tracked record is released, and, the ended state being
/// absorbing, no evaluator for any level runs for the connection
/// again.
pub proof fn lemma_drop_finality(
    pre: ConnInfo,
    post: ConnInfo,
    cs: CompiledSubscription,
    lay: TrackedLayout,
    event: LevelEvent,
    tr: Seq<FilterResult>,
    acts: Seq<int>,
)
    requires
        step_ok(pre, post, cs, lay, event, tr, acts),
        some_filter_drops(cs.programs@[event.spec_level().ord()].filters@, tr),
    ensures
        post.ended,
        post.record is None,
        acts == Seq::<int>::empty(),
        post.fired@ == pre.fired@,
        post.matched@ == pre.matched@,
{
}

/// A vector of one repeated flag.
fn bool_vec(n: usize, b: bool) -> (r: Vec<bool>)
    ensures
        r@.len() == n,
        forall|i: int| 0 <= i < n ==> (#[trigger] r@[i]) == b,
{
    let mut r: Vec<bool> = Vec::new();
    let mut i: usize = 0;
    while i < n
        invariant
            i <= n,
            r@.len() == i,
            forall|j: int| 0 <= j < i ==> (#[trigger] r@[j]) == b,
        decreases n - i,
    {
        r.push(b);
        i = i + 1;
    }
    r
}

impl ConnInfo {
    /// Admit the first packet of a previously unseen flow.
    ///
    /// Runs the `L4FirstPacket` pass: the packet filter gates decide
    /// admission before any per-connection record exists.  On `Drop`
    /// nothing is tracked and nothing is returned; otherwise a fresh
    /// connection is created with its combined record, and the
    /// first-packet callbacks whose predicates accepted are reported.
    pub fn admit_first_packet(
        cs: &CompiledSubscription,
        lay: &TrackedLayout,
        enabled: &Vec<Vec<u8>>,
        core_id: u32,
        env: &mut AtomEnv,
    ) -> (r: Option<(ConnInfo, Vec<usize>)>)
        requires
            cs.wf(),
            old(env).wf(),
            old(env).truth@.len() == cs.atom_table@.len(),
        ensures
            final(env).wf(),
            final(env).truth@ == old(env).truth@,
            r is None <==> some_filter_drops(cs.programs@[0].filters@, old(env).truth@),
            r matches Some(p) ==> {
                let tr = old(env).truth@;
                let prog = cs.programs@[0].callbacks@;
                let none_fired = Seq::new(cs.n_callbacks as nat, |i: int| false);
                let all_active = Seq::new(cs.n_callbacks as nat, |i: int| true);
                &&& p.0.wf(*cs)
                &&& p.0.current == Level::L4FirstPacket
                &&& !p.0.ended
                &&& p.0.history@ =~= seq![0int]
                &&& forall|c: int|
                    0 <= c < cs.n_callbacks ==> (#[trigger] p.0.active_streaming@[c])
                &&& forall|c: int|
                    0 <= c < cs.n_callbacks ==> (#[trigger] p.0.fired@[c]) == (
                    !cs.streaming@[c] && spec_fires(prog, tr, c))
                &&& forall|c: int|
                    0 <= c < cs.n_callbacks ==> (#[trigger] p.0.matched@[c]) == spec_fires(
                        prog,
                        tr,
                        c,
                    )
                &&& p.1@.map_values(|u: usize| u as int) == spec_acts(
                    prog,
                    tr,
                    cs.streaming@,
                    none_fired,
                    all_active,
                )
                &&& forall|k: int| 0 <= k < p.1@.len() ==> (#[trigger] p.1@[k]) < cs.n_callbacks
                &&& (p.0.record matches Some(tw) && (tw.core_id == core_id && tw.packets@.len()
                    == 0 && tw.fields@.len() == lay.fields@.len() && (forall|k: int|
                    0 <= k < tw.fields@.len() ==> (#[trigger] tw.fields@[k]).updates == 0) && (
                forall|k: int|
                    0 <= k < tw.fields@.len() ==> (#[trigger] tw.fields@[k]).active
                        == parsers_on(lay.fields@[k].parsers@, enabled@))))
            },
    {
        let ghost tr = env.truth@;
        let verdict = run_level(&cs.programs[0], env);
        if verdict.dropped {
            return None;
        }
        let n = cs.n_callbacks;
        let mut fired = bool_vec(n, false);
        let active_streaming = bool_vec(n, true);
        let mut matched = bool_vec(n, false);
        let ghost fired0 = Seq::new(n as nat, |i: int| false);
        let ghost active0 = Seq::new(n as nat, |i: int| true);
        proof {
            assert(fired@ =~= fired0);
            assert(active_streaming@ =~= active0);
            assert(matched@ =~= fired0);
        }
        let ncb = cs.programs[0].callbacks.len();
        let mut acts: Vec<usize> = Vec::new();
        let mut k: usize = 0;
        proof {
            assert(cs.programs@[0].callbacks@.subrange(0, 0) =~= Seq::<
                CompiledCallback,
            >::empty());
            assert(acts@.map_values(|u: usize| u as int) =~= Seq::<int>::empty());
        }
        while k < ncb
            invariant
                k <= ncb,
                ncb == cs.programs@[0].callbacks@.len(),
                cs.programs@.len() == 5,
                n == cs.n_callbacks,
                cs.streaming@.len() == n,
                fired0 == Seq::new(n as nat, |i: int| false),
                active0 == Seq::new(n as nat, |i: int| true),
                forall|j: int|
                    0 <= j < ncb ==> (#[trigger] cs.programs@[0].callbacks@[j]).cb < n,
                forall|j1: int, j2: int|
                    #![trigger cs.programs@[0].callbacks@[j1], cs.programs@[0].callbacks@[j2]]
                    0 <= j1 < j2 < ncb ==> cs.programs@[0].callbacks@[j1].cb
                        < cs.programs@[0].callbacks@[j2].cb,
                !verdict.dropped,
                verdict.matched@.len() == ncb,
                forall|j: int|
                    0 <= j < ncb ==> verdict.matched@[j] == (spec_eval(
                        (#[trigger] cs.programs@[0].callbacks@[j]).node,
                        tr,
                    ) is Accept),
                active_streaming@ == active0,
                fired@.len() == n,
                matched@.len() == n,
                acts@.map_values(|u: usize| u as int) == spec_acts(
                    cs.programs@[0].callbacks@.subrange(0, k as int),
                    tr,
                    cs.streaming@,
                    fired0,
                    active0,
                ),
                forall|j: int| 0 <= j < acts@.len() ==> (#[trigger] acts@[j]) < n,
                forall|c: int|
                    0 <= c < n ==> (#[trigger] fired@[c]) == (!cs.streaming@[c] && spec_fires(
                        cs.programs@[0].callbacks@.subrange(0, k as int),
                        tr,
                        c,
                    )),
                forall|c: int|
                    0 <= c < n ==> (#[trigger] matched@[c]) == spec_fires(
                        cs.programs@[0].callbacks@.subrange(0, k as int),
                        tr,
                        c,
                    ),
                forall|j: int|
                    k <= j < ncb ==> !fired@[(
                    #[trigger] cs.programs@[0].callbacks@[j]).cb as int],
            decreases ncb - k,
        {
            let ghost prog = cs.programs@[0].callbacks@;
            proof {
                assert(prog.subrange(0, k + 1).drop_last() =~= prog.subrange(0, k as int));
                assert(prog.subrange(0, k + 1).last() == prog[k as int]);
            }
            let e_cb = cs.programs[0].callbacks[k].cb;
            let ghost acts0 = acts@;
            let ghost firedb = fired@;
            let ghost matchedb = matched@;
            if verdict.matched[k] {
                let eligible = if cs.streaming[e_cb] {
                    true
                } else {
                    !fired[e_cb]
                };
                if eligible {
                    acts.push(e_cb);
                }
                if !cs.streaming[e_cb] {
                    fired.set(e_cb, true);
                }
                matched.set(e_cb, true);
            }
            proof {
                let sub1 = prog.subrange(0, k + 1);
                if verdict.matched@[k as int] && cb_eligible(
                    e_cb as int,
                    cs.streaming@,
                    fired0,
                    active0,
                ) {
                    assert(acts@ == acts0.push(e_cb));
                    assert(acts@.map_values(|u: usize| u as int) =~= acts0.map_values(
                        |u: usize| u as int,
                    ).push(e_cb as int));
                } else {
                    assert(acts@ == acts0);
                }
                assert forall|c: int| 0 <= c < n implies (#[trigger] fired@[c]) == (
                !cs.streaming@[c] && spec_fires(sub1, tr, c)) by {
                    lemma_fires_extend(prog, tr, k as int, c);
                    if c != e_cb as int {
                        assert(fired@[c] == firedb[c]);
                    }
                }
                assert forall|c: int| 0 <= c < n implies (#[trigger] matched@[c]) == spec_fires(
                    sub1,
                    tr,
                    c,
                ) by {
                    lemma_fires_extend(prog, tr, k as int, c);
                    if c != e_cb as int {
                        assert(matched@[c] == matchedb[c]);
                    }
                }
                assert forall|j: int| k + 1 <= j < ncb implies !fired@[(
                #[trigger] prog[j]).cb as int] by {
                    assert(prog[k as int].cb < prog[j].cb);
                }
            }
            k = k + 1;
        }
        proof {
            assert(cs.programs@[0].callbacks@.subrange(0, ncb as int)
                =~= cs.programs@[0].callbacks@);
        }
        let tw = TrackedWrapper::new(lay, enabled, core_id);
        let ghost h0: Seq<int> = seq![0int];
        let conn = ConnInfo {
            current: Level::L4FirstPacket,
            ended: false,
            fired,
            active_streaming,
            matched,
            record: Some(tw),
            history: Ghost(h0),
        };
        Some((conn, acts))
    }
}

} // verus!
