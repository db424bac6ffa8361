use vstd::prelude::*;

use crate::engine::driven::Injection;

verus! {

/// Blocks of silence, after release, before a voice frees itself.
pub const TAIL_SILENCE_BLOCKS: u32 = 16;

/// Largest block a voice renders per call.
pub const CHUNK_MAX: usize = 128;

/// Object index that means "no second object".
pub const OBJECT_B_OFF: i32 = 6;

/// The four ways a note can set the resonators going.
#[derive(Debug, Clone, Copy, PartialEq, Eq, Structural)]
pub enum Exciter {
    Strike,
    Breath,
    Bow,
    Pick,
}

/// The exciter selected by a parameter index: 1, 2 and 3 pick breath, bow and pick; any other
/// value falls back to a strike.
pub open spec fn exciter_of_index(index: i32) -> Exciter {
    if index == 1 {
        Exciter::Breath
    } else if index == 2 {
        Exciter::Bow
    } else if index == 3 {
        Exciter::Pick
    } else {
        Exciter::Strike
    }
}

impl Exciter {
    /// The exciter a parameter index selects.
    pub fn from_index(index: i32) -> (exciter: Self)
        ensures
            exciter == exciter_of_index(index),
            exciter == Exciter::Breath <==> index == 1,
            exciter == Exciter::Bow <==> index == 2,
            exciter == Exciter::Pick <==> index == 3,
            exciter == Exciter::Strike <==> (index != 1 && index != 2 && index != 3),
    {
        match index {
            1 => Self::Breath,
            2 => Self::Bow,
            3 => Self::Pick,
            _ => Self::Strike,
        }
    }
}

/// The length of the next rendered block: what the host offers, capped at `CHUNK_MAX`.
pub fn chunk_len(available: usize) -> (len: usize)
    ensures
        len == if available < CHUNK_MAX {
            available
        } else {
            CHUNK_MAX
        },
{
    if available < CHUNK_MAX {
        available
    } else {
        CHUNK_MAX
    }
}

/// Which engine a voice currently holds.
#[derive(Debug, Clone, Copy, PartialEq, Eq, Structural)]
pub enum EngineKind {
    Idle,
    Driven,
    Bow,
    Pluck,
}

/// The engine an exciter plays through: a pick plucks the string, a bow bows the modal bank,
/// strikes and breath drive the driven banks.
pub open spec fn engine_for(exciter: Exciter) -> EngineKind {
    match exciter {
        Exciter::Pick => EngineKind::Pluck,
        Exciter::Bow => EngineKind::Bow,
        Exciter::Strike | Exciter::Breath => EngineKind::Driven,
    }
}

impl EngineKind {
    pub fn for_exciter(exciter: Exciter) -> (kind: Self)
        ensures
            kind == engine_for(exciter),
            kind == EngineKind::Pluck <==> exciter == Exciter::Pick,
            kind == EngineKind::Bow <==> exciter == Exciter::Bow,
            kind == EngineKind::Driven <==> (exciter == Exciter::Strike || exciter
                == Exciter::Breath),
            kind != EngineKind::Idle,
    {
        match exciter {
            Exciter::Pick => EngineKind::Pluck,
            Exciter::Bow => EngineKind::Bow,
            Exciter::Strike | Exciter::Breath => EngineKind::Driven,
        }
    }
}

/// Level make-up of the first driven bank, by signal path: a breathed object, a lone struck
/// object carrying the whole level, the head of a serial chain, or one of a struck pair.
#[derive(Debug, Clone, Copy, PartialEq, Eq, Structural)]
pub enum Makeup {
    Breath,
    Lone,
    Serial,
    Pair,
}

/// How a strike or breath note routes through the driven banks.
#[derive(Debug, Clone, Copy, PartialEq, Eq, Structural)]
pub struct DrivenRouting {
    /// The exciter is breath (sustained noise) rather than a strike.
    pub breathing: bool,
    /// Bank B rings through bank A's output instead of taking the excitation in parallel.
    pub serial: bool,
    /// A second object is selected.
    pub has_b: bool,
    /// Injection normalization of bank A.
    pub kind_a: Injection,
    /// Injection normalization of bank B.
    pub kind_b: Injection,
    /// Level make-up of bank A.
    pub makeup: Makeup,
}

/// The routing of a driven note: routing index 1 selects the serial chain, an object-B index
/// under `OBJECT_B_OFF` adds the second object; bank A takes noise for breath and a strike
/// impulse otherwise; bank B takes tonal drive when serial, else the same drive as bank A.
pub open spec fn driven_routing(exciter: Exciter, routing: i32, object_b: i32) -> DrivenRouting {
    let breathing = exciter == Exciter::Breath;
    let serial = routing == 1;
    let has_b = object_b < OBJECT_B_OFF;
    DrivenRouting {
        breathing,
        serial,
        has_b,
        kind_a: if breathing {
            Injection::Noise
        } else {
            Injection::Strike
        },
        kind_b: if serial {
            Injection::Tonal
        } else if breathing {
            Injection::Noise
        } else {
            Injection::Strike
        },
        makeup: if breathing {
            Makeup::Breath
        } else if !has_b {
            Makeup::Lone
        } else if serial {
            Makeup::Serial
        } else {
            Makeup::Pair
        },
    }
}

/// Plans the driven banks of a strike or breath note from the exciter, the routing index and
/// the object-B index.
pub fn plan_driven(exciter: Exciter, routing: i32, object_b: i32) -> (plan: DrivenRouting)
    ensures
        plan == driven_routing(exciter, routing, object_b),
        plan.breathing <==> exciter == Exciter::Breath,
        plan.serial <==> routing == 1,
        plan.has_b <==> object_b < OBJECT_B_OFF,
        exciter == Exciter::Breath ==> plan.kind_a == Injection::Noise,
        exciter != Exciter::Breath ==> plan.kind_a == Injection::Strike,
        routing == 1 ==> plan.kind_b == Injection::Tonal,
        routing != 1 ==> plan.kind_b == plan.kind_a,
        exciter == Exciter::Breath ==> plan.makeup == Makeup::Breath,
        exciter != Exciter::Breath && object_b >= OBJECT_B_OFF ==> plan.makeup == Makeup::Lone,
        exciter != Exciter::Breath && object_b < OBJECT_B_OFF && routing == 1 ==> plan.makeup
            == Makeup::Serial,
        exciter != Exciter::Breath && object_b < OBJECT_B_OFF && routing != 1 ==> plan.makeup
            == Makeup::Pair,
{
    let breathing = exciter == Exciter::Breath;
    let serial = routing == 1;
    let has_b = object_b < OBJECT_B_OFF;
    let kind_a = if breathing {
        Injection::Noise
    } else {
        Injection::Strike
    };
    let kind_b = if serial {
        Injection::Tonal
    } else if breathing {
        Injection::Noise
    } else {
        Injection::Strike
    };
    let makeup = if breathing {
        Makeup::Breath
    } else if !has_b {
        Makeup::Lone
    } else if serial {
        Makeup::Serial
    } else {
        Makeup::Pair
    };
    DrivenRouting { breathing, serial, has_b, kind_a, kind_b, makeup }
}

/// The abstract state of a voice's lifecycle.
pub struct LifecycleView {
    pub engine: EngineKind,
    pub gate: bool,
    pub tail_blocks: nat,
    pub active: bool,
}

impl LifecycleView {
    /// The states a voice can reach: a held note is active with no silence counted, an
    /// active voice holds an engine and has counted fewer than the freeing number of silent
    /// blocks, and the count never passes that number.
    pub open spec fn reachable(self) -> bool {
        &&& self.tail_blocks <= TAIL_SILENCE_BLOCKS
        &&& self.gate ==> self.active && self.tail_blocks == 0
        &&& self.active ==> self.tail_blocks < TAIL_SILENCE_BLOCKS && self.engine != EngineKind::Idle
    }

    /// Whether a block is rendered at all.
    pub open spec fn sounding(self) -> bool {
        self.active && self.engine != EngineKind::Idle
    }
}

/// The state and the "done" answer after one rendered block; `quiet` says whether the block's
/// peak stayed under the silence threshold.
pub open spec fn after_block(v: LifecycleView, quiet: bool) -> (LifecycleView, bool) {
    if !v.sounding() {
        (v, true)
    } else if quiet && !v.gate {
        let counted = v.tail_blocks + 1;
        if counted >= TAIL_SILENCE_BLOCKS {
            (LifecycleView { tail_blocks: counted, active: false, ..v }, true)
        } else {
            (LifecycleView { tail_blocks: counted, ..v }, false)
        }
    } else {
        (LifecycleView { tail_blocks: 0, ..v }, false)
    }
}

/// The state after `n` quiet blocks in a row.
pub open spec fn after_quiet_blocks(v: LifecycleView, n: nat) -> LifecycleView
    decreases n,
{
    if n == 0 {
        v
    } else {
        after_block(after_quiet_blocks(v, (n - 1) as nat), true).0
    }
}

/// Note-on, release and silence tracking of one voice.
pub struct VoiceLifecycle {
    engine: EngineKind,
    gate: bool,
    tail_blocks: u32,
    active: bool,
}

impl VoiceLifecycle {
    pub closed spec fn view(&self) -> LifecycleView {
        LifecycleView {
            engine: self.engine,
            gate: self.gate,
            tail_blocks: self.tail_blocks as nat,
            active: self.active,
        }
    }

    #[verifier::type_invariant]
    closed spec fn well_formed(self) -> bool {
        self.view().reachable()
    }

    /// A voice that has never played: no engine, gate closed, inactive.
    pub fn new() -> (voice: Self)
        ensures
            voice.view() == (LifecycleView {
                engine: EngineKind::Idle,
                gate: false,
                tail_blocks: 0,
                active: false,
            }),
            voice.view().reachable(),
    {
        VoiceLifecycle { engine: EngineKind::Idle, gate: false, tail_blocks: 0, active: false }
    }

    /// Note-on: the voice takes the exciter's engine, opens its gate and becomes active with
    /// no silence counted. Returns whether the engine has to be built afresh (the voice held a
    /// different one); the same engine is re-triggered in place.
    pub fn start(&mut self, exciter: Exciter) -> (fresh: bool)
        ensures
            final(self).view() == (LifecycleView {
                engine: engine_for(exciter),
                gate: true,
                tail_blocks: 0,
                active: true,
            }),
            fresh == (old(self).view().engine != engine_for(exciter)),
            final(self).view().reachable(),
    {
        let kind = EngineKind::for_exciter(exciter);
        let fresh = self.engine != kind;
        *self = VoiceLifecycle { engine: kind, gate: true, tail_blocks: 0, active: true };
        proof {
            use_type_invariant(&*self);
        }
        fresh
    }

    /// Note-off: the key is up; the voice keeps ringing until its release dies away.
    pub fn stop(&mut self)
        ensures
            final(self).view() == (LifecycleView { gate: false, ..old(self).view() }),
            final(self).view().reachable(),
    {
        proof {
            use_type_invariant(&*self);
        }
        *self = VoiceLifecycle { gate: false, ..*self };
        proof {
            use_type_invariant(&*self);
        }
    }

    /// Immediate stop: gate closed and voice freed.
    pub fn force_stop(&mut self)
        ensures
            final(self).view() == (LifecycleView { gate: false, active: false, ..old(self).view() }),
            final(self).view().reachable(),
    {
        proof {
            use_type_invariant(&*self);
        }
        *self = VoiceLifecycle { gate: false, active: false, ..*self };
        proof {
            use_type_invariant(&*self);
        }
    }

    /// Whether the note is held.
    pub fn gate(&self) -> (gate: bool)
        ensures
            gate == self.view().gate,
    {
        self.gate
    }

    /// Whether the voice still renders.
    pub fn is_active(&self) -> (active: bool)
        ensures
            active == self.view().active,
    {
        self.active
    }

    /// The engine the voice holds.
    pub fn engine(&self) -> (engine: EngineKind)
        ensures
            engine == self.view().engine,
    {
        self.engine
    }

    /// Whether the next block is rendered: the voice is active and holds an engine.
    pub fn is_sounding(&self) -> (sounding: bool)
        ensures
            sounding == self.view().sounding(),
    {
        self.active && self.engine != EngineKind::Idle
    }

    /// Closes a block: `quiet` tells whether its peak stayed under the silence threshold.
    /// Returns whether the voice is done. A voice that does not sound is done and unchanged;
    /// during a held note the silence count stays at zero; after release, the count of
    /// consecutive quiet blocks grows and a loud block resets it, and the voice frees itself
    /// when the count reaches `TAIL_SILENCE_BLOCKS`.
    pub fn finish_block(&mut self, quiet: bool) -> (done: bool)
        ensures
            (final(self).view(), done) == after_block(old(self).view(), quiet),
            final(self).view().reachable(),
    {
        proof {
            use_type_invariant(&*self);
        }
        if !self.active || self.engine == EngineKind::Idle {
            return true;
        }
        proof {
            lemma_block_keeps_reachable(self.view(), quiet);
        }
        if quiet && !self.gate {
            let counted = self.tail_blocks + 1;
            if counted >= TAIL_SILENCE_BLOCKS {
                *self = VoiceLifecycle { tail_blocks: counted, active: false, ..*self };
                return true;
            }
            *self = VoiceLifecycle { tail_blocks: counted, ..*self };
        } else {
            *self = VoiceLifecycle { tail_blocks: 0, ..*self };
        }
        false
    }
}


impl Default for VoiceLifecycle {
    /// A voice that has never played.
    fn default() -> (voice: Self)
        ensures
            voice.view() == (LifecycleView {
                engine: EngineKind::Idle,
                gate: false,
                tail_blocks: 0,
                active: false,
            }),
    {
        VoiceLifecycle::new()
    }
}

/// Bank A's injection follows the exciter alone: breath is normalized as noise, anything else as
/// a strike impulse, whatever the routing and the second object.
pub proof fn lemma_bank_a_injection_follows_exciter(
    exciter: Exciter,
    routing: i32,
    object_b: i32,
    other_routing: i32,
    other_object_b: i32,
)
    ensures
        exciter == Exciter::Breath ==> driven_routing(exciter, routing, object_b).kind_a
            == Injection::Noise,
        exciter != Exciter::Breath ==> driven_routing(exciter, routing, object_b).kind_a
            == Injection::Strike,
        driven_routing(exciter, routing, object_b).kind_a == driven_routing(
            exciter,
            other_routing,
            other_object_b,
        ).kind_a,
{
}

/// Bank B rings tonally exactly when the chain is serial; in parallel it takes bank A's drive.
pub proof fn lemma_bank_b_injection(exciter: Exciter, routing: i32, object_b: i32)
    ensures
        (driven_routing(exciter, routing, object_b).kind_b == Injection::Tonal) <==> routing == 1,
        routing != 1 ==> driven_routing(exciter, routing, object_b).kind_b == driven_routing(
            exciter,
            routing,
            object_b,
        ).kind_a,
{
}

/// Path-aware make-up: a breathed object always takes breath make-up; a struck object with no
/// second object carries the whole level whatever the routing; serial and pair make-up occur
/// only with a second object, serial exactly on the serial route.
pub proof fn lemma_makeup_follows_path(exciter: Exciter, routing: i32, object_b: i32)
    ensures
        (driven_routing(exciter, routing, object_b).makeup == Makeup::Breath) <==> exciter
            == Exciter::Breath,
        exciter != Exciter::Breath && object_b >= OBJECT_B_OFF ==> driven_routing(
            exciter,
            routing,
            object_b,
        ).makeup == Makeup::Lone,
        driven_routing(exciter, routing, object_b).makeup == Makeup::Lone ==> object_b
            >= OBJECT_B_OFF,
        driven_routing(exciter, routing, object_b).makeup == Makeup::Serial ==> object_b
            < OBJECT_B_OFF && routing == 1,
        driven_routing(exciter, routing, object_b).makeup == Makeup::Pair ==> object_b
            < OBJECT_B_OFF && routing != 1,
        exciter != Exciter::Breath && object_b < OBJECT_B_OFF ==> (driven_routing(
            exciter,
            routing,
            object_b,
        ).makeup == Makeup::Serial <==> routing == 1),
{
}

/// Every block keeps a voice in a reachable state.
pub proof fn lemma_block_keeps_reachable(v: LifecycleView, quiet: bool)
    requires
        v.reachable(),
    ensures
        after_block(v, quiet).0.reachable(),
{
}

/// A held note is never freed, whatever its level: its silence count stays at zero and the
/// block does not report it done.
pub proof fn lemma_held_note_is_never_done(v: LifecycleView, quiet: bool)
    requires
        v.reachable(),
        v.gate,
    ensures
        after_block(v, quiet) == (v, false),
{
}

/// A loud block on a sounding voice resets the silence count and keeps the voice alive.
pub proof fn lemma_loud_block_resets_silence(v: LifecycleView)
    requires
        v.sounding(),
    ensures
        after_block(v, false) == (LifecycleView { tail_blocks: 0, ..v }, false),
{
}

/// A voice that does not sound (freed, force-stopped or never started) reports done and
/// stays as it is.
pub proof fn lemma_silent_voice_stays_done(v: LifecycleView, quiet: bool)
    requires
        !v.sounding(),
    ensures
        after_block(v, quiet) == (v, true),
{
}

/// No block brings a freed voice back: only a note-on does.
pub proof fn lemma_blocks_never_revive(v: LifecycleView, quiet: bool)
    ensures
        after_block(v, quiet).0.active ==> v.active,
        after_block(v, quiet).0.engine == v.engine,
        after_block(v, quiet).0.gate == v.gate,
{
}

/// After release, a run of quiet blocks counts up one per block; the voice stays active until
/// the count reaches `TAIL_SILENCE_BLOCKS`, and exactly the block that reaches it reports done.
pub proof fn lemma_release_frees_after_silence(v: LifecycleView, n: nat)
    requires
        v.reachable(),
        v.active,
        !v.gate,
        v.tail_blocks + n <= TAIL_SILENCE_BLOCKS,
    ensures
        after_quiet_blocks(v, n) == (LifecycleView {
            tail_blocks: v.tail_blocks + n,
            active: v.tail_blocks + n < TAIL_SILENCE_BLOCKS,
            ..v
        }),
        v.tail_blocks + n < TAIL_SILENCE_BLOCKS ==> after_block(after_quiet_blocks(v, n), true).1
            == (v.tail_blocks + n + 1 == TAIL_SILENCE_BLOCKS),
    decreases n,
{
    if n > 0 {
        lemma_release_frees_after_silence(v, (n - 1) as nat);
    }
}

} // verus!
