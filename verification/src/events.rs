//! Event ingestion: a tagged-union event type resolved through a single
//! ingestion function that mutates the session state so that, after each
//! processing pass, the model reflects the latest compositor-declared truth.
//!
//! Events that reference an unseen object identity are a protocol violation;
//! they are reported as recoverable [`UnknownObject`] errors and leave the
//! state untouched, so a malformed or out-of-order event stream degrades
//! instead of crashing the client.

use crate::model::{
    find_first, head_idx_of, lemma_find_first, lemma_find_first_is, AdaptiveSyncState, AppData,
    AppDataV, ConfigResult, HeadInfo, HeadInfoV, HeadMode, Transform,
};
use vstd::prelude::*;

verus! {

/// An event named an object identity that the model has never seen.
#[derive(Clone, Copy, Debug, PartialEq, Eq, Structural)]
pub struct UnknownObject {
    pub object_id: u32,
}

/// Events emitted by the output manager itself.
#[derive(Clone, Copy, Debug)]
pub enum ManagerEvent {
    /// A new head was announced; an empty, disabled entry is created for it.
    Head { head_id: u32 },
    /// The snapshot is consistent; `serial` opens the next transaction.
    Done { serial: u32 },
}

/// Property events for one head, each setting exactly one attribute.
#[derive(Debug)]
pub enum HeadEvent {
    Name { name: String },
    Description { description: String },
    SerialNumber { serial_number: String },
    Position { x: i32, y: i32 },
    Make { make: String },
    Model { model: String },
    PhysicalSize { width: i32, height: i32 },
    Transform { transform: Option<Transform> },
    Scale { scale_millis: i32 },
    Enabled { enabled: i32 },
    AdaptiveSync { state: Option<AdaptiveSyncState> },
    Mode { mode_id: u32 },
    CurrentMode { mode_id: u32 },
}

/// Events filling in the numeric fields of a previously-created mode.
#[derive(Clone, Copy, Debug)]
pub enum ModeEvent {
    Size { width: i32, height: i32 },
    /// Refresh rate in milli-Hz, normalized to whole Hz on ingestion.
    Refresh { refresh: i32 },
    Preferred,
}

/// Resolution of the pending configuration transaction.
#[derive(Clone, Copy, Debug)]
pub enum ConfigurationEvent {
    Succeeded,
    Failed,
    Cancelled,
}

/// The union of everything the compositor can tell this client.
#[derive(Debug)]
pub enum Event {
    Manager(ManagerEvent),
    Head { head_id: u32, event: HeadEvent },
    Mode { mode_id: u32, event: ModeEvent },
    Configuration(ConfigurationEvent),
}

/// First mode carrying `id`, if any.
pub open spec fn mode_idx_of(modes: Seq<HeadMode>, id: u32) -> Option<int> {
    find_first(modes, |m: HeadMode| m.id == id)
}

pub open spec fn head_has_mode(h: HeadInfoV, mode_id: u32) -> bool {
    exists|j: int| 0 <= j < h.modes.len() && h.modes[j].id == mode_id
}

/// A just-announced mode: only the identity is known so far.
pub open spec fn empty_mode(id: u32) -> HeadMode {
    HeadMode { id: id, width: 0, height: 0, rate: 0, is_preferred: false, is_current: false }
}

/// Milli-Hz to whole Hz, truncating toward zero.
pub open spec fn rate_from_millihz(refresh: i32) -> int {
    if refresh >= 0 {
        (refresh as int) / 1000
    } else {
        -((-(refresh as int)) / 1000)
    }
}

/// Mark exactly the mode at index `j` current, clearing every other one.
pub open spec fn set_current(modes: Seq<HeadMode>, j: int) -> Seq<HeadMode> {
    Seq::new(modes.len(), |k: int| HeadMode { is_current: k == j, ..modes[k] })
}

/// Effect of one head property event on that head.
pub open spec fn head_step(h: HeadInfoV, ev: HeadEvent) -> Result<HeadInfoV, UnknownObject> {
    match ev {
        HeadEvent::Name { name } => Ok(HeadInfoV { name: Some(name@), ..h }),
        HeadEvent::Description { description } => Ok(
            HeadInfoV { description: Some(description@), ..h },
        ),
        HeadEvent::SerialNumber { serial_number } => Ok(
            HeadInfoV { serial: Some(serial_number@), ..h },
        ),
        HeadEvent::Position { x, y } => Ok(
            HeadInfoV { position_x: Some(x), position_y: Some(y), ..h },
        ),
        HeadEvent::Make { make } => Ok(HeadInfoV { make: Some(make@), ..h }),
        HeadEvent::Model { model } => Ok(HeadInfoV { model: Some(model@), ..h }),
        HeadEvent::PhysicalSize { width, height } => Ok(
            HeadInfoV { physical_width: Some(width), physical_height: Some(height), ..h },
        ),
        HeadEvent::Transform { transform } => Ok(HeadInfoV { transform: transform, ..h }),
        HeadEvent::Scale { scale_millis } => Ok(
            HeadInfoV { scale_millis: Some(scale_millis), ..h },
        ),
        HeadEvent::Enabled { enabled } => Ok(HeadInfoV { enabled: enabled == 1, ..h }),
        HeadEvent::AdaptiveSync { state } => Ok(HeadInfoV { adaptive_sync: state, ..h }),
        HeadEvent::Mode { mode_id } => if head_has_mode(h, mode_id) {
            Ok(h)
        } else {
            Ok(HeadInfoV { modes: h.modes.push(empty_mode(mode_id)), ..h })
        },
        HeadEvent::CurrentMode { mode_id } => match mode_idx_of(h.modes, mode_id) {
            Some(j) => Ok(HeadInfoV { modes: set_current(h.modes, j), ..h }),
            None => Err(UnknownObject { object_id: mode_id }),
        },
    }
}

/// Effect of one mode property event on one mode.
pub open spec fn mode_step(m: HeadMode, ev: ModeEvent) -> HeadMode {
    match ev {
        ModeEvent::Size { width, height } => HeadMode { width: width, height: height, ..m },
        ModeEvent::Refresh { refresh } => HeadMode {
            rate: rate_from_millihz(refresh) as i32,
            ..m
        },
        ModeEvent::Preferred => HeadMode { is_preferred: true, ..m },
    }
}

/// Apply a mode event to every mode of a head that carries the identity.
pub open spec fn touch_modes(modes: Seq<HeadMode>, mode_id: u32, ev: ModeEvent) -> Seq<HeadMode> {
    Seq::new(
        modes.len(),
        |k: int|
            if modes[k].id == mode_id {
                mode_step(modes[k], ev)
            } else {
                modes[k]
            },
    )
}

/// Effect of a manager event. Announcing an already-known head identity
/// resets that entry, as a map insertion would.
pub open spec fn ingest_manager(pre: AppDataV, ev: ManagerEvent) -> AppDataV {
    match ev {
        ManagerEvent::Head { head_id } => {
            let fresh = HeadInfo::spec_new(head_id);
            let heads = match head_idx_of(pre.heads, head_id) {
                Some(i) => pre.heads.update(i, fresh),
                None => pre.heads.push(fresh),
            };
            AppDataV { heads: heads, output_manager_found: true, ..pre }
        },
        ManagerEvent::Done { serial } => AppDataV {
            initial_done: true,
            config_serial: Some(serial),
            output_manager_found: true,
            ..pre
        },
    }
}

/// Effect of a head event: the owning head is looked up by identity.
pub open spec fn ingest_head(pre: AppDataV, head_id: u32, ev: HeadEvent) -> Result<
    AppDataV,
    UnknownObject,
> {
    match head_idx_of(pre.heads, head_id) {
        None => Err(UnknownObject { object_id: head_id }),
        Some(i) => match head_step(pre.heads[i], ev) {
            Ok(h) => Ok(AppDataV { heads: pre.heads.update(i, h), ..pre }),
            Err(e) => Err(e),
        },
    }
}

/// Effect of a mode event: the mode is looked up across all heads, since its
/// owning head is not carried in the event payload.
pub open spec fn ingest_mode(pre: AppDataV, mode_id: u32, ev: ModeEvent) -> Result<
    AppDataV,
    UnknownObject,
> {
    if exists|i: int| 0 <= i < pre.heads.len() && head_has_mode(#[trigger] pre.heads[i], mode_id) {
        Ok(
            AppDataV {
                heads: Seq::new(
                    pre.heads.len(),
                    |i: int| HeadInfoV {
                        modes: touch_modes(pre.heads[i].modes, mode_id, ev),
                        ..pre.heads[i]
                    },
                ),
                ..pre
            },
        )
    } else {
        Err(UnknownObject { object_id: mode_id })
    }
}

/// Effect of a configuration event: only the result slot changes; no head is
/// touched, so a failed transaction never mutates the cached layout.
pub open spec fn ingest_configuration(pre: AppDataV, ev: ConfigurationEvent) -> AppDataV {
    match ev {
        ConfigurationEvent::Succeeded => AppDataV {
            config_result: Some(ConfigResult::Succeeded),
            ..pre
        },
        ConfigurationEvent::Failed => AppDataV { config_result: Some(ConfigResult::Failed), ..pre },
        ConfigurationEvent::Cancelled => AppDataV {
            config_result: Some(ConfigResult::Cancelled),
            ..pre
        },
    }
}

/// The single ingestion function: what one event does to the whole state.
pub open spec fn ingest(pre: AppDataV, ev: Event) -> Result<AppDataV, UnknownObject> {
    match ev {
        Event::Manager(me) => Ok(ingest_manager(pre, me)),
        Event::Head { head_id, event } => ingest_head(pre, head_id, event),
        Event::Mode { mode_id, event } => ingest_mode(pre, mode_id, event),
        Event::Configuration(ce) => Ok(ingest_configuration(pre, ce)),
    }
}

/// Whether a registry global with this interface name should be bound: only
/// the output-manager interface, and only once; duplicate globals are
/// ignored.
pub fn should_bind_output_manager(state: &AppData, interface: &str) -> (r: bool)
    ensures
        r == (interface@ == "zwlr_output_manager_v1"@ && !state@.output_manager_found),
{
    !state.output_manager_found && crate::strutil::str_eq(interface, "zwlr_output_manager_v1")
}

/// A head with a mode event applied to every matching mode, everything else
/// untouched.
pub open spec fn touched_head(h: HeadInfoV, mode_id: u32, ev: ModeEvent) -> HeadInfoV {
    HeadInfoV { modes: touch_modes(h.modes, mode_id, ev), ..h }
}

/// One head property event preserves the head's well-formedness and its
/// identity.
proof fn lemma_head_step_wf(h: HeadInfoV, ev: HeadEvent)
    requires
        h.wf(),
    ensures
        head_step(h, ev) matches Ok(h2) ==> h2.wf() && h2.id == h.id,
{
    match ev {
        HeadEvent::Mode { mode_id } => {
            if !head_has_mode(h, mode_id) {
                let h2 = head_step(h, ev)->Ok_0;
                assert forall|i: int, j: int| 0 <= i < j < h2.modes.len() implies h2.modes[i].id
                    != h2.modes[j].id by {
                    if j == h.modes.len() {
                        assert(!(0 <= i < h.modes.len() && h.modes[i].id == mode_id));
                    }
                }
            }
        },
        HeadEvent::CurrentMode { mode_id } => {
            match mode_idx_of(h.modes, mode_id) {
                Some(j) => {
                    let h2 = head_step(h, ev)->Ok_0;
                    assert(forall|k: int|
                        0 <= k < h2.modes.len() ==> (#[trigger] h2.modes[k]).id == h.modes[k].id
                            && h2.modes[k].is_current == (k == j));
                },
                None => {},
            }
        },
        _ => {},
    }
}

/// Every event that the model accepts preserves its well-formedness: head
/// identities stay unique, mode identities stay unique per head, and at most
/// one mode per head is current at any time.
pub proof fn lemma_ingest_preserves_wf(pre: AppDataV, ev: Event)
    requires
        pre.wf(),
    ensures
        ingest(pre, ev) matches Ok(post) ==> post.wf(),
{
    match ev {
        Event::Manager(me) => {
            match me {
                ManagerEvent::Head { head_id } => {
                    let fresh = HeadInfo::spec_new(head_id);
                    assert(fresh.wf());
                    lemma_find_first(pre.heads, |h: HeadInfoV| h.id == head_id);
                    match head_idx_of(pre.heads, head_id) {
                        Some(i) => {
                            let post = ingest_manager(pre, me);
                            assert(pre.heads[i].id == head_id);
                            assert(forall|k: int|
                                0 <= k < post.heads.len() ==> (#[trigger] post.heads[k]).id
                                    == pre.heads[k].id);
                        },
                        None => {
                            let post = ingest_manager(pre, me);
                            assert(forall|k: int|
                                0 <= k < pre.heads.len() ==> (#[trigger] pre.heads[k]).id
                                    != head_id);
                        },
                    }
                },
                ManagerEvent::Done { .. } => {},
            }
        },
        Event::Head { head_id, event } => {
            match head_idx_of(pre.heads, head_id) {
                Some(i) => {
                    lemma_find_first(pre.heads, |h: HeadInfoV| h.id == head_id);
                    lemma_head_step_wf(pre.heads[i], event);
                },
                None => {},
            }
        },
        Event::Mode { mode_id, event } => {
            match ingest_mode(pre, mode_id, event) {
                Ok(post) => {
                    assert forall|i: int| 0 <= i < post.heads.len() implies (
                    #[trigger] post.heads[i]).wf() by {
                        let touched = touch_modes(pre.heads[i].modes, mode_id, event);
                        assert(forall|k: int|
                            0 <= k < touched.len() ==> (#[trigger] touched[k]).id
                                == pre.heads[i].modes[k].id && touched[k].is_current
                                == pre.heads[i].modes[k].is_current);
                        assert(pre.heads[i].wf());
                    }
                },
                Err(_) => {},
            }
        },
        Event::Configuration(_) => {},
    }
}

/// The state after a whole event stream: accepted events take effect in
/// order, rejected ones leave the state as it was.
pub open spec fn run_events(pre: AppDataV, evs: Seq<Event>) -> AppDataV
    decreases evs.len(),
{
    if evs.len() == 0 {
        pre
    } else {
        let next = match ingest(pre, evs[0]) {
            Ok(post) => post,
            Err(_) => pre,
        };
        run_events(next, evs.drop_first())
    }
}

/// Well-formedness holds at any time: every state reachable from a
/// well-formed state — in particular from the initial one — through any
/// stream of events is well-formed.
pub proof fn lemma_run_events_preserves_wf(pre: AppDataV, evs: Seq<Event>)
    requires
        pre.wf(),
    ensures
        run_events(pre, evs).wf(),
    decreases evs.len(),
{
    if evs.len() > 0 {
        lemma_ingest_preserves_wf(pre, evs[0]);
        match ingest(pre, evs[0]) {
            Ok(post) => lemma_run_events_preserves_wf(post, evs.drop_first()),
            Err(_) => lemma_run_events_preserves_wf(pre, evs.drop_first()),
        }
    }
}

/// A resolved transaction — succeeded, failed or cancelled — only fills the
/// result slot: no head's locally cached attributes, position or modes are
/// touched. There is no optimistic local update before compositor
/// confirmation; the layout changes only through later advertisement events.
pub proof fn lemma_transaction_result_leaves_heads(pre: AppDataV, ev: ConfigurationEvent)
    ensures
        match ingest(pre, Event::Configuration(ev)) {
            Ok(post) => post.heads == pre.heads && post.initial_done == pre.initial_done
                && post.config_serial == pre.config_serial && post.output_manager_found
                == pre.output_manager_found,
            Err(_) => false,
        },
{
}

/// A `CurrentMode` advertisement is accepted exactly when it references a
/// mode already present in the owning head's mode set, so a current-mode
/// reference can never dangle: after acceptance the head's current mode is
/// one of its advertised modes and carries the referenced identity.
pub proof fn lemma_no_dangling_current_mode(h: HeadInfoV, mode_id: u32)
    ensures
        head_step(h, (HeadEvent::CurrentMode { mode_id: mode_id })) is Ok <==> head_has_mode(
            h,
            mode_id,
        ),
        head_step(h, (HeadEvent::CurrentMode { mode_id: mode_id })) matches Ok(h2) ==> {
            &&& h2.modes.len() == h.modes.len()
            &&& forall|k: int|
                0 <= k < h2.modes.len() ==> (#[trigger] h2.modes[k]).id == h.modes[k].id
            &&& exists|j: int|
                0 <= j < h2.modes.len() && (#[trigger] h2.modes[j]).is_current && h2.modes[j].id
                    == mode_id
            &&& forall|j: int|
                0 <= j < h2.modes.len() && (#[trigger] h2.modes[j]).is_current ==> h2.modes[j].id
                    == mode_id
        },
{
    lemma_find_first(h.modes, |m: HeadMode| m.id == mode_id);
    match mode_idx_of(h.modes, mode_id) {
        Some(j) => {
            let h2 = head_step(h, (HeadEvent::CurrentMode { mode_id: mode_id }))->Ok_0;
            assert(h2.modes[j].is_current && h2.modes[j].id == mode_id);
        },
        None => {},
    }
}

fn mode_index(modes: &Vec<HeadMode>, id: u32) -> (r: Option<usize>)
    ensures
        match r {
            Some(k) => mode_idx_of(modes@, id) == Some(k as int) && k < modes@.len(),
            None => mode_idx_of(modes@, id) is None,
        },
{
    let ghost pred = |m: HeadMode| m.id == id;
    let n = modes.len();
    let mut k: usize = 0;
    while k < n
        invariant
            pred == (|m: HeadMode| m.id == id),
            n == modes@.len(),
            0 <= k <= n,
            forall|j: int| 0 <= j < k ==> (#[trigger] modes@[j]).id != id,
        decreases n - k,
    {
        if modes[k].id == id {
            proof {
                assert(pred(modes@[k as int]));
                assert forall|j: int| 0 <= j < k implies !pred(modes@[j]) by {}
                lemma_find_first_is(modes@, pred, k as int);
            }
            return Some(k);
        }
        k += 1;
    }
    proof {
        assert forall|j: int| 0 <= j < n implies !pred(modes@[j]) by {}
        lemma_find_first(modes@, pred);
    }
    None
}

fn mode_step_exec(m: HeadMode, ev: ModeEvent) -> (r: HeadMode)
    ensures
        r == mode_step(m, ev),
{
    match ev {
        ModeEvent::Size { width, height } => HeadMode { width: width, height: height, ..m },
        ModeEvent::Refresh { refresh } => {
            let rate: i32 = if refresh >= 0 {
                ((refresh as u32) / 1000) as i32
            } else {
                let magnitude: u64 = (-(refresh as i64)) as u64;
                -((magnitude / 1000) as i32)
            };
            proof {
                assert(rate == rate_from_millihz(refresh) as i32);
            }
            HeadMode { rate: rate, ..m }
        },
        ModeEvent::Preferred => HeadMode { is_preferred: true, ..m },
    }
}

/// In-place application of one mode event to every matching mode of one
/// head's collection; reports whether any mode matched.
fn touch_modes_exec(modes: &mut Vec<HeadMode>, mode_id: u32, ev: ModeEvent) -> (touched: bool)
    ensures
        final(modes)@ == touch_modes(old(modes)@, mode_id, ev),
        touched == exists|j: int| 0 <= j < old(modes)@.len() && old(modes)@[j].id == mode_id,
{
    let mut touched = false;
    let n = modes.len();
    let mut k: usize = 0;
    while k < n
        invariant
            n == modes@.len(),
            modes@.len() == old(modes)@.len(),
            0 <= k <= n,
            forall|j: int| k <= j < n ==> modes@[j] == old(modes)@[j],
            forall|j: int|
                0 <= j < k ==> modes@[j] == touch_modes(old(modes)@, mode_id, ev)[j],
            touched == exists|j: int| 0 <= j < k && old(modes)@[j].id == mode_id,
        decreases n - k,
    {
        let m = modes[k];
        if m.id == mode_id {
            let stepped = mode_step_exec(m, ev);
            modes[k] = stepped;
            touched = true;
        }
        k += 1;
    }
    proof {
        assert(modes@ =~= touch_modes(old(modes)@, mode_id, ev));
    }
    touched
}

impl HeadInfo {
    /// Apply one head property event to this head.
    fn ingest_head_event(&mut self, ev: HeadEvent) -> (r: Result<(), UnknownObject>)
        ensures
            match head_step(old(self)@, ev) {
                Ok(h) => r is Ok && final(self)@ == h,
                Err(e) => (r matches Err(e2) && e2 == e) && final(self)@ == old(self)@,
            },
    {
        match ev {
            HeadEvent::Name { name } => {
                self.name = Some(name);
                Ok(())
            },
            HeadEvent::Description { description } => {
                self.description = Some(description);
                Ok(())
            },
            HeadEvent::SerialNumber { serial_number } => {
                self.serial = Some(serial_number);
                Ok(())
            },
            HeadEvent::Position { x, y } => {
                self.position_x = Some(x);
                self.position_y = Some(y);
                Ok(())
            },
            HeadEvent::Make { make } => {
                self.make = Some(make);
                Ok(())
            },
            HeadEvent::Model { model } => {
                self.model = Some(model);
                Ok(())
            },
            HeadEvent::PhysicalSize { width, height } => {
                self.physical_width = Some(width);
                self.physical_height = Some(height);
                Ok(())
            },
            HeadEvent::Transform { transform } => {
                self.transform = transform;
                Ok(())
            },
            HeadEvent::Scale { scale_millis } => {
                self.scale_millis = Some(scale_millis);
                Ok(())
            },
            HeadEvent::Enabled { enabled } => {
                self.enabled = enabled == 1;
                Ok(())
            },
            HeadEvent::AdaptiveSync { state } => {
                self.adaptive_sync = state;
                Ok(())
            },
            HeadEvent::Mode { mode_id } => {
                match mode_index(&self.modes, mode_id) {
                    Some(_) => {
                        proof {
                            lemma_find_first(self@.modes, |m: HeadMode| m.id == mode_id);
                        }
                        Ok(())
                    },
                    None => {
                        proof {
                            lemma_find_first(self@.modes, |m: HeadMode| m.id == mode_id);
                        }
                        self.modes.push(
                            HeadMode {
                                id: mode_id,
                                width: 0,
                                height: 0,
                                rate: 0,
                                is_preferred: false,
                                is_current: false,
                            },
                        );
                        Ok(())
                    },
                }
            },
            HeadEvent::CurrentMode { mode_id } => {
                match mode_index(&self.modes, mode_id) {
                    None => Err(UnknownObject { object_id: mode_id }),
                    Some(j) => {
                        let n = self.modes.len();
                        let mut new_modes: Vec<HeadMode> = Vec::new();
                        let mut k: usize = 0;
                        while k < n
                            invariant
                                n == self.modes@.len(),
                                0 <= k <= n,
                                j < n,
                                new_modes@.len() == k,
                                forall|t: int|
                                    0 <= t < k ==> new_modes@[t] == set_current(
                                        self.modes@,
                                        j as int,
                                    )[t],
                            decreases n - k,
                        {
                            let mut m = self.modes[k];
                            m.is_current = k == j;
                            new_modes.push(m);
                            k += 1;
                        }
                        proof {
                            assert(new_modes@ =~= set_current(self.modes@, j as int));
                        }
                        self.modes = new_modes;
                        Ok(())
                    },
                }
            },
        }
    }
}

impl AppData {
    /// Index of the head carrying `id`, if any.
    fn head_index(&self, id: u32) -> (r: Option<usize>)
        ensures
            match r {
                Some(k) => head_idx_of(self@.heads, id) == Some(k as int) && k
                    < self@.heads.len(),
                None => head_idx_of(self@.heads, id) is None,
            },
    {
        let ghost pred = |h: HeadInfoV| h.id == id;
        let n = self.heads.len();
        let mut k: usize = 0;
        while k < n
            invariant
                pred == (|h: HeadInfoV| h.id == id),
                n == self.heads@.len(),
                n == self@.heads.len(),
                0 <= k <= n,
                forall|j: int| 0 <= j < k ==> (#[trigger] self@.heads[j]).id != id,
            decreases n - k,
        {
            if self.heads[k].id == id {
                proof {
                    assert(pred(self@.heads[k as int]));
                    assert forall|j: int| 0 <= j < k implies !pred(self@.heads[j]) by {}
                    lemma_find_first_is(self@.heads, pred, k as int);
                }
                return Some(k);
            }
            k += 1;
        }
        proof {
            assert forall|j: int| 0 <= j < n implies !pred(self@.heads[j]) by {}
            lemma_find_first(self@.heads, pred);
        }
        None
    }

    fn on_manager_event(&mut self, ev: ManagerEvent)
        ensures
            final(self)@ == ingest_manager(old(self)@, ev),
    {
        self.output_manager_found = true;
        match ev {
            ManagerEvent::Head { head_id } => {
                match self.head_index(head_id) {
                    Some(i) => {
                        self.heads[i] = HeadInfo::new(head_id);
                        proof {
                            assert(self@ =~~= ingest_manager(old(self)@, ev));
                        }
                    },
                    None => {
                        self.heads.push(HeadInfo::new(head_id));
                        proof {
                            assert(self@ =~~= ingest_manager(old(self)@, ev));
                        }
                    },
                }
            },
            ManagerEvent::Done { serial } => {
                self.initial_done = true;
                self.config_serial = Some(serial);
                proof {
                    assert(self@ =~~= ingest_manager(old(self)@, ev));
                }
            },
        }
    }

    fn on_head_event(&mut self, head_id: u32, ev: HeadEvent) -> (r: Result<(), UnknownObject>)
        ensures
            match ingest_head(old(self)@, head_id, ev) {
                Ok(post) => r is Ok && final(self)@ == post,
                Err(e) => (r matches Err(e2) && e2 == e) && final(self)@ == old(self)@,
            },
    {
        match self.head_index(head_id) {
            None => Err(UnknownObject { object_id: head_id }),
            Some(i) => {
                let h = &mut self.heads[i];
                let r = h.ingest_head_event(ev);
                proof {
                    match ingest_head(old(self)@, head_id, ev) {
                        Ok(post) => {
                            assert(self@.heads =~~= post.heads);
                            assert(self@ =~~= post);
                        },
                        Err(_) => {
                            assert(self@.heads =~~= old(self)@.heads);
                            assert(self@ =~~= old(self)@);
                        },
                    }
                }
                r
            },
        }
    }

    fn on_mode_event(&mut self, mode_id: u32, ev: ModeEvent) -> (r: Result<(), UnknownObject>)
        ensures
            match ingest_mode(old(self)@, mode_id, ev) {
                Ok(post) => r is Ok && final(self)@ == post,
                Err(e) => (r matches Err(e2) && e2 == e) && final(self)@ == old(self)@,
            },
    {
        let ghost pre = old(self)@;
        let mut touched = false;
        let n = self.heads.len();
        let mut i: usize = 0;
        while i < n
            invariant
                n == self.heads@.len(),
                self.heads@.len() == old(self).heads@.len(),
                0 <= i <= n,
                pre == old(self)@,
                pre.heads.len() == n,
                forall|h: int| i <= h < n ==> self.heads@[h]@ == pre.heads[h],
                forall|h: int|
                    0 <= h < i ==> self.heads@[h]@ == touched_head(
                        #[trigger] pre.heads[h],
                        mode_id,
                        ev,
                    ),
                touched == exists|h: int|
                    0 <= h < i && head_has_mode(#[trigger] pre.heads[h], mode_id),
                self.initial_done == old(self).initial_done,
                self.config_result == old(self).config_result,
                self.config_serial == old(self).config_serial,
                self.output_manager_found == old(self).output_manager_found,
            decreases n - i,
        {
            let had = touch_modes_exec(&mut self.heads[i].modes, mode_id, ev);
            proof {
                if had {
                    assert(head_has_mode(pre.heads[i as int], mode_id));
                } else {
                    assert(!head_has_mode(pre.heads[i as int], mode_id));
                }
                assert(self.heads@[i as int]@ =~~= touched_head(
                    pre.heads[i as int],
                    mode_id,
                    ev,
                ));
            }
            if had {
                touched = true;
            }
            i += 1;
        }
        if touched {
            proof {
                let post = ingest_mode(pre, mode_id, ev)->Ok_0;
                assert(self@.heads =~~= post.heads);
                assert(self@ =~~= post);
            }
            Ok(())
        } else {
            proof {
                assert forall|h: int| 0 <= h < n implies self.heads@[h]@ =~~= pre.heads[h] by {
                    assert(touch_modes(pre.heads[h].modes, mode_id, ev) =~= pre.heads[h].modes);
                }
                assert(self@ =~~= pre);
            }
            Err(UnknownObject { object_id: mode_id })
        }
    }

    fn on_configuration_event(&mut self, ev: ConfigurationEvent)
        ensures
            final(self)@ == ingest_configuration(old(self)@, ev),
    {
        match ev {
            ConfigurationEvent::Succeeded => {
                self.config_result = Some(ConfigResult::Succeeded);
            },
            ConfigurationEvent::Failed => {
                self.config_result = Some(ConfigResult::Failed);
            },
            ConfigurationEvent::Cancelled => {
                self.config_result = Some(ConfigResult::Cancelled);
            },
        }
        proof {
            assert(self@ =~~= ingest_configuration(old(self)@, ev));
        }
    }

    /// Feed one compositor event into the model.
    ///
    /// On success the new state is exactly what [`ingest`] prescribes; an
    /// event naming an unknown object identity is rejected and the state is
    /// left untouched.
    pub fn apply_event(&mut self, ev: Event) -> (r: Result<(), UnknownObject>)
        ensures
            match ingest(old(self)@, ev) {
                Ok(post) => r is Ok && final(self)@ == post,
                Err(e) => (r matches Err(e2) && e2 == e) && final(self)@ == old(self)@,
            },
    {
        match ev {
            Event::Manager(me) => {
                self.on_manager_event(me);
                Ok(())
            },
            Event::Head { head_id, event } => self.on_head_event(head_id, event),
            Event::Mode { mode_id, event } => self.on_mode_event(mode_id, event),
            Event::Configuration(ce) => {
                self.on_configuration_event(ce);
                Ok(())
            },
        }
    }
}

} // verus!
