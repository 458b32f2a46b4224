//! The in-memory registry of heads and modes, keyed by compositor-assigned
//! object identity, plus the pending-transaction result slot.

use crate::error::CommandError;
use crate::strutil::str_eq;
use vstd::prelude::*;

verus! {

/// First index of `s` satisfying `pred`, if any.
pub open spec fn find_first<T>(s: Seq<T>, pred: spec_fn(T) -> bool) -> Option<int>
    decreases s.len(),
{
    if s.len() == 0 {
        None
    } else if pred(s[0]) {
        Some(0int)
    } else {
        match find_first(s.drop_first(), pred) {
            Some(i) => Some(i + 1),
            None => None,
        }
    }
}

/// `find_first` returns the first matching index, and `None` exactly when
/// nothing matches.
pub proof fn lemma_find_first<T>(s: Seq<T>, pred: spec_fn(T) -> bool)
    ensures
        match find_first(s, pred) {
            Some(i) => 0 <= i < s.len() && pred(s[i]) && (forall|k: int|
                0 <= k < i ==> !pred(s[k])),
            None => forall|k: int| 0 <= k < s.len() ==> !pred(s[k]),
        },
    decreases s.len(),
{
    if s.len() != 0 && !pred(s[0]) {
        let rest = s.drop_first();
        lemma_find_first(rest, pred);
        match find_first(rest, pred) {
            Some(i) => {
                assert(s[i + 1] == rest[i]);
                assert forall|k: int| 0 <= k < i + 1 implies !pred(s[k]) by {
                    if k > 0 {
                        assert(s[k] == rest[k - 1]);
                    }
                }
            },
            None => {
                assert forall|k: int| 0 <= k < s.len() implies !pred(s[k]) by {
                    if k > 0 {
                        assert(s[k] == rest[k - 1]);
                    }
                }
            },
        }
    }
}

/// Conversely, an index that matches with no earlier match is the one
/// `find_first` returns.
pub proof fn lemma_find_first_is<T>(s: Seq<T>, pred: spec_fn(T) -> bool, i: int)
    requires
        0 <= i < s.len(),
        pred(s[i]),
        forall|k: int| 0 <= k < i ==> !pred(s[k]),
    ensures
        find_first(s, pred) == Some(i),
{
    lemma_find_first(s, pred);
}

/// Outcome of one configuration transaction, as resolved by the compositor.
#[derive(Clone, Copy, Debug, PartialEq, Eq, Structural)]
pub enum ConfigResult {
    Succeeded,
    Failed,
    Cancelled,
}

/// A width/height/refresh-rate triple as requested on the command line.
#[derive(Clone, Copy, Debug, PartialEq, Eq, Structural)]
pub struct HeadModeInput {
    pub width: i32,
    pub height: i32,
    pub rate: i32,
}

/// Output transform, mirroring the protocol's eight rotations/flips.
#[derive(Clone, Copy, Debug, PartialEq, Eq, Structural)]
pub enum Transform {
    Normal,
    Rotate90,
    Rotate180,
    Rotate270,
    Flipped,
    Flipped90,
    Flipped180,
    Flipped270,
}

/// Adaptive-sync setting advertised for a head.
#[derive(Clone, Copy, Debug, PartialEq, Eq, Structural)]
pub enum AdaptiveSyncState {
    Disabled,
    Enabled,
}

/// One resolution/refresh-rate combination supported by a head.
///
/// `id` is the compositor-assigned object identity of the mode; `rate` is the
/// refresh rate normalized to whole Hz (the protocol advertises milli-Hz).
#[derive(Clone, Copy, Debug, PartialEq, Eq, Structural)]
pub struct HeadMode {
    pub id: u32,
    pub height: i32,
    pub width: i32,
    pub rate: i32,
    pub is_preferred: bool,
    pub is_current: bool,
}

impl HeadMode {
    /// The compatibility key used for mirroring: resolution only, rate ignored.
    pub open spec fn spec_same_dimensions(self, other: HeadMode) -> bool {
        self.width == other.width && self.height == other.height
    }

    pub fn has_same_dimensions(&self, other: &HeadMode) -> (r: bool)
        ensures
            r == self.spec_same_dimensions(*other),
    {
        self.width == other.width && self.height == other.height
    }
}

/// One physical/logical output, as reconstructed from advertisement events.
#[derive(Debug)]
pub struct HeadInfo {
    pub id: u32,
    pub name: Option<String>,
    pub description: Option<String>,
    pub serial: Option<String>,
    pub modes: Vec<HeadMode>,
    pub position_x: Option<i32>,
    pub position_y: Option<i32>,
    pub model: Option<String>,
    pub make: Option<String>,
    pub physical_width: Option<i32>,
    pub physical_height: Option<i32>,
    pub transform: Option<Transform>,
    pub scale_millis: Option<i32>,
    pub adaptive_sync: Option<AdaptiveSyncState>,
    pub enabled: bool,
}

/// Mathematical image of a `HeadInfo`: strings as character sequences, the
/// mode collection as a sequence.
#[verifier::ext_equal]
pub struct HeadInfoV {
    pub id: u32,
    pub name: Option<Seq<char>>,
    pub description: Option<Seq<char>>,
    pub serial: Option<Seq<char>>,
    pub modes: Seq<HeadMode>,
    pub position_x: Option<i32>,
    pub position_y: Option<i32>,
    pub model: Option<Seq<char>>,
    pub make: Option<Seq<char>>,
    pub physical_width: Option<i32>,
    pub physical_height: Option<i32>,
    pub transform: Option<Transform>,
    pub scale_millis: Option<i32>,
    pub adaptive_sync: Option<AdaptiveSyncState>,
    pub enabled: bool,
}

pub open spec fn opt_str_view(o: Option<String>) -> Option<Seq<char>> {
    match o {
        Some(s) => Some(s@),
        None => None,
    }
}

impl View for HeadInfo {
    type V = HeadInfoV;

    open spec fn view(&self) -> HeadInfoV {
        HeadInfoV {
            id: self.id,
            name: opt_str_view(self.name),
            description: opt_str_view(self.description),
            serial: opt_str_view(self.serial),
            modes: self.modes@,
            position_x: self.position_x,
            position_y: self.position_y,
            model: opt_str_view(self.model),
            make: opt_str_view(self.make),
            physical_width: self.physical_width,
            physical_height: self.physical_height,
            transform: self.transform,
            scale_millis: self.scale_millis,
            adaptive_sync: self.adaptive_sync,
            enabled: self.enabled,
        }
    }
}

impl HeadInfoV {
    /// Mode identities are unique within a head, and at most one mode is
    /// marked current at any time.
    pub open spec fn wf(self) -> bool {
        &&& forall|i: int, j: int|
            0 <= i < j < self.modes.len() ==> self.modes[i].id != self.modes[j].id
        &&& forall|i: int, j: int|
            0 <= i < j < self.modes.len()
                ==> !(self.modes[i].is_current && self.modes[j].is_current)
    }

    pub open spec fn has_current_mode(self) -> bool {
        exists|i: int| 0 <= i < self.modes.len() && self.modes[i].is_current
    }

    pub open spec fn has_position(self) -> bool {
        self.position_x is Some && self.position_y is Some
    }
}

impl HeadInfo {
    /// A freshly announced head: no attributes yet, disabled, no modes.
    pub open spec fn spec_new(id: u32) -> HeadInfoV {
        HeadInfoV {
            id: id,
            name: None,
            description: None,
            serial: None,
            modes: Seq::empty(),
            position_x: None,
            position_y: None,
            model: None,
            make: None,
            physical_width: None,
            physical_height: None,
            transform: None,
            scale_millis: None,
            adaptive_sync: None,
            enabled: false,
        }
    }

    pub fn new(id: u32) -> (r: HeadInfo)
        ensures
            r@ =~= HeadInfo::spec_new(id),
            r@.wf(),
    {
        HeadInfo {
            id: id,
            name: None,
            description: None,
            serial: None,
            modes: Vec::new(),
            position_x: None,
            position_y: None,
            model: None,
            make: None,
            physical_width: None,
            physical_height: None,
            transform: None,
            scale_millis: None,
            adaptive_sync: None,
            enabled: false,
        }
    }

    /// First mode flagged current, if any. Under `wf` it is the only one.
    pub fn get_current_mode(&self) -> (r: Option<&HeadMode>)
        ensures
            match r {
                Some(m) => find_first(self@.modes, |m: HeadMode| m.is_current) matches Some(i)
                    && *m == self@.modes[i],
                None => find_first(self@.modes, |m: HeadMode| m.is_current) is None,
            },
            r is Some <==> self@.has_current_mode(),
    {
        let ghost pred = |m: HeadMode| m.is_current;
        let n = self.modes.len();
        let mut k: usize = 0;
        while k < n
            invariant
                pred == (|m: HeadMode| m.is_current),
                n == self@.modes.len(),
                0 <= k <= n,
                forall|j: int| 0 <= j < k ==> !self@.modes[j].is_current,
            decreases n - k,
        {
            if self.modes[k].is_current {
                proof {
                    assert(pred(self@.modes[k as int]));
                    assert forall|j: int| 0 <= j < k implies !pred(self@.modes[j]) by {}
                    lemma_find_first_is(self@.modes, pred, k as int);
                }
                return Some(&self.modes[k]);
            }
            k += 1;
        }
        proof {
            assert forall|j: int| 0 <= j < n implies !pred(self@.modes[j]) by {}
            lemma_find_first(self@.modes, pred);
        }
        None
    }

    /// First mode with exactly the requested width, height and rate.
    pub fn find_mode(&self, width: i32, height: i32, rate: i32) -> (r: Option<&HeadMode>)
        ensures
            match r {
                Some(m) => find_first(
                    self@.modes,
                    |m: HeadMode| m.width == width && m.height == height && m.rate == rate,
                ) matches Some(i) && *m == self@.modes[i],
                None => find_first(
                    self@.modes,
                    |m: HeadMode| m.width == width && m.height == height && m.rate == rate,
                ) is None,
            },
    {
        let ghost pred = |m: HeadMode| m.width == width && m.height == height && m.rate == rate;
        let n = self.modes.len();
        let mut k: usize = 0;
        while k < n
            invariant
                pred == (|m: HeadMode| m.width == width && m.height == height && m.rate == rate),
                n == self@.modes.len(),
                0 <= k <= n,
                forall|j: int|
                    0 <= j < k ==> !(self@.modes[j].width == width && self@.modes[j].height
                        == height && self@.modes[j].rate == rate),
            decreases n - k,
        {
            let m = &self.modes[k];
            if m.width == width && m.height == height && m.rate == rate {
                proof {
                    assert(pred(self@.modes[k as int]));
                    assert forall|j: int| 0 <= j < k implies !pred(self@.modes[j]) by {}
                    lemma_find_first_is(self@.modes, pred, k as int);
                }
                return Some(&self.modes[k]);
            }
            k += 1;
        }
        proof {
            assert forall|j: int| 0 <= j < n implies !pred(self@.modes[j]) by {}
            lemma_find_first(self@.modes, pred);
        }
        None
    }
}

pub(crate) fn clone_modes(v: &Vec<HeadMode>) -> (r: Vec<HeadMode>)
    ensures
        r@ =~= v@,
{
    let mut r: Vec<HeadMode> = Vec::new();
    let n = v.len();
    let mut k: usize = 0;
    while k < n
        invariant
            n == v@.len(),
            0 <= k <= n,
            r@ =~= v@.take(k as int),
        decreases n - k,
    {
        r.push(v[k]);
        proof {
            assert(r@ =~= v@.take(k as int + 1));
        }
        k += 1;
    }
    proof {
        assert(v@.take(n as int) =~= v@);
    }
    r
}

fn clone_opt_string(o: &Option<String>) -> (r: Option<String>)
    ensures
        opt_str_view(r) == opt_str_view(*o),
{
    match o {
        Some(s) => Some(s.clone()),
        None => None,
    }
}

impl Clone for HeadInfo {
    /// A deep copy: commands work on a snapshot so that later event-driven
    /// mutation of the canonical model cannot alter data already in use.
    fn clone(&self) -> (r: Self)
        ensures
            r@ == self@,
    {
        let r = HeadInfo {
            id: self.id,
            name: clone_opt_string(&self.name),
            description: clone_opt_string(&self.description),
            serial: clone_opt_string(&self.serial),
            modes: clone_modes(&self.modes),
            position_x: self.position_x,
            position_y: self.position_y,
            model: clone_opt_string(&self.model),
            make: clone_opt_string(&self.make),
            physical_width: self.physical_width,
            physical_height: self.physical_height,
            transform: self.transform,
            scale_millis: self.scale_millis,
            adaptive_sync: self.adaptive_sync,
            enabled: self.enabled,
        };
        proof {
            assert(r@ =~= self@);
        }
        r
    }
}

/// The aggregate session state: all heads, the initial-snapshot flag, the
/// pending-transaction result slot and the last-seen configuration serial.
#[derive(Debug)]
pub struct AppData {
    pub initial_done: bool,
    pub heads: Vec<HeadInfo>,
    pub config_result: Option<ConfigResult>,
    pub config_serial: Option<u32>,
    pub output_manager_found: bool,
}

/// Mathematical image of the session state.
#[verifier::ext_equal]
pub struct AppDataV {
    pub initial_done: bool,
    pub heads: Seq<HeadInfoV>,
    pub config_result: Option<ConfigResult>,
    pub config_serial: Option<u32>,
    pub output_manager_found: bool,
}

impl View for AppData {
    type V = AppDataV;

    open spec fn view(&self) -> AppDataV {
        AppDataV {
            initial_done: self.initial_done,
            heads: Seq::new(self.heads@.len(), |i: int| self.heads@[i]@),
            config_result: self.config_result,
            config_serial: self.config_serial,
            output_manager_found: self.output_manager_found,
        }
    }
}

/// First head carrying `id`, if any.
pub open spec fn head_idx_of(heads: Seq<HeadInfoV>, id: u32) -> Option<int> {
    find_first(heads, |h: HeadInfoV| h.id == id)
}

/// First head whose advertised name is `name`, if any. The protocol does not
/// guarantee name uniqueness; the first match in iteration order is used.
pub open spec fn head_idx_by_name(heads: Seq<HeadInfoV>, name: Seq<char>) -> Option<int> {
    find_first(heads, |h: HeadInfoV| h.name == Some(name))
}

impl AppDataV {
    /// Head identities are unique and every head is itself well-formed.
    pub open spec fn wf(self) -> bool {
        &&& forall|i: int, j: int|
            0 <= i < j < self.heads.len() ==> self.heads[i].id != self.heads[j].id
        &&& forall|i: int| 0 <= i < self.heads.len() ==> (#[trigger] self.heads[i]).wf()
    }

    /// The state before any event has been processed.
    pub open spec fn init() -> AppDataV {
        AppDataV {
            initial_done: false,
            heads: Seq::empty(),
            config_result: None,
            config_serial: None,
            output_manager_found: false,
        }
    }
}

impl AppData {
    pub fn new() -> (r: AppData)
        ensures
            r@ =~= AppDataV::init(),
            r@.wf(),
    {
        AppData {
            initial_done: false,
            heads: Vec::new(),
            config_result: None,
            config_serial: None,
            output_manager_found: false,
        }
    }

    /// Resolve a head by name, handing back a deep snapshot.
    pub fn get_head(&self, name: &str) -> (r: Result<HeadInfo, CommandError>)
        ensures
            match r {
                Ok(h) => head_idx_by_name(self@.heads, name@) matches Some(i) && h@
                    == self@.heads[i],
                Err(e) => e == CommandError::DisplayNotFound && head_idx_by_name(
                    self@.heads,
                    name@,
                ) is None,
            },
    {
        match self.try_get_head(name) {
            Some(h) => Ok(h.clone()),
            None => Err(CommandError::DisplayNotFound),
        }
    }

    /// Resolve a head by name without copying.
    pub fn try_get_head(&self, name: &str) -> (r: Option<&HeadInfo>)
        ensures
            match r {
                Some(h) => head_idx_by_name(self@.heads, name@) matches Some(i) && h@
                    == self@.heads[i],
                None => head_idx_by_name(self@.heads, name@) is None,
            },
    {
        let ghost pred = |h: HeadInfoV| h.name == Some(name@);
        let n = self.heads.len();
        let mut k: usize = 0;
        while k < n
            invariant
                pred == (|h: HeadInfoV| h.name == Some(name@)),
                n == self@.heads.len(),
                n == self.heads@.len(),
                0 <= k <= n,
                forall|j: int| 0 <= j < k ==> (#[trigger] self@.heads[j]).name != Some(name@),
            decreases n - k,
        {
            let matches_here = match &self.heads[k].name {
                Some(h_name) => str_eq(h_name.as_str(), name),
                None => false,
            };
            if matches_here {
                proof {
                    assert(pred(self@.heads[k as int]));
                    assert forall|j: int| 0 <= j < k implies !pred(self@.heads[j]) by {}
                    lemma_find_first_is(self@.heads, pred, k as int);
                }
                return Some(&self.heads[k]);
            }
            k += 1;
        }
        proof {
            assert forall|j: int| 0 <= j < n implies !pred(self@.heads[j]) by {}
            lemma_find_first(self@.heads, pred);
        }
        None
    }
}

} // verus!
