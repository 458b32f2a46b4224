//! The command set. Each command is a plain data carrier plus a pure
//! planning function: from the session state to the per-head directives of
//! one configuration transaction, or to a terminal error. Submitting the
//! directives and reporting the outcome happens outside this crate.

use crate::compat::{common_of, first_best_idx, get_best_display_modes, get_common_modes};
use crate::error::CommandError;
use crate::geometry::{
    fits_i32, relative_position, relative_position_spec, Position, RelativePosition,
};
use crate::model::{
    find_first, head_idx_by_name, lemma_find_first, lemma_find_first_is, AppData, AppDataV,
    HeadInfo, HeadInfoV, HeadMode, HeadModeInput,
};
use crate::strutil::str_eq;
use crate::transact::{Directive, ModeChoice};
use vstd::prelude::*;

verus! {

pub struct InfoCommand {
    pub name: String,
}

pub struct ListCommand {
    pub verbose: bool,
}

pub struct MirrorCommand {
    pub mirrored_display_name: String,
    pub reference_display_name: String,
}

pub struct ModeCurrentCommand {
    pub name: String,
}

pub struct ModeAutoCommand {
    pub name: String,
}

pub struct ModePreferredCommand {
    pub name: String,
}

pub struct ModeSetCommand {
    pub name: String,
    pub mode: HeadModeInput,
    pub force: bool,
}

pub struct ModeListCommand {
    pub name: String,
}

pub struct MoveRelativeCommand {
    pub moved_display_name: String,
    pub reference_display_name: String,
    pub pos: String,
}

pub struct MoveCommand {
    pub name: String,
    pub x: i32,
    pub y: i32,
}

pub struct PowerCommand {
    pub name: String,
    pub on: bool,
    pub force: bool,
}

/// The head's current mode, if one is flagged.
pub open spec fn current_mode_of(h: HeadInfoV) -> Option<HeadMode> {
    match find_first(h.modes, |m: HeadMode| m.is_current) {
        Some(i) => Some(h.modes[i]),
        None => None,
    }
}

/// The head's preferred mode, if one is flagged.
pub open spec fn preferred_mode_of(h: HeadInfoV) -> Option<HeadMode> {
    match find_first(h.modes, |m: HeadMode| m.is_preferred) {
        Some(i) => Some(h.modes[i]),
        None => None,
    }
}

/// The first advertised mode matching a requested width/height/rate.
pub open spec fn input_mode_of(h: HeadInfoV, mode: HeadModeInput) -> Option<HeadMode> {
    match find_first(
        h.modes,
        |m: HeadMode| m.width == mode.width && m.height == mode.height && m.rate == mode.rate,
    ) {
        Some(i) => Some(h.modes[i]),
        None => None,
    }
}

/// What `mode set` decides: a directive to apply at once, or a custom-mode
/// directive that first needs the user's confirmation.
#[derive(Clone, Copy, Debug)]
pub enum ModeSetPlan {
    Apply(Directive),
    ConfirmCustom(Directive),
}

/// What `power` decides: a directive to apply at once, or a disable that
/// first needs confirmation because it would switch off the last display.
#[derive(Clone, Copy, Debug)]
pub enum PowerPlan {
    Apply(Directive),
    ConfirmLastDisplay(Directive),
}

/// Only an answer of `y` or `Y` to a confirmation prompt proceeds; anything
/// else aborts without submitting a transaction.
pub fn confirmation_accepted(answer: &str) -> (r: bool)
    ensures
        r == (answer@ == "y"@ || answer@ == "Y"@),
{
    str_eq(answer, "y") || str_eq(answer, "Y")
}

/// Decision of `move <name> position <x> <y>`: enable the head at exactly
/// that position.
pub open spec fn plan_move_spec(s: AppDataV, name: Seq<char>, x: i32, y: i32) -> Result<
    Directive,
    CommandError,
> {
    match head_idx_by_name(s.heads, name) {
        None => Err(CommandError::DisplayNotFound),
        Some(i) => Ok(
            Directive::Enable {
                head_id: s.heads[i].id,
                position: Some(Position { x: x, y: y }),
                mode: None,
            },
        ),
    }
}

/// Decision of the relative-placement command: the moved head is enabled at
/// the coordinates that [`relative_position_spec`] gives.
pub open spec fn plan_move_relative_spec(
    s: AppDataV,
    moved_name: Seq<char>,
    reference_name: Seq<char>,
    pos: RelativePosition,
) -> Result<Directive, CommandError> {
    match head_idx_by_name(s.heads, moved_name) {
        None => Err(CommandError::DisplayNotFound),
        Some(mi) => match head_idx_by_name(s.heads, reference_name) {
            None => Err(CommandError::DisplayNotFound),
            Some(ri) => {
                let moved = s.heads[mi];
                let reference = s.heads[ri];
                match current_mode_of(moved) {
                    None => Err(CommandError::NoCurrentMode),
                    Some(moved_mode) => match current_mode_of(reference) {
                        None => Err(CommandError::NoCurrentMode),
                        Some(reference_mode) => if !moved.has_position() {
                            Err(CommandError::MissingPosition)
                        } else if !reference.has_position() {
                            Err(CommandError::MissingPosition)
                        } else {
                            let (tx, ty) = relative_position_spec(
                                pos,
                                reference.position_x.unwrap() as int,
                                reference.position_y.unwrap() as int,
                                reference_mode,
                                moved_mode,
                            );
                            if fits_i32(tx) && fits_i32(ty) {
                                Ok(
                                    Directive::Enable {
                                        head_id: moved.id,
                                        position: Some(Position { x: tx as i32, y: ty as i32 }),
                                        mode: None,
                                    },
                                )
                            } else {
                                Err(CommandError::PositionOutOfRange)
                            }
                        },
                    },
                }
            },
        },
    }
}

/// Decision of mirroring: the mirrored head moves onto the reference head's
/// position and both are switched to the best common mode pair.
pub open spec fn plan_mirror_spec(
    s: AppDataV,
    mirrored_name: Seq<char>,
    reference_name: Seq<char>,
) -> Result<(Directive, Directive), CommandError> {
    match head_idx_by_name(s.heads, mirrored_name) {
        None => Err(CommandError::DisplayNotFound),
        Some(mi) => match head_idx_by_name(s.heads, reference_name) {
            None => Err(CommandError::DisplayNotFound),
            Some(ri) => {
                let moved = s.heads[mi];
                let reference = s.heads[ri];
                match current_mode_of(moved) {
                    None => Err(CommandError::NoCurrentMode),
                    Some(_) => match current_mode_of(reference) {
                        None => Err(CommandError::NoCurrentMode),
                        Some(_) => {
                            let m1 = common_of(moved.modes, reference.modes);
                            let m2 = common_of(reference.modes, moved.modes);
                            if m1.len() == 0 || m2.len() == 0 {
                                Err(CommandError::NoCommonMode)
                            } else if !reference.has_position() {
                                Err(CommandError::MissingPosition)
                            } else {
                                Ok(
                                    (
                                        Directive::Enable {
                                            head_id: moved.id,
                                            position: Some(
                                                Position {
                                                    x: reference.position_x.unwrap(),
                                                    y: reference.position_y.unwrap(),
                                                },
                                            ),
                                            mode: Some(
                                                ModeChoice::Advertised(m1[first_best_idx(m1)].id),
                                            ),
                                        },
                                        Directive::Enable {
                                            head_id: reference.id,
                                            position: None,
                                            mode: Some(
                                                ModeChoice::Advertised(m2[first_best_idx(m2)].id),
                                            ),
                                        },
                                    ),
                                )
                            }
                        },
                    },
                }
            },
        },
    }
}

/// Decision of `mode set`: an advertised mode is applied directly; a
/// non-advertised one becomes a custom-mode directive, applied at once under
/// `--force` and otherwise only after confirmation.
pub open spec fn plan_mode_set_spec(
    s: AppDataV,
    name: Seq<char>,
    mode: HeadModeInput,
    force: bool,
) -> Result<ModeSetPlan, CommandError> {
    match head_idx_by_name(s.heads, name) {
        None => Err(CommandError::DisplayNotFound),
        Some(i) => {
            let h = s.heads[i];
            match input_mode_of(h, mode) {
                Some(m) => Ok(
                    ModeSetPlan::Apply(
                        Directive::Enable {
                            head_id: h.id,
                            position: None,
                            mode: Some(ModeChoice::Advertised(m.id)),
                        },
                    ),
                ),
                None => {
                    let custom = Directive::Enable {
                        head_id: h.id,
                        position: None,
                        mode: Some(
                            ModeChoice::Custom {
                                width: mode.width,
                                height: mode.height,
                                rate: mode.rate,
                            },
                        ),
                    };
                    if force {
                        Ok(ModeSetPlan::Apply(custom))
                    } else {
                        Ok(ModeSetPlan::ConfirmCustom(custom))
                    }
                },
            }
        },
    }
}

/// Decision of `mode auto`: switch the head to its preferred mode.
pub open spec fn plan_mode_auto_spec(s: AppDataV, name: Seq<char>) -> Result<
    Directive,
    CommandError,
> {
    match head_idx_by_name(s.heads, name) {
        None => Err(CommandError::DisplayNotFound),
        Some(i) => match preferred_mode_of(s.heads[i]) {
            None => Err(CommandError::NoPreferredMode),
            Some(m) => Ok(
                Directive::Enable {
                    head_id: s.heads[i].id,
                    position: None,
                    mode: Some(ModeChoice::Advertised(m.id)),
                },
            ),
        },
    }
}

/// Number of enabled heads.
pub open spec fn count_enabled(s: AppDataV) -> nat {
    s.heads.filter(|h: HeadInfoV| h.enabled).len()
}

/// Decision of `power`: enabling is immediate; disabling the last enabled
/// display needs confirmation unless forced.
pub open spec fn plan_power_spec(s: AppDataV, name: Seq<char>, on: bool, force: bool) -> Result<
    PowerPlan,
    CommandError,
> {
    match head_idx_by_name(s.heads, name) {
        None => Err(CommandError::DisplayNotFound),
        Some(i) => {
            let h = s.heads[i];
            if on {
                Ok(PowerPlan::Apply(Directive::Enable { head_id: h.id, position: None, mode: None }))
            } else if count_enabled(s) < 2 && !force {
                Ok(PowerPlan::ConfirmLastDisplay(Directive::Disable { head_id: h.id }))
            } else {
                Ok(PowerPlan::Apply(Directive::Disable { head_id: h.id }))
            }
        },
    }
}

/// The mode reported by `mode current`.
pub open spec fn query_current_mode_spec(s: AppDataV, name: Seq<char>) -> Result<
    HeadMode,
    CommandError,
> {
    match head_idx_by_name(s.heads, name) {
        None => Err(CommandError::DisplayNotFound),
        Some(i) => match current_mode_of(s.heads[i]) {
            None => Err(CommandError::NoCurrentMode),
            Some(m) => Ok(m),
        },
    }
}

/// The mode reported by `mode preferred`.
pub open spec fn get_preferred_mode_spec(s: AppDataV, name: Seq<char>) -> Result<
    HeadMode,
    CommandError,
> {
    match head_idx_by_name(s.heads, name) {
        None => Err(CommandError::DisplayNotFound),
        Some(i) => match preferred_mode_of(s.heads[i]) {
            None => Err(CommandError::NoPreferredMode),
            Some(m) => Ok(m),
        },
    }
}

impl HeadInfo {
    /// First mode flagged preferred, if any.
    pub fn get_preferred_mode(&self) -> (r: Option<&HeadMode>)
        ensures
            match r {
                Some(m) => preferred_mode_of(self@) == Some(*m),
                None => preferred_mode_of(self@) is None,
            },
    {
        let ghost pred = |m: HeadMode| m.is_preferred;
        let n = self.modes.len();
        let mut k: usize = 0;
        while k < n
            invariant
                pred == (|m: HeadMode| m.is_preferred),
                n == self@.modes.len(),
                0 <= k <= n,
                forall|j: int| 0 <= j < k ==> !self@.modes[j].is_preferred,
            decreases n - k,
        {
            if self.modes[k].is_preferred {
                proof {
                    assert(pred(self@.modes[k as int]));
                    assert forall|j: int| 0 <= j < k implies !pred(self@.modes[j]) by {}
                    lemma_find_first_is(self@.modes, pred, k as int);
                }
                return Some(&self.modes[k]);
            }
            k += 1;
        }
        proof {
            assert forall|j: int| 0 <= j < n implies !pred(self@.modes[j]) by {}
            lemma_find_first(self@.modes, pred);
        }
        None
    }
}

/// The preferred mode of the named head, as `mode preferred` reports it.
pub fn get_preferred_mode(state: &AppData, name: &str) -> (r: Result<HeadMode, CommandError>)
    ensures
        r == get_preferred_mode_spec(state@, name@),
{
    match state.try_get_head(name) {
        None => Err(CommandError::DisplayNotFound),
        Some(head) => match head.get_preferred_mode() {
            None => Err(CommandError::NoPreferredMode),
            Some(m) => Ok(*m),
        },
    }
}

/// The current mode of the named head, as `mode current` reports it.
pub fn query_current_mode(state: &AppData, name: &str) -> (r: Result<HeadMode, CommandError>)
    ensures
        r == query_current_mode_spec(state@, name@),
{
    match state.try_get_head(name) {
        None => Err(CommandError::DisplayNotFound),
        Some(head) => match head.get_current_mode() {
            None => Err(CommandError::NoCurrentMode),
            Some(m) => Ok(*m),
        },
    }
}

impl MoveCommand {
    pub fn plan(&self, state: &AppData) -> (r: Result<Directive, CommandError>)
        ensures
            r == plan_move_spec(state@, self.name@, self.x, self.y),
    {
        match state.try_get_head(self.name.as_str()) {
            None => Err(CommandError::DisplayNotFound),
            Some(head) => Ok(
                Directive::Enable {
                    head_id: head.id,
                    position: Some(Position { x: self.x, y: self.y }),
                    mode: None,
                },
            ),
        }
    }
}

impl MoveRelativeCommand {
    /// The placement keyword, parsed; `None` for anything unrecognized.
    pub fn placement(&self) -> (r: Option<RelativePosition>)
        ensures
            r == crate::geometry::relative_of(self.pos@),
    {
        RelativePosition::parse(self.pos.as_str())
    }

    pub fn plan(&self, state: &AppData) -> (r: Result<Directive, CommandError>)
        requires
            crate::geometry::relative_of(self.pos@) is Some,
        ensures
            r == plan_move_relative_spec(
                state@,
                self.moved_display_name@,
                self.reference_display_name@,
                crate::geometry::relative_of(self.pos@).unwrap(),
            ),
    {
        let pos = match self.placement() {
            Some(p) => p,
            None => unreached(),
        };
        let moved = match state.try_get_head(self.moved_display_name.as_str()) {
            None => {
                return Err(CommandError::DisplayNotFound);
            },
            Some(h) => h,
        };
        let reference = match state.try_get_head(self.reference_display_name.as_str()) {
            None => {
                return Err(CommandError::DisplayNotFound);
            },
            Some(h) => h,
        };
        let moved_mode = match moved.get_current_mode() {
            None => {
                return Err(CommandError::NoCurrentMode);
            },
            Some(m) => *m,
        };
        let reference_mode = match reference.get_current_mode() {
            None => {
                return Err(CommandError::NoCurrentMode);
            },
            Some(m) => *m,
        };
        if moved.position_x.is_none() || moved.position_y.is_none() {
            return Err(CommandError::MissingPosition);
        }
        let rx = match reference.position_x {
            Some(v) => v,
            None => {
                return Err(CommandError::MissingPosition);
            },
        };
        let ry = match reference.position_y {
            Some(v) => v,
            None => {
                return Err(CommandError::MissingPosition);
            },
        };
        match relative_position(pos, rx, ry, &reference_mode, &moved_mode) {
            Ok(p) => Ok(
                Directive::Enable { head_id: moved.id, position: Some(p), mode: None },
            ),
            Err(e) => Err(e),
        }
    }
}

impl MirrorCommand {
    pub fn plan(&self, state: &AppData) -> (r: Result<(Directive, Directive), CommandError>)
        ensures
            r == plan_mirror_spec(
                state@,
                self.mirrored_display_name@,
                self.reference_display_name@,
            ),
    {
        let moved = match state.try_get_head(self.mirrored_display_name.as_str()) {
            None => {
                return Err(CommandError::DisplayNotFound);
            },
            Some(h) => h,
        };
        let reference = match state.try_get_head(self.reference_display_name.as_str()) {
            None => {
                return Err(CommandError::DisplayNotFound);
            },
            Some(h) => h,
        };
        if moved.get_current_mode().is_none() {
            return Err(CommandError::NoCurrentMode);
        }
        if reference.get_current_mode().is_none() {
            return Err(CommandError::NoCurrentMode);
        }
        let (modes_1, modes_2) = get_common_modes(moved, reference);
        if modes_1.len() == 0 || modes_2.len() == 0 {
            return Err(CommandError::NoCommonMode);
        }
        let rx = match reference.position_x {
            Some(v) => v,
            None => {
                return Err(CommandError::MissingPosition);
            },
        };
        let ry = match reference.position_y {
            Some(v) => v,
            None => {
                return Err(CommandError::MissingPosition);
            },
        };
        let (best_mode_1, best_mode_2) = get_best_display_modes(modes_1, modes_2);
        Ok(
            (
                Directive::Enable {
                    head_id: moved.id,
                    position: Some(Position { x: rx, y: ry }),
                    mode: Some(ModeChoice::Advertised(best_mode_1.id)),
                },
                Directive::Enable {
                    head_id: reference.id,
                    position: None,
                    mode: Some(ModeChoice::Advertised(best_mode_2.id)),
                },
            ),
        )
    }
}

impl ModeSetCommand {
    pub fn plan(&self, state: &AppData) -> (r: Result<ModeSetPlan, CommandError>)
        ensures
            r == plan_mode_set_spec(state@, self.name@, self.mode, self.force),
    {
        let head = match state.try_get_head(self.name.as_str()) {
            None => {
                return Err(CommandError::DisplayNotFound);
            },
            Some(h) => h,
        };
        match head.find_mode(self.mode.width, self.mode.height, self.mode.rate) {
            Some(m) => Ok(
                ModeSetPlan::Apply(
                    Directive::Enable {
                        head_id: head.id,
                        position: None,
                        mode: Some(ModeChoice::Advertised(m.id)),
                    },
                ),
            ),
            None => {
                let custom = Directive::Enable {
                    head_id: head.id,
                    position: None,
                    mode: Some(
                        ModeChoice::Custom {
                            width: self.mode.width,
                            height: self.mode.height,
                            rate: self.mode.rate,
                        },
                    ),
                };
                if self.force {
                    Ok(ModeSetPlan::Apply(custom))
                } else {
                    Ok(ModeSetPlan::ConfirmCustom(custom))
                }
            },
        }
    }
}

impl ModeAutoCommand {
    pub fn plan(&self, state: &AppData) -> (r: Result<Directive, CommandError>)
        ensures
            r == plan_mode_auto_spec(state@, self.name@),
    {
        let head = match state.try_get_head(self.name.as_str()) {
            None => {
                return Err(CommandError::DisplayNotFound);
            },
            Some(h) => h,
        };
        match head.get_preferred_mode() {
            None => Err(CommandError::NoPreferredMode),
            Some(m) => Ok(
                Directive::Enable {
                    head_id: head.id,
                    position: None,
                    mode: Some(ModeChoice::Advertised(m.id)),
                },
            ),
        }
    }
}

impl ModeCurrentCommand {
    pub fn plan(&self, state: &AppData) -> (r: Result<HeadMode, CommandError>)
        ensures
            r == query_current_mode_spec(state@, self.name@),
    {
        query_current_mode(state, self.name.as_str())
    }
}

impl ModePreferredCommand {
    pub fn plan(&self, state: &AppData) -> (r: Result<HeadMode, CommandError>)
        ensures
            r == get_preferred_mode_spec(state@, self.name@),
    {
        get_preferred_mode(state, self.name.as_str())
    }
}

impl InfoCommand {
    /// The snapshot that the info listing prints.
    pub fn plan(&self, state: &AppData) -> (r: Result<HeadInfo, CommandError>)
        ensures
            match r {
                Ok(h) => head_idx_by_name(state@.heads, self.name@) matches Some(i) && h@
                    == state@.heads[i],
                Err(e) => e == CommandError::DisplayNotFound && head_idx_by_name(
                    state@.heads,
                    self.name@,
                ) is None,
            },
    {
        state.get_head(self.name.as_str())
    }
}

fn count_enabled_exec(state: &AppData) -> (r: usize)
    ensures
        r == count_enabled(state@),
{
    let ghost pred = |h: HeadInfoV| h.enabled;
    let mut count: usize = 0;
    let n = state.heads.len();
    let mut i: usize = 0;
    while i < n
        invariant
            pred == (|h: HeadInfoV| h.enabled),
            n == state.heads@.len(),
            n == state@.heads.len(),
            0 <= i <= n,
            count == state@.heads.take(i as int).filter(pred).len(),
            count <= i,
        decreases n - i,
    {
        proof {
            assert(state@.heads.take(i as int + 1) =~= state@.heads.take(i as int).push(
                state@.heads[i as int],
            ));
            state@.heads.take(i as int).lemma_filter_push(state@.heads[i as int], pred);
        }
        if state.heads[i].enabled {
            count += 1;
        }
        i += 1;
    }
    proof {
        assert(state@.heads.take(n as int) =~= state@.heads);
    }
    count
}

impl PowerCommand {
    pub fn plan(&self, state: &AppData) -> (r: Result<PowerPlan, CommandError>)
        ensures
            r == plan_power_spec(state@, self.name@, self.on, self.force),
    {
        let head = match state.try_get_head(self.name.as_str()) {
            None => {
                return Err(CommandError::DisplayNotFound);
            },
            Some(h) => h,
        };
        if self.on {
            Ok(PowerPlan::Apply(Directive::Enable { head_id: head.id, position: None, mode: None }))
        } else if count_enabled_exec(state) < 2 && !self.force {
            Ok(PowerPlan::ConfirmLastDisplay(Directive::Disable { head_id: head.id }))
        } else {
            Ok(PowerPlan::Apply(Directive::Disable { head_id: head.id }))
        }
    }
}

/// Snapshots of every head carrying the given name, in model order. The
/// mode listing prints one block per match.
pub fn heads_named(state: &AppData, name: &str) -> (r: Vec<HeadInfo>)
    ensures
        ({
            let fil = state@.heads.filter(|h: HeadInfoV| h.name == Some(name@));
            r@.len() == fil.len() && forall|k: int| 0 <= k < r@.len() ==> (#[trigger] r@[k])@
                == fil[k]
        }),
{
    let ghost pred = |h: HeadInfoV| h.name == Some(name@);
    let mut r: Vec<HeadInfo> = Vec::new();
    let n = state.heads.len();
    let mut i: usize = 0;
    while i < n
        invariant
            pred == (|h: HeadInfoV| h.name == Some(name@)),
            n == state.heads@.len(),
            n == state@.heads.len(),
            0 <= i <= n,
            r@.len() == state@.heads.take(i as int).filter(pred).len(),
            forall|k: int|
                0 <= k < r@.len() ==> (#[trigger] r@[k])@ == state@.heads.take(i as int).filter(
                    pred,
                )[k],
        decreases n - i,
    {
        proof {
            assert(state@.heads.take(i as int + 1) =~= state@.heads.take(i as int).push(
                state@.heads[i as int],
            ));
            state@.heads.take(i as int).lemma_filter_push(state@.heads[i as int], pred);
        }
        let head = &state.heads[i];
        let matches_here = match &head.name {
            Some(h_name) => str_eq(h_name.as_str(), name),
            None => false,
        };
        if matches_here {
            r.push(head.clone());
        }
        i += 1;
    }
    proof {
        assert(state@.heads.take(n as int) =~= state@.heads);
    }
    r
}

} // verus!
