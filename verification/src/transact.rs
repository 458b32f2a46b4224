//! The configuration transaction engine's decision logic: the per-head
//! directives a transaction is built from, the transaction-opening step on
//! the session state, and the origin-renormalization follow-up that keeps the
//! layout's closest-to-origin head pinned at (0,0).
//!
//! Submitting directives to the compositor and waiting for the resolution is
//! transport work and happens outside this crate; everything here is a pure
//! decision over the session state.

use crate::geometry::{fits_i32, Position};
use crate::model::{AppData, AppDataV, HeadInfoV};
use vstd::prelude::*;

verus! {

/// How a head's mode is chosen in an enable directive.
#[derive(Clone, Copy, Debug)]
pub enum ModeChoice {
    /// A mode the compositor advertised, by object identity.
    Advertised(u32),
    /// An explicit custom mode, as width/height/rate.
    Custom { width: i32, height: i32, rate: i32 },
}

/// One per-head directive of a configuration transaction.
#[derive(Clone, Copy, Debug)]
pub enum Directive {
    Enable { head_id: u32, position: Option<Position>, mode: Option<ModeChoice> },
    Disable { head_id: u32 },
}

impl AppData {
    /// Open a new transaction: hand out the last-seen serial and clear the
    /// result slot, so the next resolution event is unambiguously ours.
    /// Refused when no manager was bound or no serial has been seen yet.
    pub fn begin_transaction(&mut self) -> (r: Option<u32>)
        ensures
            match r {
                Some(serial) => old(self)@.output_manager_found && old(self)@.config_serial
                    == Some(serial) && final(self)@ == (AppDataV {
                    config_result: None,
                    ..old(self)@
                }),
                None => (!old(self)@.output_manager_found || old(self)@.config_serial is None)
                    && final(self)@ == old(self)@,
            },
    {
        if !self.output_manager_found {
            return None;
        }
        match self.config_serial {
            None => None,
            Some(serial) => {
                self.config_result = None;
                proof {
                    assert(self@ =~~= (AppDataV { config_result: None, ..old(self)@ }));
                }
                Some(serial)
            },
        }
    }
}

/// A head takes part in renormalization when it is enabled and its position
/// is known.
pub open spec fn enabled_positioned(h: HeadInfoV) -> bool {
    h.enabled && h.has_position()
}

/// The heads that renormalization repositions, in model order.
pub open spec fn norm_set(s: AppDataV) -> Seq<HeadInfoV> {
    s.heads.filter(|h: HeadInfoV| enabled_positioned(h))
}

/// Squared Euclidean distance to the origin; squared to stay in integers.
pub open spec fn dist2(x: int, y: int) -> int {
    x * x + y * y
}

pub open spec fn head_dist2(h: HeadInfoV) -> int {
    dist2(h.position_x.unwrap() as int, h.position_y.unwrap() as int)
}

/// Index of the first head of `hs` that minimizes the distance to the
/// origin. There is at most one such index.
pub open spec fn is_first_min(hs: Seq<HeadInfoV>, i: int) -> bool {
    &&& 0 <= i < hs.len()
    &&& forall|k: int| 0 <= k < hs.len() ==> head_dist2(#[trigger] hs[k]) >= head_dist2(hs[i])
    &&& forall|k: int| 0 <= k < i ==> head_dist2(#[trigger] hs[k]) > head_dist2(hs[i])
}

pub open spec fn at_origin(h: HeadInfoV) -> bool {
    h.position_x == Some(0i32) && h.position_y == Some(0i32)
}

/// The offset of head `k` once the closest head `ci` is moved to the origin.
pub open spec fn norm_offset_x(hs: Seq<HeadInfoV>, ci: int, k: int) -> int {
    hs[k].position_x.unwrap() - hs[ci].position_x.unwrap()
}

pub open spec fn norm_offset_y(hs: Seq<HeadInfoV>, ci: int, k: int) -> int {
    hs[k].position_y.unwrap() - hs[ci].position_y.unwrap()
}

/// The offset of head `k` fits the protocol's i32 coordinates.
pub open spec fn offset_fits(hs: Seq<HeadInfoV>, ci: int, k: int) -> bool {
    fits_i32(norm_offset_x(hs, ci, k)) && fits_i32(norm_offset_y(hs, ci, k))
}

/// Every offset of the follow-up transaction fits the protocol's i32
/// coordinates.
pub open spec fn all_offsets_fit(hs: Seq<HeadInfoV>, ci: int) -> bool {
    forall|k: int| 0 <= k < hs.len() ==> #[trigger] offset_fits(hs, ci, k)
}

/// The follow-up transaction: every participating head is re-enabled at its
/// position minus the closest head's offset.
pub open spec fn renorm_directives(hs: Seq<HeadInfoV>, ci: int) -> Seq<Directive> {
    Seq::new(
        hs.len(),
        |k: int| Directive::Enable {
            head_id: hs[k].id,
            position: Some(
                Position {
                    x: norm_offset_x(hs, ci, k) as i32,
                    y: norm_offset_y(hs, ci, k) as i32,
                },
            ),
            mode: None,
        },
    )
}

/// A participating head with only what renormalization reads.
#[derive(Clone, Copy, Debug)]
struct Candidate {
    id: u32,
    x: i32,
    y: i32,
}

fn dist2_exec(x: i32, y: i32) -> (r: u64)
    ensures
        r as int == dist2(x as int, y as int),
{
    let xi: i64 = x as i64;
    let yi: i64 = y as i64;
    proof {
        assert(xi * xi >= 0 && xi * xi <= 0x4000000000000000) by (nonlinear_arith)
            requires
                -0x80000000 <= xi <= 0x7fffffff,
        ;
        assert(yi * yi >= 0 && yi * yi <= 0x4000000000000000) by (nonlinear_arith)
            requires
                -0x80000000 <= yi <= 0x7fffffff,
        ;
    }
    let px: u64 = (xi * xi) as u64;
    let py: u64 = (yi * yi) as u64;
    px + py
}

/// Decide the origin-renormalization follow-up after a successful apply.
///
/// Returns the per-head directives of the second transaction, or `None` when
/// nothing needs to move: no head is enabled and positioned, the layout is
/// already anchored (the closest head sits exactly at the origin), or a
/// computed offset would not fit the protocol's coordinate range.
pub fn plan_renormalization(state: &AppData) -> (r: Option<Vec<Directive>>)
    ensures
        ({
            let hs = norm_set(state@);
            match r {
                Some(ds) => exists|ci: int|
                    {
                        &&& #[trigger] is_first_min(hs, ci)
                        &&& !at_origin(hs[ci])
                        &&& all_offsets_fit(hs, ci)
                        &&& ds@ == renorm_directives(hs, ci)
                    },
                None => hs.len() == 0 || exists|ci: int|
                    {
                        &&& #[trigger] is_first_min(hs, ci)
                        &&& (at_origin(hs[ci]) || !all_offsets_fit(hs, ci))
                    },
            }
        }),
{
    broadcast use Seq::lemma_filter_push;

    let ghost pred = |h: HeadInfoV| enabled_positioned(h);
    let ghost hs = norm_set(state@);

    // Collect the participating heads.
    let mut cands: Vec<Candidate> = Vec::new();
    let n = state.heads.len();
    let mut i: usize = 0;
    while i < n
        invariant
            pred == (|h: HeadInfoV| enabled_positioned(h)),
            hs == norm_set(state@),
            n == state.heads@.len(),
            n == state@.heads.len(),
            0 <= i <= n,
            cands@.len() == state@.heads.take(i as int).filter(pred).len(),
            forall|k: int|
                0 <= k < cands@.len() ==> {
                    let fh = state@.heads.take(i as int).filter(pred)[k];
                    (#[trigger] cands@[k]).id == fh.id && Some(cands@[k].x) == fh.position_x
                        && Some(cands@[k].y) == fh.position_y
                },
        decreases n - i,
    {
        proof {
            assert(state@.heads.take(i as int + 1) =~= state@.heads.take(i as int).push(
                state@.heads[i as int],
            ));
            state@.heads.take(i as int).lemma_filter_push(state@.heads[i as int], pred);
        }
        let head = &state.heads[i];
        if head.enabled && head.position_x.is_some() && head.position_y.is_some() {
            let hx = match head.position_x {
                Some(v) => v,
                None => unreached(),
            };
            let hy = match head.position_y {
                Some(v) => v,
                None => unreached(),
            };
            cands.push(Candidate { id: head.id, x: hx, y: hy });
        }
        i += 1;
    }
    proof {
        assert(state@.heads.take(n as int) =~= state@.heads);
    }

    if cands.len() == 0 {
        proof {
            assert(hs.len() == 0);
        }
        return None;
    }

    // First head with minimal squared distance to the origin.
    let m = cands.len();
    let mut best: usize = 0;
    let mut k: usize = 1;
    while k < m
        invariant
            hs == norm_set(state@),
            m == cands@.len(),
            cands@.len() == hs.len(),
            0 <= best < k <= m,
            forall|q: int|
                0 <= q < cands@.len() ==> {
                    let fh = hs[q];
                    (#[trigger] cands@[q]).id == fh.id && Some(cands@[q].x) == fh.position_x
                        && Some(cands@[q].y) == fh.position_y
                },
            forall|q: int| 0 <= q < k ==> head_dist2(#[trigger] hs[q]) >= head_dist2(
                hs[best as int],
            ),
            forall|q: int| 0 <= q < best ==> head_dist2(#[trigger] hs[q]) > head_dist2(
                hs[best as int],
            ),
        decreases m - k,
    {
        if dist2_exec(cands[k].x, cands[k].y) < dist2_exec(cands[best].x, cands[best].y) {
            best = k;
        }
        k += 1;
    }
    proof {
        assert(is_first_min(hs, best as int));
    }

    let cx = cands[best].x;
    let cy = cands[best].y;
    if cx == 0 && cy == 0 {
        proof {
            assert(at_origin(hs[best as int]));
        }
        return None;
    }

    // Re-anchor every participating head.
    let mut directives: Vec<Directive> = Vec::new();
    let mut t: usize = 0;
    while t < m
        invariant
            hs == norm_set(state@),
            m == cands@.len(),
            cands@.len() == hs.len(),
            best < m,
            is_first_min(hs, best as int),
            cx as int == hs[best as int].position_x.unwrap(),
            cy as int == hs[best as int].position_y.unwrap(),
            0 <= t <= m,
            forall|q: int|
                0 <= q < cands@.len() ==> {
                    let fh = hs[q];
                    (#[trigger] cands@[q]).id == fh.id && Some(cands@[q].x) == fh.position_x
                        && Some(cands@[q].y) == fh.position_y
                },
            directives@.len() == t,
            forall|q: int| 0 <= q < t ==> #[trigger] offset_fits(hs, best as int, q),
            forall|q: int|
                0 <= q < t ==> #[trigger] directives@[q] == renorm_directives(hs, best as int)[q],
        decreases m - t,
    {
        let dx: i64 = cands[t].x as i64 - cx as i64;
        let dy: i64 = cands[t].y as i64 - cy as i64;
        if dx < i32::MIN as i64 || dx > i32::MAX as i64 || dy < i32::MIN as i64 || dy
            > i32::MAX as i64 {
            proof {
                assert(!offset_fits(hs, best as int, t as int));
                assert((t as int) < hs.len());
                assert(!all_offsets_fit(hs, best as int));
                assert(is_first_min(hs, best as int));
            }
            return None;
        }
        directives.push(
            Directive::Enable {
                head_id: cands[t].id,
                position: Some(Position { x: dx as i32, y: dy as i32 }),
                mode: None,
            },
        );
        t += 1;
    }
    proof {
        assert(directives@ =~= renorm_directives(hs, best as int));
    }
    Some(directives)
}

} // verus!
