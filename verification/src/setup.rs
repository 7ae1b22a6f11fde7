//! The trusted setup ceremony: initial toxic waste, the reference string
//! derived from it, then one contribution per further participant.

use std::path::PathBuf;
use vstd::prelude::*;

use crate::error::CompileError;
use crate::flattener::is_r1cs_error;
use crate::groth16::{contributed, crs_from_waste, waste_in_range, CrsModel, ToxicWaste, WasteModel, CRS};
use crate::natural::{decimal_text, usize_to_decimal};
use crate::r1cs::{bn128_modulus, bn128_prime};
use crate::secure_memory::SecureBox;

verus! {

/// `std::path::PathBuf`, carried through as it is: nothing is claimed of
/// what a value holds.
#[verifier::external_type_specification]
#[verifier::external_body]
pub struct ExPathBuf(PathBuf);

/// What a setup is run for, and where its keys are written.
pub struct SetupConfig {
    pub num_constraints: usize,
    pub num_variables: usize,
    pub mpc_participants: usize,
    pub output_pk: PathBuf,
    pub output_vk: PathBuf,
}

/// What a completed setup reports.
pub struct SetupResult {
    pub participant_count: usize,
    pub pk_size: usize,
    pub vk_size: usize,
    pub memory_locked: bool,
    pub memory_zeroed: bool,
}

/// The reference string after participants with the wastes `ws` have
/// contributed in turn.
pub open spec fn after_contributions(c: CrsModel, ws: Seq<WasteModel>) -> CrsModel
    decreases ws.len(),
{
    if ws.len() == 0 {
        c
    } else {
        contributed(after_contributions(c, ws.drop_last()), ws.last())
    }
}

/// Each contribution counts one more participant and keeps the circuit's
/// size and the length of every query.
pub proof fn lemma_contributions_count(c: CrsModel, ws: Seq<WasteModel>)
    ensures
        after_contributions(c, ws).participant_count == c.participant_count + ws.len(),
        after_contributions(c, ws).num_constraints == c.num_constraints,
        after_contributions(c, ws).num_variables == c.num_variables,
        after_contributions(c, ws).pk.a_query.len() == c.pk.a_query.len(),
        after_contributions(c, ws).pk.b_g1_query.len() == c.pk.b_g1_query.len(),
        after_contributions(c, ws).pk.b_g2_query.len() == c.pk.b_g2_query.len(),
        after_contributions(c, ws).pk.l_query.len() == c.pk.l_query.len(),
        after_contributions(c, ws).pk.h_query.len() == c.pk.h_query.len(),
        after_contributions(c, ws).vk.ic.len() == c.vk.ic.len(),
    decreases ws.len(),
{
    if ws.len() > 0 {
        lemma_contributions_count(c, ws.drop_last());
    }
}

/// The secrets held by a sequence of boxes.
pub open spec fn box_contents(bs: Seq<SecureBox<ToxicWaste>>) -> Seq<WasteModel> {
    bs.map_values(|b: SecureBox<ToxicWaste>| b.content()@)
}

/// Whether every box holds secrets in `[2, p)` for the BN128 prime.
pub open spec fn all_live_in_range(bs: Seq<SecureBox<ToxicWaste>>) -> bool {
    forall|i: int|
        0 <= i < bs.len() ==> (#[trigger] bs[i]).is_live() && waste_in_range(
            bs[i].content()@,
            bn128_modulus(),
        )
}

/// The message of a failed allocation for the initial waste.
pub open spec fn waste_alloc_message(e: Seq<char>) -> Seq<char> {
    "failed to allocate secure memory for toxic waste: "@ + e
}

/// A ceremony's outcome: the reference string, and every participant's
/// waste, still boxed, for the caller to destroy once the keys are out.
pub struct Ceremony {
    pub crs: CRS,
    pub initial_waste: SecureBox<ToxicWaste>,
    pub mpc_wastes: Vec<SecureBox<ToxicWaste>>,
}

/// The message of a failed contribution by participant `id`.
pub open spec fn round_failure_message(id: nat, e: Seq<char>) -> Seq<char> {
    "MPC round "@ + decimal_text(id) + " failed: "@ + e
}

impl Ceremony {
    /// The ceremony's first phases: initial waste drawn at random (as
    /// `ToxicWaste::secure_random`), and the reference string derived from
    /// it for the circuit's size. No participant has contributed yet. Fails
    /// only when the waste cannot be boxed.
    pub fn start(config: &SetupConfig) -> (r: Result<Ceremony, CompileError>)
        requires
            config.num_constraints <= usize::MAX / 2 + 1,
            config.num_variables <= usize::MAX / 2 + 1,
        ensures
            r is Ok <==> vstd::layout::size_of::<ToxicWaste>() != 0,
            match r {
                Ok(c) => {
                    &&& c.initial_waste.is_live()
                    &&& waste_in_range(c.initial_waste.content()@, bn128_modulus())
                    &&& c.mpc_wastes@.len() == 0
                    &&& c.crs@ == crs_from_waste(
                        c.initial_waste.content()@,
                        config.num_constraints as nat,
                        config.num_variables as nat,
                    )
                },
                Err(e) => is_r1cs_error(e, waste_alloc_message("SecureBox: zero-sized type"@)),
            },
    {
        let prime = bn128_prime();
        let initial_waste = match ToxicWaste::secure_random(&prime) {
            Ok(b) => b,
            Err(e) => {
                let mut message = String::from_str(
                    "failed to allocate secure memory for toxic waste: ",
                );
                message.append(e.as_str());
                return Err(CompileError::R1csError { message });
            },
        };
        let crs = CRS::from_toxic_waste(
            initial_waste.get(),
            config.num_constraints,
            config.num_variables,
        );
        Ok(Ceremony { crs, initial_waste, mpc_wastes: Vec::new() })
    }

    /// One more participant's contribution (as
    /// `CRS::apply_mpc_contribution`), its waste kept with the others. When
    /// the waste cannot be boxed the ceremony is left as it was and the
    /// error names the round.
    pub fn contribute_round(&mut self) -> (r: Result<(), CompileError>)
        requires
            old(self).crs.participant_count < usize::MAX,
            old(self).mpc_wastes@.len() < usize::MAX,
        ensures
            r is Ok <==> vstd::layout::size_of::<ToxicWaste>() != 0,
            final(self).initial_waste == old(self).initial_waste,
            match r {
                Ok(_) => {
                    let b = final(self).mpc_wastes@.last();
                    &&& final(self).mpc_wastes@ == old(self).mpc_wastes@.push(b)
                    &&& b.is_live()
                    &&& waste_in_range(b.content()@, bn128_modulus())
                    &&& final(self).crs@ == contributed(old(self).crs@, b.content()@)
                },
                Err(e) => {
                    &&& is_r1cs_error(
                        e,
                        round_failure_message(
                            old(self).mpc_wastes@.len() + 1,
                            "SecureBox: zero-sized type"@,
                        ),
                    )
                    &&& final(self).mpc_wastes@ == old(self).mpc_wastes@
                    &&& final(self).crs@ == old(self).crs@
                },
            },
    {
        let participant_id = self.mpc_wastes.len() + 1;
        match self.crs.apply_mpc_contribution() {
            Ok(b) => {
                self.mpc_wastes.push(b);
                Ok(())
            },
            Err(e) => {
                let mut message = String::from_str("MPC round ");
                let id = usize_to_decimal(participant_id);
                message.append(id.as_str());
                message.append(" failed: ");
                message.append(e.as_str());
                Err(CompileError::R1csError { message })
            },
        }
    }
}

/// Runs the ceremony that `config` describes: initial waste drawn at
/// random, the reference string derived from it for the circuit's size,
/// then `mpc_participants` further contributions. Fails only when the
/// waste cannot be boxed.
pub fn run_ceremony(config: &SetupConfig) -> (r: Result<Ceremony, CompileError>)
    requires
        config.num_constraints <= usize::MAX / 2 + 1,
        config.num_variables <= usize::MAX / 2 + 1,
        config.mpc_participants < usize::MAX,
    ensures
        r is Ok <==> vstd::layout::size_of::<ToxicWaste>() != 0,
        match r {
            Ok(c) => {
                &&& c.initial_waste.is_live()
                &&& waste_in_range(c.initial_waste.content()@, bn128_modulus())
                &&& c.mpc_wastes@.len() == config.mpc_participants
                &&& all_live_in_range(c.mpc_wastes@)
                &&& c.crs@ == after_contributions(
                    crs_from_waste(
                        c.initial_waste.content()@,
                        config.num_constraints as nat,
                        config.num_variables as nat,
                    ),
                    box_contents(c.mpc_wastes@),
                )
            },
            Err(e) => is_r1cs_error(e, waste_alloc_message("SecureBox: zero-sized type"@)),
        },
{
    let mut ceremony = match Ceremony::start(config) {
        Ok(c) => c,
        Err(e) => return Err(e),
    };
    let ghost initial = ceremony.initial_waste;
    let ghost start = ceremony.crs@;
    for round in 0..config.mpc_participants
        invariant
            vstd::layout::size_of::<ToxicWaste>() != 0,
            config.mpc_participants < usize::MAX,
            ceremony.initial_waste == initial,
            ceremony.mpc_wastes@.len() == round,
            ceremony.crs.participant_count == 1 + round,
            all_live_in_range(ceremony.mpc_wastes@),
            ceremony.crs@ == after_contributions(start, box_contents(ceremony.mpc_wastes@)),
    {
        let ghost before = ceremony.mpc_wastes@;
        match ceremony.contribute_round() {
            Ok(()) => {},
            Err(e) => {
                proof {
                    assert(false);
                }
                return Err(e);
            },
        }
        proof {
            assert(box_contents(ceremony.mpc_wastes@).drop_last() =~= box_contents(before));
            assert forall|i: int| 0 <= i < ceremony.mpc_wastes@.len() implies (#[trigger] ceremony.mpc_wastes@[i]).is_live()
                && waste_in_range(ceremony.mpc_wastes@[i].content()@, bn128_modulus()) by {
                if i < before.len() {
                    assert(ceremony.mpc_wastes@[i] == before[i]);
                }
            }
        }
    }
    Ok(ceremony)
}

impl Ceremony {
    /// Destroys every participant's box (its secrets overwritten with zero
    /// first), then the initial waste's.
    pub fn destroy_waste(&mut self)
        ensures
            !final(self).initial_waste.is_live(),
            final(self).mpc_wastes@.len() == old(self).mpc_wastes@.len(),
            forall|i: int|
                0 <= i < final(self).mpc_wastes@.len() ==> !(#[trigger] final(self).mpc_wastes@[i]).is_live(),
            final(self).crs@ == old(self).crs@,
    {
        let n = self.mpc_wastes.len();
        let mut destroyed: Vec<SecureBox<ToxicWaste>> = Vec::new();
        while self.mpc_wastes.len() > 0
            invariant
                destroyed@.len() + self.mpc_wastes@.len() == n,
                forall|i: int| 0 <= i < destroyed@.len() ==> !(#[trigger] destroyed@[i]).is_live(),
                self.crs@ == old(self).crs@,
            decreases self.mpc_wastes@.len(),
        {
            let mut waste = self.mpc_wastes.remove(0);
            waste.destroy();
            destroyed.push(waste);
        }
        self.mpc_wastes = destroyed;
        self.initial_waste.destroy();
    }
}

} // verus!
