use vstd::prelude::*;

use crate::disktest::DisktestQuiet;
use crate::error::{Error, ErrorKind};
use crate::seed::{gen_seed_string, is_alphanumeric, DEFAULT_GEN_SEED_LEN};
use crate::stream::DtStreamType;
use crate::util::{codes, parse_int, parse_int_codes, str_codes};

verus! {

/// The command line values as given.
pub struct CliArgs {
    pub device: String,
    pub write: bool,
    pub verify: bool,
    pub seek: u64,
    pub max_bytes: u64,
    pub algorithm: DtStreamType,
    pub seed: Option<String>,
    pub invert_pattern: bool,
    pub threads: u32,
    pub rounds: u64,
    pub start_round: u64,
    pub quiet: DisktestQuiet,
}

/// The settings of a run.
pub struct Args {
    pub device: String,
    pub write: bool,
    pub verify: bool,
    pub seek: u64,
    pub max_bytes: u64,
    pub algorithm: DtStreamType,
    pub seed: String,
    pub user_seed: bool,
    pub invert_pattern: bool,
    pub threads: usize,
    pub rounds: u64,
    pub start_round: u64,
    pub quiet: DisktestQuiet,
}

impl CliArgs {
    /// Settles the run: without `--write` the run verifies; without `--seed`
    /// one is generated, which a verify-only run cannot use; zero rounds mean
    /// endless rounds; the round range always holds the start round.
    pub fn into_args(self) -> (r: Result<Args, Error>)
        requires
            self.start_round < u64::MAX,
        ensures
            r is Err <==> self.seed is None && !self.write,
            r matches Err(e) ==> e.kind == ErrorKind::Parse,
            r matches Ok(a) ==> {
                &&& a.device@ == self.device@
                &&& a.write == self.write
                &&& a.verify == (self.verify || !self.write)
                &&& a.seek == self.seek
                &&& a.max_bytes == self.max_bytes
                &&& a.algorithm == self.algorithm
                &&& a.user_seed == self.seed is Some
                &&& (self.seed matches Some(s) ==> a.seed@ == s@)
                &&& (self.seed is None ==> a.seed@.len() == DEFAULT_GEN_SEED_LEN && forall|i: int|
                    0 <= i < a.seed@.len() ==> is_alphanumeric(#[trigger] a.seed@[i]))
                &&& a.invert_pattern == self.invert_pattern
                &&& a.threads == self.threads
                &&& a.start_round == self.start_round
                &&& a.rounds == {
                    let r0 = if self.rounds == 0 { u64::MAX } else { self.rounds };
                    if self.start_round >= r0 { (self.start_round + 1) as u64 } else { r0 }
                }
                &&& a.quiet == self.quiet
            },
    {
        let write = self.write;
        let verify = self.verify || !write;
        let user_seed = self.seed.is_some();
        if !user_seed && verify && !write {
            return Err(Error::new(ErrorKind::Parse));
        }
        let seed = match self.seed {
            Some(x) => x,
            None => gen_seed_string(DEFAULT_GEN_SEED_LEN),
        };
        let mut rounds = self.rounds;
        if rounds == 0 {
            rounds = u64::MAX;
        }
        let start_round = self.start_round;
        if start_round >= rounds {
            rounds = start_round + 1;
        }
        Ok(Args {
            device: self.device,
            write,
            verify,
            seek: self.seek,
            max_bytes: self.max_bytes,
            algorithm: self.algorithm,
            seed,
            user_seed,
            invert_pattern: self.invert_pattern,
            threads: self.threads as usize,
            rounds,
            start_round,
            quiet: self.quiet,
        })
    }
}

/// The quiet level that a text names: one of the numbers 0 to 3.
pub open spec fn quiet_of(s: Seq<char>) -> Option<DisktestQuiet> {
    match parse_int(codes(s)) {
        Some(v) => if v == 0 {
            Some(DisktestQuiet::Normal)
        } else if v == 1 {
            Some(DisktestQuiet::Reduced)
        } else if v == 2 {
            Some(DisktestQuiet::NoInfo)
        } else if v == 3 {
            Some(DisktestQuiet::NoWarn)
        } else {
            None
        },
        None => None,
    }
}

/// Parses a quiet level.
pub fn parse_quiet(value: &str) -> (r: Result<DisktestQuiet, Error>)
    ensures
        r is Ok <==> quiet_of(value@) is Some,
        r matches Ok(q) ==> quiet_of(value@) == Some(q),
        r matches Err(e) ==> e.kind == ErrorKind::Parse,
{
    let c = str_codes(value);
    match parse_int_codes(c.as_slice()) {
        Some(0) => Ok(DisktestQuiet::Normal),
        Some(1) => Ok(DisktestQuiet::Reduced),
        Some(2) => Ok(DisktestQuiet::NoInfo),
        Some(3) => Ok(DisktestQuiet::NoWarn),
        _ => Err(Error::new(ErrorKind::Parse)),
    }
}

/// The round id whose keys a round uses: its own index where the round writes;
/// in a verify-only run always the start round, so that every round checks the
/// same data.
pub fn round_key_id(write: bool, round: u64, start_round: u64) -> (r: u64)
    ensures
        r == round_key_id_spec(write, round, start_round),
{
    if write {
        round
    } else {
        start_round
    }
}

/// Where a run of rounds stands.
#[derive(Clone, Copy, Debug, PartialEq, Eq, Structural)]
pub enum RoundPhase {
    /// Round `round` has not started.
    Begin,
    /// The write of round `round` just ended.
    Wrote,
    /// The verification of round `round` just ended.
    Verified,
}

/// What to do next in a run of rounds.
#[derive(Clone, Copy, Debug, PartialEq, Eq, Structural)]
pub enum RoundAction {
    /// Write round `round` with the keys of round id `id`.
    Write { round: u64, id: u64 },
    /// Verify round `round` with the keys of round id `id`.
    Verify { round: u64, id: u64 },
    /// End the run.
    Stop { success: bool },
}

/// The first action of round `round`: its write if writing is on, else its
/// verification; past the last round, a successful stop.
pub open spec fn round_begin(write: bool, verify: bool, start_round: u64, rounds: u64, round: u64) -> RoundAction {
    if round >= rounds {
        RoundAction::Stop { success: true }
    } else if write {
        RoundAction::Write { round, id: round }
    } else if verify {
        RoundAction::Verify { round, id: start_round }
    } else {
        RoundAction::Stop { success: true }
    }
}

/// The round after `round`, begun; a successful stop after the last one.
pub open spec fn round_after(write: bool, verify: bool, start_round: u64, rounds: u64, round: u64) -> RoundAction {
    if round == u64::MAX {
        RoundAction::Stop { success: true }
    } else {
        round_begin(write, verify, start_round, rounds, (round + 1) as u64)
    }
}

/// Decides the next step of a run of rounds over `[start_round, rounds)`.
/// A failed write or verification stops the run unsuccessfully; a round
/// verifies only after its write succeeded, where it writes at all.
pub fn round_next(
    write: bool,
    verify: bool,
    start_round: u64,
    rounds: u64,
    round: u64,
    phase: RoundPhase,
    last_ok: bool,
) -> (r: RoundAction)
    ensures
        phase != RoundPhase::Begin && !last_ok ==> r == (RoundAction::Stop { success: false }),
        phase == RoundPhase::Begin ==> r == round_begin(write, verify, start_round, rounds, round),
        phase == RoundPhase::Wrote && last_ok ==> r == if verify {
            RoundAction::Verify { round, id: round_key_id_spec(write, round, start_round) }
        } else {
            round_after(write, verify, start_round, rounds, round)
        },
        phase == RoundPhase::Verified && last_ok ==> r == round_after(
            write,
            verify,
            start_round,
            rounds,
            round,
        ),
        r matches RoundAction::Write { round: x, id } ==> write && id == round_key_id_spec(
            write,
            x,
            start_round,
        ) && x < rounds,
        r matches RoundAction::Verify { round: x, id } ==> verify && (write ==> (phase
            == RoundPhase::Wrote && last_ok && x == round)),
        r matches RoundAction::Verify { round: x, id } ==> id == round_key_id_spec(
            write,
            x,
            start_round,
        ),
{
    match phase {
        RoundPhase::Begin => begin(write, verify, start_round, rounds, round),
        RoundPhase::Wrote => {
            if !last_ok {
                RoundAction::Stop { success: false }
            } else if verify {
                RoundAction::Verify { round, id: round_key_id(write, round, start_round) }
            } else if round == u64::MAX {
                RoundAction::Stop { success: true }
            } else {
                begin(write, verify, start_round, rounds, round + 1)
            }
        },
        RoundPhase::Verified => {
            if !last_ok {
                RoundAction::Stop { success: false }
            } else if round == u64::MAX {
                RoundAction::Stop { success: true }
            } else {
                begin(write, verify, start_round, rounds, round + 1)
            }
        },
    }
}

fn begin(write: bool, verify: bool, start_round: u64, rounds: u64, round: u64) -> (r: RoundAction)
    ensures
        r == round_begin(write, verify, start_round, rounds, round),
{
    if round >= rounds {
        RoundAction::Stop { success: true }
    } else if write {
        RoundAction::Write { round, id: round }
    } else if verify {
        RoundAction::Verify { round, id: start_round }
    } else {
        RoundAction::Stop { success: true }
    }
}

/// The round id whose keys a round uses.
pub open spec fn round_key_id_spec(write: bool, round: u64, start_round: u64) -> u64 {
    if write {
        round
    } else {
        start_round
    }
}

} // verus!
