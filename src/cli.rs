//! Checks and defaults of the command-line options.
use vstd::prelude::*;
use vstd::string::*;
use crate::command::{usize_text, usize_text_of};
use crate::decimal::parsed_decimal;
use crate::decimal::NonZeroDecimal;
use crate::error::Error;

verus! {

/// Relies on `num_cpus::get`: the number of usable CPUs, documented to be at
/// least one.
#[verifier::external_body]
fn cpu_count() -> (r: usize)
    ensures
        r >= 1,
{
    num_cpus::get()
}

/// Accepts a scene threshold that reads as a decimal other than zero.
pub fn can_be_decimal(scene_gt: &str) -> (r: Result<String, Error>)
    ensures
        r is Ok <==> (parsed_decimal(scene_gt@) matches Some((m, s)) && m != 0),
        r matches Ok(s) ==> s@ == scene_gt@,
        r is Err ==> (r matches Err(Error::Decimal(t)) && t@ == scene_gt@),
{
    NonZeroDecimal::parse(scene_gt)?;
    Ok(scene_gt.to_string())
}

/// The generator's default extra arguments for `threads` worker threads.
pub open spec fn ai_args_text(threads: int) -> Seq<char> {
    "-g 0,-1 -j "@ + usize_text_of(threads as nat) + ":"@ + usize_text_of(threads as nat) + ",16:32:16"@
}

/// The generator's default extra arguments when `cpus` CPUs are usable: one
/// CPU is left free.
pub fn ai_args_for(cpus: usize) -> (r: String)
    requires
        cpus >= 1,
    ensures
        r@ == ai_args_text(cpus - 1),
{
    let threads = usize_text(cpus - 1);
    let mut r = "-g 0,-1 -j ".to_string();
    r.append(threads.as_str());
    r.append(":");
    r.append(threads.as_str());
    r.append(",16:32:16");
    r
}

/// The generator's default extra arguments on this machine.
pub fn default_ai_args() -> (r: String)
    ensures
        exists|threads: int| threads >= 0 && r@ == ai_args_text(threads),
{
    let cpus = cpu_count();
    ai_args_for(cpus)
}

} // verus!
