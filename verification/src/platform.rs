use vstd::prelude::*;

use core::convert::Infallible;

use crate::FirewallRule;

// The answers of platforms that have no elevation, no user SIDs and no
// managed firewall: there nothing is done and nothing can fail.
verus! {

/// The current user's SID: on platforms without SIDs, the empty string.
pub fn current_user_sid() -> (res: Result<String, Infallible>)
    ensures
        res matches Ok(s) && s@ == Seq::<char>::empty(),
{
    Ok(String::new())
}

/// Whether the process runs with administrator rights: on platforms without
/// elevation tokens, never.
pub fn is_running_as_admin() -> (res: Result<bool, Infallible>)
    ensures
        res == Ok::<bool, Infallible>(false),
{
    Ok(false)
}

/// Runs a program with administrator rights and gives its exit code: on
/// platforms without elevation nothing is run, and the exit code is 0.
pub fn run_elevated(_command: &str, _args: &[String]) -> (res: Result<u32, Infallible>)
    ensures
        res == Ok::<u32, Infallible>(0),
{
    Ok(0)
}

/// Lets the given applications through the system firewall: on platforms
/// without a managed firewall there is nothing to set up.
pub fn setup_firewall_rules(_rules: Vec<FirewallRule>) -> (res: Result<(), Infallible>)
    ensures
        res == Ok::<(), Infallible>(()),
{
    Ok(())
}

} // verus!
