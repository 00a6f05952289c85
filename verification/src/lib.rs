//! Native helpers of the Sparkle desktop client: quoting of Windows command
//! lines and wide strings for running programs elevated, sizing of token
//! buffers, the order of firewall changes, collection of converted rule files,
//! and the answers of platforms that have none of these facilities.
use vstd::prelude::*;

pub mod cmdline;
pub mod elevation;
pub mod firewall;
pub mod named_map;
pub mod platform;
pub mod rules;
pub mod text;
pub mod token;
pub mod wide;

pub use cmdline::{quote_windows_arg, quoted_parameters};
pub use elevation::{classify_shell_execute_error, elevation_request, hresult_from_win32, ElevationRequest, ShellExecuteFailure};
pub use firewall::{firewall_setup_plan, FirewallStep};
pub use named_map::NamedMap;
pub use platform::{current_user_sid, is_running_as_admin, run_elevated, setup_firewall_rules};
pub use rules::{collect_rule_outputs, InvalidUtf8Output, RuleConvertOptions, RuleOutput, RuleOutputInfo, RuleSkippedItem, RuleStringResult};
pub use token::{token_user_buffer_words, TokenBufferError};
pub use wide::to_wide_null;

verus! {

/// An inbound firewall rule that lets one application accept connections.
#[derive(Debug, Clone)]
pub struct FirewallRule {
    pub name: String,
    pub application_path: String,
}

} // verus!
