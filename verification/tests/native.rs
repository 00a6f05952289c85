use sparkle_native::cmdline::{quote_windows_arg, quoted_parameters};
use sparkle_native::elevation::{
    classify_shell_execute_error, elevation_request, hresult_from_win32, ShellExecuteFailure,
    ERROR_CANCELLED, HRESULT_FROM_WIN32_ERROR_CANCELLED,
};
use sparkle_native::firewall::{firewall_setup_plan, FirewallStep};
use sparkle_native::named_map::NamedMap;
use sparkle_native::platform::{
    current_user_sid, is_running_as_admin, run_elevated, setup_firewall_rules,
};
use sparkle_native::rules::{
    collect_rule_outputs, RuleConvertOptions, RuleOutput, RuleSkippedItem,
};
use sparkle_native::token::{token_user_buffer_words, TokenBufferError};
use sparkle_native::wide::to_wide_null;
use sparkle_native::FirewallRule;

fn wide(s: &str) -> Vec<u16> {
    s.encode_utf16().chain(std::iter::once(0)).collect()
}

/// How the Microsoft C runtime splits a command line (space and tab separate
/// arguments; backslashes count only before a double quote).
fn split_windows_command_line(s: &str) -> Vec<String> {
    let chars: Vec<char> = s.chars().collect();
    let mut args = Vec::new();
    let mut i = 0;
    while i < chars.len() {
        while i < chars.len() && (chars[i] == ' ' || chars[i] == '\t') {
            i += 1;
        }
        if i == chars.len() {
            break;
        }
        let mut arg = String::new();
        let mut quoted = false;
        let mut slashes = 0usize;
        while i < chars.len() {
            let c = chars[i];
            if c == '\\' {
                slashes += 1;
            } else if c == '"' {
                arg.push_str(&"\\".repeat(slashes / 2));
                if slashes % 2 == 1 {
                    arg.push('"');
                } else {
                    quoted = !quoted;
                }
                slashes = 0;
            } else if !quoted && (c == ' ' || c == '\t') {
                break;
            } else {
                arg.push_str(&"\\".repeat(slashes));
                slashes = 0;
                arg.push(c);
            }
            i += 1;
        }
        arg.push_str(&"\\".repeat(slashes));
        args.push(arg);
    }
    args
}

#[test]
fn quote_plain_argument_is_unchanged() {
    assert_eq!(quote_windows_arg("abc"), "abc");
    assert_eq!(quote_windows_arg(r"C:\Program Files"), "\"C:\\Program Files\"");
    assert_eq!(quote_windows_arg(r"C:\dir\file.exe"), r"C:\dir\file.exe");
    assert_eq!(quote_windows_arg(r"trailing\"), r"trailing\");
}

#[test]
fn quote_empty_argument() {
    assert_eq!(quote_windows_arg(""), "\"\"");
}

#[test]
fn quote_argument_with_spaces_and_controls() {
    assert_eq!(quote_windows_arg("a b"), "\"a b\"");
    assert_eq!(quote_windows_arg("a\tb"), "\"a\tb\"");
    assert_eq!(quote_windows_arg("a\nb"), "\"a\nb\"");
    assert_eq!(quote_windows_arg("a\rb"), "\"a\rb\"");
}

#[test]
fn quote_argument_with_quotes_and_backslashes() {
    assert_eq!(quote_windows_arg("a\"b"), r#""a\"b""#);
    assert_eq!(quote_windows_arg(r#"a\"b"#), r#""a\\\"b""#);
    assert_eq!(quote_windows_arg(r"a b\"), r#""a b\\""#);
    assert_eq!(quote_windows_arg(r"a\\ b"), r#""a\\ b""#);
    assert_eq!(quote_windows_arg("\""), r#""\"""#);
}

#[test]
fn quoted_arguments_read_back() {
    let cases = [
        "", "abc", "a b", "a\"b", r"a\", r"a\\", r#"a\"b"#, r#"\\"\\"#, "x y\\", " ", "\t\"",
        "C:\\Program Files\\app\\", "--flag=\"v w\"",
    ];
    for case in cases {
        let args = vec![case.to_string()];
        assert_eq!(split_windows_command_line(&quoted_parameters(&args)), args);
    }
}

#[test]
fn quoted_parameters_join_with_spaces() {
    let args = vec!["--port".to_string(), "7890".to_string(), "a b".to_string(), "".to_string()];
    let params = quoted_parameters(&args);
    assert_eq!(params, "--port 7890 \"a b\" \"\"");
    assert_eq!(split_windows_command_line(&params), args);
    assert_eq!(quoted_parameters(&[]), "");
}

#[test]
fn wide_strings_end_with_zero() {
    assert_eq!(to_wide_null(""), vec![0]);
    assert_eq!(to_wide_null("runas"), vec![114, 117, 110, 97, 115, 0]);
    assert_eq!(to_wide_null("é"), vec![0xE9, 0]);
    assert_eq!(to_wide_null("\u{1F600}"), vec![0xD83D, 0xDE00, 0]);
    let mixed = "a\u{10FFFF}\u{10000}ü";
    assert_eq!(to_wide_null(mixed), wide(mixed));
}

#[test]
fn elevation_request_holds_quoted_parameters() {
    let args = vec!["--install".to_string(), "C:\\My Apps\\x".to_string()];
    let req = elevation_request("C:\\sparkle.exe", &args);
    assert_eq!(req.verb, wide("runas"));
    assert_eq!(req.file, wide("C:\\sparkle.exe"));
    assert_eq!(req.parameters, wide("--install \"C:\\My Apps\\x\""));
}

#[test]
fn cancel_hresult() {
    assert_eq!(hresult_from_win32(ERROR_CANCELLED), HRESULT_FROM_WIN32_ERROR_CANCELLED);
    assert_eq!(HRESULT_FROM_WIN32_ERROR_CANCELLED, 0x800704C7u32 as i32);
    assert_eq!(hresult_from_win32(0), 0);
    assert_eq!(hresult_from_win32(5), 0x80070005u32 as i32);
    assert_eq!(hresult_from_win32(0x80004005), 0x80004005u32 as i32);
}

#[test]
fn classify_shell_execute_errors() {
    assert_eq!(classify_shell_execute_error(0x800704C7u32 as i32), ShellExecuteFailure::Canceled);
    assert_eq!(
        classify_shell_execute_error(0x80070002u32 as i32),
        ShellExecuteFailure::Failed(0x80070002u32 as i32)
    );
}

#[test]
fn token_buffer_sizes() {
    let word = std::mem::size_of::<usize>() as u32;
    assert_eq!(token_user_buffer_words(0), Err(TokenBufferError::EmptyUserBuffer));
    assert_eq!(token_user_buffer_words(1), Ok(1));
    assert_eq!(token_user_buffer_words(word), Ok(1));
    assert_eq!(token_user_buffer_words(word + 1), Ok(2));
    assert_eq!(token_user_buffer_words(44), Ok((44 + word as usize - 1) / word as usize));
}

fn rule(name: &str, path: &str) -> FirewallRule {
    FirewallRule { name: name.to_string(), application_path: path.to_string() }
}

#[test]
fn firewall_plan_removes_then_adds() {
    let rules = vec![rule("core", "C:\\core.exe"), rule("app", "C:\\app.exe")];
    let plan = firewall_setup_plan(&rules);
    assert_eq!(plan.len(), 4);
    match &plan[0] {
        FirewallStep::RemoveRule { name } => assert_eq!(name, "core"),
        _ => panic!("expected removal"),
    }
    match &plan[1] {
        FirewallStep::RemoveRule { name } => assert_eq!(name, "app"),
        _ => panic!("expected removal"),
    }
    match &plan[2] {
        FirewallStep::AddRule { rule } => {
            assert_eq!(rule.name, "core");
            assert_eq!(rule.application_path, "C:\\core.exe");
        }
        _ => panic!("expected addition"),
    }
    match &plan[3] {
        FirewallStep::AddRule { rule } => assert_eq!(rule.name, "app"),
        _ => panic!("expected addition"),
    }
    assert!(!plan[0].aborts_on_failure());
    assert!(plan[3].aborts_on_failure());
    assert!(firewall_setup_plan(&Vec::new()).is_empty());
}

#[test]
fn named_map_insert_and_replace() {
    let mut m: NamedMap<u32> = NamedMap::new();
    assert_eq!(m.len(), 0);
    assert_eq!(m.get("a"), None);
    m.insert("a".to_string(), 1);
    m.insert("b".to_string(), 2);
    m.insert("a".to_string(), 3);
    assert_eq!(m.len(), 2);
    assert_eq!(m.get("a"), Some(&3));
    assert_eq!(m.get("b"), Some(&2));
    assert!(m.contains_key("b"));
    assert!(!m.contains_key("c"));
    let copy = m.clone();
    assert_eq!(copy.get("a"), Some(&3));
    let mut entries = m.into_entries();
    entries.sort();
    assert_eq!(entries, vec![("a".to_string(), 3), ("b".to_string(), 2)]);
}

fn output(behavior: &str, format: &str, count: usize, bytes: &[u8]) -> RuleOutput {
    RuleOutput {
        behavior: behavior.to_string(),
        format: format.to_string(),
        count,
        bytes: bytes.to_vec(),
    }
}

#[test]
fn collect_outputs_by_behavior() {
    let outputs = vec![
        output("domain", "text", 2, b"a.com\nb.com\n"),
        output("ipcidr", "yaml", 1, "payload:\n  - 10.0.0.0/8 # ü\n".as_bytes()),
    ];
    let skipped = vec![RuleSkippedItem { rule: "PROCESS-NAME,x".to_string(), reason: "unsupported".to_string() }];
    let result = collect_rule_outputs(outputs, skipped).unwrap();
    assert_eq!(result.kind, "rules");
    assert_eq!(result.outputs.len(), 2);
    assert_eq!(result.outputs.get("domain").unwrap(), "a.com\nb.com\n");
    assert_eq!(result.outputs.get("ipcidr").unwrap(), "payload:\n  - 10.0.0.0/8 # ü\n");
    let info = result.info.get("ipcidr").unwrap();
    assert_eq!(info.behavior.as_deref(), Some("ipcidr"));
    assert_eq!(info.format, "yaml");
    assert_eq!(info.count, 1);
    assert_eq!(result.skipped.len(), 1);
    assert_eq!(result.skipped[0].rule, "PROCESS-NAME,x");
    assert_eq!(result.skipped[0].reason, "unsupported");
}

#[test]
fn collect_outputs_last_of_a_name_wins() {
    let outputs = vec![output("domain", "text", 1, b"old"), output("domain", "mrs", 7, b"new")];
    let result = collect_rule_outputs(outputs, Vec::new()).unwrap();
    assert_eq!(result.outputs.len(), 1);
    assert_eq!(result.info.len(), 1);
    assert_eq!(result.outputs.get("domain").unwrap(), "new");
    assert_eq!(result.info.get("domain").unwrap().format, "mrs");
    assert_eq!(result.info.get("domain").unwrap().count, 7);
}

#[test]
fn collect_outputs_count_is_cut_to_32_bits() {
    if usize::BITS > 32 {
        let big = (1usize << 32) + 5;
        let result = collect_rule_outputs(vec![output("domain", "text", big, b"x")], Vec::new()).unwrap();
        assert_eq!(result.info.get("domain").unwrap().count, 5);
    }
}

#[test]
fn collect_outputs_rejects_invalid_utf8() {
    let outputs = vec![
        output("domain", "text", 1, b"ok"),
        output("ipcidr", "mrs", 1, &[0x66, 0xFF, 0x00]),
        output("classical", "mrs", 1, &[0xC0]),
    ];
    let err = collect_rule_outputs(outputs, Vec::new()).unwrap_err();
    assert_eq!(err.name, "ipcidr");
    let expected = String::from_utf8(vec![0x66, 0xFF, 0x00]).unwrap_err().to_string();
    assert_eq!(err.detail, expected);
    assert_eq!(err.message(), format!("output ipcidr is not valid UTF-8: {expected}"));
}

#[test]
fn collect_no_outputs() {
    let result = collect_rule_outputs(Vec::new(), Vec::new()).unwrap();
    assert_eq!(result.kind, "rules");
    assert_eq!(result.outputs.len(), 0);
    assert_eq!(result.info.len(), 0);
    assert!(result.skipped.is_empty());
}

#[test]
fn default_convert_options_are_empty() {
    let options = RuleConvertOptions::default();
    assert!(options.input_target.is_none());
    assert!(options.input_format.is_none());
    assert!(options.input_behavior.is_none());
    assert!(options.output_target.is_none());
    assert!(options.output_format.is_none());
    assert!(options.output_behavior.is_none());
}

#[test]
fn platform_without_elevation() {
    assert_eq!(current_user_sid().unwrap(), "");
    assert_eq!(is_running_as_admin().unwrap(), false);
    assert_eq!(run_elevated("cmd", &["/c".to_string(), "exit 3".to_string()]).unwrap(), 0);
    assert!(setup_firewall_rules(vec![rule("core", "core.exe")]).is_ok());
}

#[test]
fn wide_strings_read_back() {
    for s in ["", "runas", "C:\\Program Files\\Sparkle\\sparkle.exe", "ü\u{1F600}x\u{10FFFF}"] {
        let w = to_wide_null(s);
        assert_eq!(w.last(), Some(&0));
        assert!(w[..w.len() - 1].iter().all(|&u| u != 0));
        assert_eq!(String::from_utf16(&w[..w.len() - 1]).unwrap(), s);
    }
}

#[test]
fn outputs_and_infos_have_the_same_names() {
    let outputs = vec![
        output("domain", "text", 1, b"a"),
        output("ipcidr", "text", 2, b"b"),
        output("domain", "yaml", 3, b"c"),
    ];
    let result = collect_rule_outputs(outputs, Vec::new()).unwrap();
    let mut text_names: Vec<String> = result.outputs.clone().into_entries().into_iter().map(|e| e.0).collect();
    let mut info_names: Vec<String> = result.info.clone().into_entries().into_iter().map(|e| e.0).collect();
    text_names.sort();
    info_names.sort();
    assert_eq!(text_names, vec!["domain".to_string(), "ipcidr".to_string()]);
    assert_eq!(text_names, info_names);
    for name in &info_names {
        assert_eq!(result.info.get(name).unwrap().behavior.as_deref(), Some(name.as_str()));
    }
}
