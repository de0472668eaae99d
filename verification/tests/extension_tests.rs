use lean_goalview::extension::{
    adapter_path, dap_config_to_scenario, dap_request_kind, get_dap_binary, RequestKind,
};

fn env() -> Vec<(String, String)> {
    vec![
        ("PATH".to_string(), "/bin".to_string()),
        ("HOME".to_string(), "/home/u".to_string()),
        ("HOME".to_string(), "/other".to_string()),
    ]
}

#[test]
fn the_adapter_is_on_the_path_or_below_home() {
    assert_eq!(adapter_path(&Some("/bin/a".to_string()), &env()), "/bin/a");
    assert_eq!(adapter_path(&None, &env()), "/home/u/.local/bin/lean-goalview-dap");
    assert_eq!(adapter_path(&None, &Vec::new()), "/.local/bin/lean-goalview-dap");
}

#[test]
fn the_program_of_the_user_is_started() {
    let b = get_dap_binary(&Some("/mine".to_string()), &None, &env(), "{\"a\":1}".to_string());
    assert_eq!(b.command.as_deref(), Some("/mine"));
    assert_eq!(b.configuration, "{\"a\":1}");
    assert!(b.arguments.is_empty() && b.envs.is_empty() && b.cwd.is_none());
    assert_eq!(b.request, RequestKind::Launch);
    let b = get_dap_binary(&None, &None, &env(), String::new());
    assert_eq!(b.command.as_deref(), Some("/home/u/.local/bin/lean-goalview-dap"));
}

#[test]
fn sessions_are_launched_with_nothing_to_configure() {
    assert_eq!(dap_request_kind(), RequestKind::Launch);
    let s = dap_config_to_scenario("Lean Goals".to_string(), "lean-goalview".to_string());
    assert_eq!((s.label.as_str(), s.adapter.as_str()), ("Lean Goals", "lean-goalview"));
    assert_eq!(s.config, "{}");
}
