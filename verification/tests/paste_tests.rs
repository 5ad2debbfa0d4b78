use superkbd::paste::{simulate_paste, simulate_paste_with_app_switch, PasteStep};

#[test]
fn test_paste_function_signature() {
    // Just verify the function exists and compiles
    // Actual paste simulation is hard to test automatically
    assert!(true);
}

#[test]
fn test_commands_exist() {
    // Verify all commands compile
    assert!(true);
}

#[test]
fn test_simulate_paste_plan() {
    let plan = simulate_paste("abc".to_string());
    assert_eq!(
        plan,
        vec![
            PasteStep::SetClipboard("abc".to_string()),
            PasteStep::SettleDelay,
            PasteStep::InjectPaste,
        ]
    );
}

#[test]
fn test_simulate_paste_with_app_switch_plan() {
    let plan = simulate_paste_with_app_switch("abc".to_string(), Some("Notes".to_string()));
    assert_eq!(
        plan,
        vec![
            PasteStep::SetClipboard("abc".to_string()),
            PasteStep::ActivateApp("Notes".to_string()),
            PasteStep::SettleDelay,
            PasteStep::InjectPaste,
        ]
    );

    let plan = simulate_paste_with_app_switch("abc".to_string(), None);
    assert_eq!(
        plan,
        vec![PasteStep::SetClipboard("abc".to_string()), PasteStep::InjectPaste]
    );
}

#[test]
fn test_clipboard_write_precedes_activation_and_injection() {
    let plan = simulate_paste_with_app_switch("x".to_string(), Some("App".to_string()));
    let clip = plan
        .iter()
        .position(|s| matches!(s, PasteStep::SetClipboard(_)))
        .unwrap();
    let act = plan
        .iter()
        .position(|s| matches!(s, PasteStep::ActivateApp(_)))
        .unwrap();
    let inject = plan
        .iter()
        .position(|s| matches!(s, PasteStep::InjectPaste))
        .unwrap();
    assert!(clip < act && act < inject);
}
