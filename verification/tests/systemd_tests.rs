use tracesum::cl::{editor_command, HardeningMode, HardeningOptions};
use tracesum::summarize::ProgramAction;
use tracesum::systemd::{
    emit_config, resolve, sd_options, InstanceKind, KernelVersion, OptionValue,
    ResolvedOption, SysctlState, SystemdVersion,
};

fn catalog(mode: HardeningMode, network_firewalling: bool) -> Vec<tracesum::systemd::OptionDescription> {
    sd_options(
        &SystemdVersion::new(255, 0),
        &KernelVersion::new(6, 1, 0),
        &SysctlState::all(),
        &InstanceKind::System,
        &HardeningOptions { mode, network_firewalling },
    )
}

fn names_of(resolved: &[ResolvedOption]) -> Vec<String> {
    resolved.iter().map(|r| r.name.clone()).collect()
}

#[test]
fn resolver_prefers_the_most_restrictive_compatible_value() {
    let cat = catalog(HardeningMode::Safe, false);
    // nothing observed: every option resolves to its strongest value
    let resolved = resolve(&cat, &vec![]);
    let protect_system = resolved.iter().find(|r| r.name == "ProtectSystem").unwrap();
    assert_eq!(protect_system.value, OptionValue::Text("strict".to_owned()));

    // a write to /etc rules out "strict" and "full" but not "true"
    let actions = vec![ProgramAction::Write(b"/etc/hosts".to_vec())];
    let resolved = resolve(&cat, &actions);
    let protect_system = resolved.iter().find(|r| r.name == "ProtectSystem").unwrap();
    assert_eq!(protect_system.value, OptionValue::Text("true".to_owned()));

    // a write to /usr rules ProtectSystem out entirely
    let actions = vec![ProgramAction::Write(b"/usr/bin/true".to_vec())];
    let resolved = resolve(&cat, &actions);
    assert!(resolved.iter().all(|r| r.name != "ProtectSystem"));
}

#[test]
fn incompatible_boolean_options_are_omitted() {
    let cat = catalog(HardeningMode::Safe, false);
    let resolved = resolve(&cat, &vec![ProgramAction::WriteExecuteMemoryMapping]);
    assert!(resolved.iter().all(|r| r.name != "MemoryDenyWriteExecute"));
    assert!(resolved.iter().any(|r| r.name == "RestrictRealtime"));

    let resolved = resolve(&cat, &vec![ProgramAction::SetRealtimeScheduler]);
    assert!(resolved.iter().all(|r| r.name != "RestrictRealtime"));
    assert!(resolved.iter().any(|r| r.name == "MemoryDenyWriteExecute"));
}

#[test]
fn mergeable_syscall_filters_merge() {
    let cat = catalog(HardeningMode::Safe, false);
    // an observed settimeofday keeps the clock group out of the merged filter
    let actions = vec![ProgramAction::Syscalls(vec![
        "settimeofday".to_owned(),
        "read".to_owned(),
    ])];
    let resolved = resolve(&cat, &actions);
    let filter = resolved.iter().find(|r| r.name == "SystemCallFilter").unwrap();
    assert_eq!(
        filter.value,
        OptionValue::List(vec![
            "~@module".to_owned(),
            "~@reboot".to_owned(),
            "~@swap".to_owned(),
        ])
    );
}

#[test]
fn emitter_formats_one_line_per_option() {
    let resolved = vec![
        ResolvedOption { name: "A".to_owned(), value: OptionValue::Boolean(true) },
        ResolvedOption { name: "B".to_owned(), value: OptionValue::Boolean(false) },
        ResolvedOption { name: "C".to_owned(), value: OptionValue::Text("full".to_owned()) },
        ResolvedOption {
            name: "D".to_owned(),
            value: OptionValue::List(vec!["x".to_owned(), "y".to_owned()]),
        },
    ];
    assert_eq!(emit_config(&resolved), "A=true\nB=false\nC=full\nD=x y\n");
}

#[test]
fn same_catalog_and_actions_give_identical_output() {
    let actions = vec![
        ProgramAction::Write(b"/etc/hosts".to_vec()),
        ProgramAction::SetRealtimeScheduler,
    ];
    let out1 = emit_config(&resolve(&catalog(HardeningMode::Safe, false), &actions));
    let out2 = emit_config(&resolve(&catalog(HardeningMode::Safe, false), &actions));
    assert_eq!(out1, out2);
    assert!(!out1.is_empty());
}

#[test]
fn catalog_gates_follow_versions_and_instance() {
    let old = sd_options(
        &SystemdVersion::new(200, 0),
        &KernelVersion::new(2, 6, 32),
        &SysctlState::all(),
        &InstanceKind::System,
        &HardeningOptions::safe(),
    );
    let old_names: Vec<String> = old.iter().map(|o| o.name.clone()).collect();
    assert!(!old_names.iter().any(|n| n == "PrivateDevices"));
    assert!(!old_names.iter().any(|n| n == "SystemCallFilter"));
    assert!(old_names.iter().any(|n| n == "ProtectSystem"));

    let user = sd_options(
        &SystemdVersion::new(255, 0),
        &KernelVersion::new(6, 1, 0),
        &SysctlState { unprivileged_userns_clone: false },
        &InstanceKind::User,
        &HardeningOptions::safe(),
    );
    let user_names: Vec<String> = user.iter().map(|o| o.name.clone()).collect();
    assert!(!user_names.iter().any(|n| n == "ProtectSystem"));
    assert!(!user_names.iter().any(|n| n == "PrivateNetwork"));

    let firewalled = catalog(HardeningMode::Aggressive, true);
    assert!(firewalled.iter().any(|o| o.name == "IPAddressDeny"));
}

#[test]
fn more_actions_never_pick_a_more_restrictive_value() {
    let cat = catalog(HardeningMode::Safe, false);
    let small = vec![ProgramAction::Write(b"/var/log/app".to_vec())];
    let big = vec![
        ProgramAction::Write(b"/var/log/app".to_vec()),
        ProgramAction::Write(b"/etc/hosts".to_vec()),
    ];

    let pick = |actions: &Vec<ProgramAction>| -> Option<OptionValue> {
        resolve(&cat, actions)
            .into_iter()
            .find(|r| r.name == "ProtectSystem")
            .map(|r| r.value)
    };
    // with fewer actions the resolver picks "strict"; adding an /etc write
    // moves the choice to the earlier, less restrictive "true"
    assert_eq!(pick(&small), Some(OptionValue::Text("strict".to_owned())));
    assert_eq!(pick(&big), Some(OptionValue::Text("true".to_owned())));
}

#[test]
fn hardening_options_render_their_command_line() {
    assert_eq!(HardeningOptions::safe().to_cmdline(), "-m safe");
    assert_eq!(HardeningOptions::strict().to_cmdline(), "-m aggressive -n");
}

#[test]
fn editor_preferences_split_into_shell_words() {
    assert_eq!(
        editor_command(&"vim -f".to_owned()),
        Some(("vim".to_owned(), vec!["-f".to_owned()]))
    );
    assert_eq!(
        editor_command(&"'my editor' --wait".to_owned()),
        Some(("my editor".to_owned(), vec!["--wait".to_owned()]))
    );
    assert_eq!(editor_command(&"".to_owned()), None);
    assert_eq!(editor_command(&"'unclosed".to_owned()), None);
}
