use std::collections::HashSet;

use nuke::apps::{App, Policy};
use nuke::cli::{
    announce, cli_plan, describe, escalate, escalation, exit_status, launched_from_bundle,
    list_lines, merged_keep, missing_only, summary, waits,
};
use nuke::config::Config;

fn app(pid: i32, name: &str, bundle: Option<&str>, policy: Policy) -> App {
    App {
        pid,
        name: name.to_string(),
        bundle_id: bundle.map(|b| b.to_string()),
        policy,
    }
}

#[test]
fn describe_names_app_bundle_and_pid() {
    let mail = app(321, "Mail", Some("com.apple.mail"), Policy::Regular);
    assert_eq!(describe(&mail), "Mail (com.apple.mail, pid 321)");
    let tool = app(7, "Tool", None, Policy::Regular);
    assert_eq!(describe(&tool), "Tool (pid 7)");
    assert_eq!(announce(false, &tool), "Quitting Tool (pid 7)");
    assert_eq!(announce(true, &tool), "Force quitting Tool (pid 7)");
    assert_eq!(
        escalation(&tool, 15),
        "Force quitting Tool (pid 7) (still running after 15s)"
    );
}

#[test]
fn summary_counts_quit_apps() {
    assert_eq!(summary(3, 1, 4), "Quit 2 of 4 apps.");
    assert_eq!(summary(1, 0, 1), "Quit 1 of 1 app.");
    assert_eq!(summary(0, 0, 10), "Quit 0 of 10 apps.");
}

#[test]
fn exit_status_is_zero_only_without_failures() {
    assert_eq!(exit_status(0), 0);
    assert_eq!(exit_status(1), 1);
    assert_eq!(exit_status(17), 1);
}

#[test]
fn waits_prefer_flags_then_config_then_five_seconds() {
    let w = waits(None, None, None, None);
    assert_eq!((w.timeout, w.force_after, w.wait), (5, None, 5));
    let w = waits(Some(2), Some(9), None, None);
    assert_eq!((w.timeout, w.force_after, w.wait), (2, None, 2));
    let w = waits(None, Some(9), None, Some(20));
    assert_eq!((w.timeout, w.force_after, w.wait), (9, Some(20), 20));
    let w = waits(None, None, Some(10), Some(20));
    assert_eq!((w.timeout, w.force_after, w.wait), (5, Some(10), 10));
}

#[test]
fn escalation_needs_force_after_and_stragglers() {
    assert!(escalate(2, Some(10), false));
    assert!(!escalate(0, Some(10), false));
    assert!(!escalate(2, None, false));
    assert!(!escalate(2, Some(10), true));
}

#[test]
fn bundle_launch_is_argless_run_from_macos_dir() {
    let parts = |p: &[&str]| Some(p.iter().map(|s| s.to_string()).collect::<Vec<_>>());
    assert!(launched_from_bundle(
        1,
        parts(&["/", "Applications", "Nuke.app", "Contents", "MacOS", "nuke"])
    ));
    assert!(!launched_from_bundle(
        2,
        parts(&["/", "Applications", "Nuke.app", "Contents", "MacOS", "nuke"])
    ));
    assert!(!launched_from_bundle(1, parts(&["/", "usr", "local", "bin", "nuke"])));
    assert!(!launched_from_bundle(1, parts(&["/", "macos", "nuke"])));
    assert!(!launched_from_bundle(1, None));
}

#[test]
fn list_lines_align_columns_and_mark_host() {
    let apps = vec![
        app(512, "Ghostty", Some("com.mitchellh.ghostty"), Policy::Regular),
        app(77, "Bartender", None, Policy::Accessory),
        app(1, "a-very-long-daemon-name", None, Policy::Prohibited),
    ];
    let ancestors: HashSet<i32> = [512].into_iter().collect();
    let lines = list_lines(&apps, &ancestors);
    assert_eq!(
        lines,
        vec![
            format!(
                "{:<23}  {:<9}  {:>6}  {}{}",
                "Ghostty", "regular", 512, "com.mitchellh.ghostty", "  (host terminal, protected)"
            ),
            format!("{:<23}  {:<9}  {:>6}  {}", "Bartender", "accessory", 77, "-"),
        ]
    );
    assert_eq!(lines[1], "Bartender                accessory      77  -");
    assert!(list_lines(&[], &ancestors).is_empty());
}

#[test]
fn cli_plan_merges_keep_and_flags() {
    let cfg = Config {
        keep: vec!["Slack".to_string()],
        timeout: None,
        force_after: None,
        include_accessory: false,
    };
    let except = vec!["Zoom".to_string(), "Mail".to_string()];
    assert_eq!(merged_keep(&cfg.keep, &except), ["Slack", "Zoom", "Mail"]);
    let ancestors = HashSet::new();
    let p = cli_plan(&cfg, &except, &[], true, &ancestors, 99);
    assert_eq!(p.keep, ["Slack", "Zoom", "Mail"]);
    assert!(p.include_accessory);
    assert!(!p.targets(&app(5, "zoom", None, Policy::Regular)));
    assert!(p.targets(&app(6, "Bartender", None, Policy::Accessory)));
}

#[test]
fn missing_only_reports_names_not_running() {
    let apps = vec![
        app(1, "Mail", Some("com.apple.mail"), Policy::Regular),
        app(2, "Notes", None, Policy::Regular),
    ];
    let only = vec![
        "notes".to_string(),
        "Slack".to_string(),
        "COM.APPLE.MAIL".to_string(),
        "Zoom".to_string(),
    ];
    assert_eq!(missing_only(&only, &apps), vec![1, 3]);
}

#[test]
fn not_running_warning() {
    assert_eq!(nuke::cli::not_running("Slack"), "nuke: Slack: not running");
}
