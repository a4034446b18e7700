use std::collections::HashSet;

use nuke::apps::{clean_name, sort_by_name, wait_over, AncestorWalk, App, Policy};

fn app(pid: i32, name: &str, bundle: Option<&str>, policy: Policy) -> App {
    App {
        pid,
        name: name.to_string(),
        bundle_id: bundle.map(|b| b.to_string()),
        policy,
    }
}

#[test]
fn clean_name_strips_bidi_marks() {
    assert_eq!(clean_name("\u{200E}WhatsApp"), "WhatsApp");
    assert_eq!(clean_name("  Mail "), "Mail");
}

#[test]
fn clean_name_strips_every_kind_of_mark() {
    assert_eq!(
        clean_name("\u{200B}Wh\u{202A}at\u{2066}s\u{FEFF}App\u{200F}"),
        "WhatsApp"
    );
    // Unicode whitespace is trimmed at the ends only.
    assert_eq!(clean_name("\u{3000}\u{a0}Visual Studio\t\n"), "Visual Studio");
    // A mark between whitespace and text does not stop the trimming.
    assert_eq!(clean_name(" \u{200E} Notes \u{200F} "), "Notes");
    assert_eq!(clean_name("\u{200E}\u{200F}"), "");
    assert_eq!(clean_name(""), "");
    // Non-ASCII letters are kept.
    assert_eq!(clean_name(" Übersicht "), "Übersicht");
}

#[test]
fn clean_name_is_idempotent_on_examples() {
    for raw in ["\u{200E}WhatsApp", "  Mail ", " \u{200E} a b \u{2069}", "x"] {
        let once = clean_name(raw);
        assert_eq!(clean_name(&once), once);
    }
}

#[test]
fn policy_labels() {
    assert_eq!(Policy::Regular.label(), "regular");
    assert_eq!(Policy::Accessory.label(), "accessory");
    assert_eq!(Policy::Prohibited.label(), "background");
}

#[test]
fn from_parts_cleans_or_names_by_pid() {
    let a = App::from_parts(
        42,
        Some("\u{200E}WhatsApp ".to_string()),
        Some("net.whatsapp.WhatsApp".to_string()),
        Policy::Regular,
    );
    assert_eq!(a.pid, 42);
    assert_eq!(a.name, "WhatsApp");
    assert_eq!(a.bundle_id.as_deref(), Some("net.whatsapp.WhatsApp"));
    assert_eq!(a.policy, Policy::Regular);

    let b = App::from_parts(731, None, None, Policy::Prohibited);
    assert_eq!(b.name, "pid 731");
    let c = App::from_parts(-5, None, None, Policy::Accessory);
    assert_eq!(c.name, "pid -5");
}

#[test]
fn matches_name_or_bundle_ignoring_ascii_case() {
    let mail = app(10, "Mail", Some("com.apple.mail"), Policy::Regular);
    assert!(mail.matches("Mail"));
    assert!(mail.matches("mAIL"));
    assert!(mail.matches("COM.APPLE.MAIL"));
    assert!(!mail.matches("Mai"));
    assert!(!mail.matches("com.apple.mail2"));
    assert!(!mail.matches(""));

    let nameless = app(11, "Übersicht", None, Policy::Accessory);
    assert!(nameless.matches("Übersicht"));
    assert!(nameless.matches("übersicht") == false); // only ASCII letters fold
    assert!(nameless.matches("ÜBERSICHT")); // the ASCII letters fold, Ü matches itself
}

#[test]
fn sort_by_name_is_stable_and_case_insensitive() {
    let apps = vec![
        app(1, "safari", None, Policy::Regular),
        app(2, "Mail", None, Policy::Regular),
        app(3, "Safari", None, Policy::Regular),
        app(4, "alpha", None, Policy::Regular),
        app(5, "Zoom", None, Policy::Regular),
        app(6, "mail", None, Policy::Regular),
    ];
    let tagged: Vec<(App, usize)> = apps.into_iter().zip(10..).collect();
    let sorted = sort_by_name(tagged);
    let pids: Vec<i32> = sorted.iter().map(|(a, _)| a.pid).collect();
    assert_eq!(pids, vec![4, 2, 6, 1, 3, 5]);
    // Each app keeps the data that went with it.
    let tags: Vec<usize> = sorted.iter().map(|(_, t)| *t).collect();
    assert_eq!(tags, vec![13, 11, 15, 10, 12, 14]);
}

#[test]
fn sort_by_name_handles_empty_and_unicode() {
    assert!(sort_by_name(Vec::<(App, ())>::new()).is_empty());
    let apps = vec![
        app(1, "Émail", None, Policy::Regular),
        app(2, "zebra", None, Policy::Regular),
        app(3, "Éclair", None, Policy::Regular),
    ];
    let tagged: Vec<(App, ())> = apps.into_iter().map(|a| (a, ())).collect();
    let pids: Vec<i32> = sort_by_name(tagged).iter().map(|(a, _)| a.pid).collect();
    // "é" sorts after every ASCII letter.
    assert_eq!(pids, vec![2, 3, 1]);
}

#[test]
fn ancestor_walk_follows_parents_until_launchd() {
    let parents = [(900, 800), (800, 300), (300, 1)];
    let mut walk = AncestorWalk::new(900);
    while let Some(pid) = walk.next_query() {
        let parent = parents.iter().find(|(c, _)| *c == pid).map(|(_, p)| *p);
        walk.record_parent(parent);
    }
    let expected: HashSet<i32> = [800, 300, 1].into_iter().collect();
    assert_eq!(walk.seen, expected);
    assert_eq!(walk.parents, [800, 300, 1]);
    assert!(!walk.seen.contains(&0));
    assert!(!walk.seen.contains(&900));
}

#[test]
fn ancestor_walk_stops_on_unknown_or_repeated_parent() {
    let mut walk = AncestorWalk::new(50);
    assert_eq!(walk.next_query(), Some(50));
    walk.record_parent(Some(40));
    assert_eq!(walk.next_query(), Some(40));
    walk.record_parent(None);
    assert_eq!(walk.next_query(), None);
    assert!(walk.finished);

    let mut cycle = AncestorWalk::new(50);
    cycle.record_parent(Some(40));
    cycle.record_parent(Some(30));
    cycle.record_parent(Some(40));
    assert!(cycle.finished);
    assert_eq!(cycle.pid, 30);
    assert_eq!(cycle.seen.len(), 2);

    let launchd = AncestorWalk::new(1);
    assert_eq!(launchd.next_query(), None);
}

#[test]
fn waiting_ends_when_all_exit_or_time_is_up() {
    assert!(wait_over(0, false));
    assert!(wait_over(3, true));
    assert!(!wait_over(3, false));
}
