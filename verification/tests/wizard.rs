use op_cache::daemon::Entry;
use op_cache::wizard::{
    add_candidates, cached_references, display_path, is_absolute_path, is_reference,
    lifetime_default, reference_in_key, review_rows, Action, Answer, Overrides, OverridesDialog, Pick,
    Prompt, Stage,
};

fn entry(key: &str) -> Entry {
    Entry { key: key.to_string(), preview: String::new(), expires_in_secs: None }
}

fn menu_of(prompt: Prompt) -> (String, Vec<(String, Option<u128>)>) {
    match prompt {
        Prompt::Menu { question, items } => (question, items),
        _ => panic!("not the menu"),
    }
}

#[test]
fn a_key_is_for_its_first_reference_argument() {
    assert_eq!(reference_in_key("read\u{1f}op://v/i/f"), Some("op://v/i/f".to_string()));
    assert_eq!(
        reference_in_key("read\u{1f}--account\u{1f}work\u{1f}op://v/i/f\u{1f}op://v/j/f"),
        Some("op://v/i/f".to_string())
    );
    assert_eq!(reference_in_key("op://alone"), Some("op://alone".to_string()));
    assert_eq!(reference_in_key("k"), None);
    assert_eq!(reference_in_key("read\u{1f}xop://v"), None);
    assert_eq!(reference_in_key(""), None);
}

#[test]
fn cached_references_are_sorted_and_unique() {
    let entries = vec![
        entry("read\u{1f}op://v/b/f"),
        entry("k"),
        entry("read\u{1f}--account\u{1f}work\u{1f}op://v/a/f"),
        entry("read\u{1f}op://v/a/f"),
    ];
    assert_eq!(cached_references(&entries), vec!["op://v/a/f", "op://v/b/f"]);
    assert!(cached_references(&Vec::new()).is_empty());
}

#[test]
fn typed_in_answers_are_checked() {
    assert!(is_reference("op://v/i/f"));
    assert!(!is_reference("v/i/f"));
    assert!(!is_reference("op:/"));
    assert!(is_absolute_path("/tmp/op-cache.sock"));
    assert!(!is_absolute_path("tmp/op-cache.sock"));
    assert!(!is_absolute_path(""));
}

#[test]
fn paths_under_home_are_shown_with_a_tilde() {
    assert_eq!(display_path("/home/me/.config/x", Some("/home/me")), "~/.config/x");
    assert_eq!(display_path("/home/me", Some("/home/me")), "~");
    assert_eq!(display_path("/home/meg/x", Some("/home/me")), "~g/x");
    assert_eq!(display_path("/tmp/x", Some("/home/me")), "/tmp/x");
    assert_eq!(display_path("/tmp/x", Some("")), "/tmp/x");
    assert_eq!(display_path("/tmp/x", None), "/tmp/x");
}

#[test]
fn the_lifetime_question_starts_from_the_current_lifetime() {
    assert_eq!(lifetime_default(None, "1h"), "1h");
    assert_eq!(lifetime_default(Some(5_400_000_000_000), "1h"), "1h 30m");
    assert_eq!(lifetime_default(Some(86_400_000_000_000), "8h"), "1day");
    assert_eq!(lifetime_default(Some(1_500_000_000), "8h"), "1s 500ms");
}

#[test]
fn candidates_are_the_cached_references_without_an_override() {
    let mut overrides = Overrides::new();
    overrides.insert("op://v/b/f".to_string(), None);
    let cached = vec!["op://v/c/f".to_string(), "op://v/b/f".to_string(), "op://v/a/f".to_string()];
    assert_eq!(add_candidates(&cached, &overrides), vec!["op://v/c/f", "op://v/a/f"]);
}

#[test]
fn the_overrides_dialog_adds_changes_and_removes() {
    let (mut dialog, prompt) =
        OverridesDialog::new(Overrides::new(), vec!["op://v/a/f".to_string()]);
    let (question, items) = menu_of(prompt);
    assert_eq!(question, "Should any references live for a different length?");
    assert!(items.is_empty());

    match dialog.answer(Answer::Picked(Pick::Add)) {
        Prompt::Reference { candidates } => assert_eq!(candidates, vec!["op://v/a/f"]),
        _ => panic!("not the reference question"),
    }
    assert!(matches!(
        dialog.answer(Answer::Reference("op://v/".to_string())),
        Prompt::Lifetime { current: None }
    ));
    let (question, items) = menu_of(dialog.answer(Answer::Lifetime(Some(3_600_000_000_000))));
    assert_eq!(question, "These references have their own lifetime. Anything to change?");
    assert_eq!(items, vec![("op://v/".to_string(), Some(3_600_000_000_000))]);

    match dialog.answer(Answer::Picked(Pick::Edit("op://v/".to_string()))) {
        Prompt::Action { reference } => assert_eq!(reference, "op://v/"),
        _ => panic!("not the action question"),
    }
    assert!(matches!(
        dialog.answer(Answer::Action(Action::Change)),
        Prompt::Lifetime { current: Some(3_600_000_000_000) }
    ));
    let (_, items) = menu_of(dialog.answer(Answer::Lifetime(None)));
    assert_eq!(items, vec![("op://v/".to_string(), None)]);

    dialog.answer(Answer::Picked(Pick::Edit("op://v/".to_string())));
    let (_, items) = menu_of(dialog.answer(Answer::Action(Action::Keep)));
    assert_eq!(items.len(), 1);

    dialog.answer(Answer::Picked(Pick::Edit("op://v/".to_string())));
    let (question, items) = menu_of(dialog.answer(Answer::Action(Action::Remove)));
    assert_eq!(question, "Should any references live for a different length?");
    assert!(items.is_empty());

    assert!(matches!(dialog.answer(Answer::Picked(Pick::Done)), Prompt::Finished));
    assert!(matches!(dialog.stage, Stage::Finished));
    assert_eq!(dialog.overrides.len(), 0);
}

#[test]
fn the_review_lists_every_setting_with_the_first_override_labelled() {
    let mut overrides = Overrides::new();
    overrides.insert("op://v/b".to_string(), None);
    overrides.insert("op://v/a".to_string(), Some(300_000_000_000));
    let rows = review_rows(None, &overrides, Some(28_800_000_000_000), "op", "~/d.sock");
    let expected: Vec<(String, String)> = [
        ("Secrets live", "until the daemon exits"),
        ("Except", "op://v/a  5m"),
        ("", "op://v/b  until the daemon exits"),
        ("Daemon idles", "8h"),
        ("op binary", "op"),
        ("Socket", "~/d.sock"),
    ]
    .iter()
    .map(|(a, b)| (a.to_string(), b.to_string()))
    .collect();
    assert_eq!(rows, expected);

    let rows = review_rows(Some(3_600_000_000_000), &Overrides::new(), None, "/bin/op", "/s");
    assert_eq!(rows[0].1, "1h");
    assert_eq!(rows[1], ("Daemon idles".to_string(), "forever".to_string()));
    assert_eq!(rows.len(), 4);
}
