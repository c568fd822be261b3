use fallgray::cvars::{CVarRegistry, CVarValue};
use fallgray::script::{process_script, process_script_with_actor};
use fallgray::stats::{Actor, PlayerStats};

fn fresh_stats() -> PlayerStats {
    PlayerStats::default()
}

fn camera_cvars() -> CVarRegistry {
    let mut reg = CVarRegistry::new();
    reg.init("mouse.sensitivity", CVarValue::Float(500)).unwrap();
    reg.init("mouse_smooth", CVarValue::Int(1)).unwrap();
    reg
}

#[test]
fn add_gold_accumulates() {
    let mut stats = fresh_stats();
    let mut cvars = CVarRegistry::new();
    let r = process_script("add_gold 10\nadd_gold -3", &mut stats, &mut cvars);
    assert_eq!(
        r.output,
        vec!["Added 10 gold, new value: 10", "Added -3 gold, new value: 7"]
    );
    assert_eq!(stats.gold, 7);
    assert!(!r.quit);
    assert!(!r.save_requested);
}

#[test]
fn add_stamina_clamps_at_hundred() {
    let mut stats = fresh_stats();
    let mut cvars = CVarRegistry::new();
    assert_eq!(stats.stamina, 50000000);
    let r = process_script("add_stamina 60", &mut stats, &mut cvars);
    assert_eq!(r.output, vec!["Added 60 stamina, new value: 100"]);
    assert_eq!(stats.stamina, 100000000);
}

#[test]
fn add_stamina_negative_goes_down() {
    let mut stats = fresh_stats();
    let mut cvars = CVarRegistry::new();
    let r = process_script("add_stamina -10.5", &mut stats, &mut cvars);
    assert_eq!(r.output, vec!["Added -10.5 stamina, new value: 39.5"]);
    assert_eq!(stats.stamina, 39500000);
}

#[test]
fn setvar_then_getvar_round_trips() {
    let mut stats = fresh_stats();
    let mut cvars = camera_cvars();
    let r = process_script(
        "setvar mouse.sensitivity 0.001\ngetvar mouse.sensitivity",
        &mut stats,
        &mut cvars,
    );
    assert_eq!(r.output, vec!["mouse.sensitivity = 0.001", "0.001"]);
    assert_eq!(cvars.get("mouse.sensitivity"), Some(CVarValue::Float(1000)));
}

#[test]
fn setvar_errors() {
    let mut stats = fresh_stats();
    let mut cvars = camera_cvars();
    let r = process_script(
        "setvar mouse.sensitivity bogus\nsetvar nothere 1\nsetvar mouse_smooth 0",
        &mut stats,
        &mut cvars,
    );
    assert_eq!(
        r.output,
        vec![
            "Invalid value: bogus",
            "Variable not found: nothere",
            "Type mismatch: mouse_smooth"
        ]
    );
    // Nothing changed.
    assert_eq!(cvars.get("mouse.sensitivity"), Some(CVarValue::Float(500)));
    assert_eq!(cvars.get("mouse_smooth"), Some(CVarValue::Int(1)));
}

#[test]
fn getvar_missing_and_int() {
    let mut stats = fresh_stats();
    let mut cvars = camera_cvars();
    let r = process_script("getvar nope\ngetvar mouse_smooth", &mut stats, &mut cvars);
    assert_eq!(r.output, vec!["Variable not found: nope", "1"]);
}

#[test]
fn listvars_reports_all() {
    let mut stats = fresh_stats();
    let mut cvars = camera_cvars();
    let r = process_script("listvars", &mut stats, &mut cvars);
    assert_eq!(
        r.output,
        vec!["2 variables:\n  mouse.sensitivity = 0.0005\n  mouse_smooth = 1"]
    );
}

#[test]
fn listvars_empty_registry() {
    let mut stats = fresh_stats();
    let mut cvars = CVarRegistry::new();
    let r = process_script("listvars", &mut stats, &mut cvars);
    assert_eq!(r.output, vec!["No variables defined"]);
}

#[test]
fn unknown_command_reports_and_changes_nothing() {
    let mut stats = fresh_stats();
    let mut cvars = camera_cvars();
    let r = process_script("foo bar", &mut stats, &mut cvars);
    assert_eq!(r.output, vec!["Unknown command: foo bar"]);
    assert_eq!(stats.gold, 0);
    assert_eq!(stats.stamina, 50000000);
    assert_eq!(stats.health, 100000000);
    assert_eq!(cvars.get("mouse.sensitivity"), Some(CVarValue::Float(500)));
    assert_eq!(cvars.len(), 2);
    assert!(!r.quit);
    assert!(!r.save_requested);
}

#[test]
fn unknown_command_squeezes_whitespace() {
    let mut stats = fresh_stats();
    let mut cvars = CVarRegistry::new();
    let r = process_script("  foo   bar  baz ", &mut stats, &mut cvars);
    assert_eq!(r.output, vec!["Unknown command: foo bar baz"]);
}

#[test]
fn quit_stops_the_script() {
    let mut stats = fresh_stats();
    let mut cvars = CVarRegistry::new();
    let r = process_script("add_gold 5\nquit\nadd_gold 100", &mut stats, &mut cvars);
    assert_eq!(r.output, vec!["Added 5 gold, new value: 5"]);
    assert!(r.quit);
    assert_eq!(stats.gold, 5);
}

#[test]
fn comments_and_blanks_are_skipped() {
    let mut stats = fresh_stats();
    let mut cvars = CVarRegistry::new();
    let r = process_script(
        "# a comment\n\n   \n// another\nadd_gold 1\n  # indented comment",
        &mut stats,
        &mut cvars,
    );
    assert_eq!(r.output, vec!["Added 1 gold, new value: 1"]);
}

#[test]
fn missing_arguments_give_usage() {
    let mut stats = fresh_stats();
    let mut cvars = CVarRegistry::new();
    let r = process_script(
        "add_gold\nadd_stamina\nsetvar\nsetvar onlyname\ngetvar",
        &mut stats,
        &mut cvars,
    );
    assert_eq!(
        r.output,
        vec![
            "usage: add_gold <amount>",
            "usage: add_stamina <amount>",
            "usage: setvar <variable> <value>",
            "usage: setvar <variable> <value>",
            "usage: getvar <variable>"
        ]
    );
}

#[test]
fn malformed_amounts_are_reported() {
    let mut stats = fresh_stats();
    let mut cvars = CVarRegistry::new();
    let r = process_script(
        "add_gold abc\nadd_gold 2147483648\nadd_gold 1.5\nadd_stamina xyz",
        &mut stats,
        &mut cvars,
    );
    assert_eq!(
        r.output,
        vec![
            "Invalid gold amount: abc",
            "Invalid gold amount: 2147483648",
            "Invalid gold amount: 1.5",
            "Invalid stamina amount: xyz"
        ]
    );
    assert_eq!(stats.gold, 0);
    assert_eq!(stats.stamina, 50000000);
}

#[test]
fn savecvars_requests_persistence() {
    let mut stats = fresh_stats();
    let mut cvars = camera_cvars();
    let r = process_script("savecvars", &mut stats, &mut cvars);
    assert_eq!(r.output, vec!["Saving cvars"]);
    assert!(r.save_requested);
    assert!(!r.quit);
}

#[test]
fn do_damage_without_actor() {
    let mut stats = fresh_stats();
    let mut cvars = CVarRegistry::new();
    let r = process_script("do_damage", &mut stats, &mut cvars);
    assert_eq!(r.output, vec!["do_damage can only be used on actors"]);
}

#[test]
fn do_damage_with_actor() {
    let mut stats = fresh_stats();
    let mut cvars = CVarRegistry::new();
    let mut actor = Some(Actor { actor_type: "skeleton".to_string(), health: 50000000 });
    let r = process_script_with_actor("do_damage\ndo_damage", &mut stats, &mut cvars, &mut actor);
    assert_eq!(r.output, vec!["Applied 10 damage", "Applied 10 damage"]);
    let a = actor.unwrap();
    assert_eq!(a.health, 30000000);
    assert_eq!(a.actor_type, "skeleton");
}

#[test]
fn surrounding_whitespace_is_trimmed() {
    let mut stats = fresh_stats();
    let mut cvars = CVarRegistry::new();
    let r = process_script("   add_gold 7  \t", &mut stats, &mut cvars);
    assert_eq!(r.output, vec!["Added 7 gold, new value: 7"]);
}

#[test]
fn carriage_returns_are_line_endings() {
    let mut stats = fresh_stats();
    let mut cvars = CVarRegistry::new();
    let r = process_script("add_gold 1\r\nadd_gold 2\r\n", &mut stats, &mut cvars);
    assert_eq!(
        r.output,
        vec!["Added 1 gold, new value: 1", "Added 2 gold, new value: 3"]
    );
}

#[test]
fn empty_script_produces_nothing() {
    let mut stats = fresh_stats();
    let mut cvars = CVarRegistry::new();
    let r = process_script("", &mut stats, &mut cvars);
    assert!(r.output.is_empty());
    assert!(!r.quit);
    assert!(!r.save_requested);
}

#[test]
fn health_is_never_clamped_by_scripts() {
    // Stamina is clamped at 100 but health has no such rule; scripts do
    // not touch health at all.
    let mut stats = fresh_stats();
    stats.health = 250000000;
    let mut cvars = CVarRegistry::new();
    process_script("add_stamina 60\nadd_gold 1", &mut stats, &mut cvars);
    assert_eq!(stats.health, 250000000);
}
