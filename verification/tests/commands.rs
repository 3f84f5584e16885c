use std::sync::Arc;

use devix_core::commands::cmd::{
    AddCursorAbove, AddCursorBelow, CycleTheme, DeleteBack, DeleteForward, InsertChar,
    InsertNewline, InsertTab, Quit, Save, caret_on_line,
};
use devix_core::commands::defaults::{DefaultAction, default_binding_list, default_keymap};
use devix_core::commands::keymap::Keymap;
use devix_core::commands::manifest::{
    KeymapContribution, KeymapOverride, ManifestCommand, ManifestRegisterError,
    apply_keymap_overrides, build_registry, register_command_contributions,
    register_keymap_contributions, register_keymap_contributions_if_free,
};
use devix_core::commands::registry::{Command, CommandId, CommandRegistry};
use devix_core::input::{
    Chord, KeyCode, KeyModifiers, ProtoChord, ProtoKey, ProtoModifiers, chord_from_protocol,
    chord_to_protocol, proto_chord_to_string,
};

fn segs(p: &str) -> Vec<String> {
    p.split('/').skip(1).map(|s| s.to_string()).collect()
}

fn ctrl() -> KeyModifiers {
    KeyModifiers { control: true, ..KeyModifiers::none() }
}

fn quit_cmd(id: &'static str, label: &'static str) -> Command<Quit> {
    Command { id: CommandId::builtin(id), label, category: None, action: Arc::new(Quit) }
}

#[test]
fn register_and_resolve() {
    let mut reg = CommandRegistry::new();
    reg.register(Command {
        id: CommandId::builtin("editor.quit"),
        label: "Quit",
        category: Some("App"),
        action: Arc::new(Quit),
    });
    assert_eq!(reg.len(), 1);
    assert!(reg.resolve(CommandId::builtin("editor.quit")).is_some());
    assert!(reg.resolve(CommandId::builtin("missing")).is_none());
}

#[test]
fn command_id_round_trips_through_path() {
    let id = CommandId::builtin("edit.copy");
    let path = id.to_path();
    assert_eq!(path.as_str(), "/cmd/edit.copy");
    assert_eq!(CommandId::segment_from_path(&segs(&path)), Some("edit.copy"));
    // Reject non-cmd roots.
    assert_eq!(CommandId::segment_from_path(&segs("/buf/3")), None);
    // Reject extra segments.
    assert_eq!(CommandId::segment_from_path(&segs("/cmd/a/b")), None);
}

#[test]
fn registry_lookup_returns_action_via_path() {
    let mut reg = CommandRegistry::new();
    reg.register(Command {
        id: CommandId::builtin("editor.quit"),
        label: "Quit",
        category: Some("App"),
        action: Arc::new(Quit),
    });
    assert!(reg.lookup(&segs("/cmd/editor.quit")).is_some());
    assert!(reg.lookup(&segs("/cmd/missing")).is_none());
    let paths: Vec<String> = reg.paths();
    assert_eq!(paths, vec!["/cmd/editor.quit"]);
}

#[test]
fn re_register_preserves_order() {
    let mut reg = CommandRegistry::new();
    reg.register(Command {
        id: CommandId::builtin("a"), label: "A", category: None, action: Arc::new(Quit),
    });
    reg.register(Command {
        id: CommandId::builtin("b"), label: "B", category: None, action: Arc::new(Quit),
    });
    reg.register(Command {
        id: CommandId::builtin("a"), label: "A2", category: None, action: Arc::new(Quit),
    });
    let labels: Vec<&str> = reg.iter().map(|c| c.label).collect();
    assert_eq!(labels, vec!["A2", "B"]);
}

#[test]
fn plugin_and_builtin_ids_with_same_text_coexist() {
    let mut reg = CommandRegistry::new();
    reg.register(quit_cmd("refresh", "Builtin"));
    reg.register(Command {
        id: CommandId::plugin("tree", "refresh"),
        label: "Plugin",
        category: None,
        action: Arc::new(Quit),
    });
    assert_eq!(reg.len(), 2);
    assert_eq!(reg.get(CommandId::plugin("tree", "refresh")).unwrap().label, "Plugin");
    assert!(reg.lookup(&segs("/plugin/tree/cmd/refresh")).is_some());
    assert_eq!(CommandId::plugin("tree", "refresh").to_path(), "/plugin/tree/cmd/refresh");
    assert_eq!(
        CommandId::plugin_segments_from_path(&segs("/plugin/tree/cmd/refresh")),
        Some(("tree", "refresh"))
    );
    assert!(reg.builtin_id("refresh").is_some());
    assert!(reg.builtin_id("nope").is_none());
}

#[test]
fn binding_command_populates_bound_paths_cache() {
    let mut k: Keymap<Quit> = Keymap::new();
    let chord = Chord::new(KeyCode::Char('s'), ctrl());
    k.bind_command(chord, CommandId::builtin("editor.save"));
    let dest = k.lookup_path(&segs("/keymap/ctrl-s")).unwrap();
    assert_eq!(dest.as_str(), "/cmd/editor.save");
}

#[test]
fn binding_action_does_not_populate_paths() {
    let mut k: Keymap<Quit> = Keymap::new();
    let chord = Chord::new(KeyCode::Char('h'), KeyModifiers::none());
    k.bind_action(chord, Arc::new(Quit));
    let paths: Vec<String> = k.paths();
    assert!(paths.is_empty());
}

#[test]
fn action_over_a_command_binding_hides_its_path() {
    let mut k: Keymap<Quit> = Keymap::new();
    let chord = Chord::new(KeyCode::Char('s'), ctrl());
    let other = Chord::new(KeyCode::Char('o'), ctrl());
    k.bind_command(chord, CommandId::builtin("editor.save"));
    k.bind_command(other, CommandId::builtin("file.open"));
    k.bind_action(chord, Arc::new(Quit));
    assert!(k.lookup_path(&segs("/keymap/ctrl-s")).is_none());
    assert_eq!(k.lookup_path(&segs("/keymap/ctrl-o")).unwrap().as_str(), "/cmd/file.open");
    let paths: Vec<String> = k.paths();
    assert_eq!(paths, vec!["/keymap/ctrl-o"]);
    let reg: CommandRegistry<Quit> = CommandRegistry::new();
    assert!(k.resolve_chord(chord, &reg).is_some());
}

#[test]
fn paths_enumerates_canonical_kebab_chords() {
    let mut k: Keymap<Quit> = Keymap::new();
    k.bind_command(
        Chord::new(KeyCode::Char('p'), KeyModifiers { shift: true, ..ctrl() }),
        CommandId::builtin("palette.open"),
    );
    let paths: Vec<String> = k.paths();
    assert_eq!(paths, vec!["/keymap/ctrl-shift-p"]);
}

#[test]
fn keymap_resolves_commands_and_actions() {
    let mut reg = CommandRegistry::new();
    reg.register(quit_cmd("app.quit", "Quit"));
    let mut k: Keymap<Quit> = Keymap::new();
    let q = Chord::new(KeyCode::Char('q'), ctrl());
    let w = Chord::new(KeyCode::Char('w'), ctrl());
    let h = Chord::new(KeyCode::Char('h'), KeyModifiers::none());
    k.bind_command(q, CommandId::builtin("app.quit"));
    k.bind_command(w, CommandId::builtin("missing"));
    k.bind_action(h, Arc::new(Quit));
    assert!(k.resolve_chord(q, &reg).is_some());
    assert!(k.resolve_chord(w, &reg).is_none());
    assert!(k.resolve_chord(h, &reg).is_some());
    assert!(k.resolve_chord(Chord::new(KeyCode::Esc, KeyModifiers::none()), &reg).is_none());
}

#[test]
fn chord_for_remembers_the_first_chord() {
    let mut k: Keymap<Quit> = Keymap::new();
    let first = Chord::new(KeyCode::Char('w'), ctrl());
    let second = Chord::new(KeyCode::F(4), ctrl());
    k.bind_command(first, CommandId::builtin("tab.close"));
    k.bind_command(second, CommandId::builtin("tab.close"));
    assert_eq!(k.chord_for(CommandId::builtin("tab.close")), Some(first));
    assert_eq!(k.chord_for(CommandId::builtin("tab.new")), None);
}

#[test]
fn bind_if_free_keeps_the_first_binding() {
    let mut reg = CommandRegistry::new();
    reg.register(quit_cmd("a", "A"));
    reg.register(quit_cmd("b", "B"));
    let mut k: Keymap<Quit> = Keymap::new();
    let c = Chord::new(KeyCode::Char('k'), ctrl());
    assert!(k.bind_command_if_free(c, CommandId::builtin("a")));
    assert!(!k.bind_command_if_free(c, CommandId::builtin("b")));
    assert_eq!(k.chord_for(CommandId::builtin("b")), None);
    assert_eq!(k.lookup_path(&segs("/keymap/ctrl-k")).unwrap(), "/cmd/a");
}

#[test]
fn rebinding_a_chord_replaces_its_path() {
    let mut k: Keymap<Quit> = Keymap::new();
    let c = Chord::new(KeyCode::Char('s'), ctrl());
    k.bind_command(c, CommandId::builtin("file.save"));
    k.bind_command(c, CommandId::builtin("file.save_as"));
    assert_eq!(k.lookup_path(&segs("/keymap/ctrl-s")).unwrap(), "/cmd/file.save_as");
    assert_eq!(k.paths(), vec!["/keymap/ctrl-s"]);
    assert!(k.lookup_path(&segs("/cmd/file.save")).is_none());
}

fn manifest_cmd(id: &str, label: &str, category: Option<&str>) -> ManifestCommand {
    ManifestCommand {
        id: id.to_string(),
        label: label.to_string(),
        category: category.map(|c| c.to_string()),
    }
}

fn resolve_known(id: &str) -> Option<Arc<Quit>> {
    if id == "missing.handler" { None } else { Some(Arc::new(Quit)) }
}

#[test]
fn manifest_commands_register_as_builtins() {
    let mut reg = CommandRegistry::new();
    let n = register_command_contributions(
        &mut reg,
        &[manifest_cmd("file.save", "Save", Some("File")), manifest_cmd("app.quit", "Quit", None)],
        resolve_known,
    );
    assert!(matches!(n, Ok(2)));
    let save = reg.get(CommandId::builtin("file.save")).unwrap();
    assert_eq!(save.label, "Save");
    assert_eq!(save.category, Some("File"));
    assert_eq!(reg.paths(), vec!["/cmd/file.save", "/cmd/app.quit"]);
}

#[test]
fn manifest_command_without_handler_is_an_error() {
    let mut reg = CommandRegistry::new();
    let r = register_command_contributions(
        &mut reg,
        &[manifest_cmd("file.save", "Save", None), manifest_cmd("missing.handler", "X", None)],
        resolve_known,
    );
    match r {
        Err(e @ ManifestRegisterError::NoHandlerForCommand(_)) => assert_eq!(
            e.message(),
            "no Rust handler registered for built-in command `missing.handler`"
        ),
        _ => panic!("expected NoHandlerForCommand"),
    }
    assert_eq!(reg.len(), 1);
}

#[test]
fn build_registry_holds_every_listed_command() {
    let reg = build_registry(
        &[manifest_cmd("palette.open", "Open Palette", Some("Palette")), manifest_cmd("tab.new", "New Tab", None)],
        resolve_known,
    );
    assert_eq!(reg.len(), 2);
    assert!(reg.get(CommandId::builtin("palette.open")).is_some());
}

fn proto(key: ProtoKey, ctrl: bool, shift: bool) -> ProtoChord {
    ProtoChord { key, modifiers: ProtoModifiers { ctrl, alt: false, shift, super_key: false } }
}

#[test]
fn protocol_chords_convert_both_ways() {
    let c = chord_from_protocol(&proto(ProtoKey::Char('s'), true, false)).unwrap();
    assert_eq!(c, Chord::new(KeyCode::Char('s'), ctrl()));
    assert_eq!(chord_to_protocol(c), Some(proto(ProtoKey::Char('s'), true, false)));
    // Letters fold to lower case on the way to the wire form.
    assert_eq!(
        chord_to_protocol(Chord::new(KeyCode::Char('S'), ctrl())),
        Some(proto(ProtoKey::Char('s'), true, false))
    );
    assert_eq!(chord_to_protocol(Chord::new(KeyCode::Null, KeyModifiers::none())), None);
    assert_eq!(chord_to_protocol(Chord::new(KeyCode::F(13), KeyModifiers::none())), None);
    assert_eq!(proto_chord_to_string(&proto(ProtoKey::PageDown, true, true)), "ctrl-shift-pagedown");
}

#[test]
fn f_key_out_of_range_is_refused() {
    match chord_from_protocol(&proto(ProtoKey::F(13), false, false)) {
        Err(reason) => assert_eq!(reason, "F-key 13 out of range"),
        Ok(_) => panic!("F13 has no keymap chord"),
    }
    assert!(chord_from_protocol(&proto(ProtoKey::F(12), false, false)).is_ok());
}

#[test]
fn manifest_keymaps_bind_registered_commands() {
    let mut reg = CommandRegistry::new();
    reg.register(quit_cmd("edit.copy", "Copy"));
    reg.register(quit_cmd("file.save", "Save"));
    let mut k: Keymap<Quit> = Keymap::new();
    let r = register_keymap_contributions(
        &mut k,
        &[
            KeymapContribution { key: proto(ProtoKey::Char('c'), true, false), command: "edit.copy".to_string() },
            KeymapContribution { key: proto(ProtoKey::Char('s'), true, false), command: "/cmd/file.save".to_string() },
        ],
        &reg,
    );
    assert!(matches!(r, Ok(2)));
    assert!(k.resolve_chord(Chord::new(KeyCode::Char('c'), ctrl()), &reg).is_some());
    assert_eq!(k.chord_for(CommandId::builtin("file.save")), Some(Chord::new(KeyCode::Char('s'), ctrl())));
}

#[test]
fn manifest_keymap_errors_name_the_entry() {
    let mut reg = CommandRegistry::new();
    reg.register(quit_cmd("edit.copy", "Copy"));
    let mut k: Keymap<Quit> = Keymap::new();
    let unknown = register_keymap_contributions(
        &mut k,
        &[KeymapContribution { key: proto(ProtoKey::Char('x'), true, false), command: "edit.cut".to_string() }],
        &reg,
    );
    match unknown {
        Err(ManifestRegisterError::UnknownKeymapCommand(id)) => assert_eq!(id, "edit.cut"),
        _ => panic!("expected UnknownKeymapCommand"),
    }
    let bad_path = register_keymap_contributions(
        &mut k,
        &[KeymapContribution { key: proto(ProtoKey::Char('x'), true, false), command: "/buf/1".to_string() }],
        &reg,
    );
    match bad_path {
        Err(ManifestRegisterError::UnknownKeymapCommand(id)) => assert_eq!(id, "/buf/1"),
        _ => panic!("expected UnknownKeymapCommand"),
    }
    let bad_chord = register_keymap_contributions(
        &mut k,
        &[
            KeymapContribution { key: proto(ProtoKey::Char('c'), true, false), command: "edit.copy".to_string() },
            KeymapContribution { key: proto(ProtoKey::F(20), false, false), command: "edit.copy".to_string() },
        ],
        &reg,
    );
    match bad_chord {
        Err(e @ ManifestRegisterError::UnsupportedChord { .. }) => {
            assert_eq!(e.message(), "keymap chord `f20` cannot be converted to crossterm shape: F-key 20 out of range");
        }
        _ => panic!("expected UnsupportedChord"),
    }
    // The entry before the bad chord stays bound.
    assert!(k.resolve_chord(Chord::new(KeyCode::Char('c'), ctrl()), &reg).is_some());
}

#[test]
fn insert_commands_type_their_text() {
    assert_eq!(InsertNewline.text(), "\n");
    assert_eq!(InsertTab.text(), "    ");
    assert_eq!(InsertChar('é').text(), "é");
}

#[test]
fn delete_spans() {
    assert_eq!(DeleteBack { word: false }.span(0, 0), None);
    assert_eq!(DeleteBack { word: false }.span(5, 2), Some((4, 5)));
    assert_eq!(DeleteBack { word: true }.span(5, 2), Some((2, 5)));
    assert_eq!(DeleteForward { word: false }.span(5, 5, 5), None);
    assert_eq!(DeleteForward { word: false }.span(3, 5, 5), Some((3, 4)));
    assert_eq!(DeleteForward { word: true }.span(3, 10, 7), Some((3, 7)));
}

#[test]
fn add_cursor_targets() {
    assert_eq!(AddCursorAbove.target_line(0), None);
    assert_eq!(AddCursorAbove.target_line(3), Some(2));
    assert_eq!(AddCursorBelow.target_line(4, 5), None);
    assert_eq!(AddCursorBelow.target_line(3, 5), Some(4));
    assert_eq!(AddCursorBelow.target_line(0, 0), None);
    // Column clamps to the new line's width.
    assert_eq!(caret_on_line(8, 3, 20), 23);
    assert_eq!(caret_on_line(2, 3, 20), 22);
}

#[test]
fn cycle_theme_wraps_and_falls_back_to_first() {
    let ids = vec!["one".to_string(), "two".to_string(), "three".to_string()];
    assert_eq!(CycleTheme.next(&ids, Some("one")), Some(1));
    assert_eq!(CycleTheme.next(&ids, Some("three")), Some(0));
    assert_eq!(CycleTheme.next(&ids, Some("gone")), Some(0));
    assert_eq!(CycleTheme.next(&ids, None), Some(0));
    assert_eq!(CycleTheme.next(&[], Some("one")), None);
    let _ = Save;
}

fn over(text: &str, chord: Result<ProtoChord, String>, command: &str) -> KeymapOverride {
    KeymapOverride { chord_text: text.to_string(), chord, command: command.to_string() }
}

#[test]
fn keymap_overrides_displace_earlier_bindings() {
    let mut reg = CommandRegistry::new();
    reg.register(quit_cmd("file.save", "Save"));
    reg.register(quit_cmd("app.quit", "Quit"));
    let mut k: Keymap<Quit> = Keymap::new();
    let ctrl_s = Chord::new(KeyCode::Char('s'), ctrl());
    k.bind_command(ctrl_s, CommandId::builtin("file.save"));
    let n = apply_keymap_overrides(
        &mut k,
        &reg,
        &[over("ctrl-s", Ok(proto(ProtoKey::Char('s'), true, false)), "/cmd/app.quit")],
    );
    assert!(matches!(n, Ok(1)));
    assert_eq!(k.lookup_path(&segs("/keymap/ctrl-s")).unwrap(), "/cmd/app.quit");
    // The hint of file.save stays the chord it was first bound to.
    assert_eq!(k.chord_for(CommandId::builtin("file.save")), Some(ctrl_s));
}

#[test]
fn keymap_override_errors() {
    let mut reg = CommandRegistry::new();
    reg.register(quit_cmd("file.save", "Save"));
    let mut k: Keymap<Quit> = Keymap::new();
    match apply_keymap_overrides(&mut k, &reg, &[over("ctrl-?", Err("bad chord".to_string()), "file.save")]) {
        Err(ManifestRegisterError::UnsupportedChord { chord, reason }) => {
            assert_eq!(chord, "ctrl-?");
            assert_eq!(reason, "bad chord");
        }
        _ => panic!("expected UnsupportedChord"),
    }
    match apply_keymap_overrides(&mut k, &reg, &[over("f20", Ok(proto(ProtoKey::F(20), false, false)), "file.save")]) {
        Err(ManifestRegisterError::UnsupportedChord { chord, reason }) => {
            assert_eq!(chord, "f20");
            assert_eq!(reason, "F-key 20 out of range");
        }
        _ => panic!("expected UnsupportedChord"),
    }
    match apply_keymap_overrides(&mut k, &reg, &[over("ctrl-x", Ok(proto(ProtoKey::Char('x'), true, false)), "/cmd/nope")]) {
        Err(ManifestRegisterError::UnknownKeymapCommand(id)) => assert_eq!(id, "nope"),
        _ => panic!("expected UnknownKeymapCommand"),
    }
    assert!(k.paths().is_empty());
}

fn default_cmd(id: &'static str) -> Command<DefaultAction> {
    Command { id: CommandId::builtin(id), label: id, category: None, action: Arc::new(DefaultAction::InsertTab) }
}

#[test]
fn default_keymap_layers_source_bindings_over_the_manifest() {
    let mut reg: CommandRegistry<DefaultAction> = CommandRegistry::new();
    for id in ["file.save", "tab.prev", "tab.next", "split.horizontal", "edit.add_cursor_above",
        "edit.add_cursor_below", "edit.collapse_selection"]
    {
        reg.register(default_cmd(id));
    }
    let manifest = [
        KeymapContribution { key: proto(ProtoKey::Char('s'), true, false), command: "file.save".to_string() },
        // Overridden by the in-source `Left` motion.
        KeymapContribution { key: proto(ProtoKey::Left, false, false), command: "tab.next".to_string() },
    ];
    let k = default_keymap(&manifest, &reg, |a| Arc::new(a));
    let ctrl_shift = KeyModifiers { shift: true, ..ctrl() };
    let shift = KeyModifiers { shift: true, ..KeyModifiers::none() };
    let alt = KeyModifiers { alt: true, ..KeyModifiers::none() };
    let action = |code, mods| k.resolve_chord(Chord::new(code, mods), &reg).map(|a| *a);
    assert!(k.resolve_chord(Chord::new(KeyCode::Char('s'), ctrl()), &reg).is_some());
    assert_eq!(k.lookup_path(&segs("/keymap/ctrl-s")).unwrap(), "/cmd/file.save");
    assert_eq!(action(KeyCode::Left, KeyModifiers::none()), Some(DefaultAction::MoveLeft { extend: false }));
    assert!(k.lookup_path(&segs("/keymap/left")).is_none());
    assert_eq!(action(KeyCode::Home, ctrl_shift), Some(DefaultAction::MoveDocStart { extend: true }));
    assert_eq!(action(KeyCode::Right, shift), Some(DefaultAction::MoveRight { extend: true }));
    assert_eq!(action(KeyCode::Backspace, alt), Some(DefaultAction::DeleteBack { word: true }));
    assert_eq!(action(KeyCode::Char('b'), alt), Some(DefaultAction::MoveWordLeft { extend: false }));
    assert_eq!(
        action(KeyCode::Left, KeyModifiers { alt: true, ..ctrl() }),
        Some(DefaultAction::FocusDir(devix_core::geom::Direction::Left))
    );
    // Ctrl+Shift+Up goes to the multi-cursor command, not the motion.
    assert_eq!(k.chord_for(CommandId::builtin("edit.add_cursor_above")), Some(Chord::new(KeyCode::Up, ctrl_shift)));
    // Tab cycling: the first chord bound to each command is its hint.
    assert_eq!(k.chord_for(CommandId::builtin("tab.prev")), Some(Chord::new(KeyCode::Char('['), ctrl_shift)));
    assert_eq!(k.chord_for(CommandId::builtin("tab.next")), Some(Chord::new(KeyCode::Left, KeyModifiers::none())));
    assert_eq!(k.chord_for(CommandId::builtin("split.horizontal")), Some(Chord::new(KeyCode::Char('-'), ctrl())));
    assert_eq!(k.chord_for(CommandId::builtin("edit.collapse_selection")), Some(Chord::new(KeyCode::Esc, KeyModifiers::none())));
    assert_eq!(default_binding_list().len(), 54);
}

#[test]
fn if_free_keymaps_keep_the_first_binding_of_each_chord() {
    let mut reg = CommandRegistry::new();
    reg.register(quit_cmd("edit.copy", "Copy"));
    reg.register(quit_cmd("file.save", "Save"));
    let mut k: Keymap<Quit> = Keymap::new();
    let save = Chord::new(KeyCode::Char('s'), ctrl());
    let copy = Chord::new(KeyCode::Char('c'), ctrl());
    k.bind_command(save, CommandId::builtin("file.save"));
    let r = register_keymap_contributions_if_free(
        &mut k,
        &[
            KeymapContribution { key: proto(ProtoKey::Char('s'), true, false), command: "edit.copy".to_string() },
            KeymapContribution { key: proto(ProtoKey::Char('c'), true, false), command: "edit.copy".to_string() },
            KeymapContribution { key: proto(ProtoKey::Char('c'), true, false), command: "file.save".to_string() },
        ],
        &reg,
    );
    assert!(matches!(r, Ok(3)));
    assert_eq!(k.lookup_path(&segs("/keymap/ctrl-s")).unwrap(), "/cmd/file.save");
    assert_eq!(k.lookup_path(&segs("/keymap/ctrl-c")).unwrap(), "/cmd/edit.copy");
    assert_eq!(k.chord_for(CommandId::builtin("edit.copy")), Some(copy));
    assert_eq!(k.chord_for(CommandId::builtin("file.save")), Some(save));
    let unknown = register_keymap_contributions_if_free(
        &mut k,
        &[KeymapContribution { key: proto(ProtoKey::Char('x'), true, false), command: "edit.cut".to_string() }],
        &reg,
    );
    assert!(matches!(unknown, Err(ManifestRegisterError::UnknownKeymapCommand(_))));
}

#[test]
fn registering_again_replaces_in_place_and_counts_distinct_ids() {
    let mut reg = CommandRegistry::new();
    reg.register(quit_cmd("a", "First"));
    reg.register(quit_cmd("b", "Bee"));
    reg.register(Command { id: CommandId::plugin("p", "a"), label: "Plugin a", category: None, action: Arc::new(Quit) });
    reg.register(quit_cmd("a", "Second"));
    assert_eq!(reg.len(), 3);
    assert_eq!(reg.get(CommandId::builtin("a")).unwrap().label, "Second");
    assert_eq!(reg.get(CommandId::plugin("p", "a")).unwrap().label, "Plugin a");
    let order: Vec<&str> = reg.iter().map(|c| c.label).collect();
    assert_eq!(order, vec!["Second", "Bee", "Plugin a"]);
    assert!(reg.get(CommandId::builtin("c")).is_none());
}
