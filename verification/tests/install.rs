use std::sync::Arc;

use devix_core::commands::keymap::Keymap;
use devix_core::commands::registry::{CommandId, CommandRegistry};
use devix_core::geom::SidebarSlot;
use devix_core::input::{Chord, KeyCode, KeyModifiers};
use devix_core::plugin::install::{Capabilities, CommandStep, ManifestPane, install_commands, plan_install};
use devix_core::plugin::{Engines, ProtocolVersion};

fn v(major: u32, minor: u32) -> ProtocolVersion {
    ProtocolVersion { major, minor }
}

fn host() -> Engines {
    Engines { protocol_version: v(0, 1), pulse_bus: v(0, 1), manifest: v(0, 1) }
}

fn all_caps() -> Capabilities {
    Capabilities { contribute_commands: true, contribute_keymaps: true, contribute_sidebar_pane: true }
}

fn strings(v: &[&str]) -> Vec<String> {
    v.iter().map(|s| s.to_string()).collect()
}

#[test]
fn manifest_declares_unknown_command_id_reports_it() {
    let plan = plan_install(
        &host(),
        &host(),
        &all_caps(),
        &strings(&["hello", "ghost"]),
        false,
        &[],
        &strings(&["hello"]),
        &[],
    );
    assert!(plan.setup_errors.is_empty());
    assert_eq!(plan.commands.len(), 2);
    assert!(matches!(plan.commands[0], CommandStep::Register(0, 0)));
    match &plan.commands[1] {
        CommandStep::Missing(m) => assert_eq!(
            m,
            "manifest declares command `ghost` but the plugin's Lua entry never registered a handler with that id"
        ),
        _ => panic!("expected a missing handler"),
    }
    assert!(plan.keymaps);
    assert!(plan.panes);
}

#[test]
fn manifest_declares_pane_without_matching_lua_pane_reports_it() {
    let panes = vec![
        ManifestPane { id: "tree".to_string(), slot: SidebarSlot::Left },
        ManifestPane { id: "outline".to_string(), slot: SidebarSlot::Right },
    ];
    let plan = plan_install(&host(), &host(), &all_caps(), &[], false, &panes, &[], &[SidebarSlot::Left]);
    assert_eq!(plan.pane_addresses, vec![0]);
    assert_eq!(
        plan.pane_errors,
        vec!["manifest declares pane `outline` on slot `Right` but the plugin's Lua entry never called `register_pane` for that slot"]
    );
}

#[test]
fn restricted_capability_skips_commands_and_everything_after() {
    let caps = Capabilities { contribute_commands: false, ..all_caps() };
    let plan = plan_install(&host(), &host(), &caps, &strings(&["hello"]), true, &[], &strings(&["hello"]), &[]);
    assert_eq!(
        plan.setup_errors,
        vec!["host does not advertise `ContributeCommands`; `contributes.commands` contributions skipped"]
    );
    assert!(plan.commands.is_empty());
    assert!(!plan.keymaps);
    assert!(!plan.panes);
    // A kind the manifest doesn't use needs no capability.
    let plan = plan_install(&host(), &host(), &caps, &[], false, &[], &[], &[]);
    assert!(plan.setup_errors.is_empty());
    assert!(plan.keymaps);
}

#[test]
fn engine_major_mismatch_skips_everything() {
    let declared = Engines { protocol_version: v(1, 2), pulse_bus: v(0, 1), manifest: v(0, 1) };
    let plan = plan_install(&declared, &host(), &all_caps(), &strings(&["a"]), true, &[], &strings(&["a"]), &[]);
    assert_eq!(
        plan.setup_errors,
        vec!["engines.devix major version mismatch: plugin declares 1.2, host supports 0.1"]
    );
    assert!(plan.commands.is_empty());
    assert!(!plan.keymaps && !plan.panes);
}

#[test]
fn install_commands_registers_binds_first_wins_and_reports() {
    let ctrl = KeyModifiers { control: true, ..KeyModifiers::none() };
    let save = Chord::new(KeyCode::Char('s'), ctrl);
    let refresh = Chord::new(KeyCode::Char('r'), ctrl);
    let mut reg: CommandRegistry<u32> = CommandRegistry::new();
    let mut keymap: Keymap<u32> = Keymap::new();
    keymap.bind_command(save, CommandId::builtin("file.save"));
    let steps = vec![
        CommandStep::Register(0, 1),
        CommandStep::Missing("no handler".to_string()),
        CommandStep::Register(1, 0),
    ];
    let (count, errors) = install_commands(
        &steps,
        "tree",
        &["refresh".to_string(), "open".to_string()],
        &["Refresh".to_string(), "Open".to_string()],
        &[Some(save), Some(refresh)],
        |h| Arc::new(h as u32 + 10),
        &mut reg,
        &mut keymap,
    );
    assert_eq!(count, 2);
    assert_eq!(
        errors,
        vec![
            "no handler".to_string(),
            "chord conflict for command `open`: chord already bound by an earlier plugin or built-in".to_string(),
        ]
    );
    let cmd = reg.get(CommandId::plugin("tree", "refresh")).unwrap();
    assert_eq!(cmd.label, "Refresh");
    assert_eq!(cmd.category, Some("Plugin"));
    assert_eq!(*cmd.action, 11);
    assert!(reg.get(CommandId::plugin("tree", "open")).is_some());
    assert_eq!(reg.len(), 2);
    // Ctrl+R was free: it now runs the plugin's refresh; Ctrl+S keeps file.save.
    assert_eq!(keymap.resolve_chord(refresh, &reg).map(|a| *a), Some(11));
    assert_eq!(keymap.chord_for(CommandId::builtin("file.save")), Some(save));
    assert_eq!(keymap.chord_for(CommandId::plugin("tree", "open")), None);
    assert_eq!(keymap.chord_for(CommandId::plugin("tree", "refresh")), Some(refresh));
    let segs = |p: &str| p.split('/').skip(1).map(|s| s.to_string()).collect::<Vec<String>>();
    assert_eq!(keymap.lookup_path(&segs("/keymap/ctrl-r")).unwrap(), "/plugin/tree/cmd/refresh");
    assert_eq!(keymap.lookup_path(&segs("/keymap/ctrl-s")).unwrap(), "/cmd/file.save");
}
