use devix_core::editor::cursor::ScrollMode;
use devix_core::editor::ids::{CursorId, DocId, IdCounter};
use devix_core::editor::stores::{CursorStore, DocStore};
use devix_core::geom::SidebarSlot;
use devix_core::input::{
    KeyCode, KeyModifiers, chord_from_key, key_code_to_string, parse_chord, parse_key,
};
use devix_core::pane::{HandleCtx, Outcome};
use devix_core::plugin::{
    Engines, PaneAction, PaneEvent, PaneRenderPlan, PaneSpec, PluginMsg, ProtocolVersion, engines_compatible,
    handle_from_callback_path, pane_handle_step, pane_render_plan, parse_slot, pane_scroll_by, plugin_callback_path, plugin_callback_segments,
    sanitize_plugin_segment, segment_valid, setting_path_to_key,
};
use devix_core::supervise::{RestartPolicy, escalation_plugin_path, record_crash};

fn segs(p: &str) -> Vec<String> {
    p.split('/').skip(1).map(|s| s.to_string()).collect()
}

fn ctrl() -> KeyModifiers {
    KeyModifiers { control: true, ..KeyModifiers::none() }
}

fn check_parse_chord_understands_common_modifiers() {
    let c = parse_chord("ctrl+h").unwrap();
    assert_eq!(c.code, KeyCode::Char('h'));
    assert!(c.mods.contains(ctrl()));

    let c = parse_chord("Ctrl+Shift+P").unwrap();
    assert_eq!(c.code, KeyCode::Char('p'));
    assert!(c.mods.contains(ctrl().union(KeyModifiers { shift: true, ..KeyModifiers::none() })));

    assert!(parse_chord("notakey").is_none());
    assert_eq!(parse_chord("F12").unwrap().code, KeyCode::F(12));
}

#[test]
fn plugin_parse_chord_understands_common_modifiers() {
    check_parse_chord_understands_common_modifiers();
}

#[test]
fn mod_parse_chord_understands_common_modifiers() {
    check_parse_chord_understands_common_modifiers();
}

#[test]
fn parse_chord_edge_cases() {
    // Surrounding white space is ignored; a second key is refused.
    assert_eq!(parse_chord(" alt + x ").unwrap().code, KeyCode::Char('x'));
    assert!(parse_chord("ctrl+a+b").is_none());
    assert!(parse_chord("ctrl+").is_none());
    assert_eq!(parse_chord("space").unwrap().code, KeyCode::Char(' '));
    assert_eq!(parse_key("PgDn"), Some(KeyCode::PageDown));
    assert_eq!(parse_key("f13"), None);
}

#[test]
fn chord_from_key_folds_ascii_letters() {
    let c = chord_from_key(KeyCode::Char('S'), ctrl());
    assert_eq!(c.code, KeyCode::Char('s'));
    assert_eq!(c.mods, ctrl());
    assert_eq!(chord_from_key(KeyCode::Char('É'), ctrl()).code, KeyCode::Char('É'));
}

#[test]
fn key_names_for_plugin_callbacks() {
    assert_eq!(key_code_to_string(KeyCode::Char('x')), "x");
    assert_eq!(key_code_to_string(KeyCode::F(5)), "f5");
    assert_eq!(key_code_to_string(KeyCode::PageUp), "pageup");
    assert_eq!(
        key_code_to_string(KeyCode::Media(devix_core::input::MediaKeyCode::PlayPause)),
        "media(playpause)"
    );
}

fn check_callback_path_round_trips() {
    let p = plugin_callback_path("file-tree", 42).unwrap();
    assert_eq!(p.as_str(), "/plugin/file-tree/cb/42");
    let (name, handle) = handle_from_callback_path(&segs(&p)).unwrap();
    assert_eq!(name, "file-tree");
    assert_eq!(handle, 42);
}

#[test]
fn plugin_callback_path_round_trips() {
    check_callback_path_round_trips();
}

#[test]
fn mod_callback_path_round_trips() {
    check_callback_path_round_trips();
}

fn check_callback_path_rejects_invalid_name() {
    assert!(plugin_callback_path("FileTree", 1).is_some());
    assert!(plugin_callback_path("file tree", 1).is_none());
    assert!(plugin_callback_path("file:tree", 1).is_none());
    assert!(plugin_callback_path("", 1).is_none());
}

#[test]
fn plugin_callback_path_rejects_invalid_name() {
    check_callback_path_rejects_invalid_name();
}

#[test]
fn mod_callback_path_rejects_invalid_name() {
    check_callback_path_rejects_invalid_name();
}

fn check_handle_from_callback_path_rejects_other_shapes() {
    assert!(handle_from_callback_path(&segs("/buf/3")).is_none());
    assert!(handle_from_callback_path(&segs("/plugin/x/foo/4")).is_none());
    assert!(handle_from_callback_path(&segs("/plugin/x/cb/abc")).is_none());
    assert!(handle_from_callback_path(&segs("/plugin/x/cb/4/extra")).is_none());
}

#[test]
fn plugin_handle_from_callback_path_rejects_other_shapes() {
    check_handle_from_callback_path_rejects_other_shapes();
}

#[test]
fn mod_handle_from_callback_path_rejects_other_shapes() {
    check_handle_from_callback_path_rejects_other_shapes();
}

#[test]
fn callback_segments_and_u64_max() {
    let s = plugin_callback_segments("p", u64::MAX).unwrap();
    assert_eq!(s, vec!["plugin", "p", "cb", "18446744073709551615"]);
    assert_eq!(handle_from_callback_path(&s), Some(("p".to_string(), u64::MAX)));
    assert!(handle_from_callback_path(&segs("/plugin/p/cb/18446744073709551616")).is_none());
}

#[test]
fn segment_sanitising() {
    assert_eq!(sanitize_plugin_segment("my plugin:v2"), "my_plugin_v2");
    assert!(segment_valid("a.b-c_d"));
    assert!(!segment_valid("a/b"));
    assert_eq!(escalation_plugin_path(""), "/plugin/supervisor");
    assert_eq!(escalation_plugin_path("lua host"), "/plugin/lua_host");
}

#[test]
fn setting_path_to_key_strips_the_root() {
    assert_eq!(setting_path_to_key(&segs("/setting/editor.tab_size")), "editor.tab_size");
    assert_eq!(setting_path_to_key(&segs("/other/x")), "/other/x");
}

fn v(major: u32, minor: u32) -> ProtocolVersion {
    ProtocolVersion { major, minor }
}

#[test]
fn engines_compare_major_versions_only() {
    let host = Engines { protocol_version: v(0, 1), pulse_bus: v(0, 1), manifest: v(0, 1) };
    let minor_only = Engines { protocol_version: v(0, 9), pulse_bus: v(0, 0), manifest: v(0, 3) };
    let (ok, bad) = engines_compatible(&minor_only, &host);
    assert!(ok);
    assert!(bad.is_empty());
    let major = Engines { protocol_version: v(1, 0), pulse_bus: v(0, 1), manifest: v(2, 0) };
    let (ok, bad) = engines_compatible(&major, &host);
    assert!(!ok);
    let surfaces: Vec<&str> = bad.iter().map(|m| m.surface).collect();
    assert_eq!(surfaces, vec!["devix", "manifest"]);
    assert_eq!(bad[1].declared, v(2, 0));
}

#[test]
fn pane_scroll_clamps_at_zero_and_at_end() {
    // 10 lines in a 4-row body: the last valid top is 6.
    assert_eq!(pane_scroll_by(0, -3, 10, 4), 0);
    assert_eq!(pane_scroll_by(2, 3, 10, 4), 5);
    assert_eq!(pane_scroll_by(5, 30, 10, 4), 6);
    assert_eq!(pane_scroll_by(0, 1, 3, 4), 0);
}

#[test]
fn restart_budget_escalates_past_max_restarts() {
    let policy = RestartPolicy::default();
    assert_eq!(policy.max_restarts, 3);
    assert_eq!(policy.window_ms, 30_000);
    let mut log = Vec::new();
    assert!(!record_crash(&mut log, 1_000, &policy));
    assert!(!record_crash(&mut log, 2_000, &policy));
    assert!(!record_crash(&mut log, 3_000, &policy));
    assert!(record_crash(&mut log, 4_000, &policy));
    assert_eq!(log, vec![1_000, 2_000, 3_000, 4_000]);
}

#[test]
fn crashes_outside_the_window_are_forgotten() {
    let policy = RestartPolicy { max_restarts: 1, window_ms: 100 };
    let mut log = vec![0, 50];
    assert!(!record_crash(&mut log, 200, &policy));
    assert_eq!(log, vec![200]);
    assert!(record_crash(&mut log, 250, &policy));
    assert_eq!(log, vec![200, 250]);
}

#[test]
fn cursor_id_round_trips_through_path() {
    let mut counter = IdCounter::new();
    let id = CursorId::mint(&mut counter);
    let path = id.to_path();
    assert!(path.as_str().starts_with("/cur/"));
    let back = CursorId::id_from_path(&segs(&path)).unwrap();
    assert_eq!(id, back);
}

#[test]
fn cursor_id_from_path_rejects_other_roots() {
    assert!(CursorId::id_from_path(&segs("/buf/3")).is_none());
    assert!(CursorId::id_from_path(&segs("/cur/abc")).is_none());
}

#[test]
fn doc_id_to_path_round_trips() {
    let mut counter = IdCounter::new();
    let id = DocId::mint(&mut counter);
    let path = id.to_path();
    assert!(path.as_str().starts_with("/buf/"));
    let back = DocId::id_from_path(&segs(&path)).unwrap();
    assert_eq!(id, back);
}

#[test]
fn doc_id_from_path_rejects_other_roots() {
    assert!(DocId::id_from_path(&segs("/cur/3")).is_none());
    assert!(DocId::id_from_path(&segs("/buf/abc")).is_none());
    assert!(DocId::id_from_path(&segs("/buf")).is_none());
    assert!(DocId::id_from_path(&segs("/buf/42/extra")).is_none());
}

#[test]
fn minted_ids_are_fresh() {
    let mut counter = IdCounter::new();
    let a = DocId::mint(&mut counter);
    let b = DocId::mint(&mut counter);
    assert_ne!(a, b);
    assert_eq!(a.as_u64(), 1);
    assert_eq!(b.as_u64(), 2);
    assert_eq!(CursorId(7).to_path(), "/cur/7");
}

#[test]
fn plain_value_types() {
    assert_ne!(Outcome::Consumed, Outcome::Ignored);
    assert_ne!(ScrollMode::Anchored, ScrollMode::Free);
    let _ctx = HandleCtx::new();
    let spec = PaneSpec {
        slot: SidebarSlot::Left,
        pane_id: 3,
        lines: vec!["a".to_string()],
        scroll: 0,
        visible_rows: 10,
        has_on_key: true,
        has_on_click: false,
    };
    assert_eq!(spec.clone().lines, vec!["a".to_string()]);
    match PluginMsg::OpenPath("/tmp/x".to_string()) {
        PluginMsg::OpenPath(p) => assert_eq!(p, "/tmp/x"),
        _ => panic!("expected OpenPath"),
    }
}

#[test]
fn doc_store_close_and_reopen_mints_fresh_id() {
    let mut store: DocStore<&str> = DocStore::new();
    let id_a = store.insert("scratch");
    store.remove(id_a).unwrap();
    let id_b = store.insert("scratch");
    assert_ne!(id_a, id_b);
    assert!(id_b.as_u64() > id_a.as_u64());
    assert!(store.get(id_a).is_none());
    let by_path = |p: String| DocId::id_from_path(&segs(&p)).and_then(|id| store.get(id));
    assert!(by_path(id_a.to_path()).is_none());
    assert!(by_path(id_b.to_path()).is_some());
}

#[test]
fn cursor_store_lookup_round_trips() {
    let mut cursors: CursorStore<u32> = CursorStore::new();
    let cid = cursors.insert(7);
    let path = cid.to_path();
    let back = CursorId::id_from_path(&segs(&path)).unwrap();
    assert_eq!(cursors.get(back), Some(&7));
    assert!(cursors.contains_key(cid));
    assert_eq!(cursors.len(), 1);
    assert!(!cursors.is_empty());
    assert_eq!(cursors.remove(cid), Some(7));
    assert!(cursors.is_empty());
}

#[test]
fn pane_render_plan_clamps_scroll_and_windows_lines() {
    assert_eq!(pane_render_plan(false, 3, 10, 0, 5), PaneRenderPlan::Skip);
    assert_eq!(pane_render_plan(false, 3, 10, 20, 0), PaneRenderPlan::Skip);
    assert_eq!(pane_render_plan(true, 9, 10, 20, 5), PaneRenderPlan::View { visible_rows: 5 });
    // 10 lines in 4 rows: the top line can go no further than 6.
    assert_eq!(
        pane_render_plan(false, 9, 10, 20, 4),
        PaneRenderPlan::Lines { scroll: 6, first: 6, end: 10, visible_rows: 4 }
    );
    assert_eq!(
        pane_render_plan(false, 2, 10, 20, 4),
        PaneRenderPlan::Lines { scroll: 2, first: 2, end: 6, visible_rows: 4 }
    );
    // Fewer lines than rows: everything from the top.
    assert_eq!(
        pane_render_plan(false, 5, 3, 20, 8),
        PaneRenderPlan::Lines { scroll: 0, first: 0, end: 3, visible_rows: 8 }
    );
}

#[test]
fn pane_handle_step_routes_keys_clicks_and_wheel() {
    assert_eq!(pane_handle_step(PaneEvent::Key, true, false, 0, 10, 4), (Outcome::Consumed, PaneAction::ForwardKey));
    assert_eq!(pane_handle_step(PaneEvent::Key, false, true, 0, 10, 4), (Outcome::Ignored, PaneAction::Nothing));
    assert_eq!(
        pane_handle_step(PaneEvent::MouseDown { x: 3, y: 7 }, false, true, 0, 10, 4),
        (Outcome::Consumed, PaneAction::ForwardClick { x: 3, y: 7 })
    );
    assert_eq!(
        pane_handle_step(PaneEvent::MouseDown { x: 3, y: 7 }, true, false, 0, 10, 4),
        (Outcome::Ignored, PaneAction::Nothing)
    );
    assert_eq!(pane_handle_step(PaneEvent::ScrollDown, false, false, 5, 10, 4), (Outcome::Consumed, PaneAction::Scroll(6)));
    assert_eq!(pane_handle_step(PaneEvent::ScrollUp, false, false, 1, 10, 4), (Outcome::Consumed, PaneAction::Scroll(0)));
    assert_eq!(pane_handle_step(PaneEvent::Other, true, true, 1, 10, 4), (Outcome::Ignored, PaneAction::Nothing));
}

#[test]
fn parse_slot_accepts_left_and_right_only() {
    assert_eq!(parse_slot("left"), Ok(SidebarSlot::Left));
    assert_eq!(parse_slot("right"), Ok(SidebarSlot::Right));
    assert_eq!(parse_slot("top"), Err("unknown sidebar slot: top".to_string()));
    assert_eq!(parse_slot("Left"), Err("unknown sidebar slot: Left".to_string()));
}
