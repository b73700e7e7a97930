use taskcap::config::{
    apply_config_patch, normalize_config, sync_autostart_flag, AppConfig, AppConfigPatch,
    PreloadGate, MAX_CAPSULE_TRANSPARENCY_PERCENT,
};

#[test]
fn default_config_values() {
    let config = AppConfig::default();
    assert!(!config.autostart);
    assert!(config.show_capsule);
    assert!(!config.show_title_in_menu_bar);
    assert_eq!(config.capsule_transparency_percent, 0);
}

#[test]
fn clamps_legacy_transparency_above_max() {
    let mut parsed = AppConfig::default();
    parsed.capsule_transparency_percent = 80;
    let normalized = normalize_config(parsed);
    assert_eq!(
        normalized.capsule_transparency_percent,
        MAX_CAPSULE_TRANSPARENCY_PERCENT
    );
}

#[test]
fn normalize_clamps_refresh_interval() {
    let mut c = AppConfig::default();
    c.panel_refresh_interval_secs = 3;
    assert_eq!(normalize_config(c).panel_refresh_interval_secs, 15);
    let mut c = AppConfig::default();
    c.panel_refresh_interval_secs = 9000;
    assert_eq!(normalize_config(c).panel_refresh_interval_secs, 300);
    let mut c = AppConfig::default();
    c.panel_refresh_interval_secs = 120;
    assert_eq!(normalize_config(c).panel_refresh_interval_secs, 120);
    let mut c = AppConfig::default();
    c.panel_refresh_interval_secs = 400;
    assert_eq!(normalize_config(c).panel_refresh_interval_secs, 300);
}

#[test]
fn default_config_other_fields() {
    let c = AppConfig::default();
    assert_eq!(c.island_offset_x, 0);
    assert_eq!(c.island_offset_y, 8);
    assert_eq!(c.quick_add_shortcut, "Ctrl+Alt+N");
    assert_eq!(c.display_mode, "standard");
    assert!(c.panel_background_preload);
    assert_eq!(c.panel_refresh_interval_secs, 60);
    assert_eq!(c.panel_pos_x, None);
}

#[test]
fn sync_autostart_sets_flag() {
    let mut c = AppConfig::default();
    sync_autostart_flag(&mut c, true);
    assert!(c.autostart);
    sync_autostart_flag(&mut c, false);
    assert!(!c.autostart);
}

fn empty_patch() -> AppConfigPatch {
    AppConfigPatch {
        autostart: None,
        show_capsule: None,
        show_title_in_menu_bar: None,
        island_offset_x: None,
        island_offset_y: None,
        capsule_transparency_percent: None,
        quick_add_shortcut: None,
        display_mode: None,
        panel_background_preload: None,
        panel_refresh_interval_secs: None,
    }
}

#[test]
fn patch_clamps_and_reports_effects() {
    let mut c = AppConfig::default();
    let mut p = empty_patch();
    p.island_offset_y = Some(500);
    p.capsule_transparency_percent = Some(90);
    p.panel_refresh_interval_secs = Some(1);
    p.show_capsule = Some(false);
    p.panel_background_preload = Some(true);
    p.display_mode = Some("wide".to_string());
    let e = apply_config_patch(&mut c, p);
    assert_eq!(c.island_offset_y, 120);
    assert_eq!(c.capsule_transparency_percent, 50);
    assert_eq!(c.panel_refresh_interval_secs, 15);
    assert!(!c.show_capsule);
    assert_eq!(c.display_mode, "wide");
    assert!(e.needs_system_ui);
    assert!(e.needs_reposition);
    assert!(e.trigger_panel_preload);
}

#[test]
fn empty_patch_changes_nothing() {
    let mut c = AppConfig::default();
    let e = apply_config_patch(&mut c, empty_patch());
    assert!(!e.needs_system_ui && !e.needs_reposition && !e.trigger_panel_preload);
    assert_eq!(c.island_offset_y, 8);
    assert_eq!(c.display_mode, "standard");
}

#[test]
fn preload_gate_waits_for_pause_and_cooldown() {
    let mut g = PreloadGate::new();
    assert!(g.safe_for_panel_preload(1_000));
    g.mark_island_resize_activity(1_000);
    assert!(g.is_panel_preload_paused(5_000));
    assert!(!g.safe_for_panel_preload(12_999));
    assert!(g.safe_for_panel_preload(13_000));
    g.postpone_panel_preload_millis(13_000, 1_000);
    assert!(g.is_panel_preload_paused(13_500));
    g.postpone_panel_preload_millis(0, 10);
    assert_eq!(g.pause_deadline_ms, 14_000);
}
