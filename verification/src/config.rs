//! Application settings, their defaults and bounds, and how a settings change is
//! applied. Reading and writing the settings file is the caller's business.

use vstd::prelude::*;

verus! {

/// The most transparent the interface may be: 0 is opaque, 50 the most transparent.
pub const MAX_CAPSULE_TRANSPARENCY_PERCENT: u8 = 50;

pub struct AppConfig {
    pub autostart: bool,
    pub show_capsule: bool,
    pub show_title_in_menu_bar: bool,
    /// Pixel offset from the horizontal centre of the screen.
    pub island_offset_x: i32,
    /// Pixel offset from the top of the work area.
    pub island_offset_y: i32,
    /// Last physical position of the main panel, if recorded.
    pub panel_pos_x: Option<i32>,
    pub panel_pos_y: Option<i32>,
    /// 0 (opaque) to 50 (most transparent).
    pub capsule_transparency_percent: u8,
    /// Global shortcut such as "Ctrl+Alt+N".
    pub quick_add_shortcut: String,
    /// "standard" or "wide".
    pub display_mode: String,
    pub panel_background_preload: bool,
    /// Seconds between refreshes of an open panel.
    pub panel_refresh_interval_secs: u32,
}

pub struct ConfigView {
    pub autostart: bool,
    pub show_capsule: bool,
    pub show_title_in_menu_bar: bool,
    pub island_offset_x: i32,
    pub island_offset_y: i32,
    pub panel_pos_x: Option<i32>,
    pub panel_pos_y: Option<i32>,
    pub capsule_transparency_percent: u8,
    pub quick_add_shortcut: Seq<char>,
    pub display_mode: Seq<char>,
    pub panel_background_preload: bool,
    pub panel_refresh_interval_secs: u32,
}

impl View for AppConfig {
    type V = ConfigView;

    open spec fn view(&self) -> ConfigView {
        ConfigView {
            autostart: self.autostart,
            show_capsule: self.show_capsule,
            show_title_in_menu_bar: self.show_title_in_menu_bar,
            island_offset_x: self.island_offset_x,
            island_offset_y: self.island_offset_y,
            panel_pos_x: self.panel_pos_x,
            panel_pos_y: self.panel_pos_y,
            capsule_transparency_percent: self.capsule_transparency_percent,
            quick_add_shortcut: self.quick_add_shortcut@,
            display_mode: self.display_mode@,
            panel_background_preload: self.panel_background_preload,
            panel_refresh_interval_secs: self.panel_refresh_interval_secs,
        }
    }
}

pub fn default_island_offset_y() -> (r: i32)
    ensures
        r == 8,
{
    8
}

pub fn default_capsule_transparency_percent() -> (r: u8)
    ensures
        r == 0,
{
    0
}

pub fn default_show_capsule() -> (r: bool)
    ensures
        r,
{
    true
}

pub fn default_quick_add_shortcut() -> (r: String)
    ensures
        r@ == "Ctrl+Alt+N"@,
{
    String::from_str("Ctrl+Alt+N")
}

pub fn default_display_mode() -> (r: String)
    ensures
        r@ == "standard"@,
{
    String::from_str("standard")
}

pub fn default_panel_background_preload() -> (r: bool)
    ensures
        r,
{
    true
}

pub fn default_panel_refresh_interval_secs() -> (r: u32)
    ensures
        r == 60,
{
    60
}

/// The settings of a fresh installation.
pub open spec fn default_view() -> ConfigView {
    ConfigView {
        autostart: false,
        show_capsule: true,
        show_title_in_menu_bar: false,
        island_offset_x: 0,
        island_offset_y: 8,
        panel_pos_x: None,
        panel_pos_y: None,
        capsule_transparency_percent: 0,
        quick_add_shortcut: "Ctrl+Alt+N"@,
        display_mode: "standard"@,
        panel_background_preload: true,
        panel_refresh_interval_secs: 60,
    }
}

impl Default for AppConfig {
    fn default() -> (r: Self)
        ensures
            r@ == default_view(),
    {
        AppConfig {
            autostart: false,
            show_capsule: default_show_capsule(),
            show_title_in_menu_bar: false,
            island_offset_x: 0,
            island_offset_y: default_island_offset_y(),
            panel_pos_x: None,
            panel_pos_y: None,
            capsule_transparency_percent: default_capsule_transparency_percent(),
            quick_add_shortcut: default_quick_add_shortcut(),
            display_mode: default_display_mode(),
            panel_background_preload: default_panel_background_preload(),
            panel_refresh_interval_secs: default_panel_refresh_interval_secs(),
        }
    }
}

impl Clone for AppConfig {
    fn clone(&self) -> (r: Self)
        ensures
            r@ == self@,
    {
        AppConfig {
            autostart: self.autostart,
            show_capsule: self.show_capsule,
            show_title_in_menu_bar: self.show_title_in_menu_bar,
            island_offset_x: self.island_offset_x,
            island_offset_y: self.island_offset_y,
            panel_pos_x: self.panel_pos_x,
            panel_pos_y: self.panel_pos_y,
            capsule_transparency_percent: self.capsule_transparency_percent,
            quick_add_shortcut: self.quick_add_shortcut.clone(),
            display_mode: self.display_mode.clone(),
            panel_background_preload: self.panel_background_preload,
            panel_refresh_interval_secs: self.panel_refresh_interval_secs,
        }
    }
}

pub open spec fn clamp_int(v: int, lo: int, hi: int) -> int {
    if v < lo {
        lo
    } else if v > hi {
        hi
    } else {
        v
    }
}

/// Settings within their bounds: transparency at most 50, refresh every 15 to 300 seconds.
pub open spec fn normalized_view(c: ConfigView) -> ConfigView {
    ConfigView {
        capsule_transparency_percent: if c.capsule_transparency_percent > 50 {
            50
        } else {
            c.capsule_transparency_percent
        },
        panel_refresh_interval_secs: clamp_int(c.panel_refresh_interval_secs as int, 15, 300) as u32,
        ..c
    }
}

/// Brings loaded settings within their bounds.
pub fn normalize_config(config: AppConfig) -> (r: AppConfig)
    ensures
        r@ == normalized_view(config@),
{
    let mut config = config;
    if config.capsule_transparency_percent > MAX_CAPSULE_TRANSPARENCY_PERCENT {
        config.capsule_transparency_percent = MAX_CAPSULE_TRANSPARENCY_PERCENT;
    }
    if config.panel_refresh_interval_secs < 15 {
        config.panel_refresh_interval_secs = 15;
    } else if config.panel_refresh_interval_secs > 300 {
        config.panel_refresh_interval_secs = 300;
    }
    config
}

/// Records whether the program starts with the system, as the system reports it.
pub fn sync_autostart_flag(config: &mut AppConfig, enabled: bool)
    ensures
        final(config)@ == (ConfigView { autostart: enabled, ..old(config)@ }),
{
    config.autostart = enabled;
}

/// A settings change: each field that is present replaces the setting.
pub struct AppConfigPatch {
    pub autostart: Option<bool>,
    pub show_capsule: Option<bool>,
    pub show_title_in_menu_bar: Option<bool>,
    pub island_offset_x: Option<i32>,
    pub island_offset_y: Option<i32>,
    pub capsule_transparency_percent: Option<u8>,
    pub quick_add_shortcut: Option<String>,
    pub display_mode: Option<String>,
    pub panel_background_preload: Option<bool>,
    pub panel_refresh_interval_secs: Option<u32>,
}

/// What the interface must do after a settings change.
#[derive(Clone, Copy, Debug, PartialEq, Eq, Structural)]
pub struct PatchEffects {
    /// Tray and island visibility changed.
    pub needs_system_ui: bool,
    /// The island moved.
    pub needs_reposition: bool,
    /// Background loading of the panel was switched on.
    pub trigger_panel_preload: bool,
}

pub open spec fn opt_or<T>(o: Option<T>, d: T) -> T {
    match o {
        Some(v) => v,
        None => d,
    }
}

pub open spec fn opt_text_or(o: Option<String>, d: Seq<char>) -> Seq<char> {
    match o {
        Some(v) => v@,
        None => d,
    }
}

/// The settings once a change is applied: the island's vertical offset is kept
/// within 0..=120, transparency at most 50, refresh within 15..=300 seconds.
pub open spec fn patched(c: ConfigView, p: AppConfigPatch) -> ConfigView {
    ConfigView {
        autostart: opt_or(p.autostart, c.autostart),
        show_capsule: opt_or(p.show_capsule, c.show_capsule),
        show_title_in_menu_bar: opt_or(p.show_title_in_menu_bar, c.show_title_in_menu_bar),
        island_offset_x: opt_or(p.island_offset_x, c.island_offset_x),
        island_offset_y: match p.island_offset_y {
            Some(v) => clamp_int(v as int, 0, 120) as i32,
            None => c.island_offset_y,
        },
        panel_pos_x: c.panel_pos_x,
        panel_pos_y: c.panel_pos_y,
        capsule_transparency_percent: match p.capsule_transparency_percent {
            Some(v) => if v > 50 {
                50
            } else {
                v
            },
            None => c.capsule_transparency_percent,
        },
        quick_add_shortcut: opt_text_or(p.quick_add_shortcut, c.quick_add_shortcut),
        display_mode: opt_text_or(p.display_mode, c.display_mode),
        panel_background_preload: opt_or(p.panel_background_preload, c.panel_background_preload),
        panel_refresh_interval_secs: match p.panel_refresh_interval_secs {
            Some(v) => clamp_int(v as int, 15, 300) as u32,
            None => c.panel_refresh_interval_secs,
        },
    }
}

/// Applies a settings change (after the system accepted a new autostart setting)
/// and says what the interface must refresh.
pub fn apply_config_patch(config: &mut AppConfig, patch: AppConfigPatch) -> (r: PatchEffects)
    ensures
        final(config)@ == patched(old(config)@, patch),
        r.needs_system_ui == (patch.show_capsule is Some || patch.show_title_in_menu_bar is Some),
        r.needs_reposition == (patch.island_offset_x is Some || patch.island_offset_y is Some),
        r.trigger_panel_preload == (patch.panel_background_preload == Some(true)),
{
    let effects = PatchEffects {
        needs_system_ui: patch.show_capsule.is_some() || patch.show_title_in_menu_bar.is_some(),
        needs_reposition: patch.island_offset_x.is_some() || patch.island_offset_y.is_some(),
        trigger_panel_preload: match patch.panel_background_preload {
            Some(v) => v,
            None => false,
        },
    };
    let autostart = match patch.autostart {
        Some(v) => v,
        None => config.autostart,
    };
    let show_capsule = match patch.show_capsule {
        Some(v) => v,
        None => config.show_capsule,
    };
    let show_title_in_menu_bar = match patch.show_title_in_menu_bar {
        Some(v) => v,
        None => config.show_title_in_menu_bar,
    };
    let island_offset_x = match patch.island_offset_x {
        Some(v) => v,
        None => config.island_offset_x,
    };
    let island_offset_y = match patch.island_offset_y {
        Some(v) => if v < 0 {
            0
        } else if v > 120 {
            120
        } else {
            v
        },
        None => config.island_offset_y,
    };
    let capsule_transparency_percent = match patch.capsule_transparency_percent {
        Some(v) => if v > MAX_CAPSULE_TRANSPARENCY_PERCENT {
            MAX_CAPSULE_TRANSPARENCY_PERCENT
        } else {
            v
        },
        None => config.capsule_transparency_percent,
    };
    let quick_add_shortcut = match patch.quick_add_shortcut {
        Some(v) => v,
        None => config.quick_add_shortcut.clone(),
    };
    let display_mode = match patch.display_mode {
        Some(v) => v,
        None => config.display_mode.clone(),
    };
    let panel_background_preload = match patch.panel_background_preload {
        Some(v) => v,
        None => config.panel_background_preload,
    };
    let panel_refresh_interval_secs = match patch.panel_refresh_interval_secs {
        Some(v) => if v < 15 {
            15
        } else if v > 300 {
            300
        } else {
            v
        },
        None => config.panel_refresh_interval_secs,
    };
    *config = AppConfig {
        autostart,
        show_capsule,
        show_title_in_menu_bar,
        island_offset_x,
        island_offset_y,
        panel_pos_x: config.panel_pos_x,
        panel_pos_y: config.panel_pos_y,
        capsule_transparency_percent,
        quick_add_shortcut,
        display_mode,
        panel_background_preload,
        panel_refresh_interval_secs,
    };
    effects
}

/// The island's offsets once it was dragged to (`x`, `y`) with width `width`, on a
/// work area at (`work_x`, `work_y`) of width `work_width`: horizontal offset from
/// the centred position, vertical offset from the top kept within 0..=120.
pub open spec fn island_offsets_spec(x: int, y: int, width: int, work_x: int, work_y: int, work_width: int) -> (
    int,
    int,
) {
    let diff = work_width - width;
    let half = if diff >= 0 {
        diff / 2
    } else {
        -((-diff) / 2)
    };
    (x - (work_x + half), clamp_int(y - work_y, 0, 120))
}

pub fn island_offsets(x: i32, y: i32, width: u32, work_x: i32, work_y: i32, work_width: u32) -> (r: (
    i32,
    i32,
))
    requires
        width <= i32::MAX,
        work_width <= i32::MAX,
        i32::MIN <= island_offsets_spec(x as int, y as int, width as int, work_x as int, work_y as int, work_width as int).0 <= i32::MAX,
        i32::MIN <= work_x as int + (if work_width >= width { (work_width - width) / 2 } else { -((width - work_width) / 2) }) <= i32::MAX,
        i32::MIN <= y - work_y <= i32::MAX,
    ensures
        r.0 == island_offsets_spec(x as int, y as int, width as int, work_x as int, work_y as int, work_width as int).0,
        r.1 == island_offsets_spec(x as int, y as int, width as int, work_x as int, work_y as int, work_width as int).1,
{
    let half: i64 = if work_width >= width {
        ((work_width - width) / 2) as i64
    } else {
        -(((width - work_width) / 2) as i64)
    };
    let center_x = (work_x as i64 + half) as i32;
    let dy = y - work_y;
    let oy = if dy < 0 {
        0
    } else if dy > 120 {
        120
    } else {
        dy
    };
    (x - center_x, oy)
}

/// The pause that postponing the panel preload asks for: 10 seconds by default,
/// within 1 to 60 seconds.
pub fn preload_pause_millis(millis: Option<u64>) -> (r: u64)
    ensures
        r == clamp_int(opt_or(millis, 10_000u64) as int, 1_000, 60_000),
{
    let m = match millis {
        Some(v) => v,
        None => 10_000,
    };
    if m < 1_000 {
        1_000
    } else if m > 60_000 {
        60_000
    } else {
        m
    }
}

/// When background loading of the panel may run: island interaction postpones it,
/// and a resize of the island must have cooled down. Instants are milliseconds of
/// a monotonic clock.
pub struct PreloadGate {
    pub pause_deadline_ms: u64,
    pub last_resize_ms: u64,
}

/// A resize must lie this far back before the panel loads in the background.
pub const ISLAND_RESIZE_COOLDOWN_MS: u64 = 800;

impl PreloadGate {
    pub fn new() -> (r: Self)
        ensures
            r.pause_deadline_ms == 0,
            r.last_resize_ms == 0,
    {
        PreloadGate { pause_deadline_ms: 0, last_resize_ms: 0 }
    }

    /// Pushes the pause to `now + ms` (saturating); an earlier deadline never
    /// replaces a later one.
    pub fn postpone_panel_preload_millis(&mut self, now: u64, ms: u64)
        ensures
            final(self).last_resize_ms == old(self).last_resize_ms,
            final(self).pause_deadline_ms == (if now.saturating_add(ms) <= old(self).pause_deadline_ms {
                old(self).pause_deadline_ms
            } else {
                now.saturating_add(ms)
            }),
    {
        let deadline = now.saturating_add(ms);
        if deadline > self.pause_deadline_ms {
            self.pause_deadline_ms = deadline;
        }
    }

    pub fn is_panel_preload_paused(&self, now: u64) -> (r: bool)
        ensures
            r == (now < self.pause_deadline_ms),
    {
        now < self.pause_deadline_ms
    }

    /// The island was resized at `now`: the preload waits 12 seconds.
    pub fn mark_island_resize_activity(&mut self, now: u64)
        ensures
            final(self).last_resize_ms == now,
            final(self).pause_deadline_ms == (if now.saturating_add(12_000) <= old(self).pause_deadline_ms {
                old(self).pause_deadline_ms
            } else {
                now.saturating_add(12_000)
            }),
    {
        self.last_resize_ms = now;
        self.postpone_panel_preload_millis(now, 12_000);
    }

    pub fn island_resize_cooldown_elapsed(&self, now: u64) -> (r: bool)
        ensures
            r == (now.saturating_sub(self.last_resize_ms) >= ISLAND_RESIZE_COOLDOWN_MS),
    {
        now.saturating_sub(self.last_resize_ms) >= ISLAND_RESIZE_COOLDOWN_MS
    }

    /// The panel may load in the background at `now`.
    pub fn safe_for_panel_preload(&self, now: u64) -> (r: bool)
        ensures
            r == (!(now < self.pause_deadline_ms) && now.saturating_sub(self.last_resize_ms)
                >= ISLAND_RESIZE_COOLDOWN_MS),
    {
        !self.is_panel_preload_paused(now) && self.island_resize_cooldown_elapsed(now)
    }
}

} // verus!
