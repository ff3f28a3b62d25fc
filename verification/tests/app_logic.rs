use portify::desktop::{kill_mode, parse_protocol, Settings, DEFAULT_SHORTCUT};
use portify::{KillMode, Protocol};

#[test]
fn protocol_strings_map_to_the_core_enum() {
    assert_eq!(parse_protocol(Some("tcp".into())), Some(Protocol::Tcp));
    assert_eq!(parse_protocol(Some("udp".into())), Some(Protocol::Udp));
}

#[test]
fn an_unknown_protocol_widens_rather_than_fails() {
    assert_eq!(parse_protocol(None), None);
    assert_eq!(parse_protocol(Some("sctp".into())), None);
    assert_eq!(parse_protocol(Some("TCP".into())), None);
}

#[test]
fn force_selects_the_hard_kill() {
    assert_eq!(kill_mode(true), KillMode::Force);
    assert_eq!(kill_mode(false), KillMode::Graceful);
}

#[test]
fn defaults_are_conservative() {
    let settings = Settings::default();
    assert!(settings.confirm_before_kill, "killing must be deliberate");
    assert!(!settings.hide_on_blur);
    assert_eq!(settings.refresh_interval_secs, 5);
}

#[test]
fn the_default_hotkey_avoids_the_editor_command_palette() {
    assert_eq!(Settings::default().shortcut, DEFAULT_SHORTCUT);
    assert!(!DEFAULT_SHORTCUT.contains("Shift"));
}

#[test]
fn absurd_intervals_are_clamped() {
    let settings = Settings {
        refresh_interval_secs: 999_999,
        ..Settings::default()
    }
    .sanitised();
    assert_eq!(settings.refresh_interval_secs, 3600);
}
