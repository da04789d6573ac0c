use lumiere_agent::autostart::{
    autostart_command_line, disable_autostart, enable_autostart, is_autostart_enabled,
    toggle_autostart, AUTOSTART_FLAG, AUTOSTART_VALUE_NAME,
};
use lumiere_agent::signaling::SignalType;

#[test]
fn command_line_quotes_the_executable() {
    assert_eq!(
        autostart_command_line("C:\\Program Files\\Lumiere\\agent.exe"),
        "\"C:\\Program Files\\Lumiere\\agent.exe\" --minimized"
    );
    assert_eq!(AUTOSTART_FLAG, "--minimized");
    assert_eq!(AUTOSTART_VALUE_NAME, "LumiereAgent");
}

#[test]
fn autostart_without_registry() {
    assert!(!is_autostart_enabled());
    assert_eq!(disable_autostart(), Ok(()));
    assert_eq!(enable_autostart(), Err("Autostart is only supported on Windows".to_string()));
    assert_eq!(toggle_autostart(), Err("Autostart is only supported on Windows".to_string()));
}

#[test]
fn signal_classes() {
    assert!(SignalType::Offer.marks_viewer_activity());
    assert!(SignalType::Join.marks_viewer_activity());
    assert!(!SignalType::Chat.marks_viewer_activity());
    assert!(SignalType::FileUploadRequest.is_file_transfer_request());
    assert!(!SignalType::FileData.is_file_transfer_request());
}
