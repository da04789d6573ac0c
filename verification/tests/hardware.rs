use lumiere_agent::hardware::{
    choose_hardware_serial, hardware_serial_from_probes, hostname_fallback, parse_keyed_output,
    sanitize,
};

#[test]
fn sanitize_rejects_firmware_placeholders() {
    assert_eq!(sanitize("  ABC123 \r".to_string()).as_deref(), Some("ABC123"));
    assert_eq!(sanitize("To Be Filled By O.E.M.".to_string()), None);
    assert_eq!(sanitize("to be filled by oem".to_string()), None);
    assert_eq!(sanitize("Default String".to_string()), None);
    assert_eq!(sanitize("System Serial Number".to_string()), None);
    assert_eq!(sanitize(" NONE ".to_string()), None);
    assert_eq!(sanitize("0".to_string()), None);
    assert_eq!(sanitize("   ".to_string()), None);
    assert_eq!(sanitize("00".to_string()).as_deref(), Some("00"));
}

#[test]
fn keyed_output_takes_first_value_after_header() {
    let out = "SerialNumber  \r\r\n\r\nPF2ABCDE  \r\n\r\n";
    assert_eq!(parse_keyed_output(out, "SerialNumber").as_deref(), Some("PF2ABCDE"));
    let lower = "serialnumber\nXYZ\n";
    assert_eq!(parse_keyed_output(lower, "SerialNumber").as_deref(), Some("XYZ"));
}

#[test]
fn keyed_output_skips_placeholders_and_needs_header() {
    let out = "SerialNumber\nTo be filled by O.E.M.\nREAL-1\n";
    assert_eq!(parse_keyed_output(out, "SerialNumber").as_deref(), Some("REAL-1"));
    assert_eq!(parse_keyed_output("REAL-1\n", "SerialNumber"), None);
    assert_eq!(parse_keyed_output("SerialNumber\n0\n", "SerialNumber"), None);
}

#[test]
fn serial_prefers_wmic_then_powershell_then_host() {
    let wmic = Some("SerialNumber\nW-1\n");
    assert_eq!(choose_hardware_serial(wmic, Some("P-1"), Some("host".into())), "W-1");
    assert_eq!(choose_hardware_serial(Some("SerialNumber\n\n"), Some(" P-1 \n"), None), "P-1");
    assert_eq!(choose_hardware_serial(None, Some("Default string"), Some("host".into())), "host");
    assert_eq!(choose_hardware_serial(None, None, None), "unknown");
}

#[test]
fn serial_from_probes_uses_wmic_value() {
    assert_eq!(hardware_serial_from_probes(Some("SerialNumber\nABC\n"), None), "ABC");
    assert!(!hardware_serial_from_probes(None, None).is_empty());
    assert!(!hostname_fallback().is_empty());
}

#[test]
fn host_or_unknown_falls_back() {
    assert_eq!(lumiere_agent::hardware::host_or_unknown(Some("pc-42".to_owned())), "pc-42");
    assert_eq!(lumiere_agent::hardware::host_or_unknown(None), "unknown");
}
