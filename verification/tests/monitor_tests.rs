use sysmon_panel::pages::monitor::{
    cpu_fields, df_is_usable, disk_usage, fan_from_pwm, meminfo_is_usable, memory_from_meminfo,
    verify_string, verify_value, UsageIcon, UsagePage,
};
use sysmon_panel::pages::CommandOutput;

#[test]
fn readings_or_dash() {
    assert_eq!(verify_string(&Some("1.2 GB".to_string())), "1.2 GB");
    assert_eq!(verify_string(&None), "-");
    assert_eq!(verify_value(Some(128)), "128");
    assert_eq!(verify_value(Some(0)), "0");
    assert_eq!(verify_value(None), "-");
}

#[test]
fn icons() {
    assert_eq!(UsageIcon::Cpu.glyph(), '\u{E0A9}');
    assert_eq!(UsageIcon::Memory.glyph(), '\u{E445}');
    assert_eq!(UsageIcon::Disk.glyph(), '\u{E0ED}');
    assert_eq!(UsageIcon::Gpu.glyph(), '\u{E66A}');
    assert_eq!(UsageIcon::Fan.glyph(), '\u{E379}');
    assert_eq!(UsageIcon::Wind.glyph(), '\u{E1B0}');
}

#[test]
fn empty_page_text() {
    let p = UsagePage::new();
    assert_eq!(
        p.display(),
        "\u{E0A9} - % \n\u{E445} - / -\n\u{E0ED} - / -\n\u{E66A} - %\n\u{E379} - %"
    );
    assert_eq!(p.refresh_millis(), 1000);
}

#[test]
fn page_text_with_readings() {
    let mut p = UsagePage::new();
    p.record(
        Some("12.5".to_string()),
        (Some("5.0 GB".to_string()), Some("8.0 GB".to_string())),
        (Some("12.3".to_string()), Some("30.0 GB".to_string())),
        Some(128),
    );
    assert_eq!(
        p.display(),
        "\u{E0A9} 12.5 % \n\u{E445} 5.0 GB / 8.0 GB\n\u{E0ED} 12.3 / 30.0 GB\n\u{E66A} - %\n\u{E379} 128 %"
    );
}

#[test]
fn fan_levels() {
    assert_eq!(fan_from_pwm("128\n"), Some(128));
    assert_eq!(fan_from_pwm("  0 "), Some(0));
    assert_eq!(fan_from_pwm("255"), Some(255));
    assert_eq!(fan_from_pwm("256\n"), None);
    assert_eq!(fan_from_pwm("abc"), None);
    assert_eq!(fan_from_pwm(""), None);
    assert_eq!(fan_from_pwm("-5"), None);
}

const MEMINFO: &str = "MemTotal:        8000000 kB\nMemFree:         1000000 kB\nMemAvailable:    3000000 kB\nBuffers: 1 kB\n";

#[test]
fn memory_readings() {
    assert!(meminfo_is_usable(MEMINFO));
    let (used, total) = memory_from_meminfo(MEMINFO);
    assert_eq!(used.as_deref(), Some("5.0 GB"));
    assert_eq!(total.as_deref(), Some("8.0 GB"));
}

#[test]
fn memory_small_values() {
    let text = "MemTotal: 0 kB\nMemFree: 0 kB\nMemAvailable: 0 kB\n";
    assert!(meminfo_is_usable(text));
    let (used, total) = memory_from_meminfo(text);
    assert_eq!(used.as_deref(), Some("0 B"));
    assert_eq!(total.as_deref(), Some("0 B"));
    // an unparsable number counts as 0
    let text = "MemTotal: x kB\nMemFree: 0 kB\nMemAvailable: y kB\n";
    assert!(meminfo_is_usable(text));
    assert_eq!(memory_from_meminfo(text).1.as_deref(), Some("0 B"));
}

#[test]
fn memory_unusable() {
    assert!(!meminfo_is_usable(""));
    assert!(!meminfo_is_usable("MemTotal:\nMemFree: 1\nMemAvailable: 1\n"));
    assert!(!meminfo_is_usable("MemTotal: 1 kB\nMemFree: 1 kB\n"));
    assert!(!meminfo_is_usable("MemTotal: 1 kB\nMemFree: 1 kB\nMemAvailable: 2 kB\n"));
    assert!(!meminfo_is_usable("MemTotal: 18446744073709552 kB\nx 0\nMemAvailable: 0 kB\n"));
}

const DF: &str = "Filesystem     1K-blocks     Used Available Use% Mounted on\n/dev/root       30000000 12345678  17654322  42% /\n";

#[test]
fn disk_readings() {
    let out = Some(CommandOutput { success: true, stdout: DF.to_string() });
    assert!(df_is_usable(DF));
    let (used, total) = disk_usage(&out);
    assert_eq!(used.as_deref(), Some("12.3"));
    assert_eq!(total.as_deref(), Some("30.0 GB"));
}

#[test]
fn disk_without_data_line() {
    let out = Some(CommandOutput { success: false, stdout: String::new() });
    let (used, total) = disk_usage(&out);
    assert_eq!(used.as_deref(), Some("0"));
    assert_eq!(total.as_deref(), Some("0 B"));
    assert_eq!(disk_usage(&None), (None, None));
    assert!(!df_is_usable("h\nfs 18446744073709552 0\n"));
}

const TOP: &str = "top - 10:00:00 up 1 day\nTasks: 100 total\n%Cpu(s):  2.0 us,  1.0 sy,  0.5 ni, 96.5 id\nMiB Mem : 7800.0 total\n";

#[test]
fn cpu_line_fields() {
    let out = Some(CommandOutput { success: true, stdout: TOP.to_string() });
    let fs = cpu_fields(&out).unwrap();
    assert_eq!(fs[0], "%Cpu(s):");
    assert_eq!(fs[1], "2.0");
    assert_eq!(fs[3], "1.0");
    assert_eq!(fs[5], "0.5");
    let none = Some(CommandOutput { success: true, stdout: "no load here\n".to_string() });
    assert_eq!(cpu_fields(&none), None);
    assert_eq!(cpu_fields(&None), None);
}

#[test]
fn usage_page_has_five_icon_lines() {
    let mut p = UsagePage::new();
    p.record(
        Some("3.5".to_string()),
        (Some("1.0 GB".to_string()), None),
        (None, Some("30.0 GB".to_string())),
        None,
    );
    let text = p.display();
    let lines: Vec<&str> = text.split('\n').collect();
    assert_eq!(lines.len(), 5);
    let icons = ['\u{E0A9}', '\u{E445}', '\u{E0ED}', '\u{E66A}', '\u{E379}'];
    for (line, icon) in lines.iter().zip(icons) {
        let mut cs = line.chars();
        assert_eq!(cs.next(), Some(icon));
        assert_eq!(cs.next(), Some(' '));
    }
    assert!(lines[1].contains(" / ") && lines[2].contains(" / "));
    assert!(lines[0].ends_with("% ") && lines[3].ends_with('%') && lines[4].ends_with('%'));
}

#[test]
fn record_replaces_readings() {
    let mut p = UsagePage::new();
    p.gpu = Some("7".to_string());
    p.record(Some("1".to_string()), (None, None), (None, None), Some(3));
    p.record(Some("1".to_string()), (None, None), (None, None), Some(3));
    assert_eq!(p.cpu.as_deref(), Some("1"));
    assert_eq!(p.fan, Some(3));
    assert_eq!(p.gpu.as_deref(), Some("7"));
    assert_eq!(p.memory_used, None);
}

#[test]
fn disk_reading_of_large_used_space() {
    let df = "h\n/dev/root 999999999 999999 1 1% /\n";
    let out = Some(CommandOutput { success: true, stdout: df.to_string() });
    let (used, total) = disk_usage(&out);
    let used = used.unwrap();
    assert!(!used.is_empty());
    assert!(used.chars().all(|c| c.is_ascii_digit() || c == '.'));
    assert!(total.unwrap().ends_with('B'));
}
