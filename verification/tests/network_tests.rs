use sysmon_panel::pages::network::{
    addresses_from_interfaces, has_listed_address, ipv4_to_string, network_display_text,
    network_status, signal_bars, signal_from_iwconfig, ssid_from_nmcli, status_lines,
    InterfaceAddress,
};
use sysmon_panel::pages::CommandOutput;

fn out(success: bool, s: &str) -> Option<CommandOutput> {
    Some(CommandOutput { success, stdout: s.to_string() })
}

fn iface(name: &str, ip: Option<[u8; 4]>) -> InterfaceAddress {
    InterfaceAddress { name: name.to_string(), ipv4: ip }
}

#[test]
fn dotted_addresses() {
    assert_eq!(ipv4_to_string([192, 168, 1, 20]), "192.168.1.20");
    assert_eq!(ipv4_to_string([0, 0, 0, 0]), "0.0.0.0");
    assert_eq!(ipv4_to_string([255, 255, 255, 255]), "255.255.255.255");
}

#[test]
fn listed_addresses() {
    let ifs = vec![
        iface("lo", Some([127, 0, 0, 1])),
        iface("lo", None),
        iface("eth0", Some([10, 0, 0, 2])),
        iface("wlan0", None),
        iface("wlan0", Some([192, 168, 1, 20])),
    ];
    assert!(has_listed_address(&ifs));
    let a = addresses_from_interfaces(&ifs);
    assert_eq!(a, vec![("wlan0".to_string(), "192.168.1.20".to_string())]);
    let only_first = vec![iface("lo", Some([127, 0, 0, 1])), iface("eth0", None)];
    assert!(!has_listed_address(&only_first));
    assert!(!has_listed_address(&vec![]));
}

#[test]
fn page_text() {
    let a = vec![
        ("wlan0".to_string(), "192.168.1.20".to_string()),
        ("lo".to_string(), "127.0.0.1".to_string()),
    ];
    assert_eq!(
        network_display_text(&a, "home: ^ -45"),
        "IP Addresses: \nwla: 192.168.1.20\nlo: 127.0.0.1\nhome: ^ -45"
    );
    assert_eq!(network_display_text(&vec![], "x"), "IP Addresses: \nx");
}

#[test]
fn ssid() {
    let s: String = ssid_from_nmcli(&out(true, "no:other\nyes:home\nno:x\n")).into_iter().collect();
    assert_eq!(s, "home");
    let s: String = ssid_from_nmcli(&out(true, "yes:a\nyes:b:yes:c\n")).into_iter().collect();
    assert_eq!(s, "b:c");
    let s: String = ssid_from_nmcli(&out(false, "yes:home\n")).into_iter().collect();
    assert_eq!(s, "");
    assert!(ssid_from_nmcli(&None).is_empty());
}

const IWCONFIG: &str = "wlan0     IEEE 802.11  ESSID:\"home\"\n          Link Quality=70/70  Signal level=-45 dBm  \n";

#[test]
fn signal() {
    assert_eq!(signal_from_iwconfig(&out(true, IWCONFIG)), -45);
    assert_eq!(signal_from_iwconfig(&out(true, "no wireless\n")), -100);
    assert_eq!(signal_from_iwconfig(&out(true, "Signal level=-30 dBm\n")), -100);
    assert_eq!(signal_from_iwconfig(&out(true, "a=b Signal level=x dBm\n")), -100);
    assert_eq!(signal_from_iwconfig(&None), -100);
}

#[test]
fn bars() {
    assert_eq!(signal_bars(-45), "█████");
    assert_eq!(signal_bars(-50), "█████");
    assert_eq!(signal_bars(-55), "████░");
    assert_eq!(signal_bars(-65), "███░░");
    assert_eq!(signal_bars(-75), "██░░░");
    assert_eq!(signal_bars(-90), "█░░░░");
    assert_eq!(signal_bars(-100), "░░░░░");
}

#[test]
fn status() {
    let ssid: Vec<char> = "home".chars().collect();
    let (long, short) = status_lines(true, &ssid, -45);
    assert_eq!(long, format!("[{}] SSID: {:20} | {} | Signal: {} dBm", "🟢 ↑", "home", "Online", "█████"));
    assert_eq!(short, "home: ^ -45");
    let (long, short) = status_lines(false, &vec![], -100);
    assert_eq!(long, format!("[{}] SSID: {:20} | {} | Signal: {} dBm", "🔴 ↓", "", "Offline", "░░░░░"));
    assert_eq!(short, ": - -100");
}

#[test]
fn status_from_commands() {
    let (long, short) = network_status(Some(true), &out(true, "yes:home\n"), &out(true, IWCONFIG));
    assert_eq!(long, format!("[🟢 ↑] SSID: {:20} | Online | Signal: █████ dBm", "home"));
    assert_eq!(short, "home: ^ -45");
    let (_, short) = network_status(Some(false), &None, &None);
    assert_eq!(short, ": - -100");
    let (_, short) = network_status(None, &None, &None);
    assert_eq!(short, ": - -100");
}

#[test]
fn dotted_addresses_parse_back() {
    for o in [[192u8, 168, 1, 20], [0, 0, 0, 0], [10, 0, 0, 255], [255, 255, 255, 255]] {
        let text = ipv4_to_string(o);
        let fields: Vec<&str> = text.split('.').collect();
        assert_eq!(fields.len(), 4);
        for (f, b) in fields.iter().zip(o) {
            assert_eq!(f.parse::<u8>(), Ok(b));
            assert!(f.len() == 1 || !f.starts_with('0'));
        }
    }
}
