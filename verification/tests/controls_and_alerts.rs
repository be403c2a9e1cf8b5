use asus_tuf_cpu::controls::cpu_monitor_text;
use asus_tuf_cpu::alerts::{disk_alert_key, disk_alert_label, disk_temp_digits, gpu_alert_key, AlertCooldown, ALERT_COOLDOWN_MS};
use asus_tuf_cpu::colors::{hex_rgb_conf, hex_rgb_upper, parse_hex_color};
use asus_tuf_cpu::commands::{
    detail_action_argv, fan_policy_arg, gpu_mode_arg, kill_argv, mouse_led_argv, mouse_setting_argv,
    notify_argv, power_mode_script, rgb_apply_argv, script_candidates, script_choice,
    ssh_connect_argv, svc_action_argv, threshold_arg,
};
use asus_tuf_cpu::controls::{
    dynamic_signature, fan_policy_choice, gpu_mode_choice, hardware_pages, mouse_conf, mouse_led_conf,
    mouse_led_mode_name, mouse_status_text, polling_label, power_mode_index, resolve_pending,
    resolve_pending_rgb, rgb_conf, rgb_mode_name, sidebar_section, threshold_switch_on,
    u32_or_default, Pending,
};
use asus_tuf_cpu::netinfo::{classify_iface, has_tailscale, iface_listed, lspci_device, net_bus, net_signature, net_status, parse_ip_addrs, parse_tailscale_status, parse_wifi_link, pci_slot, peer_signature, peer_subtitle, peer_title, sort_ifaces};
use asus_tuf_cpu::sampler::{boost_text, capitalize_first, join_head, power_mode_fallback, tick_plan, Collect};

#[test]
fn alert_cooldown_scenario() {
    let mut g = AlertCooldown::new();
    assert!(g.offer("cpu", 1_000));
    assert!(!g.offer("cpu", 1_000 + ALERT_COOLDOWN_MS - 1));
    assert!(g.offer("gpu:0000:01:00.0", 2_000));
    assert!(g.offer("cpu", 1_000 + ALERT_COOLDOWN_MS));
    let keys = vec!["disk:sda".to_string(), "disk:sda".to_string(), "cpu".to_string()];
    assert_eq!(g.offer_all(&keys, 5_000_000), vec![true, false, true]);
    assert!(!g.offer("disk:sda", 4_000_000));
}

#[test]
fn alert_sources() {
    assert_eq!(gpu_alert_key("0000:01:00.0"), "gpu:0000:01:00.0");
    assert_eq!(disk_alert_key("sda"), "disk:sda");
    assert_eq!(disk_alert_label("", "sda"), "sda");
    assert_eq!(disk_alert_label("Samsung", "sda"), "Samsung");
    assert_eq!(disk_temp_digits(" 71°C°C"), "71");
}

#[test]
fn hex_colours() {
    assert_eq!(parse_hex_color("0x00c8ff"), Some((0, 200, 255)));
    assert_eq!(parse_hex_color("#FF8000"), Some((255, 128, 0)));
    assert_eq!(parse_hex_color("0x0x#12zz34"), Some((0x12, 200, 0x34)));
    assert_eq!(parse_hex_color("abc"), Some((0, 200, 255)));
    assert_eq!(parse_hex_color("+f+f+f"), Some((15, 15, 15)));
    assert_eq!(parse_hex_color("aé1234"), None);
    assert_eq!(parse_hex_color("é1234"), Some((0, 0x12, 0x34)));
    for (r, g, b) in [(0u8, 0u8, 0u8), (1, 2, 3), (255, 254, 16)] {
        let s = hex_rgb_conf(r, g, b);
        assert_eq!(s, format!("0x{:02x}{:02x}{:02x}", r, g, b));
        assert_eq!(parse_hex_color(&s), Some((r, g, b)));
        assert_eq!(hex_rgb_upper(r, g, b), format!("{:02X}{:02X}{:02X}", r, g, b));
    }
}

#[test]
fn mode_groups() {
    assert_eq!(gpu_mode_choice("integrated").0, 1);
    assert_eq!(gpu_mode_choice("2").0, 2);
    assert_eq!(gpu_mode_choice("hybrid"), (0, "Mode: Hybrid Optimus (On-Demand)"));
    assert_eq!(power_mode_index("powersave"), 0);
    assert_eq!(power_mode_index("performance"), 1);
    assert_eq!(power_mode_index("auto"), 2);
    assert_eq!(fan_policy_choice("2"), (0, "Silent (Low speed)"));
    assert_eq!(fan_policy_choice("1").0, 2);
    assert_eq!(fan_policy_choice("0").0, 1);
    for i in 0..3 {
        assert_eq!(gpu_mode_choice(gpu_mode_arg(i)).0, i);
        assert_eq!(fan_policy_choice(fan_policy_arg(i)).0, i);
    }
    assert_eq!(power_mode_script(1), "battery-on-ac.sh");
    assert!(threshold_switch_on(threshold_arg(true)));
    assert!(!threshold_switch_on(threshold_arg(false)));
    assert_eq!(rgb_mode_name("10"), "Pulse");
    assert_eq!(rgb_mode_name("7"), "Static");
    assert_eq!(mouse_led_mode_name(0), "Disabled (Off)");
    assert_eq!(mouse_led_mode_name(2), "Static Color");
    assert_eq!(sidebar_section("speedtest"), "Monitoring");
    assert_eq!(sidebar_section("rgb"), "Control & System");
    assert_eq!(hardware_pages(true, false, true, false, true), vec!["gpu", "net", "bat"]);
    assert_eq!(dynamic_signature("g", "", "n", "d", "b"), "g##n#d#b");
}

#[test]
fn mouse_settings() {
    assert_eq!(mouse_status_text("DisCharging"), "Connected (Active)");
    assert_eq!(mouse_status_text("Unknown"), "Standby / Sleep");
    assert_eq!(polling_label(1000), "1ms Peak");
    assert_eq!(polling_label(125), "Battery Saver");
    assert_eq!(resolve_pending(500, Some(Pending { value: 1000, age_secs: 2 })), (1000, true));
    assert_eq!(resolve_pending(500, Some(Pending { value: 1000, age_secs: 6 })), (500, false));
    assert_eq!(resolve_pending(1000, Some(Pending { value: 1000, age_secs: 1 })), (1000, false));
    assert_eq!(resolve_pending(500, None), (500, false));
    assert_eq!(resolve_pending_rgb((1, 2, 3), Some(Pending { value: (1, 2, 4), age_secs: 0 })), ((1, 2, 4), true));
    let c = mouse_conf(Some("HZ=500\nONBOARD=on\nBATTERY=70\n"));
    assert_eq!(c.hz, "500");
    assert_eq!(c.dpi, "1600");
    assert!(c.onboard);
    assert_eq!(c.battery, Some("70".to_string()));
    let d = mouse_conf(None);
    assert_eq!(d.led_color, "0x00c8ff");
    assert!(!d.onboard);
    assert_eq!(d.battery, None);
    let led = mouse_led_conf(Some("LED_MODE=x\nLED_COLOR=#102030\nLED_PERIOD=1500\n")).unwrap();
    assert_eq!((led.mode, led.rgb, led.period_ms, led.intensity), (1, (0x10, 0x20, 0x30), 1500, 100));
    assert!(mouse_led_conf(Some("LED_COLOR=aé1234\n")).is_none());
    assert_eq!(u32_or_default("abc", 7), 7);
    let r = rgb_conf(Some("MODE=2\nRED=300\nGREEN=10\n"));
    assert_eq!((r.mode.as_str(), r.r, r.g, r.b, r.speed.as_str(), r.brightness), ("2", 0, 10, 255, "1", 3));
}

#[test]
fn command_lines() {
    assert_eq!(svc_action_argv("start", "a.service", true), vec!["systemctl", "--user", "start", "a.service"]);
    assert_eq!(svc_action_argv("stop", "b.service", false), vec!["pkexec", "systemctl", "stop", "b.service"]);
    assert_eq!(detail_action_argv(false, "restart", "b"), (true, vec!["systemctl".to_string(), "restart".to_string(), "b".to_string()]));
    assert_eq!(detail_action_argv(true, "start", "a").0, false);
    assert_eq!(ssh_connect_argv("web"), vec!["ghostty", "-e", "ssh", "web"]);
    assert_eq!(kill_argv(42, true), vec!["kill", "-9", "42"]);
    assert_eq!(kill_argv(42, false), vec!["kill", "42"]);
    assert_eq!(notify_argv("T", "B").len(), 9);
    assert_eq!(script_candidates(Some("/home/u"), "x.sh"), vec!["/usr/libexec/asus-power-manager/scripts/x.sh", "/home/u/bin/x.sh"]);
    assert_eq!(script_candidates(None, "x.sh")[1], "/root/bin/x.sh");
    let c = vec![("/a/x.sh".to_string(), false), ("/b/x.sh".to_string(), true)];
    assert_eq!(script_choice("x.sh", &c), "/b/x.sh");
    assert_eq!(script_choice("x.sh", &vec![]), "x.sh");
    let r = rgb_conf(None);
    assert_eq!(rgb_apply_argv("s", &r), vec!["s", "0", "0", "200", "255", "1", "3"]);
    let led = mouse_led_conf(None).unwrap();
    assert_eq!(mouse_led_argv("m", &led), vec!["m", "led", "1", "0x00c8ff", "3000", "100"]);
    assert_eq!(mouse_setting_argv("m", "hz", "500"), vec!["m", "hz", "500"]);
}

#[test]
fn sampler_ticks() {
    let p = tick_plan(0, true, "apps", false);
    assert!(p.heavy);
    assert!(p.procs == Collect::Sample);
    assert!(p.units == Collect::Release);
    assert!(!p.smart);
    let q = tick_plan(1, false, "", false);
    assert!(q.procs == Collect::Keep);
    assert!(q.units == Collect::Sample);
    let r = tick_plan(2, true, "drive", true);
    assert!(r.smart);
    assert!(r.procs == Collect::Release);
    assert_eq!(boost_text(Some("1")), "Active");
    assert_eq!(boost_text(Some("0")), "Inactive");
    assert_eq!(boost_text(None), "Inactive");
    assert_eq!(power_mode_fallback("powersave", Some("0")), "powersave");
    assert_eq!(power_mode_fallback("powersave", None), "auto");
    assert_eq!(power_mode_fallback("performance", None), "performance");
    assert_eq!(capitalize_first("balanced"), "Balanced");
    assert_eq!(capitalize_first("ßx"), "SSx");
    assert_eq!(capitalize_first(""), "");
    assert_eq!(join_head("active", &['A']), "Active");
}

#[test]
fn network_interfaces() {
    assert!(!iface_listed("lo"));
    assert!(!iface_listed("veth12"));
    assert!(iface_listed("wlan0"));
    let mut v = vec![
        classify_iface("zt0", false, false),
        classify_iface("wlan0", true, true),
        classify_iface("eth1", false, true),
        classify_iface("eth0", false, true),
    ];
    sort_ifaces(&mut v);
    let order: Vec<&str> = v.iter().map(|e| e.iface.as_str()).collect();
    assert_eq!(order, vec!["eth0", "eth1", "wlan0", "zt0"]);
    assert_eq!(v[3].kind, "Other");
    assert_eq!(net_status("unknown", 0, 5), "Connected");
    assert_eq!(net_status("unknown", 0, 0), "Unknown");
    assert_eq!(net_status("dormant", 0, 0), "dormant");
    assert_eq!(net_status("", 0, 0), "—");
    assert_eq!(net_signature(&vec!["eth0".to_string(), "wlan0".to_string()]), "eth0;wlan0;");
    assert_eq!(pci_slot("0000:03:00.0"), "03:00.0");
    assert_eq!(lspci_device("03:00.0 \"Network controller\" \"Intel\" \" Wi-Fi 6 AX200 \" -r1a"), "Wi-Fi 6 AX200");
    assert_eq!(net_bus("0000:0a:00.0"), "0000:0A:00.0");
    assert!(has_tailscale(&vec!["eth0".to_string(), "tailscale0".to_string()]));
    assert!(!has_tailscale(&vec!["eth0".to_string()]));
}

#[test]
fn network_details() {
    let ip = "2: wlan0    inet 192.168.1.5/24 brd 192.168.1.255 scope global wlan0\n2: wlan0    inet6 fe80::1/64 scope link\n2: wlan0    inet6 2001:db8::5/64 scope global\n";
    assert_eq!(parse_ip_addrs(ip), ("192.168.1.5".to_string(), "2001:db8::5".to_string()));
    let w = parse_wifi_link("Connected to aa:bb\n\tSSID: home\n\tfreq: 5180.0\n\tsignal: -50 dBm\n");
    assert_eq!(w.ssid, "home");
    assert_eq!(w.signal, "-50 dBm");
    assert_eq!(w.freq_mhz, vec!["5180".to_string()]);
}

#[test]
fn tailnet_devices() {
    let out = "100.64.0.1   laptop   me@   linux   -\n100.64.0.3   zed   me@   windows   offline\n100.64.0.2   alpha   me@   android   active; direct\n# note\n";
    let (running, peers) = parse_tailscale_status(true, out);
    assert!(running);
    let names: Vec<&str> = peers.iter().map(|p| p.name.as_str()).collect();
    assert_eq!(names, vec!["laptop", "alpha", "zed"]);
    assert!(peers[0].is_self);
    assert!(!peers[2].online);
    assert_eq!(peer_title(&peers[0]), "laptop (this device)");
    assert_eq!(peer_subtitle(&peers[1]), "100.64.0.2 • android");
    assert_eq!(peer_signature(&peers), "laptop|100.64.0.1|1;alpha|100.64.0.2|1;zed|100.64.0.3|0;");
    let (stopped, _) = parse_tailscale_status(false, "Tailscale is stopped.\n");
    assert!(!stopped);
}

#[test]
fn tailnet_first_data_row_is_self() {
    let out = "# warn\n100.64.0.1 me u@ linux -\n100.64.0.3 offline-nas u@ linux active\n100.64.0.4 box u@ linux idle; offline, last seen 2h ago\n";
    let (running, peers) = parse_tailscale_status(true, out);
    assert!(running);
    let names: Vec<&str> = peers.iter().map(|p| p.name.as_str()).collect();
    assert_eq!(names, vec!["me", "offline-nas", "box"]);
    assert!(peers[0].is_self && peers[0].online);
    assert!(!peers[1].is_self && peers[1].online);
    assert!(!peers[2].is_self && !peers[2].online);
}

#[test]
fn cpu_monitor_row() {
    assert_eq!(
        cpu_monitor_text("powersave", 2400, "Active", "balanced"),
        "Governor: POWERSAVE @ 2400 MHz | Turbo: Active | Profile: balanced"
    );
}
