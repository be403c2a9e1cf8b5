use asus_tuf_cpu::logs::{
    filter_rows, journal_args, journal_text, log_page, next_offset, page_lines, parse_speed_result,
    parse_speedtest_cli, push_speed_history, search_log, speed_display, history_entry,
    speedtest_report,
};
use asus_tuf_cpu::services::{
    active_state, apply_unit_memory, command_capture, journal_capture, parse_unit_list,
    service_badge, service_key, toggle_action, unit_counts, unit_dot_class, unit_group,
    unit_passes, unit_row_name, units_signature,
};
use asus_tuf_cpu::smart::{dash, health_badge, parse_smart, smart_report_for, smart_temp_row, smart_wear_row, HealthBadge};
use asus_tuf_cpu::ssh::{parse_ssh_hosts, ssh_subtitle, SshHost};

const UNITS: &str = "b.service loaded active running B service\n\
a.service loaded failed failed A service\n\
c.socket loaded inactive dead C socket\n\
short line\n";

#[test]
fn unit_list_and_memory() {
    let mut u = parse_unit_list(UNITS, false);
    assert_eq!(u.len(), 3);
    assert_eq!(u[0].unit, "b.service");
    assert_eq!(u[0].active, "active");
    assert_eq!(u[0].sub, "running");
    assert_eq!(u[0].mem, 0);
    apply_unit_memory(&mut u, "Id=b.service\nMemoryCurrent=4096\n\nId=a.service\nMemoryCurrent=18446744073709551615\n\nId=c.socket\nMemoryCurrent=[not set]\n");
    assert_eq!(u[0].mem, 4096);
    assert_eq!(u[1].mem, 0);
    assert_eq!(u[2].mem, 0);
}

#[test]
fn unit_filters_counts_and_groups() {
    let mut u = parse_unit_list(UNITS, false);
    let mut user = parse_unit_list("z.service loaded active running Z\n", true);
    u.append(&mut user);
    assert_eq!(unit_counts(&u), (4, 2, 1));
    assert!(unit_passes(1, &u[0]));
    assert!(unit_passes(2, &u[1]));
    assert!(unit_passes(0, &u[2]));
    assert_eq!(unit_dot_class(&u[0]), "svc-run");
    assert_eq!(unit_dot_class(&u[1]), "svc-fail");
    assert_eq!(unit_dot_class(&u[2]), "svc-idle");
    assert_eq!(unit_group(&u, false, 0), vec![1, 0, 2]);
    assert_eq!(unit_group(&u, true, 0), vec![3]);
    assert_eq!(unit_group(&u, false, 2), vec![1]);
    assert_eq!(units_signature(1, &u), "f1;b.service:running;z.service:running;");
    assert_eq!(unit_row_name(&u[3]), "U:z.service");
}

#[test]
fn command_texts() {
    assert_eq!(active_state(" active\n"), "active");
    assert_eq!(active_state(""), "inactive");
    assert_eq!(command_capture("out\n", "  \n"), "out");
    assert_eq!(command_capture("out\n", "err\n"), "out\nerr");
    assert_eq!(command_capture("", ""), "(empty)");
    assert_eq!(journal_capture("\n"), "(no log entries yet)");
    assert_eq!(service_key(true, "x.service"), "user:x.service");
    assert_eq!(service_key(false, "x.service"), "sys:x.service");
}

#[test]
fn service_badges_and_toggles() {
    let b = service_badge("active");
    assert_eq!((b.text.as_str(), b.toggle_label.as_str()), ("Active", "Stop"));
    assert_eq!(b.toggle_class, Some("destructive-action".to_string()));
    assert_eq!(service_badge("unknown").toggle_class, None);
    assert_eq!(service_badge("inactive").text, "Off");
    assert_eq!(service_badge("failed").badge_class, "badge-fail");
    assert_eq!(toggle_action(Some("active")), "stop");
    assert_eq!(toggle_action(Some("failed")), "start");
    assert_eq!(toggle_action(None), "start");
}

#[test]
fn smart_report() {
    let r = parse_smart("nvme0n1", "HEALTH=PASSED\nTEMP = 41 \nMODEL=Samsung\nPERCENT_USED=3\nJUNK\n");
    assert_eq!(r.dev, "nvme0n1");
    assert_eq!(r.temp, "41");
    assert_eq!(smart_temp_row(&r), "41°C");
    assert_eq!(smart_wear_row(&r.percent_used), "3%");
    assert_eq!(smart_wear_row("N/A"), "—");
    assert!(health_badge(&r) == HealthBadge::Passed);
    let m = parse_smart("sda", "SMARTCTL_MISSING=1\n");
    assert!(m.smartctl_missing);
    assert_eq!(smart_temp_row(&m), "smartmontools not installed");
    assert!(health_badge(&m) == HealthBadge::NotInstalled);
    assert!(health_badge(&parse_smart("sda", "HEALTH=FAILED!\n")) == HealthBadge::Failed);
    assert_eq!(dash("Unknown"), "—");
    assert_eq!(dash("12"), "12");
    let list = vec![m, r];
    assert_eq!(smart_report_for(&list, "nvme0n1", 0), Some(1));
    assert_eq!(smart_report_for(&list, "sdz", 0), Some(0));
    assert_eq!(smart_report_for(&list, "sdz", 5), None);
}

#[test]
fn ssh_config_hosts() {
    let cfg = "# comment\nHost *\n  User all\nHost web web-alias\n  HostName example.com\n  user deploy\n  Port 2222\n  IdentityFile ~/.ssh/id\nhost box\n  Port 22\nHost https://x\nHOST pi\n  Hostname 10.0.0.2\n";
    let h = parse_ssh_hosts(cfg);
    let aliases: Vec<&str> = h.iter().map(|x| x.alias.as_str()).collect();
    assert_eq!(aliases, vec!["web", "box", "pi"]);
    assert_eq!(h[0].hostname, "example.com");
    assert_eq!(h[0].user, "deploy");
    assert_eq!(h[0].port, "2222");
    assert_eq!(h[0].identity, "~/.ssh/id");
    assert_eq!(ssh_subtitle(&h[0]), "deploy@example.com:2222");
    assert_eq!(ssh_subtitle(&h[1]), "box");
    assert_eq!(ssh_subtitle(&h[2]), "10.0.0.2");
    let bare = SshHost { alias: "a".into(), hostname: "".into(), user: "".into(), port: "2200".into(), identity: "".into() };
    assert_eq!(ssh_subtitle(&bare), "a:2200");
    assert!(parse_ssh_hosts("").is_empty());
}

#[test]
fn journal_command_lines() {
    assert_eq!(
        journal_args(2, 3),
        vec!["journalctl", "--no-pager", "-o", "short-iso", "-n", "500", "-p", "warning", "--since", "7 days ago"]
    );
    assert_eq!(
        journal_args(0, 9),
        vec!["journalctl", "--no-pager", "-o", "short-iso", "-n", "500", "--since", "1 hour ago"]
    );
    assert_eq!(journal_text(" \n"), "(no log entries found)");
    assert_eq!(journal_text("x"), "x");
}

#[test]
fn log_search_and_paging() {
    let t = "Alpha error\nbeta\nGAMMA ERROR\n";
    assert_eq!(search_log(t, ""), t);
    assert_eq!(search_log(t, "Error"), "Alpha error\nGAMMA ERROR");
    let rows = vec![("A".to_string(), "a".to_string()), ("B".to_string(), "b".to_string())];
    assert_eq!(filter_rows(&rows, "b"), "B");
    assert_eq!(log_page("1\n2\n3", 1), "2\n3");
    assert_eq!(log_page("1\n2\n3", 3), "(no more entries)");
    assert_eq!(log_page("1\n2\n3", 0), "1\n2\n3");
    assert_eq!(page_lines("1\n2\n3\n"), 3);
    assert_eq!(next_offset(true, 5, 3), 8);
    assert_eq!(next_offset(false, 5, 3), 3);
}

#[test]
fn speedtest_output() {
    let raw = "Ping: 12.345 ms\nDOWNLOAD: 94.52 Mbit/s\nUpload: 45.23 Mbit/s\n";
    let rep = parse_speedtest_cli(raw);
    assert_eq!(rep, "DOWNLOAD_MBPS=94.52\nUPLOAD_MBPS=45.23\nPING_MS=12.345\n");
    let rows = vec![("Download: 1".to_string(), "download: 1".to_string())];
    assert_eq!(speedtest_report(&rows), "DOWNLOAD_MBPS=1\nUPLOAD_MBPS=\nPING_MS=\n");
    let r = parse_speed_result(&rep);
    assert_eq!((r.download.as_str(), r.upload.as_str(), r.ping.as_str(), r.missing), ("94.52", "45.23", "12.345", false));
    assert!(parse_speed_result("TOOL_MISSING=1\n").missing);
    assert_eq!(speed_display("", "Mbps"), "N/A");
    assert_eq!(speed_display("9.5", "ms"), "9.5 ms");
    assert_eq!(history_entry("10:00:00", "1 Mbps", "2 Mbps", "3 ms"), "[10:00:00]  ↓1 Mbps  ↑2 Mbps  Ping: 3 ms");
}

#[test]
fn speed_history_keeps_five() {
    let mut h: Vec<String> = Vec::new();
    for i in 0..7 {
        push_speed_history(&mut h, i.to_string());
    }
    assert_eq!(h, vec!["2", "3", "4", "5", "6"]);
}

#[test]
fn speed_report_reads_back() {
    let rows = vec![
        ("Download: 1".to_string(), "download: 1".to_string()),
        ("noise".to_string(), "noise".to_string()),
    ];
    let r = parse_speed_result(&speedtest_report(&rows));
    assert_eq!((r.download.as_str(), r.upload.as_str(), r.ping.as_str(), r.missing), ("1", "", "", false));
    let r = parse_speed_result(&parse_speedtest_cli("Upload:\t7.5 Mbit/s\r\nping: 3 ms\n"));
    assert_eq!((r.download.as_str(), r.upload.as_str(), r.ping.as_str(), r.missing), ("", "7.5", "3", false));
}

#[test]
fn speed_history_keeps_all_below_five() {
    let mut h: Vec<String> = Vec::new();
    for i in 0..3 {
        push_speed_history(&mut h, i.to_string());
    }
    assert_eq!(h, vec!["0", "1", "2"]);
}
