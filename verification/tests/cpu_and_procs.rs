use asus_tuf_cpu::procfs::{
    avg_freq, cpu_model_from_rows, cpu_topology, fmt_uptime, parse_cpuinfo_model, parse_dimm,
    parse_stat, parse_upower, pid_name, read_kv, reading_u64, total_jiffies,
};
use asus_tuf_cpu::procs::{
    counter_delta, listening_ports, matching_procs, parse_proc_io, parse_proc_stat,
    parse_proc_status, ports_text, proc_row_matches, StatParse,
};

#[test]
fn kv_file_first_matching_key_wins() {
    let t = "# c\nGPU_MODE = integrated \nGPU_MODE=dedicated\nX";
    assert_eq!(read_kv(t, "GPU_MODE"), Some("integrated".to_string()));
    assert_eq!(read_kv(t, "POWER_MODE"), None);
}

#[test]
fn stat_gives_idle_and_total() {
    let t = "cpu  10 0 10 70 10 0 0\ncpu0 5 0 5 35 5\ncpu1 5 0 5 35 5\nintr 1 2\n";
    let (all, per) = parse_stat(t).unwrap();
    assert_eq!(all, (80, 100));
    assert_eq!(per, vec![(40, 50), (40, 50)]);
}

#[test]
fn stat_overflow_is_refused() {
    let t = "cpu 18446744073709551615 1 0 0\n";
    assert_eq!(parse_stat(t), None);
}

#[test]
fn total_jiffies_sums_first_line() {
    assert_eq!(total_jiffies("cpu 1 2 3 x 4\ncpu0 9\n"), Some(10));
    assert_eq!(total_jiffies(""), Some(0));
    assert_eq!(total_jiffies("cpu 18446744073709551615 1\n"), None);
}

#[test]
fn uptime_is_days_hours_minutes_seconds() {
    assert_eq!(fmt_uptime(0), "00:00:00:00");
    assert_eq!(fmt_uptime(90061), "01:01:01:01");
    assert_eq!(fmt_uptime(100 * 86400 + 59), "100:00:00:59");
}

#[test]
fn pid_directory_names() {
    assert!(pid_name("1234"));
    assert!(!pid_name(""));
    assert!(!pid_name("self"));
}

#[test]
fn upower_fields() {
    let t = "  energy-rate:         12.5 W\n  capacity:            91.2%\n  time to empty:       3.1 hours\n";
    assert_eq!(parse_upower(t), ("12.5 W".to_string(), "91.2%".to_string(), "3.1 hours".to_string()));
}

#[test]
fn cpuinfo_model_is_case_insensitive() {
    assert_eq!(parse_cpuinfo_model("processor\t: 0\nMODEL NAME\t: AMD Ryzen 7 4800H\n"), "AMD Ryzen 7 4800H");
    assert_eq!(parse_cpuinfo_model("processor : 0\n"), "");
    let rows = vec![("Model name: X".to_string(), "model name: x".to_string())];
    assert_eq!(cpu_model_from_rows(&rows), "X");
}

#[test]
fn topology_from_lscpu() {
    let out = "Model name:   Ryzen\nSocket(s):  1\nVirtualization: AMD-V\nL1d cache: 256 KiB\nL2 cache: 4 MiB\n";
    let t = cpu_topology("", out);
    assert_eq!(t.model, "Ryzen");
    assert_eq!(t.sockets, "1");
    assert_eq!(t.virt, "AMD-V");
    assert_eq!(t.vm, "No");
    assert_eq!(t.l1, "256 KiB / —");
    assert_eq!(t.l2, "4 MiB");
    assert_eq!(t.l3, "—");
    let t2 = cpu_topology("Known", "Model name: Other\nHypervisor vendor: KVM\n");
    assert_eq!(t2.model, "Known");
    assert_eq!(t2.vm, "Yes");
    assert_eq!(cpu_topology("", "").model, "CPU");
}

#[test]
fn dimm_helper_output() {
    let d = parse_dimm("TYPE=DDR4\nFORM= SODIMM \nSPEED=3200 MT/s\n");
    assert_eq!(d.dimm_type, "DDR4");
    assert_eq!(d.form, "SODIMM");
    assert_eq!(d.speed, "3200 MT/s");
    assert_eq!(d.slots, "—");
}

#[test]
fn sysfs_number_reading() {
    assert_eq!(reading_u64(" 2900000\n"), Some(2900000));
    assert_eq!(reading_u64("n/a"), None);
}

#[test]
fn average_frequency() {
    assert_eq!(avg_freq(&vec![]), None);
    assert_eq!(avg_freq(&vec![2_000_000, 3_000_001]), Some((2_500_000, 2_500)));
}

#[test]
fn proc_stat_name_and_jiffies() {
    let s = "42 (my (odd) prog) S 1 2 3 4 5 6 7 8 9 10 11 12 13 14";
    match parse_proc_stat(s) {
        StatParse::Task { name, jiffies } => {
            assert_eq!(name, "my (odd) prog");
            assert_eq!(jiffies, 11 + 12);
        }
        _ => panic!("expected a task"),
    }
    assert!(matches!(parse_proc_stat("42 no parens"), StatParse::Skip));
}

#[test]
fn proc_status_memory() {
    let t = "Name:\tx\nVmRSS:\t  2048 kB\nVmSwap:\t 0 kB\n";
    assert_eq!(parse_proc_status(t), (2048, 0));
}

#[test]
fn proc_io_bytes() {
    assert_eq!(parse_proc_io("rchar: 5\nread_bytes: 100\nwrite_bytes: 23\n"), Some(123));
}

#[test]
fn ports_per_process() {
    let ss = "tcp LISTEN 0 128 0.0.0.0:22 0.0.0.0:* users:((\"sshd\",pid=700,fd=3))\n\
              tcp LISTEN 0 128 [::]:8080 [::]:* users:((\"node\",pid=900,fd=20),(\"node\",pid=901,fd=20))\n\
              tcp LISTEN 0 128 127.0.0.1:3000 0.0.0.0:* users:((\"node\",pid=900,fd=21))\n\
              tcp LISTEN 0 128 127.0.0.1:80 0.0.0.0:* users:((\"node\",pid=900,fd=22))\n";
    let m = listening_ports(ss);
    assert_eq!(ports_text(&m, 900), "80, 3000, 8080");
    assert_eq!(ports_text(&m, 700), "22");
    assert_eq!(ports_text(&m, 1), "");
}

#[test]
fn counters_grow_from_previous_sample() {
    assert_eq!(counter_delta(10, Some(4)), 6);
    assert_eq!(counter_delta(3, Some(4)), 0);
    assert_eq!(counter_delta(10, None), 0);
}

#[test]
fn process_search() {
    assert!(proc_row_matches("", "x", 1, ""));
    assert!(proc_row_matches("fire", "firefox", 1, ""));
    assert!(proc_row_matches("23", "x", 1234, ""));
    assert!(proc_row_matches("808", "x", 1, "8080"));
    assert!(!proc_row_matches("zz", "x", 1, "8080"));
    let rows = vec![
        ("Firefox".to_string(), 10u32, "".to_string()),
        ("bash".to_string(), 11u32, "".to_string()),
        ("FIREWALLD".to_string(), 12u32, "".to_string()),
        ("fire".to_string(), 13u32, "".to_string()),
    ];
    assert_eq!(matching_procs("fire", &rows, 200), vec![0, 2, 3]);
    assert_eq!(matching_procs("fire", &rows, 2), vec![0, 2]);
    assert_eq!(matching_procs("FiRe", &rows, 200), vec![0, 2, 3]);
}
