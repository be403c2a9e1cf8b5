use asus_tuf_cpu::blockdev::partition_subtitle;
use asus_tuf_cpu::blockdev::{
    apply_part_usage, disk_delta, disk_totals, diskstats_for, drive_signature, enumerate_drives,
    inherit_part_used, lsblk_kv, lsblk_usage, parse_diskstats, root_mount_source, DiskCounters,
    PartRecord,
};
use asus_tuf_cpu::gpu::{
    amd_pcie, card_name, dpm_levels, drm_cards, drm_gpu, drm_gpu_with_bus, gpu_signature,
    nv_sample_for, nvidia_gpu_list, nvidia_gpu_rows, nvidia_telemetry_fields, parse_nvidia_samples,
    sort_gpus, vram_text,
};
use asus_tuf_cpu::hwmon::{cpu_sensor_index, fan_entry, fan_inputs, fan_signature, is_cpu_sensor};
use asus_tuf_cpu::lists::{carry_over_plan, push_history};
use asus_tuf_cpu::power::{
    ac_online_from, bat_signature, battery_entry, battery_state, first_battery, level_percent,
    sort_bats, technology_name,
};
use std::collections::VecDeque;

const LSBLK: &str = "NAME=\"sda\" TYPE=\"disk\" MODEL=\"WDC Disk  \" SERIAL=\"S1\" WWN=\"w\" ROTA=\"1\" SIZE=\"1000\" FSTYPE=\"\" MOUNTPOINT=\"\" FSUSED=\"\"\n\
NAME=\"sda1\" TYPE=\"part\" MODEL=\"\" SERIAL=\"\" WWN=\"\" ROTA=\"1\" SIZE=\"600\" FSTYPE=\"ext4\" MOUNTPOINT=\"/data\" FSUSED=\"100\"\n\
NAME=\"nvme0n1\" TYPE=\"disk\" MODEL=\"Samsung\" SERIAL=\"S2\" WWN=\"\" ROTA=\"0\" SIZE=\"2000\" FSTYPE=\"\" MOUNTPOINT=\"\" FSUSED=\"\"\n\
NAME=\"nvme0n1p1\" TYPE=\"part\" MODEL=\"\" SERIAL=\"\" WWN=\"\" ROTA=\"0\" SIZE=\"500\" FSTYPE=\"vfat\" MOUNTPOINT=\"/boot\" FSUSED=\"50\"\n\
NAME=\"nvme0n1p2\" TYPE=\"part\" MODEL=\"\" SERIAL=\"\" WWN=\"\" ROTA=\"0\" SIZE=\"1500\" FSTYPE=\"btrfs\" MOUNTPOINT=\"/\" FSUSED=\"\"\n\
NAME=\"zram0\" TYPE=\"disk\" MODEL=\"\" SERIAL=\"\" WWN=\"\" ROTA=\"0\" SIZE=\"8\" FSTYPE=\"\" MOUNTPOINT=\"\" FSUSED=\"\"\n";

#[test]
fn lsblk_pairs_in_order() {
    let kv = lsblk_kv("NAME=\"sda\" TYPE=\"disk\" MODEL=\"A B\"");
    assert_eq!(
        kv,
        vec![
            ("NAME".to_string(), "sda".to_string()),
            ("TYPE".to_string(), "disk".to_string()),
            ("MODEL".to_string(), "A B".to_string())
        ]
    );
    assert!(lsblk_kv("NAME=sda").is_empty());
}

#[test]
fn drives_are_physical_and_sorted() {
    let ds = enumerate_drives(LSBLK, "nvme0n1").unwrap();
    assert_eq!(ds.len(), 2);
    assert_eq!(ds[0].dev, "nvme0n1");
    assert_eq!(ds[0].kind, "NVMe");
    assert!(ds[0].is_system);
    assert_eq!(ds[0].formatted, 2000);
    assert_eq!(ds[0].partitions.len(), 2);
    assert_eq!(ds[1].dev, "sda");
    assert_eq!(ds[1].kind, "HDD");
    assert_eq!(ds[1].model, "WDC Disk");
    assert!(!ds[1].is_system);
    assert_eq!(ds[1].partitions[0].used, 100);
    assert_eq!(drive_signature(&ds), "nvme0n1|nvme0n1p1,nvme0n1p2,;sda|sda1,;");
}

#[test]
fn drive_signature_ignores_usage() {
    let mut a = enumerate_drives(LSBLK, "").unwrap();
    let before = drive_signature(&a);
    a[0].partitions[0].used = 12345;
    a[1].capacity = 1;
    assert_eq!(drive_signature(&a), before);
}

#[test]
fn partition_sizes_past_u64_are_refused() {
    let t = "NAME=\"sda\" TYPE=\"disk\" SIZE=\"1\"\nNAME=\"sda1\" TYPE=\"part\" SIZE=\"18446744073709551615\"\nNAME=\"sda2\" TYPE=\"part\" SIZE=\"1\"\n";
    assert!(enumerate_drives(t, "").is_none());
}

#[test]
fn root_source_drops_subvolume() {
    assert_eq!(root_mount_source("/dev/nvme0n1p2[/@]\n"), "/dev/nvme0n1p2");
    assert_eq!(root_mount_source(""), "");
}

#[test]
fn partition_usage_refresh_and_inheritance() {
    let usage = lsblk_usage("NAME=\"sda1\" FSUSED=\"700\"\nNAME=\"sda2\" FSUSED=\"\"\n");
    assert_eq!(usage, vec![("sda1".to_string(), 700), ("sda2".to_string(), 0)]);
    let mut parts = vec![
        PartRecord { name: "sda1".into(), fstype: "".into(), mount: "".into(), used: 5, size: 10 },
        PartRecord { name: "sda2".into(), fstype: "".into(), mount: "".into(), used: 6, size: 10 },
    ];
    apply_part_usage(&mut parts, &usage);
    assert_eq!(parts[0].used, 700);
    assert_eq!(parts[1].used, 6);
    let olds = vec![PartRecord { name: "sda2".into(), fstype: "".into(), mount: "".into(), used: 99, size: 10 }];
    let mut fresh = vec![
        PartRecord { name: "sda1".into(), fstype: "".into(), mount: "".into(), used: 0, size: 10 },
        PartRecord { name: "sda2".into(), fstype: "".into(), mount: "".into(), used: 0, size: 10 },
    ];
    inherit_part_used(&mut fresh, &olds);
    assert_eq!(fresh[0].used, 0);
    assert_eq!(fresh[1].used, 99);
}

#[test]
fn diskstats_counters() {
    let t = "   8       0 sda 10 0 200 30 5 0 100 40 0 50 70 0 0 0 0\n 7 0 loop0 1 2\n";
    let st = parse_diskstats(t);
    assert_eq!(st.len(), 1);
    let c = diskstats_for(&st, "sda").unwrap();
    assert_eq!((c.reads, c.sect_read, c.ms_read, c.writes, c.sect_written, c.ms_write, c.ms_io), (10, 200, 30, 5, 100, 40, 50));
    assert!(diskstats_for(&st, "sdb").is_none());
    assert_eq!(disk_totals(&c), Some((200 * 512, 100 * 512)));
    let prev = DiskCounters { reads: 4, sect_read: 100, ms_read: 10, writes: 6, sect_written: 100, ms_write: 0, ms_io: 20 };
    let d = disk_delta(&prev, &c).unwrap();
    assert_eq!((d.sect_read, d.sect_written, d.ms_io, d.ios, d.ms), (100, 0, 30, 6, 60));
    let huge = DiskCounters { reads: 0, sect_read: u64::MAX, ms_read: 0, writes: 0, sect_written: 0, ms_write: 0, ms_io: 0 };
    assert_eq!(disk_totals(&huge), None);
}

#[test]
fn nvidia_lists_and_samples() {
    let out = "0, NVIDIA GeForce GTX 1660 Ti, 00000000:01:00.0\nbad line\nx, y, z\n";
    assert_eq!(nvidia_gpu_rows(out), vec![(0u32, "NVIDIA GeForce GTX 1660 Ti".to_string(), "00000000:01:00.0".to_string())]);
    let g = nvidia_gpu_list("1, Quadro, 0000:0a:00.0\n");
    assert_eq!(g[0].bus, "0000:0A:00.0");
    assert_eq!(g[0].kind, "NVIDIA");
    assert_eq!(g[0].nvidia_index, Some(1));
    let s = parse_nvidia_samples("0, 45, 1000, 6000, 60, 20.5, 80, 1500, 1800, 5000, 6000, 0, 0, 3, 4, 16\n0, 1, 2\n");
    assert_eq!(s.len(), 1);
    assert_eq!(s[0].readings.len(), 12);
    assert_eq!(s[0].readings[0], "45");
    assert_eq!(s[0].pcie, "PCIe Gen 3 x16 (maks Gen 4)");
    assert!(nv_sample_for(&s, 0).is_some());
    assert!(nv_sample_for(&s, 1).is_none());
    assert_eq!(nvidia_telemetry_fields(" 60, 20.5, 100, 6000, P8 \n"), Some(vec!["60".to_string(), "20.5".to_string(), "100".to_string(), "6000".to_string(), "P8".to_string()]));
    assert_eq!(nvidia_telemetry_fields("60, 1"), None);
    assert_eq!(vram_text("100", "6000"), "100/6000 MB");
}

#[test]
fn drm_adapters() {
    assert!(card_name("card0"));
    assert!(!card_name("card0-eDP-1"));
    assert!(!card_name("card"));
    let names = vec!["card1".to_string(), "renderD128".to_string(), "card0".to_string(), "card0-HDMI-A-1".to_string()];
    assert_eq!(drm_cards(&names), vec!["card0".to_string(), "card1".to_string()]);
    let g = drm_gpu("card0", "0x1002\n", "0000:05:00.0").unwrap();
    assert_eq!(g.kind, "AMD");
    assert_eq!(g.name, "AMD Radeon Graphics");
    assert_eq!(g.drm_path, "/sys/class/drm/card0/device");
    assert_eq!(g.bus, "0000:05:00.0");
    assert!(drm_gpu("card1", "0x10de", "x").is_none());
    assert_eq!(drm_gpu_with_bus("card2", "0x8086", "0000:00:02.0").unwrap().kind, "Intel");
    assert_eq!(drm_gpu("card0", "0x8086", "0000:00:0a.0").unwrap().bus, "0000:00:0A.0");
}

#[test]
fn gpu_order_and_signature() {
    let mut gs = nvidia_gpu_list("0, B, 0000:02:00.0\n1, A, 0000:01:00.0\n");
    sort_gpus(&mut gs);
    assert_eq!(gs[0].name, "A");
    assert_eq!(gpu_signature(&gs), "NVIDIA:0000:01:00.0;NVIDIA:0000:02:00.0;");
}

#[test]
fn amd_clock_table_and_link() {
    let lv = dpm_levels("0: 500Mhz\n1: 1600Mhz *\nbogus\n");
    assert_eq!(lv, vec![(false, "500".to_string()), (true, "1600".to_string()), (false, "".to_string())]);
    assert_eq!(amd_pcie("8.0 GT/s PCIe", "16"), Some("x16 @ 8.0 GT/s".to_string()));
    assert_eq!(amd_pcie("8.0 GT/s", ""), None);
}

#[test]
fn power_supplies() {
    let s = vec![("Battery".to_string(), Some("0".to_string())), ("Mains\n".to_string(), Some("1\n".to_string()))];
    assert!(ac_online_from(&s));
    let s2 = vec![("Mains".to_string(), None), ("Mains".to_string(), Some("0".to_string()))];
    assert!(!ac_online_from(&s2));
    assert!(!ac_online_from(&vec![]));
    let names = vec!["AC0".to_string(), "BAT1".to_string(), "BAT0".to_string()];
    assert_eq!(first_battery(&names), Some(1));
}

#[test]
fn batteries_ordered_machine_first() {
    let a = battery_entry("hidpp_battery_0", "Battery\n", "Device\n", " G304 \n").unwrap();
    assert!(!a.is_system);
    assert_eq!(a.model, "G304");
    assert_eq!(a.path, "/sys/class/power_supply/hidpp_battery_0");
    let b = battery_entry("BAT0", "Battery", "", "").unwrap();
    assert!(b.is_system);
    assert!(battery_entry("AC0", "Mains", "", "").is_none());
    let mut v = vec![a, b];
    sort_bats(&mut v);
    assert_eq!(v[0].name, "BAT0");
    assert_eq!(bat_signature(&v), "BAT0S;hidpp_battery_0D;");
}

#[test]
fn battery_texts() {
    assert_eq!(level_percent("Full"), Some(100));
    assert_eq!(level_percent("Good"), Some(55));
    assert_eq!(level_percent("Unknown"), None);
    assert_eq!(battery_state(""), "Unknown");
    assert_eq!(battery_state("Not charging"), "Not charging");
    assert_eq!(technology_name("Li-ion"), "Lithium Ion");
    assert_eq!(technology_name("Li-poly"), "Lithium Polymer");
    assert_eq!(technology_name("NiMH"), "NiMH");
}

#[test]
fn hwmon_sensors_and_fans() {
    assert!(is_cpu_sensor("k10temp\n"));
    assert!(!is_cpu_sensor("amdgpu"));
    let m = vec![("k10temp".to_string(), false), ("nvme".to_string(), true), ("coretemp".to_string(), true)];
    assert_eq!(cpu_sensor_index(&m), Some(2));
    let names = vec!["fan2_input".to_string(), "temp1_input".to_string(), "fan1_input".to_string(), "fan1_label".to_string()];
    assert_eq!(fan_inputs(&names), vec!["fan1_input".to_string(), "fan2_input".to_string()]);
    let f = fan_entry("/sys/class/hwmon/hwmon5", "fan1_input", Some("cpu_fan\n"));
    assert_eq!(f.label, "cpu_fan");
    assert_eq!(f.path, "/sys/class/hwmon/hwmon5/fan1_input");
    assert_eq!(f.key, "hwmon5:fan1");
    let g = fan_entry("/sys/class/hwmon/hwmon5", "fan2_input", Some("  "));
    assert_eq!(g.label, "fan2");
    assert_eq!(fan_signature(&vec![f, g]), "hwmon5:fan1;hwmon5:fan2;");
}

#[test]
fn history_keeps_last_samples() {
    let mut h: VecDeque<u32> = VecDeque::new();
    for i in 0..70 {
        push_history(&mut h, i, 60);
    }
    assert_eq!(h.len(), 60);
    assert_eq!(h.front(), Some(&10));
    assert_eq!(h.back(), Some(&69));
}

#[test]
fn rescans_keep_surviving_devices() {
    let old = vec!["sda".to_string(), "sdb".to_string()];
    let fresh = vec!["sdb".to_string(), "sdc".to_string(), "sdb".to_string()];
    assert_eq!(carry_over_plan(&old, &fresh), vec![Some(1), None, None]);
}

#[test]
fn partition_row_subtitles() {
    assert_eq!(partition_subtitle("", ""), "not mounted");
    assert_eq!(partition_subtitle("swap", ""), "swap");
    assert_eq!(partition_subtitle("", "/mnt/x"), "? • /mnt/x");
    assert_eq!(partition_subtitle("ext4", "/"), "ext4 • /");
}
