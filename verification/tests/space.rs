use cargo_watch::space::{format_bytes, get_space_info, FsStats, SpaceInfo};

fn space(total: u64, used: u64) -> SpaceInfo {
    SpaceInfo { total, used, available: total.saturating_sub(used) }
}

#[test]
fn percent_of_empty_filesystem_is_zero() {
    assert_eq!(space(0, 0).percent_used(), 0);
    assert_eq!(space(0, 1).percent_used(), 0);
    assert_eq!(space(0, u64::MAX).percent_used(), 0);
}

#[test]
fn percent_of_nine_tenths() {
    assert_eq!(space(1000, 900).percent_used(), 90);
}

#[test]
fn percent_rounds_to_nearest() {
    assert_eq!(space(3, 1).percent_used(), 33);
    assert_eq!(space(3, 2).percent_used(), 67);
    assert_eq!(space(1000, 4).percent_used(), 0);
    assert_eq!(space(1000, 5).percent_used(), 1);
    assert_eq!(space(1000, 994).percent_used(), 99);
    assert_eq!(space(1000, 995).percent_used(), 100);
}

#[test]
fn percent_rounds_halves_up() {
    assert_eq!(space(200, 1).percent_used(), 1);
    assert_eq!(space(200, 3).percent_used(), 2);
    assert_eq!(space(200, 29).percent_used(), 15);
    assert_eq!(space(200, 199).percent_used(), 100);
}

#[test]
fn percent_of_full_and_unused() {
    assert_eq!(space(1, 0).percent_used(), 0);
    assert_eq!(space(1, 1).percent_used(), 100);
    assert_eq!(space(u64::MAX, u64::MAX).percent_used(), 100);
    assert_eq!(space(u64::MAX, 0).percent_used(), 0);
    assert_eq!(space(u64::MAX, u64::MAX / 2).percent_used(), 50);
}

#[test]
fn percent_beyond_the_whole_stops_at_255() {
    assert_eq!(space(1000, 2000).percent_used(), 200);
    assert_eq!(space(1000, 2550).percent_used(), 255);
    assert_eq!(space(1000, 3000).percent_used(), 255);
    assert_eq!(space(1, u64::MAX).percent_used(), 255);
}

#[test]
fn percent_stays_within_hundred_for_a_part() {
    let totals = [1u64, 2, 3, 7, 10, 99, 100, 101, 1000, 4096, 1 << 40, u64::MAX];
    for total in totals {
        for step in 0..=16u64 {
            let used = (total / 16).saturating_mul(step).min(total);
            assert!(space(total, used).percent_used() <= 100);
        }
        assert!(space(total, total).percent_used() == 100);
    }
}

#[test]
fn space_from_statistics() {
    let stats = FsStats { block_size: 1, blocks: 1000, blocks_free: 100, blocks_available: 80 };
    let info = get_space_info(&stats).unwrap();
    assert_eq!(info.total, 1000);
    assert_eq!(info.used, 900);
    assert_eq!(info.available, 80);
    assert_eq!(info.percent_used(), 90);
}

#[test]
fn space_multiplies_by_block_size() {
    let stats =
        FsStats { block_size: 4096, blocks: 250_000, blocks_free: 100_000, blocks_available: 90_000 };
    let info = get_space_info(&stats).unwrap();
    assert_eq!(info.total, 1_024_000_000);
    assert_eq!(info.used, 614_400_000);
    assert_eq!(info.available, 368_640_000);
    assert_eq!(info.percent_used(), 60);
}

#[test]
fn space_uses_free_not_available() {
    let stats = FsStats { block_size: 512, blocks: 100, blocks_free: 40, blocks_available: 10 };
    let info = get_space_info(&stats).unwrap();
    assert_eq!(info.used, 60 * 512);
    assert_eq!(info.available, 10 * 512);
}

#[test]
fn space_used_is_clamped_at_zero() {
    let stats = FsStats { block_size: 512, blocks: 10, blocks_free: 25, blocks_available: 25 };
    let info = get_space_info(&stats).unwrap();
    assert_eq!(info.total, 5120);
    assert_eq!(info.used, 0);
    assert_eq!(info.percent_used(), 0);
}

#[test]
fn space_of_empty_filesystem() {
    let stats = FsStats { block_size: 0, blocks: 10, blocks_free: 5, blocks_available: 5 };
    let info = get_space_info(&stats).unwrap();
    assert_eq!((info.total, info.used, info.available), (0, 0, 0));
    assert_eq!(info.percent_used(), 0);
    let none = FsStats { block_size: 4096, blocks: 0, blocks_free: 0, blocks_available: 0 };
    assert_eq!(get_space_info(&none).unwrap().percent_used(), 0);
}

#[test]
fn space_that_does_not_fit_has_no_result() {
    let big = FsStats { block_size: 1 << 33, blocks: 1 << 33, blocks_free: 0, blocks_available: 0 };
    assert!(get_space_info(&big).is_none());
    let free = FsStats { block_size: 4096, blocks: 1, blocks_free: u64::MAX, blocks_available: 0 };
    assert!(get_space_info(&free).is_none());
    let avail = FsStats { block_size: 4096, blocks: 1, blocks_free: 1, blocks_available: u64::MAX };
    assert!(get_space_info(&avail).is_none());
    let edge = FsStats { block_size: 1, blocks: u64::MAX, blocks_free: 0, blocks_available: 0 };
    assert_eq!(get_space_info(&edge).unwrap().total, u64::MAX);
}

#[test]
fn format_bytes_below_a_kilobyte() {
    assert_eq!(format_bytes(0), "0 B");
    assert_eq!(format_bytes(1), "1 B");
    assert_eq!(format_bytes(9), "9 B");
    assert_eq!(format_bytes(10), "10 B");
    assert_eq!(format_bytes(512), "512 B");
    assert_eq!(format_bytes(1023), "1023 B");
}

#[test]
fn format_bytes_picks_the_unit() {
    assert_eq!(format_bytes(1024), "1.0 KB");
    assert_eq!(format_bytes(1536), "1.5 KB");
    assert_eq!(format_bytes(1024 * 1024 - 1), "1024.0 KB");
    assert_eq!(format_bytes(1024 * 1024), "1.0 MB");
    assert_eq!(format_bytes(5 * 1024 * 1024 + 512 * 1024), "5.5 MB");
    assert_eq!(format_bytes(1024 * 1024 * 1024), "1.0 GB");
    assert_eq!(format_bytes(1610612736), "1.5 GB");
    assert_eq!(format_bytes(1099511627776), "1.0 TB");
    assert_eq!(format_bytes(1099511627776 * 3 / 2), "1.5 TB");
    assert_eq!(format_bytes(500_000_000_000), "465.7 GB");
    assert_eq!(format_bytes(2_000_398_934_016), "1.8 TB");
}

#[test]
fn format_bytes_rounds_ties_to_even() {
    // 1.25, 1.75, 1.35 (not a tie in tenths of 1024)
    assert_eq!(format_bytes(1280), "1.2 KB");
    assert_eq!(format_bytes(1792), "1.8 KB");
    assert_eq!(format_bytes(1024 + 51), "1.0 KB");
    assert_eq!(format_bytes(1024 + 52), "1.1 KB");
    assert_eq!(format_bytes(1024 * 1024 * 5 / 4), "1.2 MB");
}

#[test]
fn format_bytes_of_the_largest_counts() {
    assert_eq!(format_bytes(u64::MAX), "16777216.0 TB");
    assert_eq!(format_bytes(1 << 63), "8388608.0 TB");
    assert_eq!(format_bytes(1 << 53), "8192.0 TB");
    assert_eq!(format_bytes((1 << 53) + 1), "8192.0 TB");
}

fn by_floating_point(bytes: u64) -> String {
    let kb: u64 = 1024;
    let mb: u64 = kb * 1024;
    let gb: u64 = mb * 1024;
    let tb: u64 = gb * 1024;
    if bytes >= tb {
        format!("{:.1} TB", bytes as f64 / tb as f64)
    } else if bytes >= gb {
        format!("{:.1} GB", bytes as f64 / gb as f64)
    } else if bytes >= mb {
        format!("{:.1} MB", bytes as f64 / mb as f64)
    } else if bytes >= kb {
        format!("{:.1} KB", bytes as f64 / kb as f64)
    } else {
        format!("{bytes} B")
    }
}

#[test]
fn format_bytes_agrees_with_floating_point_at_the_edges() {
    let mut edges: Vec<u64> = Vec::new();
    for shift in 0..64u32 {
        let power = 1u64 << shift;
        for delta in 0..=4u64 {
            edges.push(power.wrapping_sub(delta));
            edges.push(power.saturating_add(delta));
        }
        edges.push(power / 10 * 11);
        edges.push(power / 4 * 5);
        edges.push(power / 4 * 7);
        edges.push(power / 20 * 21);
    }
    edges.push(u64::MAX);
    edges.push(u64::MAX - 1023);
    edges.push(u64::MAX - 1024);
    edges.push(u64::MAX - 1025);
    for bytes in edges {
        assert_eq!(format_bytes(bytes), by_floating_point(bytes), "{}", bytes);
    }
}

#[test]
fn format_bytes_agrees_with_floating_point_on_ties() {
    for unit_shift in [10u32, 20, 30, 40] {
        let unit = 1u64 << unit_shift;
        // multiples of a twentieth of the unit are the ties of one decimal
        for n in 20..2000u64 {
            let bytes = ((n as u128 * unit as u128) / 20) as u64;
            for near in [bytes.saturating_sub(1), bytes, bytes + 1] {
                assert_eq!(format_bytes(near), by_floating_point(near), "{}", near);
            }
        }
    }
}

#[test]
fn format_bytes_agrees_with_floating_point_all_over() {
    let mut seed: u64 = 0x9e37_79b9_7f4a_7c15;
    for round in 0..20000u32 {
        seed = seed.wrapping_mul(6364136223846793005).wrapping_add(1442695040888963407);
        let bytes = seed >> (round % 64);
        assert_eq!(format_bytes(bytes), by_floating_point(bytes), "{}", bytes);
    }
}

#[test]
fn format_bytes_agrees_with_floating_point_where_doubles_round() {
    let mut seed: u64 = 12345;
    for round in 0..20000u32 {
        seed = seed.wrapping_mul(6364136223846793005).wrapping_add(1442695040888963407);
        let top = 53 + (round % 11);
        let bytes = (1u64 << top) | (seed >> (64 - top));
        assert_eq!(format_bytes(bytes), by_floating_point(bytes), "{}", bytes);
        // halfway between two doubles, and one to either side
        let gap = 1u64 << (top - 52);
        let half = (bytes / gap) * gap + gap / 2;
        for near in [half - 1, half, half + 1] {
            assert_eq!(format_bytes(near), by_floating_point(near), "{}", near);
        }
    }
}
