use be_music_cabinet::disk::{
    compute_max_concurrent_for_disk, disk_key_among, find_volume, first_of_each_disk,
    get_disk_key, max_concurrent_among, permits_for_kind, DiskKind, DiskPermits, Volume,
};
use be_music_cabinet::path::TreePath;

fn path(text: &str) -> TreePath {
    let mut parts: Vec<String> = Vec::new();
    if text.starts_with('/') {
        parts.push("/".to_string());
    }
    parts.extend(text.split('/').filter(|p| !p.is_empty()).map(|p| p.to_string()));
    TreePath { parts }
}

fn volume(mount: &str, kind: DiskKind) -> Volume {
    Volume {
        mount_point: path(mount),
        label: mount.to_string(),
        kind,
    }
}

fn volumes() -> Vec<Volume> {
    vec![
        volume("/", DiskKind::Ssd),
        volume("/mnt/data", DiskKind::Hdd),
        volume("/mnt", DiskKind::Unknown),
        volume("/mnt/data/fast", DiskKind::Ssd),
    ]
}

#[test]
fn test_compute_max_concurrent_for_disk() {
    let path = path("/tmp/test");
    let result = compute_max_concurrent_for_disk(&path);
    assert!(result > 0);
}

#[test]
fn test_get_disk_key() {
    let path = path("/tmp/test");
    let key = get_disk_key(&path);
    assert!(!key.is_empty());
}

#[test]
fn the_longest_mount_point_owns_the_path() {
    let v = volumes();
    assert_eq!(find_volume(&path("/home/me"), &v), Some(0));
    assert_eq!(find_volume(&path("/mnt/data/songs/a.bms"), &v), Some(1));
    assert_eq!(find_volume(&path("/mnt/other"), &v), Some(2));
    assert_eq!(find_volume(&path("/mnt/data/fast/x"), &v), Some(3));
    assert_eq!(find_volume(&path("/mnt/data"), &v), Some(1));
    assert_eq!(find_volume(&path("/mnt/database"), &v), Some(2));
    assert_eq!(find_volume(&path("/"), &v), Some(0));
}

#[test]
fn a_path_under_no_mount_point_is_unknown() {
    let v = vec![volume("/mnt/data", DiskKind::Hdd)];
    assert_eq!(find_volume(&path("/home/me"), &v), None);
    assert_eq!(find_volume(&path("relative/x"), &v), None);
    assert_eq!(disk_key_among(&path("/home/me"), &v), "unknown");
    assert_eq!(disk_key_among(&path("/home/me"), &vec![]), "unknown");
    assert_eq!(max_concurrent_among(&path("/home/me"), &v, 16), 4);
    assert_eq!(max_concurrent_among(&path("/home/me"), &v, 3), 3);
}

#[test]
fn of_two_equal_mount_points_the_last_counts() {
    let v = vec![
        volume("/mnt/data", DiskKind::Hdd),
        Volume {
            mount_point: path("/mnt/data"),
            label: "second".to_string(),
            kind: DiskKind::Ssd,
        },
    ];
    assert_eq!(find_volume(&path("/mnt/data/x"), &v), Some(1));
    assert_eq!(disk_key_among(&path("/mnt/data/x"), &v), "second");
    assert_eq!(max_concurrent_among(&path("/mnt/data/x"), &v, 8), 8);
}

#[test]
fn the_disk_key_is_the_mount_point() {
    let v = volumes();
    assert_eq!(disk_key_among(&path("/mnt/data/songs"), &v), "/mnt/data");
    assert_eq!(disk_key_among(&path("/home"), &v), "/");
}

#[test]
fn permits_go_by_the_kind_of_disk() {
    assert_eq!(permits_for_kind(Some(DiskKind::Ssd), 12), 12);
    assert_eq!(permits_for_kind(Some(DiskKind::Ssd), 1), 1);
    assert_eq!(permits_for_kind(Some(DiskKind::Hdd), 12), 2);
    assert_eq!(permits_for_kind(Some(DiskKind::Unknown), 12), 2);
    assert_eq!(permits_for_kind(None, 12), 4);
    assert_eq!(permits_for_kind(None, 4), 4);
    assert_eq!(permits_for_kind(None, 2), 2);
    let v = volumes();
    assert_eq!(max_concurrent_among(&path("/home"), &v, 6), 6);
    assert_eq!(max_concurrent_among(&path("/mnt/data/a"), &v, 6), 2);
    assert_eq!(max_concurrent_among(&path("/mnt/x"), &v, 6), 2);
}

#[test]
fn each_disk_is_asked_once() {
    let keys: Vec<String> = ["/", "/mnt", "/", "unknown", "/mnt", "/"]
        .iter()
        .map(|k| k.to_string())
        .collect();
    assert_eq!(first_of_each_disk(&keys), vec![0, 1, 3]);
    assert_eq!(first_of_each_disk(&vec![]), Vec::<usize>::new());
    assert_eq!(first_of_each_disk(&vec!["a".to_string()]), vec![0]);
}

#[test]
fn no_more_permits_are_out_than_the_disk_has() {
    let mut permits = DiskPermits::new();
    assert_eq!(permits.capacity_of("/mnt"), None);
    assert_eq!(permits.held_of("/mnt"), 0);

    let mut granted = 0;
    for _ in 0..5 {
        if permits.try_acquire("/mnt", 2) {
            granted += 1;
        }
        assert!(permits.held_of("/mnt") <= 2);
    }
    assert_eq!(granted, 2);
    assert_eq!(permits.held_of("/mnt"), 2);
    assert_eq!(permits.capacity_of("/mnt"), Some(2));

    permits.release("/mnt");
    assert_eq!(permits.held_of("/mnt"), 1);
    assert!(permits.try_acquire("/mnt", 2));
    assert!(!permits.try_acquire("/mnt", 2));
    assert_eq!(permits.held_of("/mnt"), 2);
}

#[test]
fn the_number_of_permits_is_fixed_when_the_disk_is_first_seen() {
    let mut permits = DiskPermits::new();
    assert!(permits.try_acquire("/", 1));
    assert!(!permits.try_acquire("/", 100));
    assert_eq!(permits.capacity_of("/"), Some(1));
    permits.release("/");
    assert!(permits.try_acquire("/", 100));
    assert!(!permits.try_acquire("/", 100));
    assert_eq!(permits.capacity_of("/"), Some(1));
}

#[test]
fn disks_are_counted_apart() {
    let mut permits = DiskPermits::new();
    assert!(permits.try_acquire("/", 1));
    assert!(permits.try_acquire("/mnt", 1));
    assert!(!permits.try_acquire("/", 1));
    permits.release("/mnt");
    assert_eq!(permits.held_of("/"), 1);
    assert_eq!(permits.held_of("/mnt"), 0);
    assert_eq!(permits.disks(), 2);
}

#[test]
fn releasing_what_is_not_held_changes_nothing() {
    let mut permits = DiskPermits::new();
    permits.release("/");
    assert_eq!(permits.capacity_of("/"), None);
    assert!(permits.try_acquire("/", 2));
    permits.release("/");
    permits.release("/");
    assert_eq!(permits.held_of("/"), 0);
    assert_eq!(permits.capacity_of("/"), Some(2));
}

#[test]
fn a_disk_without_permits_grants_none() {
    let mut permits = DiskPermits::new();
    assert!(!permits.try_acquire("/", 0));
    assert_eq!(permits.capacity_of("/"), Some(0));
    assert_eq!(permits.held_of("/"), 0);
}
