use ruyiseek::mounts::keep_discovered_root;
use ruyiseek::mounts::{is_excluded_filesystem, is_system_mount, roots_from_mountinfo};

const UOS_MOUNTINFO: &[u8] = br"29 23 8:2 / / rw,relatime - ext4 /dev/sda2 rw
31 29 0:5 / /proc rw,nosuid,nodev,noexec,relatime - proc proc rw
32 29 8:1 / /boot rw,relatime - ext4 /dev/sda1 rw
33 29 8:3 / /home rw,relatime - ext4 /dev/sda3 rw
40 29 8:17 / /media/alice/Work rw,nosuid,nodev,relatime - ext4 /dev/sdb1 rw
41 29 8:33 / /run/media/alice/My\040Disk rw,nosuid,nodev,relatime - exfat /dev/sdc1 rw
42 29 253:0 / /data rw,relatime - xfs /dev/mapper/data rw
43 29 7:0 / /snap/core/1 ro,nodev,relatime - squashfs /dev/loop0 ro
44 29 0:42 / /mnt/company rw,relatime - nfs4 server:/company rw
45 29 8:17 / /mnt/work-bind rw,relatime - ext4 /dev/sdb1 rw
46 29 8:49 / /home/alice/external rw,relatime - ext4 /dev/sdd1 rw
";

fn path(text: &str) -> Vec<u8> {
    text.as_bytes().to_vec()
}

#[test]
fn discovers_local_data_volumes_and_decodes_mount_paths() {
    let roots = roots_from_mountinfo(b"/home/alice", UOS_MOUNTINFO);

    assert_eq!(
        roots,
        vec![
            path("/home/alice"),
            path("/data"),
            path("/home/alice/external"),
            path("/media/alice/Work"),
            path("/run/media/alice/My Disk"),
        ]
    );
}

#[test]
fn rejects_os_network_loop_and_home_related_mounts() {
    let roots = roots_from_mountinfo(b"/home/alice", UOS_MOUNTINFO);

    for excluded in [
        "/",
        "/boot",
        "/home",
        "/snap/core/1",
        "/mnt/company",
        "/mnt/work-bind",
    ] {
        assert!(!roots.contains(&path(excluded)), "included {excluded}");
    }
}

#[test]
fn malformed_lines_are_ignored() {
    let roots = roots_from_mountinfo(
        b"/home/alice",
        b"not mountinfo\n50 29 too-short - ext4 /dev/sdz1 rw\n",
    );
    assert_eq!(roots, vec![path("/home/alice")]);
}

#[test]
fn repeated_mount_points_appear_once() {
    let table = b"1 0 8:1 / /data rw - ext4 /dev/sda1 rw\n2 0 8:2 / /data rw - ext4 /dev/sdb1 rw\n";
    assert_eq!(
        roots_from_mountinfo(b"/home/bob", table),
        vec![path("/home/bob"), path("/data")]
    );
}

#[test]
fn system_trees_and_pseudo_filesystems_are_recognized() {
    assert!(is_system_mount(b"/"));
    assert!(is_system_mount(b"/usr/local"));
    assert!(is_system_mount(b"/run/user/1000"));
    assert!(!is_system_mount(b"/run/media/alice"));
    assert!(!is_system_mount(b"/data"));
    assert!(is_excluded_filesystem(b"tmpfs"));
    assert!(is_excluded_filesystem(b"fuse.sshfs"));
    assert!(!is_excluded_filesystem(b"ext4"));
}

#[test]
fn home_is_kept_and_other_roots_only_when_readable() {
    assert!(keep_discovered_root(b"/home/alice", b"/home/alice/", false));
    assert!(!keep_discovered_root(b"/data", b"/home/alice", false));
    assert!(keep_discovered_root(b"/data", b"/home/alice", true));
}
