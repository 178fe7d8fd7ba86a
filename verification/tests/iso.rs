use qsafe::iso::{
    check_image_extension, drive_mount_result, hdiutil_mount_result, hdiutil_volume, loop_device_of, mount_point_of,
    mount_script_for, udisks_mount_result, unmount_script_for, volume_label_of,
};

#[test]
fn image_extensions() {
    assert!(check_image_extension("/x/ubuntu.iso").is_ok());
    assert!(check_image_extension("/x/DISK.IMG").is_ok());
    assert!(check_image_extension("a.Dmg").is_ok());
    assert_eq!(
        check_image_extension("/x/notes.txt").unwrap_err(),
        "지원하지 않는 확장자입니다 (.iso/.img/.dmg만): /x/notes.txt"
    );
    assert!(check_image_extension("iso").is_err());
}

#[test]
fn udisks_loop_device() {
    assert_eq!(loop_device_of("Mapped file /x/a.iso as /dev/loop0.\n").unwrap(), "/dev/loop0");
    assert_eq!(loop_device_of("Mapped file /x/a.iso as /dev/loop12...").unwrap(), "/dev/loop12");
    // A word must begin with /dev/loop, not merely contain it.
    assert_eq!(loop_device_of("x/dev/loop3 as /dev/loop4").unwrap(), "/dev/loop4");
    assert_eq!(loop_device_of("nothing here").unwrap_err(), "loop 디바이스 파싱 실패:\nnothing here");
}

#[test]
fn udisks_mount_point() {
    assert_eq!(mount_point_of("Mounted /dev/loop0 at /run/media/u/Ubuntu 24.04.\n").unwrap(), "/run/media/u/Ubuntu 24.04");
    assert_eq!(mount_point_of("Mounted /dev/loop0 at /media/a at b").unwrap(), "/media/a");
    assert_eq!(mount_point_of("Mounted nowhere").unwrap_err(), "mount 출력 파싱 실패:\nMounted nowhere");
    let r = udisks_mount_result("/dev/loop0".to_string(), "Mounted /dev/loop0 at /run/media/u/DISK.").unwrap();
    assert_eq!(r.mount_point, "/run/media/u/DISK");
    assert_eq!(r.handle, "/dev/loop0");
    assert_eq!(r.label, "DISK");
}

#[test]
fn hdiutil_output() {
    let out = "/dev/disk5          \tGUID_partition_scheme          \t\n/dev/disk5s1\tApple_HFS\t/Volumes/My Disk\n";
    assert_eq!(
        hdiutil_volume(out).unwrap(),
        ("/Volumes/My Disk".to_string(), "/dev/disk5s1".to_string())
    );
    let r = hdiutil_mount_result(out).unwrap();
    assert_eq!(r.label, "My Disk");
    assert_eq!(hdiutil_mount_result("/dev/disk5\tGUID\n").unwrap_err(), "hdiutil 출력 파싱 실패:\n/dev/disk5\tGUID\n");
    // The last line that names a volume wins.
    let two = "/dev/disk2\t\t/Volumes/A\r\n/dev/disk3\t\t/Volumes/B\r\n";
    assert_eq!(hdiutil_volume(two).unwrap(), ("/Volumes/B".to_string(), "/dev/disk3".to_string()));
}

#[test]
fn volume_labels() {
    assert_eq!(volume_label_of("/Volumes/Foo"), "Foo");
    assert_eq!(volume_label_of("/run/media/u/Bar/"), "Bar");
    assert_eq!(volume_label_of("/"), "ISO");
}

#[test]
fn powershell_scripts() {
    assert_eq!(
        mount_script_for("C:\\it's.iso"),
        "$img = Mount-DiskImage -ImagePath 'C:\\it''s.iso' -PassThru; $vol = Get-DiskImage -ImagePath 'C:\\it''s.iso' | Get-Volume; Write-Output ($vol.DriveLetter + ':\\')"
    );
    assert_eq!(unmount_script_for("C:\\a'b.iso"), "Dismount-DiskImage -ImagePath 'C:\\a''b.iso'");
    let r = drive_mount_result("C:\\a.iso", " E:\\\r\n").unwrap();
    assert_eq!(r.mount_point, "E:\\");
    assert_eq!(r.handle, "C:\\a.iso");
    assert_eq!(r.label, "E:\\");
    assert_eq!(drive_mount_result("C:\\a.iso", "  \n").unwrap_err(), "드라이브 letter를 얻지 못했습니다");
}
