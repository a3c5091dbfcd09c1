use soxbar::commands::{
    cover_args, find_text, fstab_entry, judge_step, mount_listed, owner_arg, play_args, relaunch_script,
    release_binary_path,
};

#[test]
fn play_args_quiet() {
    assert_eq!(
        play_args("/m/a.mp3", true),
        vec!["-q", "/m/a.mp3", "rate", "-v", "48000", "bass", "+15", "treble", "+12"]
    );
}

#[test]
fn play_args_loud() {
    assert_eq!(
        play_args("/m/a.mp3", false),
        vec!["/m/a.mp3", "rate", "-v", "48000", "bass", "+15", "treble", "+12"]
    );
}

#[test]
fn cover_args_copy_picture() {
    assert_eq!(
        cover_args("/m/a.mp3", "/var/tmp/wm/sox_current_cover.jpg"),
        vec!["-y", "-i", "/m/a.mp3", "-an", "-vcodec", "copy", "/var/tmp/wm/sox_current_cover.jpg"]
    );
}

#[test]
fn find_text_cases() {
    assert!(find_text("abc/var/tmp/wm xyz", "/var/tmp/wm"));
    assert!(!find_text("/var/tmp/w", "/var/tmp/wm"));
    assert!(find_text("anything", ""));
    assert!(find_text("", ""));
    assert!(!find_text("", "a"));
    assert!(find_text("ааб", "аб"));
}

#[test]
fn fstab_mount_point() {
    let with = "UUID=1 / ext4 defaults 0 1\ntmpfs  /var/tmp/wm  tmpfs size=10M  0 0\n";
    let without = "UUID=1 / ext4 defaults 0 1\ntmpfs /tmp tmpfs defaults 0 0\n";
    assert!(mount_listed(with));
    assert!(!mount_listed(without));
    assert!(!mount_listed(""));
}

#[test]
fn owner_is_user_and_group() {
    assert_eq!(owner_arg("tupoll"), "tupoll:tupoll");
}

#[test]
fn release_path() {
    assert_eq!(
        release_binary_path("/home/u/soxbar", "play_info"),
        "/home/u/soxbar/target/release/play_info"
    );
}

#[test]
fn step_verdicts() {
    let ok = judge_step(true, "Сборка cargo");
    assert!(ok.proceed);
    assert_eq!(ok.message, "✅ Сборка cargo - успешно");
    let bad = judge_step(false, "Сборка cargo");
    assert!(!bad.proceed);
    assert_eq!(bad.message, "❌ Ошибка при выполнении: Сборка cargo");
}

#[test]
fn relaunch_waits_for_play() {
    assert_eq!(
        relaunch_script("/home/u/.local/bin/play_sox_bin"),
        "sleep 1 && while pgrep -x play > /dev/null; do sleep 2; done; /home/u/.local/bin/play_sox_bin "
    );
}

#[test]
fn added_entry_is_found_law() {
    assert_eq!(fstab_entry(), "tmpfs  /var/tmp/wm  tmpfs size=10M  0 0");
    for fstab in ["", "UUID=1 / ext4 defaults 0 1\n", "UUID=1 / ext4 defaults 0 1"] {
        assert!(!mount_listed(fstab));
        let appended = format!("{}{}\n", fstab, fstab_entry());
        assert!(mount_listed(&appended));
    }
}
