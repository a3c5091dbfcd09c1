use soxbar::text::trimmed;
use soxbar::ticker::{format_clock, format_playing_line, shown_name, track_name, Ticker, TimerCommand};

fn playing(view: &str, clock: &str) -> String {
    format!("\r\x1b[32mИМЯ: {}\x1b[0m \x1b[34m{}\x1b[0m\x1b[K", view, clock)
}

const WAITING: &str = "\r\x1b[33mОЖИДАНИЕ ТРЕКА В ФАЙЛЕ...\x1b[0m\x1b[K";
const STOPPED: &str = "\r\x1b[31mSTOPPED: play\x1b[0m\x1b[K";

#[test]
fn clock_is_minutes_and_seconds() {
    assert_eq!(format_clock(0), "00:00");
    assert_eq!(format_clock(75), "01:15");
    assert_eq!(format_clock(600), "10:00");
    assert_eq!(format_clock(6000), "100:00");
    assert_eq!(format_clock(3599), "59:59");
    for secs in [0u64, 5, 59, 61, 125, 4000, 123456] {
        assert_eq!(format_clock(secs), format!("{:02}:{:02}", secs / 60, secs % 60));
    }
}

#[test]
fn playing_line_format() {
    assert_eq!(format_playing_line("abc", 61), playing("abc", "01:01"));
}

#[test]
fn first_tick_restarts_clock() {
    let mut t = Ticker::new();
    let k = t.tick(true, "song", 42);
    assert_eq!(k.timer, TimerCommand::Restart);
    assert_eq!(k.line, playing("song    ", "00:00"));
    assert_eq!(t.name(), "song");
    assert!(t.is_timing());
}

#[test]
fn name_scrolls_by_one_each_tick() {
    let mut t = Ticker::new();
    t.tick(true, "abc", 0);
    let k = t.tick(true, "abc", 3);
    assert_eq!(k.timer, TimerCommand::Keep);
    assert_eq!(k.line, playing("bc    a", "00:03"));
    let k = t.tick(true, "abc", 4);
    assert_eq!(k.line, playing("c    ab", "00:04"));
}

#[test]
fn scroll_comes_back_after_full_period() {
    let mut t = Ticker::new();
    let first = t.tick(true, "abc", 0);
    assert_eq!(first.line, playing("abc    ", "00:00"));
    // "abc" and four spaces: seven characters
    for _ in 0..6 {
        t.tick(true, "abc", 1);
    }
    let again = t.tick(true, "abc", 1);
    assert_eq!(again.line, playing("abc    ", "00:01"));
}

#[test]
fn long_name_shows_25_chars() {
    let mut t = Ticker::new();
    let name = "abcdefghijklmnopqrstuvwxyz0123";
    let k = t.tick(true, name, 0);
    assert_eq!(k.line, playing("abcdefghijklmnopqrstuvwxy", "00:00"));
}

#[test]
fn new_name_restarts_clock_and_scroll() {
    let mut t = Ticker::new();
    t.tick(true, "one", 0);
    t.tick(true, "one", 5);
    let k = t.tick(true, "two", 9);
    assert_eq!(k.timer, TimerCommand::Restart);
    assert_eq!(k.line, playing("two    ", "00:00"));
}

#[test]
fn waiting_without_name() {
    let mut t = Ticker::new();
    let k = t.tick(true, "", 0);
    assert_eq!(k.timer, TimerCommand::Restart);
    assert_eq!(k.line, WAITING);
    let k = t.tick(true, "", 3);
    assert_eq!(k.timer, TimerCommand::Keep);
    assert_eq!(k.line, WAITING);
}

#[test]
fn stop_clears_name() {
    let mut t = Ticker::new();
    t.tick(true, "song", 0);
    let k = t.tick(false, "song", 10);
    assert_eq!(k.timer, TimerCommand::Stop);
    assert_eq!(k.line, STOPPED);
    assert_eq!(t.name(), "");
    assert!(!t.is_timing());
}

#[test]
fn restart_after_stop_law() {
    let mut t = Ticker::new();
    t.tick(true, "song", 0);
    t.tick(true, "song", 20);
    t.tick(false, "", 30);
    let k = t.tick(true, "song", 30);
    assert_eq!(k.timer, TimerCommand::Restart);
    assert_eq!(k.line, playing("song    ", "00:00"));
}

#[test]
fn track_name_from_file_content() {
    assert_eq!(track_name("/home/u/Музыка/Альбом/Трек.mp3\n"), "Трек.mp3");
    assert_eq!(track_name("  \n  /m/a.flac  \n/m/b.flac\n"), "a.flac  ");
    assert_eq!(track_name(""), "");
    assert_eq!(track_name("   \n\t "), "");
    assert_eq!(track_name("plain.mp3"), "plain.mp3");
    assert_eq!(track_name("/m/dir/"), "dir");
    assert_eq!(track_name("/"), "/");
    assert_eq!(track_name("/m/.."), "/m/..");
}

#[test]
fn trimmed_drops_outer_whitespace() {
    assert_eq!(trimmed("  a b \n"), "a b");
    assert_eq!(trimmed("\u{3000}x\u{a0}"), "x");
    assert_eq!(trimmed(""), "");
    assert_eq!(trimmed(" \t\n"), "");
}

#[test]
fn shown_name_falls_back_to_line() {
    assert_eq!(shown_name("/m/a.mp3", Some("a.mp3".to_string())), "a.mp3");
    assert_eq!(shown_name("/m/..", None), "/m/..");
}

#[test]
fn name_from_first_line_law() {
    for line in ["/m/a.mp3", "b.flac", "/x/y z.ape"] {
        for rest in ["", "/other/c.mp3", "  \n\t", "\r\nmore\n"] {
            let with_rest = format!("{}\n{}", line, rest);
            assert_eq!(track_name(line), track_name(&with_rest));
        }
    }
}

#[test]
fn trimmed_whitespace_set() {
    assert_eq!(trimmed("\u{85}\u{1680}\u{2000}\u{200a}\u{2028}\u{2029}\u{202f}\u{205f}x\u{b}\u{c}\r"), "x");
    assert_eq!(trimmed("\u{200b}x\u{200b}"), "\u{200b}x\u{200b}");
}
