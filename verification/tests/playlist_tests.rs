use soxbar::lines::{join_with_newlines, render_file, split_lines};
use soxbar::playlist::{
    advance, label_of, next_track, playlist_labels, rewind, short_entries, short_entry, RewindError,
};

fn strings(items: &[&str]) -> Vec<String> {
    items.iter().map(|s| s.to_string()).collect()
}

#[test]
fn split_lines_follows_str_lines() {
    for text in ["", "a", "a\n", "a\nb", "a\r\nb\r\n", "\n", "\n\n", "foo\nbar\n\r\nbaz\r", "x\r\r\n"] {
        let expected: Vec<String> = text.lines().map(|s| s.to_string()).collect();
        assert_eq!(split_lines(text), expected, "text {:?}", text);
    }
}

#[test]
fn join_and_render() {
    let lines = strings(&["/m/a.mp3", "/m/b.flac"]);
    assert_eq!(join_with_newlines(&lines), "/m/a.mp3\n/m/b.flac");
    assert_eq!(render_file(&lines), "/m/a.mp3\n/m/b.flac\n");
    assert_eq!(render_file(&Vec::new()), "\n");
}

#[test]
fn written_lines_read_back() {
    let lines = strings(&["one", "", "three"]);
    assert_eq!(split_lines(&render_file(&lines)), lines);
    // an empty list is written as a lone newline, which reads as one empty line
    assert_eq!(split_lines(&render_file(&Vec::new())), strings(&[""]));
}

#[test]
fn advance_takes_first_line() {
    let a = advance("/m/a.mp3\n/m/b.mp3\n/m/c.mp3\n").unwrap();
    assert_eq!(a.track, "/m/a.mp3");
    assert_eq!(a.remaining, strings(&["/m/b.mp3", "/m/c.mp3"]));
    assert!(advance("").is_none());
}

#[test]
fn next_track_rewrites_playlist_and_history() {
    let n = next_track("/m/a.mp3\n/m/b.mp3\n/m/c.mp3\n").unwrap();
    assert_eq!(n.track, "/m/a.mp3");
    assert_eq!(n.remaining, strings(&["/m/b.mp3", "/m/c.mp3"]));
    assert_eq!(n.playlist_text, "/m/b.mp3\n/m/c.mp3\n");
    assert_eq!(n.history_entry, "/m/a.mp3\n");
}

#[test]
fn next_track_on_last_line_leaves_a_newline() {
    let n = next_track("/m/a.mp3").unwrap();
    assert_eq!(n.track, "/m/a.mp3");
    assert_eq!(n.playlist_text, "\n");
    let again = next_track(&n.playlist_text).unwrap();
    assert_eq!(again.track, "");
}

#[test]
fn next_track_on_empty_playlist() {
    assert!(next_track("").is_none());
}

#[test]
fn next_track_drops_first_line_law() {
    let text = "a\nb\nc\n";
    let n = next_track(text).unwrap();
    let before = split_lines(text);
    assert_eq!(split_lines(&n.playlist_text), before[1..].to_vec());
}

#[test]
fn history_records_track_law() {
    let history = "old1\nold2\n";
    let n = next_track("new\nrest\n").unwrap();
    let appended = format!("{}{}", history, n.history_entry);
    assert_eq!(split_lines(&appended), strings(&["old1", "old2", "new"]));
}

#[test]
fn rewind_goes_back_one_track() {
    let r = rewind("a\nb\nc\n", "d\ne\n").unwrap();
    assert_eq!(r.target, "b");
    assert_eq!(r.history_text, "a\n");
    assert_eq!(r.playlist_text, "b\nd\ne\n");
}

#[test]
fn rewind_with_two_tracks_empties_history() {
    let r = rewind("a\nb\n", "").unwrap();
    assert_eq!(r.target, "a");
    assert_eq!(r.history_text, "\n");
    assert_eq!(r.playlist_text, "a\n");
}

#[test]
fn rewind_needs_two_tracks() {
    assert_eq!(rewind("only\n", "x\n").err(), Some(RewindError::NoHistory));
    assert_eq!(rewind("", "x\n").err(), Some(RewindError::NoHistory));
}

#[test]
fn rewind_prepends_target_law() {
    let r = rewind("a\nb\nc\n", "p\nq").unwrap();
    assert_eq!(split_lines(&r.playlist_text), strings(&["b", "p", "q"]));
}

#[test]
fn back_then_forward_law() {
    let history = "h1\nh2\nh3\n";
    let playlist = "p1\np2\n";
    let r = rewind(history, playlist).unwrap();
    let n = next_track(&r.playlist_text).unwrap();
    assert_eq!(n.track, r.target);
    assert_eq!(split_lines(&n.playlist_text), split_lines(playlist));
    let new_history = format!("{}{}", r.history_text, n.history_entry);
    assert_eq!(split_lines(&new_history), strings(&["h1", "h2"]));
}

#[test]
fn short_entry_cuts_music_folder() {
    // "/home/tupoll/Музыка/" is 26 bytes long
    assert_eq!(short_entry("/home/tupoll/Музыка/song.mp3"), "song.mp3");
    assert_eq!(short_entry("/short/path.mp3"), "/short/path.mp3");
    assert_eq!(short_entry("abcdefghijklmnopqrstuvwxyz"), "abcdefghijklmnopqrstuvwxyz");
    assert_eq!(short_entry("abcdefghijklmnopqrstuvwxyz!"), "!");
}

#[test]
fn short_entries_each_line() {
    let lines = strings(&["/home/tupoll/Музыка/a.mp3", "b"]);
    assert_eq!(short_entries(&lines), strings(&["a.mp3", "b"]));
}

#[test]
fn label_is_text_after_last_slash() {
    assert_eq!(label_of("/home/u/Музыка/Альбом/track.flac"), "track.flac");
    assert_eq!(label_of("plain"), "plain");
    assert_eq!(label_of("dir/"), "");
    assert_eq!(label_of(""), "");
}

#[test]
fn labels_show_at_most_35_tracks() {
    let mut text = String::new();
    for i in 0..40 {
        text.push_str(&format!("/m/track{}.mp3\n", i));
    }
    let labels = playlist_labels(&text);
    assert_eq!(labels.len(), 35);
    assert_eq!(labels[0], "track0.mp3");
    assert_eq!(labels[34], "track34.mp3");
    assert_eq!(playlist_labels("/a/x.mp3\ny.mp3"), strings(&["x.mp3", "y.mp3"]));
    assert!(playlist_labels("").is_empty());
}
