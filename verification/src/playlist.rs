//! The playlist and its history: taking the next track off the playlist,
//! going back to the track played before, the shortened listing for the
//! window-manager panel, and the labels shown in the track list.
//!
//! A playlist file holds one track path per line, the first line being the
//! next track to play. The history file holds the tracks played so far, one
//! per line, the last line being the track that plays now.

use vstd::prelude::*;
use vstd::utf8::{encode_utf8, is_char_boundary};
use vstd::string::StringSliceAdditionalSpecFns;
use crate::lines::{
    lines_of, file_text, render_file, all_clean, clean_line, ends_complete, law_read_back_written_lines,
    law_append_line, law_prepend_line,
};
use crate::text::{chars_of, string_of_range, append_str};

verus! {

/// What taking the next track off the playlist gives: the track, and the
/// playlist lines that stay.
pub struct Advance {
    pub track: String,
    pub remaining: Vec<String>,
}

/// Takes the first line off the playlist text; `None` when it has no line.
pub fn advance(playlist_text: &str) -> (res: Option<Advance>)
    ensures
        res is None <==> lines_of(playlist_text@).len() == 0,
        res matches Some(a) ==> {
            &&& a.track@ == lines_of(playlist_text@)[0]
            &&& a.remaining.deep_view() == lines_of(playlist_text@).drop_first()
        },
{
    let mut lines = crate::lines::split_lines(playlist_text);
    if lines.len() == 0 {
        return None;
    }
    let ghost all = lines.deep_view();
    let track = lines.remove(0);
    assert(lines.deep_view() =~= all.drop_first());
    Some(Advance { track, remaining: lines })
}

/// The abstract value of a [`NextTrack`].
pub struct NextTrackView {
    pub track: Seq<char>,
    pub remaining: Seq<Seq<char>>,
    pub playlist_text: Seq<char>,
    pub history_entry: Seq<char>,
}

/// A step forward: the track to play, the playlist lines that stay, the new
/// text of the playlist file, and the text to append to the history file.
pub struct NextTrack {
    pub track: String,
    pub remaining: Vec<String>,
    pub playlist_text: String,
    pub history_entry: String,
}

impl View for NextTrack {
    type V = NextTrackView;

    open spec fn view(&self) -> NextTrackView {
        NextTrackView {
            track: self.track@,
            remaining: self.remaining.deep_view(),
            playlist_text: self.playlist_text@,
            history_entry: self.history_entry@,
        }
    }
}

/// A step forward on a playlist text: the first line is played, the other
/// lines are written back joined by newlines with a final newline, and the
/// track with a newline is appended to the history.
pub open spec fn next_track_spec(playlist_text: Seq<char>) -> Option<NextTrackView> {
    let lines = lines_of(playlist_text);
    if lines.len() == 0 {
        None
    } else {
        Some(
            NextTrackView {
                track: lines[0],
                remaining: lines.drop_first(),
                playlist_text: file_text(lines.drop_first()),
                history_entry: lines[0].push('\n'),
            },
        )
    }
}

/// Steps forward on the playlist; `None` when the playlist has no line.
pub fn next_track(playlist_text: &str) -> (res: Option<NextTrack>)
    ensures
        match res {
            Some(n) => next_track_spec(playlist_text@) == Some(n@),
            None => next_track_spec(playlist_text@) is None,
        },
{
    match advance(playlist_text) {
        None => None,
        Some(a) => {
            let playlist_text = render_file(&a.remaining);
            let mut history_entry = a.track.clone();
            append_str(&mut history_entry, "\n");
            proof {
                reveal_strlit("\n");
            }
            assert(history_entry@ =~= a.track@.push('\n'));
            Some(NextTrack { track: a.track, remaining: a.remaining, playlist_text, history_entry })
        },
    }
}

/// Why going back in the history failed.
#[derive(Debug, Clone, Copy, PartialEq, Eq, Structural)]
pub enum RewindError {
    /// The history holds fewer than two tracks: nothing was played before
    /// the current one.
    NoHistory,
}

/// The abstract value of a [`Rewind`].
pub struct RewindView {
    pub target: Seq<char>,
    pub history_text: Seq<char>,
    pub playlist_text: Seq<char>,
}

/// A step back: the track to play again, the new text of the history file
/// and the new text of the playlist file.
pub struct Rewind {
    pub target: String,
    pub history_text: String,
    pub playlist_text: String,
}

impl View for Rewind {
    type V = RewindView;

    open spec fn view(&self) -> RewindView {
        RewindView {
            target: self.target@,
            history_text: self.history_text@,
            playlist_text: self.playlist_text@,
        }
    }
}

/// A step back: the last history line (the current track) is dropped, the
/// line before it becomes the target, the history keeps the lines before
/// the target, and the target goes in front of the playlist text.
pub open spec fn rewind_spec(history_text: Seq<char>, playlist_text: Seq<char>) -> Result<
    RewindView,
    RewindError,
> {
    let h = lines_of(history_text);
    if h.len() < 2 {
        Err(RewindError::NoHistory)
    } else {
        let target = h[h.len() - 2];
        Ok(
            RewindView {
                target,
                history_text: file_text(h.take(h.len() - 2)),
                playlist_text: target.push('\n') + playlist_text,
            },
        )
    }
}

/// Steps back in the history; fails when it holds fewer than two tracks.
pub fn rewind(history_text: &str, playlist_text: &str) -> (res: Result<Rewind, RewindError>)
    ensures
        match res {
            Ok(r) => rewind_spec(history_text@, playlist_text@) == Ok::<RewindView, RewindError>(
                r@,
            ),
            Err(e) => rewind_spec(history_text@, playlist_text@) == Err::<RewindView, RewindError>(
                e,
            ),
        },
{
    let mut lines = crate::lines::split_lines(history_text);
    if lines.len() < 2 {
        return Err(RewindError::NoHistory);
    }
    let ghost all = lines.deep_view();
    let _current = lines.pop();
    let target = lines.pop().unwrap();
    assert(lines.deep_view() =~= all.take(all.len() - 2));
    let history_text = render_file(&lines);
    let mut new_playlist = target.clone();
    append_str(&mut new_playlist, "\n");
    append_str(&mut new_playlist, playlist_text);
    proof {
        reveal_strlit("\n");
    }
    assert(new_playlist@ =~= target@.push('\n') + playlist_text@);
    Ok(Rewind { target, history_text, playlist_text: new_playlist })
}

/// Number of bytes cut from the front of long playlist lines in the
/// listing for the panel: the length of the music folder's path.
pub const PANEL_PREFIX_BYTES: usize = 26;

/// The bytes of a playlist line as the panel listing shows it: lines longer
/// than the prefix lose its bytes.
pub open spec fn shortened_bytes(bytes: Seq<u8>) -> Seq<u8> {
    if bytes.len() > PANEL_PREFIX_BYTES {
        bytes.subrange(PANEL_PREFIX_BYTES as int, bytes.len() as int)
    } else {
        bytes
    }
}

/// A line can be shortened: it is no longer than the prefix, or the prefix
/// ends at a character boundary (cutting elsewhere panics).
pub open spec fn can_shorten(line: Seq<char>) -> bool {
    encode_utf8(line).len() <= PANEL_PREFIX_BYTES || is_char_boundary(
        encode_utf8(line),
        PANEL_PREFIX_BYTES as int,
    )
}

/// The line as the panel listing shows it.
pub fn short_entry(line: &str) -> (s: String)
    requires
        can_shorten(line@),
    ensures
        encode_utf8(s@) == shortened_bytes(encode_utf8(line@)),
        encode_utf8(line@).len() > PANEL_PREFIX_BYTES ==> encode_utf8(s@) == encode_utf8(
            line@,
        ).subrange(PANEL_PREFIX_BYTES as int, encode_utf8(line@).len() as int),
        encode_utf8(line@).len() <= PANEL_PREFIX_BYTES ==> s@ == line@,
{
    let byte_len = line.as_bytes().len();
    if byte_len > PANEL_PREFIX_BYTES {
        let (_prefix, rest) = line.split_at(PANEL_PREFIX_BYTES);
        rest.to_owned()
    } else {
        line.to_owned()
    }
}

/// Every line of the panel listing, in order.
pub fn short_entries(lines: &Vec<String>) -> (res: Vec<String>)
    requires
        forall|i: int| 0 <= i < lines.len() ==> can_shorten(#[trigger] lines[i]@),
    ensures
        res.len() == lines.len(),
        forall|i: int|
            0 <= i < lines.len() ==> encode_utf8(#[trigger] res[i]@) == shortened_bytes(
                encode_utf8(lines[i]@),
            ),
{
    let mut res: Vec<String> = Vec::new();
    let mut i: usize = 0;
    while i < lines.len()
        invariant
            i <= lines.len(),
            res.len() == i,
            forall|k: int| 0 <= k < lines.len() ==> can_shorten(#[trigger] lines[k]@),
            forall|k: int|
                0 <= k < i ==> encode_utf8(#[trigger] res[k]@) == shortened_bytes(
                    encode_utf8(lines[k]@),
                ),
        decreases lines.len() - i,
    {
        let s = short_entry(lines[i].as_str());
        res.push(s);
        i = i + 1;
    }
    res
}

/// The part of a line after its last slash (all of it when it has none), as
/// `line.split('/').last()` gives it.
pub open spec fn after_last_slash(line: Seq<char>) -> Seq<char>
    decreases line.len(),
{
    if line.len() == 0 {
        line
    } else if line.last() == '/' {
        seq![]
    } else {
        after_last_slash(line.drop_last()).push(line.last())
    }
}

/// The file name shown for a playlist line.
pub fn label_of(line: &str) -> (label: String)
    ensures
        label@ == after_last_slash(line@),
        !label@.contains('/'),
        label@.len() <= line@.len(),
        line@.subrange(line@.len() - label@.len(), line@.len() as int) == label@,
        label@.len() < line@.len() ==> line@[line@.len() - label@.len() - 1] == '/',
{
    proof {
        law_label_is_text_after_last_slash(line@);
    }
    let v = chars_of(line);
    let n = v.len();
    let mut j = n;
    assert(v@.subrange(0, n as int) =~= v@);
    assert(v@.subrange(n as int, n as int) =~= Seq::<char>::empty());
    while j > 0 && v[j - 1] != '/'
        invariant
            j <= n == v@.len(),
            after_last_slash(v@) == after_last_slash(v@.subrange(0, j as int)) + v@.subrange(
                j as int,
                n as int,
            ),
        decreases j,
    {
        let ghost pre = v@.subrange(0, j as int);
        assert(pre.drop_last() =~= v@.subrange(0, j - 1));
        assert(v@.subrange(j - 1, n as int) =~= seq![pre.last()] + v@.subrange(j as int, n as int));
        assert(after_last_slash(pre) == after_last_slash(pre.drop_last()).push(pre.last()));
        assert(after_last_slash(pre.drop_last()).push(pre.last()) + v@.subrange(j as int, n as int)
            =~= after_last_slash(pre.drop_last()) + v@.subrange(j - 1, n as int));
        j = j - 1;
    }
    if j > 0 {
        assert(v@.subrange(0, j as int).last() == '/');
    }
    assert(after_last_slash(v@) =~= v@.subrange(j as int, n as int));
    string_of_range(&v, j, n)
}

/// Number of playlist lines shown in the track list.
pub const SHOWN_TRACKS: usize = 35;

/// The labels of the track list: the file names of the first lines of the
/// playlist, at most [`SHOWN_TRACKS`] of them.
pub open spec fn labels_spec(playlist_text: Seq<char>) -> Seq<Seq<char>> {
    let lines = lines_of(playlist_text);
    let k = if lines.len() < SHOWN_TRACKS {
        lines.len()
    } else {
        SHOWN_TRACKS as nat
    };
    Seq::new(k, |i: int| after_last_slash(lines[i]))
}

/// The labels of the track list for the playlist text.
pub fn playlist_labels(playlist_text: &str) -> (labels: Vec<String>)
    ensures
        labels.deep_view() == labels_spec(playlist_text@),
{
    let lines = crate::lines::split_lines(playlist_text);
    let k = if lines.len() < SHOWN_TRACKS {
        lines.len()
    } else {
        SHOWN_TRACKS
    };
    let mut labels: Vec<String> = Vec::new();
    let mut i: usize = 0;
    while i < k
        invariant
            i <= k <= lines.len(),
            k == (if lines.len() < SHOWN_TRACKS {
                lines.len()
            } else {
                SHOWN_TRACKS
            }),
            lines.deep_view() == lines_of(playlist_text@),
            labels.deep_view() =~= Seq::new(
                i as nat,
                |j: int| after_last_slash(lines_of(playlist_text@)[j]),
            ),
        decreases k - i,
    {
        let label = label_of(lines[i].as_str());
        let ghost before = labels.deep_view();
        labels.push(label);
        assert(lines.deep_view()[i as int] == lines[i as int]@);
        assert(labels.deep_view() =~= before.push(label@));
        i = i + 1;
    }
    labels
}

/// All lines but the first of a list of clean lines are clean.
proof fn lemma_clean_drop_first(lines: Seq<Seq<char>>)
    requires
        lines.len() > 0,
        all_clean(lines),
    ensures
        all_clean(lines.drop_first()),
{
    assert forall|i: int| 0 <= i < lines.drop_first().len() implies clean_line(
        #[trigger] lines.drop_first()[i],
    ) by {
        assert(lines.drop_first()[i] == lines[i + 1]);
    }
}

/// The first lines of a list of clean lines are clean.
proof fn lemma_clean_take(lines: Seq<Seq<char>>, n: int)
    requires
        all_clean(lines),
        0 <= n <= lines.len(),
    ensures
        all_clean(lines.take(n)),
{
    assert forall|i: int| 0 <= i < lines.take(n).len() implies clean_line(
        #[trigger] lines.take(n)[i],
    ) by {
        assert(lines.take(n)[i] == lines[i]);
    }
}

/// Stepping forward takes the first track off the playlist: when the
/// playlist holds at least two lines, none ending in a carriage return, the
/// new playlist file reads back as the old lines without the first.
pub proof fn law_next_drops_first(playlist_text: Seq<char>)
    requires
        lines_of(playlist_text).len() >= 2,
        all_clean(lines_of(playlist_text)),
    ensures
        next_track_spec(playlist_text) matches Some(n) && lines_of(n.playlist_text) == lines_of(
            playlist_text,
        ).drop_first(),
{
    lemma_clean_drop_first(lines_of(playlist_text));
    law_read_back_written_lines(lines_of(playlist_text).drop_first());
}

/// Stepping forward records the track: appended to a history file that is
/// empty or ends in a newline, the history entry adds the track as the
/// last history line.
pub proof fn law_next_records_track(history_text: Seq<char>, playlist_text: Seq<char>)
    requires
        ends_complete(history_text),
        lines_of(playlist_text).len() > 0,
        all_clean(lines_of(playlist_text)),
    ensures
        next_track_spec(playlist_text) matches Some(n) && lines_of(history_text + n.history_entry)
            == lines_of(history_text).push(n.track),
{
    let first = lines_of(playlist_text)[0];
    assert(clean_line(first));
    law_append_line(history_text, first);
}

/// Stepping back puts the target in front of the playlist and leaves in the
/// history the lines before it (when some are left; an empty remainder is
/// written as a single newline, which reads as one empty line).
pub proof fn law_rewind_restores(history_text: Seq<char>, playlist_text: Seq<char>)
    requires
        lines_of(history_text).len() >= 2,
        all_clean(lines_of(history_text)),
    ensures
        rewind_spec(history_text, playlist_text) matches Ok(r) && {
            &&& r.target == lines_of(history_text)[lines_of(history_text).len() - 2]
            &&& lines_of(r.playlist_text) == seq![r.target] + lines_of(playlist_text)
            &&& lines_of(history_text).len() > 2 ==> lines_of(r.history_text) == lines_of(
                history_text,
            ).take(lines_of(history_text).len() - 2)
        },
{
    let h = lines_of(history_text);
    let target = h[h.len() - 2];
    assert(clean_line(target));
    law_prepend_line(target, playlist_text);
    if h.len() > 2 {
        lemma_clean_take(h, h.len() - 2);
        law_read_back_written_lines(h.take(h.len() - 2));
    }
}

/// Going back and then forward again plays the target of the step back,
/// leaves the playlist reading as it did before the step back, and leaves
/// the history without its last line (the track that played when going
/// back).
pub proof fn law_back_then_forward(history_text: Seq<char>, playlist_text: Seq<char>)
    requires
        lines_of(history_text).len() > 2,
        all_clean(lines_of(history_text)),
        lines_of(playlist_text).len() > 0,
        all_clean(lines_of(playlist_text)),
    ensures
        rewind_spec(history_text, playlist_text) matches Ok(r) && next_track_spec(
            r.playlist_text,
        ) matches Some(n) && {
            &&& n.track == r.target
            &&& lines_of(n.playlist_text) == lines_of(playlist_text)
            &&& lines_of(r.history_text + n.history_entry) == lines_of(history_text).drop_last()
        },
{
    let h = lines_of(history_text);
    law_rewind_restores(history_text, playlist_text);
    let r = rewind_spec(history_text, playlist_text)->Ok_0;
    let target = h[h.len() - 2];
    assert((seq![target] + lines_of(playlist_text)).drop_first() =~= lines_of(playlist_text));
    law_read_back_written_lines(lines_of(playlist_text));
    assert(clean_line(target));
    law_append_line(r.history_text, target);
    assert(h.take(h.len() - 2).push(target) =~= h.drop_last());
}

/// The panel listing cuts exactly the prefix from long lines, whatever the
/// rest holds, and leaves short lines whole: the prefix and the shortened
/// line make up the line again.
pub proof fn law_shortened_cuts_prefix(bytes: Seq<u8>)
    ensures
        bytes.len() > PANEL_PREFIX_BYTES ==> {
            &&& shortened_bytes(bytes).len() == bytes.len() - PANEL_PREFIX_BYTES
            &&& bytes.take(PANEL_PREFIX_BYTES as int) + shortened_bytes(bytes) == bytes
        },
        bytes.len() <= PANEL_PREFIX_BYTES ==> shortened_bytes(bytes) == bytes,
{
    if bytes.len() > PANEL_PREFIX_BYTES {
        assert(bytes.take(PANEL_PREFIX_BYTES as int) + shortened_bytes(bytes) =~= bytes);
    }
}

/// The label of a line is its text after the last slash: a slash-free end
/// of the line, preceded by a slash unless it is the whole line.
pub proof fn law_label_is_text_after_last_slash(line: Seq<char>)
    ensures
        ({
            let l = after_last_slash(line);
            &&& !l.contains('/')
            &&& l.len() <= line.len()
            &&& line.subrange(line.len() - l.len(), line.len() as int) == l
            &&& l.len() < line.len() ==> line[line.len() - l.len() - 1] == '/'
        }),
    decreases line.len(),
{
    let l = after_last_slash(line);
    if line.len() == 0 {
        assert(line.subrange(0, 0) =~= l);
    } else if line.last() == '/' {
        assert(line.subrange(line.len() as int, line.len() as int) =~= l);
    } else {
        let init = line.drop_last();
        law_label_is_text_after_last_slash(init);
        let li = after_last_slash(init);
        assert(l == li.push(line.last()));
        assert(!l.contains('/')) by {
            if l.contains('/') {
                let k = choose|k: int| 0 <= k < l.len() && l[k] == '/';
                if k < li.len() {
                    assert(li[k] == '/');
                }
            }
        }
        assert(line.subrange(line.len() - l.len(), line.len() as int) =~= init.subrange(
            init.len() - li.len(),
            init.len() as int,
        ).push(line.last()));
        if l.len() < line.len() {
            assert(line[line.len() - l.len() - 1] == init[init.len() - li.len() - 1]);
        }
    }
}

/// A line made of any text, a slash, and a slash-free file name is labelled
/// with exactly that file name (spaces and all).
pub proof fn law_label_of_path(dir: Seq<char>, file: Seq<char>)
    requires
        !file.contains('/'),
    ensures
        after_last_slash(dir + seq!['/'] + file) == file,
{
    let line = dir + seq!['/'] + file;
    law_label_is_text_after_last_slash(line);
    let l = after_last_slash(line);
    if l.len() < file.len() {
        assert(line[line.len() - l.len() - 1] == file[file.len() - l.len() - 1]);
        assert(file.contains('/'));
    }
    if l.len() > file.len() {
        assert(l[l.len() - file.len() - 1] == line[line.len() - file.len() - 1]);
        assert(line[line.len() - file.len() - 1] == '/');
    }
    assert(l =~= file) by {
        assert(l == line.subrange(line.len() - l.len(), line.len() as int));
        assert(line.subrange(line.len() - file.len(), line.len() as int) =~= file);
    }
}

} // verus!
