//! The command lines the programs run, and the decisions of the setup
//! programs: whether `/etc/fstab` already mounts the shared directory, the
//! owner argument for `chown`, the paths of built binaries, and whether an
//! installation step may go on.

use vstd::prelude::*;
use crate::lines::{lines_of, scan_lines, strip_cr, lemma_scan_extend, law_prepend_line, clean_line};
use crate::text::{chars_of, append_str};

verus! {

/// The arguments of `play` for a track: quiet or not, the track, then a
/// resampling to 48 kHz and a bass and treble boost.
pub open spec fn play_args_spec(track: Seq<char>, quiet: bool) -> Seq<Seq<char>> {
    (if quiet {
        seq!["-q"@]
    } else {
        Seq::<Seq<char>>::empty()
    }) + seq![track] + seq!["rate"@, "-v"@, "48000"@, "bass"@, "+15"@, "treble"@, "+12"@]
}

/// The arguments of `play` for a track.
pub fn play_args(track: &str, quiet: bool) -> (args: Vec<String>)
    ensures
        args.deep_view() == play_args_spec(track@, quiet),
{
    let mut args: Vec<String> = Vec::new();
    if quiet {
        args.push("-q".to_owned());
    }
    args.push(track.to_owned());
    args.push("rate".to_owned());
    args.push("-v".to_owned());
    args.push("48000".to_owned());
    args.push("bass".to_owned());
    args.push("+15".to_owned());
    args.push("treble".to_owned());
    args.push("+12".to_owned());
    assert(args.deep_view() =~= play_args_spec(track@, quiet));
    args
}

/// The arguments of `ffmpeg` that copy the picture embedded in `audio`
/// to `cover`, overwriting it.
pub open spec fn cover_args_spec(audio: Seq<char>, cover: Seq<char>) -> Seq<Seq<char>> {
    seq!["-y"@, "-i"@, audio, "-an"@, "-vcodec"@, "copy"@, cover]
}

/// The arguments of `ffmpeg` that extract the cover picture of a track.
pub fn cover_args(audio: &str, cover: &str) -> (args: Vec<String>)
    ensures
        args.deep_view() == cover_args_spec(audio@, cover@),
{
    let mut args: Vec<String> = Vec::new();
    args.push("-y".to_owned());
    args.push("-i".to_owned());
    args.push(audio.to_owned());
    args.push("-an".to_owned());
    args.push("-vcodec".to_owned());
    args.push("copy".to_owned());
    args.push(cover.to_owned());
    assert(args.deep_view() =~= cover_args_spec(audio@, cover@));
    args
}

/// Whether `needle` occurs in `hay` as a run of consecutive characters.
pub open spec fn contains_text(hay: Seq<char>, needle: Seq<char>) -> bool {
    exists|i: int|
        0 <= i && i + needle.len() <= hay.len() && #[trigger] hay.subrange(i, i + needle.len())
            == needle
}

/// Whether `needle` occurs at position `i` of `hay`.
fn occurs_at(hay: &Vec<char>, needle: &Vec<char>, i: usize) -> (r: bool)
    requires
        i + needle.len() <= hay.len(),
    ensures
        r == (hay@.subrange(i as int, i + needle.len()) == needle@),
{
    let mut j: usize = 0;
    while j < needle.len()
        invariant
            i + needle.len() <= hay.len(),
            j <= needle.len(),
            forall|k: int| 0 <= k < j ==> hay@[i + k] == needle@[k],
        decreases needle.len() - j,
    {
        if hay[i + j] != needle[j] {
            assert(hay@.subrange(i as int, i + needle.len())[j as int] != needle@[j as int]);
            return false;
        }
        j = j + 1;
    }
    assert(hay@.subrange(i as int, i + needle.len()) =~= needle@);
    true
}

/// Whether `needle` occurs in `hay`.
pub fn find_text(hay: &str, needle: &str) -> (r: bool)
    ensures
        r == contains_text(hay@, needle@),
{
    let h = chars_of(hay);
    let n = chars_of(needle);
    if n.len() > h.len() {
        return false;
    }
    let last = h.len() - n.len();
    let mut i: usize = 0;
    loop
        invariant
            i <= last,
            last + n.len() == h.len(),
            h@ == hay@,
            n@ == needle@,
            forall|k: int| 0 <= k < i ==> #[trigger] h@.subrange(k, k + n.len()) != n@,
        decreases last - i,
    {
        if occurs_at(&h, &n, i) {
            return true;
        }
        if i == last {
            return false;
        }
        i = i + 1;
    }
}

/// The mount point that `/etc/fstab` must list for the shared directory.
pub open spec fn mount_point() -> Seq<char> {
    "/var/tmp/wm"@
}

/// Whether some line of `/etc/fstab` mentions the mount point.
pub open spec fn mount_listed_spec(fstab: Seq<char>) -> bool {
    exists|i: int| 0 <= i < lines_of(fstab).len() && contains_text(#[trigger] lines_of(fstab)[i], mount_point())
}

/// Whether some line of the text of `/etc/fstab` mentions the mount point.
pub fn mount_listed(fstab: &str) -> (r: bool)
    ensures
        r == mount_listed_spec(fstab@),
        forall|i: int|
            0 <= i < lines_of(fstab@).len() && contains_text(
                #[trigger] lines_of(fstab@)[i],
                "/var/tmp/wm"@,
            ) ==> r,
        r ==> exists|i: int|
            0 <= i < lines_of(fstab@).len() && contains_text(
                #[trigger] lines_of(fstab@)[i],
                "/var/tmp/wm"@,
            ),
{
    let lines = crate::lines::split_lines(fstab);
    let mut i: usize = 0;
    while i < lines.len()
        invariant
            i <= lines.len(),
            lines.deep_view() == lines_of(fstab@),
            forall|k: int| 0 <= k < i ==> !contains_text(#[trigger] lines_of(fstab@)[k], mount_point()),
        decreases lines.len() - i,
    {
        assert(lines.deep_view()[i as int] == lines[i as int]@);
        if find_text(lines[i].as_str(), "/var/tmp/wm") {
            return true;
        }
        i = i + 1;
    }
    false
}

/// The owner argument of `chown` that gives a directory to `user` and the
/// group of the same name: `user:user`.
pub fn owner_arg(user: &str) -> (arg: String)
    ensures
        arg@ == user@ + seq![':'] + user@,
{
    let mut arg = user.to_owned();
    append_str(&mut arg, ":");
    append_str(&mut arg, user);
    proof {
        reveal_strlit(":");
    }
    arg
}

/// Where cargo puts the release build of `binary` in the project `base`.
pub fn release_binary_path(base: &str, binary: &str) -> (path: String)
    ensures
        path@ == base@ + "/target/release/"@ + binary@,
{
    let mut path = base.to_owned();
    append_str(&mut path, "/target/release/");
    append_str(&mut path, binary);
    path
}

/// The verdict on an installation step: whether to go on, and the message
/// to show.
pub struct StepReport {
    pub proceed: bool,
    pub message: String,
}

/// The message for a step that succeeded.
pub open spec fn success_message(task: Seq<char>) -> Seq<char> {
    "✅ "@ + task + " - успешно"@
}

/// The message for a step that failed.
pub open spec fn failure_message(task: Seq<char>) -> Seq<char> {
    "❌ Ошибка при выполнении: "@ + task
}

/// Judges an installation step: it goes on only when the command ran and
/// exited with success.
pub fn judge_step(ran_and_succeeded: bool, task: &str) -> (r: StepReport)
    ensures
        r.proceed == ran_and_succeeded,
        r.message@ == (if ran_and_succeeded {
            success_message(task@)
        } else {
            failure_message(task@)
        }),
{
    let mut message = String::new();
    if ran_and_succeeded {
        append_str(&mut message, "✅ ");
        append_str(&mut message, task);
        append_str(&mut message, " - успешно");
    } else {
        append_str(&mut message, "❌ Ошибка при выполнении: ");
        append_str(&mut message, task);
    }
    StepReport { proceed: ran_and_succeeded, message }
}

/// The shell command that waits until `play` has ended and then runs
/// `program` again, so that the next track starts.
pub open spec fn relaunch_script_spec(program: Seq<char>) -> Seq<char> {
    "sleep 1 && while pgrep -x play > /dev/null; do sleep 2; done; "@ + program + " "@
}

/// The shell command that starts `program` again once `play` has ended.
pub fn relaunch_script(program: &str) -> (script: String)
    ensures
        script@ == relaunch_script_spec(program@),
{
    let mut script = String::new();
    append_str(&mut script, "sleep 1 && while pgrep -x play > /dev/null; do sleep 2; done; ");
    append_str(&mut script, program);
    append_str(&mut script, " ");
    script
}

/// The line that mounts a small tmpfs on the shared directory.
pub open spec fn fstab_entry_spec() -> Seq<char> {
    "tmpfs  /var/tmp/wm  tmpfs size=10M  0 0"@
}

/// The line that mounts a small tmpfs on the shared directory.
pub fn fstab_entry() -> (line: String)
    ensures
        line@ == fstab_entry_spec(),
{
    "tmpfs  /var/tmp/wm  tmpfs size=10M  0 0".to_owned()
}

/// Once the entry is appended to `/etc/fstab` with a newline, the mount
/// point is listed: a second run adds nothing.
pub proof fn law_added_entry_is_found(fstab: Seq<char>)
    ensures
        mount_listed_spec(fstab + fstab_entry_spec().push('\n')),
{
    let e = fstab_entry_spec();
    reveal_strlit("tmpfs  /var/tmp/wm  tmpfs size=10M  0 0");
    reveal_strlit("/var/tmp/wm");
    assert(!e.contains('\n')) by {
        if e.contains('\n') {
            let k = choose|k: int| 0 <= k < e.len() && e[k] == '\n';
            assert(e[k] != '\n');
        }
    }
    lemma_scan_extend(fstab, e);
    let whole = fstab + e.push('\n');
    assert(whole.drop_last() =~= fstab + e);
    let (d, t) = scan_lines(fstab);
    let line = t + e;
    assert(line.last() == e.last());
    assert(strip_cr(line) == line);
    assert(lines_of(whole) == d.push(line));
    let i: int = t.len() as int + 7;
    assert(line.subrange(i, i + mount_point().len() as int) =~= mount_point());
    assert(contains_text(line, mount_point()));
    assert(lines_of(whole)[d.len() as int] == line);
}

/// The mount point counts as listed when any line of the text mentions it,
/// wherever that line stands, and only then.
pub proof fn law_any_line_lists_mount(fstab: Seq<char>, i: int)
    requires
        0 <= i < lines_of(fstab).len(),
    ensures
        contains_text(lines_of(fstab)[i], "/var/tmp/wm"@) ==> mount_listed_spec(fstab),
        mount_listed_spec(fstab) <==> exists|k: int|
            0 <= k < lines_of(fstab).len() && contains_text(
                #[trigger] lines_of(fstab)[k],
                "/var/tmp/wm"@,
            ),
{
}

/// A text that starts with the fstab entry lists the mount point, whatever
/// follows it.
pub proof fn law_entry_first_is_found(rest: Seq<char>)
    ensures
        mount_listed_spec(fstab_entry_spec().push('\n') + rest),
{
    let e = fstab_entry_spec();
    reveal_strlit("tmpfs  /var/tmp/wm  tmpfs size=10M  0 0");
    reveal_strlit("/var/tmp/wm");
    assert(!e.contains('\n')) by {
        if e.contains('\n') {
            let k = choose|k: int| 0 <= k < e.len() && e[k] == '\n';
            assert(e[k] != '\n');
        }
    }
    assert(clean_line(e));
    law_prepend_line(e, rest);
    let lines = lines_of(e.push('\n') + rest);
    assert(lines[0] == e);
    assert(e.subrange(7, 7 + mount_point().len() as int) =~= mount_point());
    assert(contains_text(e, mount_point()));
}

} // verus!
