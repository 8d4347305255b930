//! Housekeeping of the data folder: moving it to its new name once, which
//! files count as recordings, and when the log starts over. The file system
//! is touched outside; the decisions are here.

use vstd::prelude::*;

verus! {

/// What reading the new data folder found.
#[derive(Clone, Copy, Debug, PartialEq, Eq, Structural)]
pub enum NewDirState {
    /// It could not be read: normally, it does not exist yet.
    Unreadable,
    Empty,
    HasEntries,
}

/// What to do with the data folder from before the app was renamed.
#[derive(Clone, Copy, Debug, PartialEq, Eq, Structural)]
pub enum DataDirStep {
    /// There is no old folder: nothing to do.
    Nothing,
    /// Both folders hold data: touch neither.
    KeepBoth,
    /// The new folder exists but is empty: remove it, then rename the old one.
    RemoveEmptyThenRename,
    /// Rename the old folder to the new name.
    Rename,
}

/// Decides how the old data folder is moved to the new name, so the
/// downloaded models and old recordings are kept. Data in the new folder is
/// never overwritten.
pub fn plan_data_dir_move(old_is_dir: bool, new_dir: NewDirState) -> (step: DataDirStep)
    ensures
        !old_is_dir ==> step == DataDirStep::Nothing,
        old_is_dir ==> step == match new_dir {
            NewDirState::HasEntries => DataDirStep::KeepBoth,
            NewDirState::Empty => DataDirStep::RemoveEmptyThenRename,
            NewDirState::Unreadable => DataDirStep::Rename,
        },
{
    if !old_is_dir {
        return DataDirStep::Nothing;
    }
    match new_dir {
        NewDirState::HasEntries => DataDirStep::KeepBoth,
        NewDirState::Empty => DataDirStep::RemoveEmptyThenRename,
        NewDirState::Unreadable => DataDirStep::Rename,
    }
}

/// The index of the last '.' in `name`, or -1 when there is none.
pub open spec fn last_dot(name: Seq<char>) -> int
    decreases name.len(),
{
    if name.len() == 0 {
        -1
    } else if name.last() == '.' {
        name.len() - 1
    } else {
        last_dot(name.drop_last())
    }
}

/// The extension of a file name as paths define it: what follows the last
/// '.', unless the name has no '.', its only '.' is the first character, or
/// it is "..".
pub open spec fn extension(name: Seq<char>) -> Option<Seq<char>> {
    let d = last_dot(name);
    if name == seq!['.', '.'] || d <= 0 {
        None
    } else {
        Some(name.subrange(d + 1, name.len() as int))
    }
}

/// A file is a recording when it is a file, not a folder, and its extension
/// is exactly "wav".
pub open spec fn counts_as_recording(is_file: bool, name: Seq<char>) -> bool {
    is_file && extension(name) == Some(seq!['w', 'a', 'v'])
}

proof fn lemma_last_dot(name: Seq<char>)
    ensures
        -1 <= last_dot(name) < name.len(),
        last_dot(name) >= 0 ==> name[last_dot(name)] == '.',
        forall|k: int| last_dot(name) < k < name.len() ==> name[k] != '.',
    decreases name.len(),
{
    if name.len() > 0 && name.last() != '.' {
        let init = name.drop_last();
        lemma_last_dot(init);
        assert forall|k: int| last_dot(name) < k < name.len() implies name[k] != '.' by {
            if k < name.len() - 1 {
                assert(name[k] == init[k]);
            }
        }
    }
}

/// Whether a file in the recordings folder is a recording, and may be
/// deleted with them. Anything else in the folder survives: other files,
/// backups such as "x.wav.bak", a file just called "WAV", and folders.
pub fn is_recording_file(is_file: bool, name: &str) -> (recording: bool)
    ensures
        recording == counts_as_recording(is_file, name@),
{
    proof {
        lemma_last_dot(name@);
        reveal_strlit("..");
    }
    if !is_file {
        return false;
    }
    let n = name.unicode_len();
    if n <= 4 {
        proof {
            if extension(name@) == Some(seq!['w', 'a', 'v']) {
                let d = last_dot(name@);
                assert(name@.subrange(d + 1, name@.len() as int).len() == 3);
            }
        }
        return false;
    }
    let a = name.get_char(n - 4);
    let b = name.get_char(n - 3);
    let c = name.get_char(n - 2);
    let d = name.get_char(n - 1);
    let recording = a == '.' && b == 'w' && c == 'a' && d == 'v';
    proof {
        let s = name@;
        if recording {
            assert(last_dot(s) == n - 4) by {
                if last_dot(s) > n - 4 {
                    assert(s[last_dot(s)] == '.');
                } else if last_dot(s) < n - 4 {
                    assert(s[n - 4] == '.');
                }
            }
            assert(s != seq!['.', '.']);
            assert(s.subrange(n - 3, n as int) =~= seq!['w', 'a', 'v']);
        } else {
            if extension(s) == Some(seq!['w', 'a', 'v']) {
                let dot = last_dot(s);
                let ext = s.subrange(dot + 1, s.len() as int);
                assert(ext.len() == 3);
                assert(dot == n - 4);
                assert(ext[0] == s[n - 3]);
                assert(ext[1] == s[n - 2]);
                assert(ext[2] == s[n - 1]);
            }
        }
    }
    recording
}

/// The log starts over once it is bigger than this many bytes.
pub const LOG_LIMIT_BYTES: u64 = 5_000_000;

/// Whether the log file, of the size given when it could be read, has to
/// start over rather than grow without end.
pub fn log_needs_restart(size: Option<u64>) -> (restart: bool)
    ensures
        restart == (size matches Some(bytes) && bytes > LOG_LIMIT_BYTES),
{
    match size {
        Some(bytes) => bytes > LOG_LIMIT_BYTES,
        None => false,
    }
}

} // verus!
