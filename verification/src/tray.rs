//! The menu-bar icon: which pictures it has, and which of them play when a
//! recording starts or stops. The pictures themselves are loaded outside.

use vstd::prelude::*;

verus! {

/// The look of the menu-bar icon.
#[derive(Clone, Copy, Debug, PartialEq, Eq, Structural)]
pub enum TrayIconStyle {
    /// A key that goes down while the app is listening and comes back up.
    Key,
    /// A switch whose dot moves to the right while the app is listening.
    Switch,
    /// The plain letter, a single picture that never moves.
    Omega,
}

/// One picture of the menu-bar icon.
#[derive(Clone, Copy, Debug, PartialEq, Eq, Structural)]
pub enum TrayFrame {
    KeyUp,
    KeyMid,
    KeyDown,
    SwitchOff,
    SwitchMid,
    SwitchOn,
    Omega,
}

/// The look the menu bar shows.
pub const TRAY_ICON: TrayIconStyle = TrayIconStyle::Key;

/// The pictures of a look, idle first and recording last.
pub open spec fn style_frames(style: TrayIconStyle) -> Seq<TrayFrame> {
    match style {
        TrayIconStyle::Key => seq![TrayFrame::KeyUp, TrayFrame::KeyMid, TrayFrame::KeyDown],
        TrayIconStyle::Switch => seq![TrayFrame::SwitchOff, TrayFrame::SwitchMid, TrayFrame::SwitchOn],
        TrayIconStyle::Omega => seq![TrayFrame::Omega],
    }
}

/// The pictures of one look, in order: the first is shown while idle, the
/// last while recording, and the ones between only make the change move.
pub fn frames_of(style: TrayIconStyle) -> (frames: Vec<TrayFrame>)
    ensures
        frames@ == style_frames(style),
{
    let frames = match style {
        TrayIconStyle::Key => vec![TrayFrame::KeyUp, TrayFrame::KeyMid, TrayFrame::KeyDown],
        TrayIconStyle::Switch => vec![TrayFrame::SwitchOff, TrayFrame::SwitchMid, TrayFrame::SwitchOn],
        TrayIconStyle::Omega => vec![TrayFrame::Omega],
    };
    assert(frames@ =~= style_frames(style));
    frames
}

/// The pictures of the look the menu bar shows.
pub fn tray_frames() -> (frames: Vec<TrayFrame>)
    ensures
        frames@ == style_frames(TRAY_ICON),
{
    frames_of(TRAY_ICON)
}

/// The frames played, in order, when the recording state changes: forwards
/// from the second frame to the last when a recording starts, backwards from
/// the one before the last to the first when it ends.
pub open spec fn animation(recording: bool, frame_count: int) -> Seq<int> {
    if recording {
        Seq::new((frame_count - 1) as nat, |i: int| i + 1)
    } else {
        Seq::new((frame_count - 1) as nat, |i: int| frame_count - 2 - i)
    }
}

/// The frames to play when the icon has to follow a recording starting
/// (`recording`) or ending. A look with a single picture has nothing to play.
pub fn frames_to_play(recording: bool, frame_count: usize) -> (frames: Vec<usize>)
    requires
        frame_count >= 1,
    ensures
        frames@.len() == frame_count - 1,
        forall|i: int| 0 <= i < frames@.len() ==> #[trigger] frames@[i] as int == animation(recording, frame_count as int)[i],
{
    let last = frame_count - 1;
    let mut frames: Vec<usize> = Vec::new();
    let mut i: usize = 0;
    while i < last
        invariant
            last == frame_count - 1,
            i <= last,
            frames@.len() == i,
            forall|k: int| 0 <= k < i ==> #[trigger] frames@[k] as int == animation(recording, frame_count as int)[k],
        decreases last - i,
    {
        if recording {
            frames.push(i + 1);
        } else {
            frames.push(last - 1 - i);
        }
        i = i + 1;
    }
    frames
}

/// Starting then stopping leaves the icon where it began: a start ends on
/// the recording picture and a stop ends on the idle one.
pub proof fn animation_ends_where_it_should(frame_count: int)
    requires
        frame_count >= 2,
    ensures
        animation(true, frame_count).last() == frame_count - 1,
        animation(false, frame_count).last() == 0,
        animation(true, frame_count)[0] == 1,
        animation(false, frame_count)[0] == frame_count - 2,
{
}

} // verus!
