//! The sounds at the start and the end of a recording.

use vstd::prelude::*;

verus! {

/// Where the sounds of the desktop theme are.
pub const SOUNDS_DIR: &'static str = "/run/current-system/sw/share/sounds/freedesktop/stereo";

/// The file of a sound.
pub open spec fn sound_file(name: Seq<char>) -> Seq<char> {
    SOUNDS_DIR@ + "/"@ + name + ".oga"@
}

fn play(name: &str) -> (r: String)
    ensures
        r@ == sound_file(name@),
{
    SOUNDS_DIR.to_owned().concat("/").concat(name).concat(".oga")
}

/// The file to play when a recording starts.
pub fn play_start() -> (r: String)
    ensures
        r@ == sound_file("message-new-instant"@),
{
    play("message-new-instant")
}

/// The file to play when a recording ends.
pub fn play_stop() -> (r: String)
    ensures
        r@ == sound_file("complete"@),
{
    play("complete")
}

/// Every sound is a file of the desktop theme, under its own name.
pub proof fn law_sounds_are_of_the_theme(name: Seq<char>)
    ensures
        sound_file(name) == "/run/current-system/sw/share/sounds/freedesktop/stereo"@ + "/"@ + name
            + ".oga"@,
{
}

} // verus!
