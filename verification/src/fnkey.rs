//! The push-to-talk key.

use crate::state;
use crate::text;
use crate::text::{contains_str, same};
use vstd::prelude::*;

verus! {

/// Key events sent from the hotkey watcher to the daemon.
#[derive(Clone, Copy, PartialEq, Eq, Structural)]
pub enum KeyEvent {
    /// Trigger pressed: begin recording (push-to-talk).
    Start,
    /// Trigger released: stop recording.
    Release,
}

/// Key codes of the Linux input layer.
pub const KEY_RIGHTCTRL: u16 = 97;

pub const KEY_RIGHTALT: u16 = 100;

pub const KEY_RIGHTMETA: u16 = 126;

pub const KEY_COMPOSE: u16 = 127;

pub const KEY_F24: u16 = 194;

pub const KEY_FN: u16 = 464;

/// The code of the trigger key that `DICTATE_TRIGGER` names.
pub open spec fn trigger_for(name: Option<Seq<char>>) -> u16 {
    match name {
        Some(n) => if n == "f24"@ {
            KEY_F24
        } else if n == "rightalt"@ {
            KEY_RIGHTALT
        } else if n == "rightctrl"@ {
            KEY_RIGHTCTRL
        } else if n == "rightmeta"@ {
            KEY_RIGHTMETA
        } else if n == "compose"@ || n == "menu"@ {
            KEY_COMPOSE
        } else {
            KEY_FN
        },
        None => KEY_FN,
    }
}

/// The code of the push-to-talk trigger key, given what `DICTATE_TRIGGER` holds. Defaults to
/// Fn/Globe, which the Apple internal keyboard emits as a normal press and release.
pub fn trigger_key(name: Option<String>) -> (r: u16)
    ensures
        r == trigger_for(state::opt_view(name)),
{
    match name {
        Some(n) => {
            let n: &str = n.as_str();
            if same(n, "f24") {
                KEY_F24
            } else if same(n, "rightalt") {
                KEY_RIGHTALT
            } else if same(n, "rightctrl") {
                KEY_RIGHTCTRL
            } else if same(n, "rightmeta") {
                KEY_RIGHTMETA
            } else if same(n, "compose") || same(n, "menu") {
                KEY_COMPOSE
            } else {
                KEY_FN
            }
        },
        None => KEY_FN,
    }
}

/// Whether a device is keyd's virtual keyboard, by its name.
pub open spec fn is_keyd(name: Option<Seq<char>>) -> bool {
    name is Some && text::occurs(text::lowercase(name->0), "keyd"@)
}

/// The device to watch among those that have the trigger key, given their names: the first of
/// keyd's virtual keyboards, else the first. Where keyd grabs the physical device, the remapped
/// key surfaces only on its output.
pub fn find_device(names: &[Option<String>]) -> (r: Option<usize>)
    ensures
        match r {
            Some(i) => {
                &&& i < names@.len()
                &&& is_keyd(state::opt_view(names@[i as int])) || (i == 0 && forall|j: int|
                    0 <= j < names@.len() ==> !is_keyd(#[trigger] state::opt_view(names@[j])))
                &&& forall|j: int| 0 <= j < i ==> !is_keyd(#[trigger] state::opt_view(names@[j]))
            },
            None => names@.len() == 0,
        },
{
    if names.len() == 0 {
        return None;
    }
    let mut i: usize = 0;
    while i < names.len()
        invariant
            i <= names@.len(),
            forall|j: int| 0 <= j < i ==> !is_keyd(#[trigger] state::opt_view(names@[j])),
        decreases names.len() - i,
    {
        if let Some(name) = &names[i] {
            if contains_str(name.as_str().to_lowercase().as_str(), "keyd") {
                return Some(i);
            }
        }
        i += 1;
    }
    Some(0)
}

/// What an input event means for the daemon: a press (1) or a release (0) of the trigger key.
/// Autorepeat while the key is held (2) means nothing.
pub fn key_event(is_key: bool, code: u16, value: i32, trigger: u16) -> (r: Option<KeyEvent>)
    ensures
        r == (if is_key && code == trigger && value == 1 {
            Some(KeyEvent::Start)
        } else if is_key && code == trigger && value == 0 {
            Some(KeyEvent::Release)
        } else {
            None
        }),
{
    if !is_key || code != trigger {
        return None;
    }
    if value == 1 {
        Some(KeyEvent::Start)
    } else if value == 0 {
        Some(KeyEvent::Release)
    } else {
        None
    }
}

/// The trigger is the key that is named, by its code in the Linux input layer. Without a name, or
/// with one that is not known, it is Fn.
pub proof fn law_trigger_is_the_key_named(name: Option<Seq<char>>)
    ensures
        trigger_for(name) == 194 <==> name == Some("f24"@),
        trigger_for(name) == 100 <==> name == Some("rightalt"@),
        trigger_for(name) == 97 <==> name == Some("rightctrl"@),
        trigger_for(name) == 126 <==> name == Some("rightmeta"@),
        trigger_for(name) == 127 <==> name == Some("compose"@) || name == Some("menu"@),
        trigger_for(name) == 464 <==> name != Some("f24"@) && name != Some("rightalt"@) && name
            != Some("rightctrl"@) && name != Some("rightmeta"@) && name != Some("compose"@) && name
            != Some("menu"@),
{
    reveal_strlit("f24");
    reveal_strlit("rightalt");
    reveal_strlit("rightctrl");
    reveal_strlit("rightmeta");
    reveal_strlit("compose");
    reveal_strlit("menu");
    assert("f24"@.len() == 3 && "rightalt"@.len() == 8 && "rightctrl"@.len() == 9
        && "rightmeta"@.len() == 9 && "compose"@.len() == 7 && "menu"@.len() == 4);
    assert("rightctrl"@[5] == 'c' && "rightmeta"@[5] == 'm');
}

/// A keyboard is keyd's where its name holds "keyd" in any case.
pub proof fn law_keyd_is_known_by_name(name: Seq<char>)
    ensures
        is_keyd(Some(name)) <==> text::occurs(text::lowercase(name), "keyd"@),
        !is_keyd(None),
{
}

} // verus!
