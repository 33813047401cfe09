//! The keys by which an action can be asked for: one key and, with it, any
//! of Ctrl, Alt and Shift.

use vstd::prelude::*;
use vstd::string::*;

use crate::text::{chars_of, spells};

verus! {

/// A key chord as a configuration gives it: the names of the keys held
/// down, and the name of the key.
#[derive(Clone, Debug, PartialEq, Eq)]
pub struct MaybeActionKey {
    pub modifiers: Vec<String>,
    pub key: String,
}

/// The keys to which an action can be bound.
#[derive(Clone, Copy, Debug, PartialEq, Eq, Hash, Structural)]
pub enum Key {
    BracketRight,
    KeyC,
    Delete,
    Comma,
    Period,
}

/// A key chord.
#[derive(Clone, Copy, Debug, PartialEq, Eq, Hash, Structural)]
pub struct ActionKey {
    pub ctrl: bool,
    pub alt: bool,
    pub shift: bool,
    pub key: Key,
}

/// A key chord of which a name is not known, as it was given.
#[derive(Debug, PartialEq, Eq)]
pub struct ActionKeyError(pub MaybeActionKey);

/// The name of a key.
pub open spec fn key_name(key: Key) -> Seq<char> {
    match key {
        Key::BracketRight => "]"@,
        Key::KeyC => "C"@,
        Key::Delete => "Del"@,
        Key::Comma => ","@,
        Key::Period => "."@,
    }
}

/// The key of a name.
pub open spec fn key_named(name: Seq<char>) -> Option<Key> {
    if name == "]"@ {
        Some(Key::BracketRight)
    } else if name == "C"@ {
        Some(Key::KeyC)
    } else if name == "Del"@ {
        Some(Key::Delete)
    } else if name == ","@ {
        Some(Key::Comma)
    } else if name == "."@ {
        Some(Key::Period)
    } else {
        None
    }
}

/// Whether `name` names a key that is held down with another.
pub open spec fn is_modifier(name: Seq<char>) -> bool {
    name == "Ctrl"@ || name == "Alt"@ || name == "Shift"@
}

/// Whether `name` is among `names`.
pub open spec fn names(names: Seq<String>, name: Seq<char>) -> bool {
    exists|i: int| 0 <= i < names.len() && (#[trigger] names[i])@ == name
}

/// The chord that `ma` gives, if all its names are known.
pub open spec fn chord(ma: MaybeActionKey) -> Option<ActionKey> {
    if (forall|i: int| 0 <= i < ma.modifiers@.len() ==> is_modifier((#[trigger] ma.modifiers@[i])@))
        && key_named(ma.key@) is Some {
        Some(
            ActionKey {
                ctrl: names(ma.modifiers@, "Ctrl"@),
                alt: names(ma.modifiers@, "Alt"@),
                shift: names(ma.modifiers@, "Shift"@),
                key: key_named(ma.key@)->0,
            },
        )
    } else {
        None
    }
}

/// How a chord is shown: `Ctrl+`, `Alt+` and `Shift+`, each if it is held
/// down and in this order, and then the name of the key.
pub open spec fn chord_text(k: ActionKey) -> Seq<char> {
    (if k.ctrl {
        "Ctrl+"@
    } else {
        Seq::empty()
    }) + (if k.alt {
        "Alt+"@
    } else {
        Seq::empty()
    }) + (if k.shift {
        "Shift+"@
    } else {
        Seq::empty()
    }) + key_name(k.key)
}

impl ActionKey {
    /// The chord that `ma` gives. Fails, handing `ma` back in the error, if
    /// a name in it is not known.
    pub fn try_from(ma: MaybeActionKey) -> (r: Result<ActionKey, ActionKeyError>)
        ensures
            match r {
                Ok(k) => chord(ma) == Some(k),
                Err(e) => chord(ma) is None && e.0 == ma,
            },
    {
        let mut ctrl = false;
        let mut alt = false;
        let mut shift = false;
        proof {
            reveal_strlit("Ctrl");
            reveal_strlit("Alt");
            reveal_strlit("Shift");
            assert("Ctrl"@[0] == 'C' && "Alt"@[0] == 'A' && "Shift"@[0] == 'S');
        }
        let mut i: usize = 0;
        while i < ma.modifiers.len()
            invariant
                i <= ma.modifiers.len(),
                "Ctrl"@ != "Alt"@ && "Ctrl"@ != "Shift"@ && "Alt"@ != "Shift"@,
                forall|j: int| 0 <= j < i ==> is_modifier((#[trigger] ma.modifiers@[j])@),
                ctrl == names(ma.modifiers@.take(i as int), "Ctrl"@),
                alt == names(ma.modifiers@.take(i as int), "Alt"@),
                shift == names(ma.modifiers@.take(i as int), "Shift"@),
            decreases ma.modifiers.len() - i,
        {
            let m = chars_of(ma.modifiers[i].as_str());
            let ghost before = ma.modifiers@.take(i as int);
            let ghost now = ma.modifiers@.take(i + 1);
            proof {
                assert(now[i as int] == ma.modifiers@[i as int]);
                assert forall|name: Seq<char>| #[trigger]
                    names(now, name) == (names(before, name) || ma.modifiers@[i as int]@
                        == name) by {
                    if names(before, name) {
                        let j = choose|j: int| 0 <= j < before.len() && (#[trigger] before[j])@ == name;
                        assert(now[j]@ == name);
                    }
                    if names(now, name) {
                        let j = choose|j: int| 0 <= j < now.len() && (#[trigger] now[j])@ == name;
                        if j < i {
                            assert(before[j]@ == name);
                        }
                    }
                }
            }
            if spells(&m, "Ctrl") {
                ctrl = true;
            } else if spells(&m, "Alt") {
                alt = true;
            } else if spells(&m, "Shift") {
                shift = true;
            } else {
                return Err(ActionKeyError(ma));
            }
            i += 1;
        }
        assert(ma.modifiers@.take(i as int) =~= ma.modifiers@);
        let k = chars_of(ma.key.as_str());
        let key = if spells(&k, "]") {
            Key::BracketRight
        } else if spells(&k, "C") {
            Key::KeyC
        } else if spells(&k, "Del") {
            Key::Delete
        } else if spells(&k, ",") {
            Key::Comma
        } else if spells(&k, ".") {
            Key::Period
        } else {
            return Err(ActionKeyError(ma));
        };
        Ok(ActionKey { ctrl, alt, shift, key })
    }

    /// How the chord is shown.
    pub fn to_text(&self) -> (r: String)
        ensures
            r@ == chord_text(*self),
    {
        let mut r = String::new();
        if self.ctrl {
            r.append("Ctrl+");
        }
        if self.alt {
            r.append("Alt+");
        }
        if self.shift {
            r.append("Shift+");
        }
        let key = match self.key {
            Key::BracketRight => "]",
            Key::KeyC => "C",
            Key::Delete => "Del",
            Key::Comma => ",",
            Key::Period => ".",
        };
        r.append(key);
        assert(r@ =~= chord_text(*self));
        r
    }
}

/// Each key has a name of its own: the name of a key names that key.
pub proof fn lemma_key_names(key: Key)
    ensures
        key_named(key_name(key)) == Some(key),
{
    reveal_strlit("]");
    reveal_strlit("C");
    reveal_strlit("Del");
    reveal_strlit(",");
    reveal_strlit(".");
    assert("]"@[0] == ']' && "C"@[0] == 'C' && "Del"@[0] == 'D' && ","@[0] == ',' && "."@[0]
        == '.');
}

} // verus!
