//! Keybinding configuration: the data the loader produces and the parsers
//! that turn configured key and modifier names into key symbols.
//!
//! Names are folded to lower case with the standard library's Unicode case
//! folding before matching, so any spelling that folds to a known name is
//! accepted. The key symbol values are the classic X11 codes (letters and
//! digits map to their character codes).

use vstd::prelude::*;
use vstd::std_specs::iter::IteratorSpec;

verus! {

pub const KEY_RETURN: u32 = 0xFF0D;
pub const KEY_ESCAPE: u32 = 0xFF1B;
pub const KEY_BACKSPACE: u32 = 0xFF08;
pub const KEY_TAB: u32 = 0xFF09;
pub const KEY_SPACE: u32 = 0x20;

/// An X11-style key symbol.
#[derive(Clone, Copy, Debug, PartialEq, Eq, Structural)]
pub struct Keysym(pub u32);

/// Keyboard modifier state.
#[derive(Clone, Copy, Debug, PartialEq, Eq, Structural)]
pub struct Modifiers {
    pub shift: bool,
    pub ctrl: bool,
    pub alt: bool,
    pub logo: bool,
}

impl Modifiers {
    pub open spec fn spec_default() -> Modifiers {
        Modifiers { shift: false, ctrl: false, alt: false, logo: false }
    }
}

impl Default for Modifiers {
    fn default() -> (r: Self)
        ensures
            r == Modifiers::spec_default(),
    {
        Modifiers { shift: false, ctrl: false, alt: false, logo: false }
    }
}

/// One configured binding: modifier names, a key name, an action, and the
/// action's named arguments as an association list with unique keys
/// (`args_wf`).
#[derive(Clone, Debug)]
pub struct KeyBinding {
    pub modifiers: Vec<String>,
    pub key: String,
    pub action: String,
    pub args: Option<Vec<(String, String)>>,
}

impl KeyBinding {
    /// The argument keys are pairwise distinct: the list stands for a map.
    pub open spec fn args_wf(self) -> bool {
        match self.args {
            Some(args) => forall|i: int, j: int|
                0 <= i < j < args@.len() ==> (#[trigger] args@[i]).0@ != (#[trigger] args@[j]).0@,
            None => true,
        }
    }
}

/// The loaded configuration.
#[derive(Clone, Debug)]
pub struct Config {
    pub keybindings: Vec<KeyBinding>,
}

/// What `str::to_lowercase` returns for a given character sequence: Unicode
/// case folding, a function of the characters alone.
pub uninterp spec fn lower_of(s: Seq<char>) -> Seq<char>;

/// Relies on str::to_lowercase: the result depends on the characters alone,
/// and an empty string stays empty.
#[verifier::external_body]
fn lowercase(s: &str) -> (r: String)
    ensures
        r@ == lower_of(s@),
        s@.len() == 0 ==> r@.len() == 0,
{
    s.to_lowercase()
}

/// The key symbol a folded key name denotes: the named special keys, and
/// single ASCII letters or digits.
pub open spec fn spec_key_for(l: Seq<char>) -> Option<Keysym> {
    if l == "return"@ {
        Some(Keysym(KEY_RETURN))
    } else if l == "escape"@ {
        Some(Keysym(KEY_ESCAPE))
    } else if l == "backspace"@ {
        Some(Keysym(KEY_BACKSPACE))
    } else if l == "tab"@ {
        Some(Keysym(KEY_TAB))
    } else if l == "space"@ {
        Some(Keysym(KEY_SPACE))
    } else if l.len() == 1 && ('a' <= l[0] && l[0] <= 'z' || '0' <= l[0] && l[0] <= '9') {
        Some(Keysym(l[0] as u32))
    } else {
        None
    }
}

/// The modifier state a folded modifier name denotes.
pub open spec fn spec_modifier_for(l: Seq<char>) -> Option<Modifiers> {
    if l == "shift"@ {
        Some(Modifiers { shift: true, ..Modifiers::spec_default() })
    } else if l == "ctrl"@ || l == "control"@ {
        Some(Modifiers { ctrl: true, ..Modifiers::spec_default() })
    } else if l == "alt"@ {
        Some(Modifiers { alt: true, ..Modifiers::spec_default() })
    } else if l == "logo"@ || l == "super"@ || l == "win"@ {
        Some(Modifiers { logo: true, ..Modifiers::spec_default() })
    } else {
        None
    }
}

/// Matches an already-folded key name against the known keys.
pub fn match_folded_key(folded: &String) -> (r: Option<Keysym>)
    ensures
        r == spec_key_for(folded@),
{
    proof {
        reveal_strlit("return");
        reveal_strlit("escape");
        reveal_strlit("backspace");
        reveal_strlit("tab");
        reveal_strlit("space");
    }
    if *folded == "return".to_owned() {
        Some(Keysym(KEY_RETURN))
    } else if *folded == "escape".to_owned() {
        Some(Keysym(KEY_ESCAPE))
    } else if *folded == "backspace".to_owned() {
        Some(Keysym(KEY_BACKSPACE))
    } else if *folded == "tab".to_owned() {
        Some(Keysym(KEY_TAB))
    } else if *folded == "space".to_owned() {
        Some(Keysym(KEY_SPACE))
    } else {
        match single_char_of(folded) {
            Some(c) => {
                if ('a' <= c && c <= 'z') || ('0' <= c && c <= '9') {
                    Some(Keysym(c as u32))
                } else {
                    None
                }
            },
            None => None,
        }
    }
}

/// Matches an already-folded modifier name against the known modifiers.
pub fn match_folded_modifier(folded: &String) -> (r: Option<Modifiers>)
    ensures
        r == spec_modifier_for(folded@),
{
    proof {
        reveal_strlit("shift");
        reveal_strlit("ctrl");
        reveal_strlit("control");
        reveal_strlit("alt");
        reveal_strlit("logo");
        reveal_strlit("super");
        reveal_strlit("win");
    }
    if *folded == "shift".to_owned() {
        Some(Modifiers { shift: true, ..Modifiers::default() })
    } else if *folded == "ctrl".to_owned() || *folded == "control".to_owned() {
        Some(Modifiers { ctrl: true, ..Modifiers::default() })
    } else if *folded == "alt".to_owned() {
        Some(Modifiers { alt: true, ..Modifiers::default() })
    } else if *folded == "logo".to_owned() || *folded == "super".to_owned() || *folded
        == "win".to_owned() {
        Some(Modifiers { logo: true, ..Modifiers::default() })
    } else {
        None
    }
}

/// The string's only character, if it has exactly one.
fn single_char_of(s: &String) -> (r: Option<char>)
    ensures
        match r {
            Some(c) => s@.len() == 1 && c == s@[0],
            None => s@.len() != 1,
        },
{
    broadcast use vstd::string::axiom_spec_iter, vstd::string::next_postcondition;

    let mut cs = s.as_str().chars();
    proof {
        assert(cs.remaining() == s@);
    }
    let first = cs.next();
    match first {
        Some(c) => {
            let second = cs.next();
            match second {
                None => Some(c),
                Some(_) => None,
            }
        },
        None => None,
    }
}

/// Parses a configured key name: the name is folded to lower case and then
/// matched against the known keys.
pub fn parse_keysym(key: &str) -> (r: Option<Keysym>)
    ensures
        r == spec_key_for(lower_of(key@)),
{
    let folded = lowercase(key);
    match_folded_key(&folded)
}

/// Parses a configured modifier name: the name is folded to lower case and
/// then matched against the known modifiers.
pub fn parse_modifier(modifier: &str) -> (r: Option<Modifiers>)
    ensures
        r == spec_modifier_for(lower_of(modifier@)),
{
    let folded = lowercase(modifier);
    match_folded_modifier(&folded)
}

/// What the built-in default configuration holds: Logo+Return spawns a
/// terminal, Logo+Q quits.
pub open spec fn spec_default_config(c: Config) -> bool {
    &&& c.keybindings@.len() == 2
    &&& c.keybindings@[0].modifiers@.len() == 1
    &&& c.keybindings@[0].modifiers@[0]@ == "Logo"@
    &&& c.keybindings@[0].key@ == "Return"@
    &&& c.keybindings@[0].action@ == "spawn"@
    &&& match c.keybindings@[0].args {
        Some(args) => args@.len() == 1 && args@[0].0@ == "command"@ && args@[0].1@
            == "alacritty"@,
        None => false,
    }
    &&& c.keybindings@[0].args_wf()
    &&& c.keybindings@[1].modifiers@.len() == 1
    &&& c.keybindings@[1].modifiers@[0]@ == "Logo"@
    &&& c.keybindings@[1].key@ == "q"@
    &&& c.keybindings@[1].action@ == "quit"@
    &&& c.keybindings@[1].args is None
    &&& c.keybindings@[1].args_wf()
}

impl Default for Config {
    fn default() -> (r: Self)
        ensures
            spec_default_config(r),
    {
        let mut spawn_mods: Vec<String> = Vec::new();
        spawn_mods.push("Logo".to_owned());
        let mut spawn_args: Vec<(String, String)> = Vec::new();
        spawn_args.push(("command".to_owned(), "alacritty".to_owned()));
        let spawn = KeyBinding {
            modifiers: spawn_mods,
            key: "Return".to_owned(),
            action: "spawn".to_owned(),
            args: Some(spawn_args),
        };
        let mut quit_mods: Vec<String> = Vec::new();
        quit_mods.push("Logo".to_owned());
        let quit = KeyBinding {
            modifiers: quit_mods,
            key: "q".to_owned(),
            action: "quit".to_owned(),
            args: None,
        };
        let mut keybindings: Vec<KeyBinding> = Vec::new();
        keybindings.push(spawn);
        keybindings.push(quit);
        Config { keybindings }
    }
}

} // verus!
