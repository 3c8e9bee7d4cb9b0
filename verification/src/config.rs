//! Configuration: key bindings and text snippets.
//!
//! Key bindings map a key with modifiers to a named action; the defaults
//! cover tabs, the clipboard, the screen, the font size, the debug panel and
//! panes. Snippets map a trigger such as `/gs` to the text it stands for.

use vstd::prelude::*;
use crate::text::{chars_of, owned, str_eq, push_str};
use crate::strings::{lex_lt, lex_less, strictly_sorted, lemma_lex_total, lemma_lex_trans,
    lemma_lex_asymmetric, lemma_lex_irreflexive, lemma_sorted_insert};

verus! {

/// Modifier keys for key bindings
#[derive(Debug, Clone, Copy, PartialEq, Eq, Structural, Hash)]
pub struct KeyModifiers {
    pub ctrl: bool,
    pub shift: bool,
    pub alt: bool,
    pub cmd: bool,
}

impl Default for KeyModifiers {
    fn default() -> (m: Self)
        ensures
            m == (KeyModifiers { ctrl: false, shift: false, alt: false, cmd: false }),
    {
        KeyModifiers { ctrl: false, shift: false, alt: false, cmd: false }
    }
}

impl KeyModifiers {
    /// Create modifiers with no keys pressed
    pub fn none() -> (m: Self)
        ensures
            m == (KeyModifiers { ctrl: false, shift: false, alt: false, cmd: false }),
    {
        KeyModifiers { ctrl: false, shift: false, alt: false, cmd: false }
    }

    /// Create modifiers with Ctrl
    pub fn ctrl() -> (m: Self)
        ensures
            m == (KeyModifiers { ctrl: true, shift: false, alt: false, cmd: false }),
    {
        KeyModifiers { ctrl: true, shift: false, alt: false, cmd: false }
    }

    /// Create modifiers with Cmd (Command/Super)
    pub fn cmd() -> (m: Self)
        ensures
            m == (KeyModifiers { ctrl: false, shift: false, alt: false, cmd: true }),
    {
        KeyModifiers { ctrl: false, shift: false, alt: false, cmd: true }
    }

    /// Create modifiers with Shift
    pub fn shift() -> (m: Self)
        ensures
            m == (KeyModifiers { ctrl: false, shift: true, alt: false, cmd: false }),
    {
        KeyModifiers { ctrl: false, shift: true, alt: false, cmd: false }
    }

    /// Create modifiers with Ctrl+Shift
    pub fn ctrl_shift() -> (m: Self)
        ensures
            m == (KeyModifiers { ctrl: true, shift: true, alt: false, cmd: false }),
    {
        KeyModifiers { ctrl: true, shift: true, alt: false, cmd: false }
    }

    /// Create modifiers with Cmd+Shift
    pub fn cmd_shift() -> (m: Self)
        ensures
            m == (KeyModifiers { ctrl: false, shift: true, alt: false, cmd: true }),
    {
        KeyModifiers { ctrl: false, shift: true, alt: false, cmd: true }
    }
}

/// A single key binding mapping key combination to action
#[derive(Debug, Clone, PartialEq, Eq, Hash)]
pub struct KeyBinding {
    /// Key name (e.g. "t", "c", "Escape", "ArrowUp", "F12")
    pub key: String,
    /// Modifier keys (Ctrl, Shift, Alt, Cmd)
    pub modifiers: KeyModifiers,
    /// Action to execute (e.g. "new_tab", "copy", "paste")
    pub action: String,
    /// Optional description for documentation
    pub description: Option<String>,
}

/// The text of an optional string.
pub open spec fn opt_text(o: Option<String>) -> Option<Seq<char>> {
    match o {
        Some(s) => Some(s@),
        None => None,
    }
}

/// A key binding as plain values: key, modifiers, action, description.
pub open spec fn binding_view(b: KeyBinding) -> (Seq<char>, KeyModifiers, Seq<char>, Option<Seq<char>>) {
    (b.key@, b.modifiers, b.action@, opt_text(b.description))
}

/// Several key bindings as plain values.
pub open spec fn bindings_view(s: Seq<KeyBinding>) -> Seq<(Seq<char>, KeyModifiers, Seq<char>, Option<Seq<char>>)> {
    s.map_values(|b: KeyBinding| binding_view(b))
}

/// `Key` preceded by the names of the held modifiers in the order Ctrl,
/// Shift, Alt, Cmd, joined with `+`.
pub open spec fn combination(key: Seq<char>, m: KeyModifiers) -> Seq<char> {
    (if m.ctrl { "Ctrl+"@ } else { seq![] }) + (if m.shift { "Shift+"@ } else { seq![] })
        + (if m.alt { "Alt+"@ } else { seq![] }) + (if m.cmd { "Cmd+"@ } else { seq![] }) + key
}

impl KeyBinding {
    /// Create a new key binding
    pub fn new(key: String, modifiers: KeyModifiers, action: String) -> (b: Self)
        ensures
            binding_view(b) == (key@, modifiers, action@, None::<Seq<char>>),
    {
        KeyBinding { key, modifiers, action, description: None }
    }

    /// Create a new key binding with description
    pub fn with_description(key: String, modifiers: KeyModifiers, action: String, description: String) -> (b: Self)
        ensures
            binding_view(b) == (key@, modifiers, action@, Some(description@)),
    {
        KeyBinding { key, modifiers, action, description: Some(description) }
    }

    /// A copy of this binding.
    pub fn duplicate(&self) -> (b: Self)
        ensures
            binding_view(b) == binding_view(*self),
    {
        KeyBinding {
            key: owned(self.key.as_str()),
            modifiers: self.modifiers,
            action: owned(self.action.as_str()),
            description: match &self.description {
                Some(d) => Some(owned(d.as_str())),
                None => None,
            },
        }
    }

    /// Get a human-readable representation of the key combination
    pub fn key_combination(&self) -> (r: String)
        ensures
            r@ == combination(self.key@, self.modifiers),
    {
        let mut s = String::new();
        if self.modifiers.ctrl {
            push_str(&mut s, "Ctrl+");
        }
        if self.modifiers.shift {
            push_str(&mut s, "Shift+");
        }
        if self.modifiers.alt {
            push_str(&mut s, "Alt+");
        }
        if self.modifiers.cmd {
            push_str(&mut s, "Cmd+");
        }
        push_str(&mut s, self.key.as_str());
        assert(s@ =~= combination(self.key@, self.modifiers));
        s
    }
}

/// Keyboard repeat configuration
#[derive(Debug, Clone, Copy, PartialEq, Eq, Structural)]
pub struct KeyboardConfig {
    pub repeat_delay_ms: u64,
    pub repeat_rate_ms: u64,
}

impl Default for KeyboardConfig {
    fn default() -> (c: Self)
        ensures
            c.repeat_delay_ms == 500,
            c.repeat_rate_ms == 30,
    {
        KeyboardConfig { repeat_delay_ms: 500, repeat_rate_ms: 30 }
    }
}

/// Keybinding configuration
#[derive(Debug, Clone)]
pub struct KeybindingsConfig {
    /// "default", "vim" or "emacs"
    pub mode: String,
    /// Custom key to action names
    pub custom: Vec<(String, String)>,
    pub keyboard: KeyboardConfig,
    pub bindings: Vec<KeyBinding>,
}

/// The default key bindings: key, modifiers, action, description.
pub open spec fn default_binding_table() -> Seq<(Seq<char>, KeyModifiers, Seq<char>, Option<Seq<char>>)> {
    seq![
        ("t"@, KeyModifiers { ctrl: false, shift: false, alt: false, cmd: true }, "new_tab"@, Some("Open a new tab"@)),
        ("w"@, KeyModifiers { ctrl: false, shift: false, alt: false, cmd: true }, "close_tab"@, Some("Close current tab"@)),
        ("]"@, KeyModifiers { ctrl: false, shift: false, alt: false, cmd: true }, "next_tab"@, Some("Switch to next tab"@)),
        ("["@, KeyModifiers { ctrl: false, shift: false, alt: false, cmd: true }, "prev_tab"@, Some("Switch to previous tab"@)),
        ("d"@, KeyModifiers { ctrl: false, shift: true, alt: false, cmd: true }, "duplicate_tab"@, Some("Duplicate current tab"@)),
        ("1"@, KeyModifiers { ctrl: false, shift: false, alt: false, cmd: true }, "select_tab_1"@, None),
        ("2"@, KeyModifiers { ctrl: false, shift: false, alt: false, cmd: true }, "select_tab_2"@, None),
        ("3"@, KeyModifiers { ctrl: false, shift: false, alt: false, cmd: true }, "select_tab_3"@, None),
        ("4"@, KeyModifiers { ctrl: false, shift: false, alt: false, cmd: true }, "select_tab_4"@, None),
        ("5"@, KeyModifiers { ctrl: false, shift: false, alt: false, cmd: true }, "select_tab_5"@, None),
        ("6"@, KeyModifiers { ctrl: false, shift: false, alt: false, cmd: true }, "select_tab_6"@, None),
        ("7"@, KeyModifiers { ctrl: false, shift: false, alt: false, cmd: true }, "select_tab_7"@, None),
        ("8"@, KeyModifiers { ctrl: false, shift: false, alt: false, cmd: true }, "select_tab_8"@, None),
        ("9"@, KeyModifiers { ctrl: false, shift: false, alt: false, cmd: true }, "select_tab_9"@, None),
        ("c"@, KeyModifiers { ctrl: false, shift: true, alt: false, cmd: true }, "force_copy"@, Some("Force copy selection"@)),
        ("v"@, KeyModifiers { ctrl: false, shift: false, alt: false, cmd: true }, "paste"@, Some("Paste from clipboard"@)),
        ("v"@, KeyModifiers { ctrl: false, shift: true, alt: false, cmd: true }, "force_paste"@, Some("Force paste without bracketed paste"@)),
        ("k"@, KeyModifiers { ctrl: false, shift: false, alt: false, cmd: true }, "clear_screen"@, Some("Clear terminal screen"@)),
        ("Home"@, KeyModifiers { ctrl: false, shift: false, alt: false, cmd: true }, "scroll_to_top"@, Some("Scroll to top"@)),
        ("End"@, KeyModifiers { ctrl: false, shift: false, alt: false, cmd: true }, "scroll_to_bottom"@, Some("Scroll to bottom"@)),
        ("+"@, KeyModifiers { ctrl: false, shift: false, alt: false, cmd: true }, "increase_font_size"@, Some("Increase font size"@)),
        ("="@, KeyModifiers { ctrl: false, shift: false, alt: false, cmd: true }, "increase_font_size"@, Some("Increase font size"@)),
        ("-"@, KeyModifiers { ctrl: false, shift: false, alt: false, cmd: true }, "decrease_font_size"@, Some("Decrease font size"@)),
        ("0"@, KeyModifiers { ctrl: false, shift: false, alt: false, cmd: true }, "reset_font_size"@, Some("Reset font size"@)),
        ("d"@, KeyModifiers { ctrl: false, shift: false, alt: false, cmd: true }, "toggle_debug_panel"@, Some("Toggle debug panel"@)),
        ("F12"@, KeyModifiers { ctrl: false, shift: false, alt: false, cmd: false }, "toggle_debug_panel"@, Some("Toggle debug panel"@)),
        ("h"@, KeyModifiers { ctrl: false, shift: true, alt: false, cmd: true }, "split_horizontal"@, Some("Split pane horizontally"@)),
        ("|"@, KeyModifiers { ctrl: false, shift: true, alt: false, cmd: true }, "split_vertical"@, Some("Split pane vertically"@)),
    ]
}

/// The bindings of `s` (as plain values) other than those on `key` with
/// modifiers `m`, in order.
pub open spec fn drop_keys(s: Seq<(Seq<char>, KeyModifiers, Seq<char>, Option<Seq<char>>)>, key: Seq<char>, m: KeyModifiers)
    -> Seq<(Seq<char>, KeyModifiers, Seq<char>, Option<Seq<char>>)>
    decreases s.len(),
{
    if s.len() == 0 {
        seq![]
    } else {
        let r = drop_keys(s.drop_last(), key, m);
        if s.last().0 == key && s.last().1 == m {
            r
        } else {
            r.push(s.last())
        }
    }
}

/// The bindings `base` with the `custom` ones merged in, in turn: each
/// custom binding replaces those on its key and modifiers and comes last.
pub open spec fn merged(base: Seq<(Seq<char>, KeyModifiers, Seq<char>, Option<Seq<char>>)>,
    custom: Seq<(Seq<char>, KeyModifiers, Seq<char>, Option<Seq<char>>)>) -> Seq<(Seq<char>, KeyModifiers, Seq<char>, Option<Seq<char>>)>
    decreases custom.len(),
{
    if custom.len() == 0 {
        base
    } else {
        let c = custom.last();
        drop_keys(merged(base, custom.drop_last()), c.0, c.1).push(c)
    }
}

/// Whether two bindings claim the same key with the same modifiers.
pub open spec fn same_keys(a: KeyBinding, b: KeyBinding) -> bool {
    a.key@ == b.key@ && a.modifiers == b.modifiers
}

/// Whether `j` is the first binding before `i` that claims the same keys as
/// binding `i`.
pub open spec fn first_claim(s: Seq<KeyBinding>, i: int, j: int) -> bool {
    0 <= j < i && same_keys(s[j], s[i]) && forall|k: int| 0 <= k < j ==> !same_keys(#[trigger] s[k], s[i])
}

/// The conflicts among some bindings, in order: each binding whose keys an
/// earlier binding already claims, paired with the first such binding.
pub open spec fn conflicts_of(s: Seq<KeyBinding>) -> Seq<((Seq<char>, KeyModifiers, Seq<char>, Option<Seq<char>>), (Seq<char>, KeyModifiers, Seq<char>, Option<Seq<char>>))>
    decreases s.len(),
{
    if s.len() == 0 {
        seq![]
    } else {
        let i = s.len() - 1;
        let rest = conflicts_of(s.drop_last());
        if exists|j: int| first_claim(s, i, j) {
            let j = choose|j: int| first_claim(s, i, j);
            rest.push((binding_view(s[i]), binding_view(s[j])))
        } else {
            rest
        }
    }
}

/// Where an earlier binding claims the keys of binding `i`, there is a
/// first one that does.
proof fn lemma_first_claim_exists(s: Seq<KeyBinding>, i: int, j: int)
    requires
        0 <= j < i < s.len(),
        same_keys(s[j], s[i]),
    ensures
        exists|k: int| first_claim(s, i, k),
    decreases j,
{
    if forall|k: int| 0 <= k < j ==> !same_keys(#[trigger] s[k], s[i]) {
        assert(first_claim(s, i, j));
    } else {
        let k = choose|k: int| 0 <= k < j && !!same_keys(#[trigger] s[k], s[i]);
        lemma_first_claim_exists(s, i, k);
    }
}

/// Some bindings have no conflict exactly when no two of them claim the
/// same key with the same modifiers.
pub proof fn lemma_no_conflicts_iff_distinct_keys(s: Seq<KeyBinding>)
    ensures
        conflicts_of(s).len() == 0 <==> forall|i: int, j: int| 0 <= i < j < s.len() ==> !same_keys(#[trigger] s[i], #[trigger] s[j]),
    decreases s.len(),
{
    if s.len() > 0 {
        let d = s.drop_last();
        let last = s.len() - 1;
        lemma_no_conflicts_iff_distinct_keys(d);
        if conflicts_of(s).len() == 0 {
            assert(!exists|j: int| first_claim(s, last, j));
            assert(conflicts_of(d).len() == 0);
            assert forall|i: int, j: int| 0 <= i < j < s.len() implies !same_keys(#[trigger] s[i], #[trigger] s[j]) by {
                if j < last {
                    assert(s[i] == d[i] && s[j] == d[j]);
                } else if same_keys(s[i], s[j]) {
                    lemma_first_claim_exists(s, last, i);
                }
            }
        } else {
            if forall|i: int, j: int| 0 <= i < j < s.len() ==> !same_keys(#[trigger] s[i], #[trigger] s[j]) {
                assert forall|i: int, j: int| 0 <= i < j < d.len() implies !same_keys(#[trigger] d[i], #[trigger] d[j]) by {
                    assert(s[i] == d[i] && s[j] == d[j]);
                }
                assert(!exists|j: int| first_claim(s, last, j));
            }
        }
    }
}

/// The first binding before binding `i` that claims its keys.
fn first_claim_of(bindings: &[KeyBinding], i: usize) -> (r: Option<usize>)
    requires
        i < bindings@.len(),
    ensures
        match r {
            Some(j) => first_claim(bindings@, i as int, j as int),
            None => forall|k: int| 0 <= k < i ==> !same_keys(#[trigger] bindings@[k], bindings@[i as int]),
        },
{
    let mut j: usize = 0;
    while j < i
        invariant
            j <= i < bindings@.len(),
            forall|k: int| 0 <= k < j ==> !same_keys(#[trigger] bindings@[k], bindings@[i as int]),
        decreases i - j,
    {
        if str_eq(bindings[j].key.as_str(), bindings[i].key.as_str()) && bindings[j].modifiers == bindings[i].modifiers {
            return Some(j);
        }
        j = j + 1;
    }
    None
}

/// The first binding of `key` with exactly `modifiers`, if any.
pub open spec fn first_binding(s: Seq<KeyBinding>, key: Seq<char>, m: KeyModifiers, i: int) -> bool {
    0 <= i < s.len() && s[i].key@ == key && s[i].modifiers == m
        && forall|k: int| 0 <= k < i ==> !(#[trigger] s[k].key@ == key && s[k].modifiers == m)
}

/// The bindings for an action, in order.
pub open spec fn for_action(s: Seq<KeyBinding>, action: Seq<char>) -> Seq<KeyBinding>
    decreases s.len(),
{
    if s.len() == 0 {
        seq![]
    } else if s.last().action@ == action {
        for_action(s.drop_last(), action).push(s.last())
    } else {
        for_action(s.drop_last(), action)
    }
}

impl Default for KeybindingsConfig {
    fn default() -> (c: Self)
        ensures
            c.mode@ == "default"@,
            c.custom@.len() == 0,
            c.keyboard.repeat_delay_ms == 500,
            c.keyboard.repeat_rate_ms == 30,
            bindings_view(c.bindings@) == default_binding_table(),
    {
        KeybindingsConfig {
            mode: owned("default"),
            custom: Vec::new(),
            keyboard: KeyboardConfig::default(),
            bindings: KeybindingsConfig::default_bindings(),
        }
    }
}

impl KeybindingsConfig {
    /// Get default key bindings
    pub fn default_bindings() -> (v: Vec<KeyBinding>)
        ensures
            bindings_view(v@) == default_binding_table(),
    {
        let mut v: Vec<KeyBinding> = Vec::new();
        v.push(KeyBinding::with_description(owned("t"), KeyModifiers::cmd(), owned("new_tab"), owned("Open a new tab")));
        v.push(KeyBinding::with_description(owned("w"), KeyModifiers::cmd(), owned("close_tab"), owned("Close current tab")));
        v.push(KeyBinding::with_description(owned("]"), KeyModifiers::cmd(), owned("next_tab"), owned("Switch to next tab")));
        v.push(KeyBinding::with_description(owned("["), KeyModifiers::cmd(), owned("prev_tab"), owned("Switch to previous tab")));
        v.push(KeyBinding::with_description(owned("d"), KeyModifiers::cmd_shift(), owned("duplicate_tab"), owned("Duplicate current tab")));
        v.push(KeyBinding::new(owned("1"), KeyModifiers::cmd(), owned("select_tab_1")));
        v.push(KeyBinding::new(owned("2"), KeyModifiers::cmd(), owned("select_tab_2")));
        v.push(KeyBinding::new(owned("3"), KeyModifiers::cmd(), owned("select_tab_3")));
        v.push(KeyBinding::new(owned("4"), KeyModifiers::cmd(), owned("select_tab_4")));
        v.push(KeyBinding::new(owned("5"), KeyModifiers::cmd(), owned("select_tab_5")));
        v.push(KeyBinding::new(owned("6"), KeyModifiers::cmd(), owned("select_tab_6")));
        v.push(KeyBinding::new(owned("7"), KeyModifiers::cmd(), owned("select_tab_7")));
        v.push(KeyBinding::new(owned("8"), KeyModifiers::cmd(), owned("select_tab_8")));
        v.push(KeyBinding::new(owned("9"), KeyModifiers::cmd(), owned("select_tab_9")));
        v.push(KeyBinding::with_description(owned("c"), KeyModifiers::cmd_shift(), owned("force_copy"), owned("Force copy selection")));
        v.push(KeyBinding::with_description(owned("v"), KeyModifiers::cmd(), owned("paste"), owned("Paste from clipboard")));
        v.push(KeyBinding::with_description(owned("v"), KeyModifiers::cmd_shift(), owned("force_paste"), owned("Force paste without bracketed paste")));
        v.push(KeyBinding::with_description(owned("k"), KeyModifiers::cmd(), owned("clear_screen"), owned("Clear terminal screen")));
        v.push(KeyBinding::with_description(owned("Home"), KeyModifiers::cmd(), owned("scroll_to_top"), owned("Scroll to top")));
        v.push(KeyBinding::with_description(owned("End"), KeyModifiers::cmd(), owned("scroll_to_bottom"), owned("Scroll to bottom")));
        v.push(KeyBinding::with_description(owned("+"), KeyModifiers::cmd(), owned("increase_font_size"), owned("Increase font size")));
        v.push(KeyBinding::with_description(owned("="), KeyModifiers::cmd(), owned("increase_font_size"), owned("Increase font size")));
        v.push(KeyBinding::with_description(owned("-"), KeyModifiers::cmd(), owned("decrease_font_size"), owned("Decrease font size")));
        v.push(KeyBinding::with_description(owned("0"), KeyModifiers::cmd(), owned("reset_font_size"), owned("Reset font size")));
        v.push(KeyBinding::with_description(owned("d"), KeyModifiers::cmd(), owned("toggle_debug_panel"), owned("Toggle debug panel")));
        v.push(KeyBinding::with_description(owned("F12"), KeyModifiers::none(), owned("toggle_debug_panel"), owned("Toggle debug panel")));
        v.push(KeyBinding::with_description(owned("h"), KeyModifiers::cmd_shift(), owned("split_horizontal"), owned("Split pane horizontally")));
        v.push(KeyBinding::with_description(owned("|"), KeyModifiers::cmd_shift(), owned("split_vertical"), owned("Split pane vertically")));
        assert(bindings_view(v@) =~= default_binding_table());
        v
    }

    /// Check for conflicting keybindings: each binding whose key and
    /// modifiers an earlier binding already has, with the first such one.
    pub fn detect_conflicts(bindings: &[KeyBinding]) -> (r: Vec<(KeyBinding, KeyBinding)>)
        ensures
            r@.len() == conflicts_of(bindings@).len(),
            forall|i: int| 0 <= i < r@.len() ==>
                (binding_view(#[trigger] r@[i].0), binding_view(r@[i].1)) == conflicts_of(bindings@)[i],
    {
        let mut r: Vec<(KeyBinding, KeyBinding)> = Vec::new();
        let mut i: usize = 0;
        while i < bindings.len()
            invariant
                i <= bindings@.len(),
                r@.len() == conflicts_of(bindings@.subrange(0, i as int)).len(),
                forall|k: int| 0 <= k < r@.len() ==>
                    (binding_view(#[trigger] r@[k].0), binding_view(r@[k].1)) == conflicts_of(bindings@.subrange(0, i as int))[k],
            decreases bindings.len() - i,
        {
            let ghost sub = bindings@.subrange(0, i + 1);
            assert(sub.drop_last() =~= bindings@.subrange(0, i as int));
            let found = first_claim_of(bindings, i);
            proof {
                assert forall|k: int| 0 <= k < sub.len() implies #[trigger] sub[k] == bindings@[k] by {}
            }
            match found {
                Some(j) => {
                    assert(sub[j as int] == bindings@[j as int]);
                    assert(sub[i as int] == bindings@[i as int]);
                    assert forall|k: int| 0 <= k < j implies !same_keys(#[trigger] sub[k], sub[i as int]) by {
                        assert(sub[k] == bindings@[k]);
                    }
                    assert(first_claim(sub, i as int, j as int));
                    proof {
                        let c = choose|c: int| first_claim(sub, i as int, c);
                        if c < j {
                            assert(!same_keys(sub[c], sub[i as int]));
                        } else if c > j {
                            assert(!same_keys(sub[j as int], sub[i as int]));
                        }
                    }
                    let a = bindings[i].duplicate();
                    let b = bindings[j].duplicate();
                    r.push((a, b));
                },
                None => {
                    assert(!exists|c: int| first_claim(sub, i as int, c)) by {
                        if exists|c: int| first_claim(sub, i as int, c) {
                            let c = choose|c: int| first_claim(sub, i as int, c);
                            assert(sub[c] == bindings@[c]);
                            assert(sub[i as int] == bindings@[i as int]);
                            assert(!same_keys(bindings@[c], bindings@[i as int]));
                        }
                    }
                },
            }
            i = i + 1;
        }
        assert(bindings@.subrange(0, bindings@.len() as int) =~= bindings@);
        r
    }

    /// Merges custom bindings into others, in turn: each custom binding
    /// replaces any with the same key and modifiers and comes last.
    pub fn merge_bindings(bindings: Vec<KeyBinding>, custom: Vec<KeyBinding>) -> (r: Vec<KeyBinding>)
        ensures
            bindings_view(r@) == merged(bindings_view(bindings@), bindings_view(custom@)),
    {
        let ghost base = bindings_view(bindings@);
        let ghost cv = bindings_view(custom@);
        let mut cur = bindings;
        let mut i: usize = 0;
        assert(cv.subrange(0, 0) =~= Seq::<(Seq<char>, KeyModifiers, Seq<char>, Option<Seq<char>>)>::empty());
        while i < custom.len()
            invariant
                i <= custom@.len(),
                cv == bindings_view(custom@),
                bindings_view(cur@) == merged(base, cv.subrange(0, i as int)),
            decreases custom.len() - i,
        {
            let c = &custom[i];
            let mut next: Vec<KeyBinding> = Vec::new();
            let mut j: usize = 0;
            while j < cur.len()
                invariant
                    j <= cur@.len(),
                    bindings_view(next@) == drop_keys(bindings_view(cur@.subrange(0, j as int)), c.key@, c.modifiers),
                decreases cur.len() - j,
            {
                assert(bindings_view(cur@.subrange(0, j + 1)).drop_last() =~= bindings_view(cur@.subrange(0, j as int)));
                assert(bindings_view(cur@.subrange(0, j + 1)).last() == binding_view(cur@[j as int]));
                if !(str_eq(cur[j].key.as_str(), c.key.as_str()) && cur[j].modifiers == c.modifiers) {
                    let b = cur[j].duplicate();
                    next.push(b);
                    assert(bindings_view(next@) =~= drop_keys(bindings_view(cur@.subrange(0, j as int)), c.key@, c.modifiers)
                        .push(binding_view(cur@[j as int])));
                }
                j = j + 1;
            }
            assert(cur@.subrange(0, cur@.len() as int) =~= cur@);
            let d = c.duplicate();
            next.push(d);
            proof {
                let sub = cv.subrange(0, i + 1);
                assert(sub.drop_last() =~= cv.subrange(0, i as int));
                assert(sub.last() == binding_view(custom@[i as int]));
                assert(bindings_view(next@) =~= merged(base, sub));
            }
            cur = next;
            i = i + 1;
        }
        assert(cv.subrange(0, cv.len() as int) =~= cv);
        cur
    }

    /// Find binding by key combination
    pub fn find_binding(&self, key: &str, modifiers: &KeyModifiers) -> (r: Option<&KeyBinding>)
        ensures
            match r {
                Some(b) => exists|i: int| first_binding(self.bindings@, key@, *modifiers, i) && *b == self.bindings@[i],
                None => forall|i: int| 0 <= i < self.bindings@.len() ==>
                    !(#[trigger] self.bindings@[i].key@ == key@ && self.bindings@[i].modifiers == *modifiers),
            },
    {
        let mut i: usize = 0;
        while i < self.bindings.len()
            invariant
                i <= self.bindings@.len(),
                forall|k: int| 0 <= k < i ==> !(#[trigger] self.bindings@[k].key@ == key@ && self.bindings@[k].modifiers == *modifiers),
            decreases self.bindings.len() - i,
        {
            if str_eq(self.bindings[i].key.as_str(), key) && self.bindings[i].modifiers == *modifiers {
                assert(first_binding(self.bindings@, key@, *modifiers, i as int));
                return Some(&self.bindings[i]);
            }
            i = i + 1;
        }
        None
    }

    /// Get all bindings for a specific action
    pub fn bindings_for_action(&self, action: &str) -> (r: Vec<&KeyBinding>)
        ensures
            r@.len() == for_action(self.bindings@, action@).len(),
            forall|i: int| 0 <= i < r@.len() ==> *(#[trigger] r@[i]) == for_action(self.bindings@, action@)[i],
    {
        let mut r: Vec<&KeyBinding> = Vec::new();
        let mut i: usize = 0;
        while i < self.bindings.len()
            invariant
                i <= self.bindings@.len(),
                r@.len() == for_action(self.bindings@.subrange(0, i as int), action@).len(),
                forall|k: int| 0 <= k < r@.len() ==> *(#[trigger] r@[k]) == for_action(self.bindings@.subrange(0, i as int), action@)[k],
            decreases self.bindings.len() - i,
        {
            assert(self.bindings@.subrange(0, i + 1).drop_last() =~= self.bindings@.subrange(0, i as int));
            if str_eq(self.bindings[i].action.as_str(), action) {
                r.push(&self.bindings[i]);
            }
            i = i + 1;
        }
        assert(self.bindings@.subrange(0, self.bindings@.len() as int) =~= self.bindings@);
        r
    }
}

/// A snippet that can be triggered to insert text
#[derive(Debug, Clone, PartialEq)]
pub struct Snippet {
    /// Snippet name (for display/search)
    pub name: String,
    /// Trigger string (e.g. "/gs")
    pub trigger: String,
    /// Content to insert when triggered
    pub content: String,
    /// Category for organization (e.g. "git", "docker", "custom")
    pub category: String,
}

/// A snippet as plain values: name, trigger, content, category.
pub open spec fn snippet_view(s: Snippet) -> (Seq<char>, Seq<char>, Seq<char>, Seq<char>) {
    (s.name@, s.trigger@, s.content@, s.category@)
}

/// Several snippets as plain values.
pub open spec fn snippets_view(s: Seq<Snippet>) -> Seq<(Seq<char>, Seq<char>, Seq<char>, Seq<char>)> {
    s.map_values(|x: Snippet| snippet_view(x))
}

/// The default snippets: name, trigger, content, category.
pub open spec fn default_snippet_table() -> Seq<(Seq<char>, Seq<char>, Seq<char>, Seq<char>)> {
    seq![
        ("Git Status"@, "/gs"@, "git status"@, "git"@),
        ("Git Add All"@, "/ga"@, "git add ."@, "git"@),
        ("Git Commit"@, "/gc"@, "git commit -m \""@, "git"@),
        ("Git Push"@, "/gp"@, "git push"@, "git"@),
        ("Git Pull"@, "/gpl"@, "git pull"@, "git"@),
        ("Git Log"@, "/gl"@, "git log --oneline -10"@, "git"@),
        ("Git Diff"@, "/gd"@, "git diff"@, "git"@),
        ("Git Branch"@, "/gb"@, "git branch"@, "git"@),
        ("Git Checkout"@, "/gco"@, "git checkout "@, "git"@),
        ("Docker PS"@, "/dps"@, "docker ps"@, "docker"@),
        ("Docker Images"@, "/di"@, "docker images"@, "docker"@),
        ("Docker Compose Up"@, "/dcu"@, "docker-compose up -d"@, "docker"@),
        ("Docker Compose Down"@, "/dcd"@, "docker-compose down"@, "docker"@),
        ("Docker Logs"@, "/dlogs"@, "docker logs -f "@, "docker"@),
        ("List Files Long"@, "/ll"@, "ls -lah"@, "common"@),
        ("Find File"@, "/ff"@, "find . -name "@, "common"@),
        ("Grep Recursive"@, "/gr"@, "grep -r \"\" ."@, "common"@),
        ("Kubectl Get Pods"@, "/kgp"@, "kubectl get pods"@, "kubernetes"@),
        ("Kubectl Describe"@, "/kdesc"@, "kubectl describe pod "@, "kubernetes"@),
        ("Kubectl Logs"@, "/klogs"@, "kubectl logs -f "@, "kubernetes"@),
        ("Cargo Build"@, "/cb"@, "cargo build"@, "cargo"@),
        ("Cargo Run"@, "/cr"@, "cargo run"@, "cargo"@),
        ("Cargo Test"@, "/ct"@, "cargo test"@, "cargo"@),
        ("Cargo Check"@, "/cc"@, "cargo check"@, "cargo"@),
    ]
}

/// The snippets of a category, in order.
pub open spec fn in_category(s: Seq<Snippet>, category: Seq<char>) -> Seq<Snippet>
    decreases s.len(),
{
    if s.len() == 0 {
        seq![]
    } else if s.last().category@ == category {
        in_category(s.drop_last(), category).push(s.last())
    } else {
        in_category(s.drop_last(), category)
    }
}

/// The texts of some strings.
pub open spec fn texts(v: Seq<String>) -> Seq<Seq<char>> {
    v.map_values(|x: String| x@)
}

/// Whether one of the first `n` snippets has category `c`.
pub open spec fn category_among(s: Seq<Snippet>, c: Seq<char>, n: int) -> bool {
    exists|i: int| 0 <= i < n && (#[trigger] s[i]).category@ == c
}

impl Snippet {
    /// Create a new snippet
    pub fn new(name: String, trigger: String, content: String, category: String) -> (s: Self)
        ensures
            snippet_view(s) == (name@, trigger@, content@, category@),
    {
        Snippet { name, trigger, content, category }
    }

    /// Get default snippets (git, docker, etc.)
    pub fn default_snippets() -> (v: Vec<Snippet>)
        ensures
            snippets_view(v@) == default_snippet_table(),
    {
        let mut v: Vec<Snippet> = Vec::new();
        v.push(Snippet::new(owned("Git Status"), owned("/gs"), owned("git status"), owned("git")));
        v.push(Snippet::new(owned("Git Add All"), owned("/ga"), owned("git add ."), owned("git")));
        v.push(Snippet::new(owned("Git Commit"), owned("/gc"), owned("git commit -m \""), owned("git")));
        v.push(Snippet::new(owned("Git Push"), owned("/gp"), owned("git push"), owned("git")));
        v.push(Snippet::new(owned("Git Pull"), owned("/gpl"), owned("git pull"), owned("git")));
        v.push(Snippet::new(owned("Git Log"), owned("/gl"), owned("git log --oneline -10"), owned("git")));
        v.push(Snippet::new(owned("Git Diff"), owned("/gd"), owned("git diff"), owned("git")));
        v.push(Snippet::new(owned("Git Branch"), owned("/gb"), owned("git branch"), owned("git")));
        v.push(Snippet::new(owned("Git Checkout"), owned("/gco"), owned("git checkout "), owned("git")));
        v.push(Snippet::new(owned("Docker PS"), owned("/dps"), owned("docker ps"), owned("docker")));
        v.push(Snippet::new(owned("Docker Images"), owned("/di"), owned("docker images"), owned("docker")));
        v.push(Snippet::new(owned("Docker Compose Up"), owned("/dcu"), owned("docker-compose up -d"), owned("docker")));
        v.push(Snippet::new(owned("Docker Compose Down"), owned("/dcd"), owned("docker-compose down"), owned("docker")));
        v.push(Snippet::new(owned("Docker Logs"), owned("/dlogs"), owned("docker logs -f "), owned("docker")));
        v.push(Snippet::new(owned("List Files Long"), owned("/ll"), owned("ls -lah"), owned("common")));
        v.push(Snippet::new(owned("Find File"), owned("/ff"), owned("find . -name "), owned("common")));
        v.push(Snippet::new(owned("Grep Recursive"), owned("/gr"), owned("grep -r \"\" ."), owned("common")));
        v.push(Snippet::new(owned("Kubectl Get Pods"), owned("/kgp"), owned("kubectl get pods"), owned("kubernetes")));
        v.push(Snippet::new(owned("Kubectl Describe"), owned("/kdesc"), owned("kubectl describe pod "), owned("kubernetes")));
        v.push(Snippet::new(owned("Kubectl Logs"), owned("/klogs"), owned("kubectl logs -f "), owned("kubernetes")));
        v.push(Snippet::new(owned("Cargo Build"), owned("/cb"), owned("cargo build"), owned("cargo")));
        v.push(Snippet::new(owned("Cargo Run"), owned("/cr"), owned("cargo run"), owned("cargo")));
        v.push(Snippet::new(owned("Cargo Test"), owned("/ct"), owned("cargo test"), owned("cargo")));
        v.push(Snippet::new(owned("Cargo Check"), owned("/cc"), owned("cargo check"), owned("cargo")));
        assert(snippets_view(v@) =~= default_snippet_table());
        v
    }

    /// Find the first snippet with the trigger
    pub fn find_by_trigger<'a>(snippets: &'a [Snippet], trigger: &str) -> (r: Option<&'a Snippet>)
        ensures
            match r {
                Some(s) => exists|i: int| 0 <= i < snippets@.len() && *s == snippets@[i] && s.trigger@ == trigger@
                    && forall|k: int| 0 <= k < i ==> (#[trigger] snippets@[k]).trigger@ != trigger@,
                None => forall|k: int| 0 <= k < snippets@.len() ==> (#[trigger] snippets@[k]).trigger@ != trigger@,
            },
    {
        let mut i: usize = 0;
        while i < snippets.len()
            invariant
                i <= snippets@.len(),
                forall|k: int| 0 <= k < i ==> (#[trigger] snippets@[k]).trigger@ != trigger@,
            decreases snippets.len() - i,
        {
            if str_eq(snippets[i].trigger.as_str(), trigger) {
                return Some(&snippets[i]);
            }
            i = i + 1;
        }
        None
    }

    /// Find snippets by category, in order
    pub fn find_by_category<'a>(snippets: &'a [Snippet], category: &str) -> (r: Vec<&'a Snippet>)
        ensures
            r@.len() == in_category(snippets@, category@).len(),
            forall|i: int| 0 <= i < r@.len() ==> *(#[trigger] r@[i]) == in_category(snippets@, category@)[i],
    {
        let mut r: Vec<&Snippet> = Vec::new();
        let mut i: usize = 0;
        while i < snippets.len()
            invariant
                i <= snippets@.len(),
                r@.len() == in_category(snippets@.subrange(0, i as int), category@).len(),
                forall|k: int| 0 <= k < r@.len() ==> *(#[trigger] r@[k]) == in_category(snippets@.subrange(0, i as int), category@)[k],
            decreases snippets.len() - i,
        {
            assert(snippets@.subrange(0, i + 1).drop_last() =~= snippets@.subrange(0, i as int));
            if str_eq(snippets[i].category.as_str(), category) {
                r.push(&snippets[i]);
            }
            i = i + 1;
        }
        assert(snippets@.subrange(0, snippets@.len() as int) =~= snippets@);
        r
    }

    /// Get all unique categories, sorted
    pub fn get_categories(snippets: &[Snippet]) -> (r: Vec<String>)
        ensures
            strictly_sorted(texts(r@)),
            forall|c: Seq<char>| #[trigger] texts(r@).contains(c) <==> category_among(snippets@, c, snippets@.len() as int),
    {
        let mut r: Vec<String> = Vec::new();
        let mut i: usize = 0;
        while i < snippets.len()
            invariant
                i <= snippets@.len(),
                strictly_sorted(texts(r@)),
                forall|c: Seq<char>| #[trigger] texts(r@).contains(c) <==> category_among(snippets@, c, i as int),
            decreases snippets.len() - i,
        {
            let cat = chars_of(snippets[i].category.as_str());
            let ghost keys = texts(r@);
            let mut k: usize = 0;
            while k < r.len() && lex_less(&chars_of(r[k].as_str()), &cat)
                invariant
                    k <= r@.len(),
                    keys == texts(r@),
                    forall|j: int| 0 <= j < k ==> lex_lt(#[trigger] keys[j], cat@),
                decreases r.len() - k,
            {
                k = k + 1;
            }
            let present = k < r.len() && str_eq(r[k].as_str(), snippets[i].category.as_str());
            if !present {
                proof {
                    assert forall|j: int| k <= j < keys.len() implies lex_lt(cat@, #[trigger] keys[j]) by {
                        if j == k {
                            lemma_lex_total(keys[j], cat@);
                        } else {
                            assert(lex_lt(keys[k as int], keys[j]));
                            lemma_lex_total(keys[k as int], cat@);
                            if keys[k as int] != cat@ {
                                lemma_lex_trans(cat@, keys[k as int], keys[j]);
                            }
                        }
                    }
                    lemma_sorted_insert(keys, cat@, k as int);
                }
                r.insert(k, owned(snippets[i].category.as_str()));
                proof {
                    assert(texts(r@) =~= keys.insert(k as int, cat@));
                    assert forall|c: Seq<char>| #[trigger] texts(r@).contains(c) <==> category_among(snippets@, c, i + 1) by {
                        let nk = texts(r@);
                        if nk.contains(c) {
                            let w = choose|w: int| 0 <= w < nk.len() && nk[w] == c;
                            if w != k {
                                let w2 = if w < k { w } else { w - 1 };
                                assert(keys[w2] == c);
                                assert(keys.contains(c));
                                assert(category_among(snippets@, c, i as int));
                                let m = choose|m: int| 0 <= m < i && (#[trigger] snippets@[m]).category@ == c;
                                assert(snippets@[m].category@ == c);
                            } else {
                                assert(snippets@[i as int].category@ == c);
                            }
                        }
                        if category_among(snippets@, c, i + 1) {
                            let m = choose|m: int| 0 <= m < i + 1 && (#[trigger] snippets@[m]).category@ == c;
                            if m < i {
                                assert(category_among(snippets@, c, i as int));
                                assert(keys.contains(c));
                                let w = choose|w: int| 0 <= w < keys.len() && keys[w] == c;
                                if w < k {
                                    assert(nk[w] == c);
                                } else {
                                    assert(nk[w + 1] == c);
                                }
                            } else {
                                assert(nk[k as int] == c);
                            }
                        }
                    }
                }
            } else {
                proof {
                    assert(keys[k as int] == cat@);
                    assert forall|c: Seq<char>| #[trigger] texts(r@).contains(c) <==> category_among(snippets@, c, i + 1) by {
                        if keys.contains(c) {
                            assert(category_among(snippets@, c, i as int));
                            let m = choose|m: int| 0 <= m < i && (#[trigger] snippets@[m]).category@ == c;
                            assert(snippets@[m].category@ == c);
                        }
                        if category_among(snippets@, c, i + 1) {
                            let m = choose|m: int| 0 <= m < i + 1 && (#[trigger] snippets@[m]).category@ == c;
                            if m == i {
                                assert(keys[k as int] == c);
                            } else {
                                assert(category_among(snippets@, c, i as int));
                            }
                        }
                    }
                }
            }
            i = i + 1;
        }
        r
    }
}

} // verus!
