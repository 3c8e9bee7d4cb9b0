//! Broadcasting input to several terminals: groups of terminals, the one
//! group that is active, and which terminals receive a key press.

use vstd::prelude::*;
use crate::automation::byte_len_capped;
use crate::fmt::byte_len;
use crate::text::{chars_of, owned, str_eq};

verus! {

/// Errors that can occur during broadcast operations
#[derive(Debug, Clone)]
pub enum BroadcastError {
    GroupNotFound(String),
    TerminalNotFound(u128),
    GroupAlreadyExists(String),
    TerminalAlreadyInGroup { terminal_id: u128, group_name: String },
    TerminalNotInGroup { terminal_id: u128, group_name: String },
    CannotRemoveLastTerminal,
    InvalidGroupName(String),
}

/// Broadcast mode determines how input is sent to terminals
#[derive(Debug, Clone, Copy, PartialEq, Eq, Structural)]
pub enum BroadcastMode {
    /// All input is broadcast to group members
    Full,
    /// Only specific key combinations trigger broadcasts
    Selective,
    /// Broadcast is disabled
    Disabled,
}

/// Key modifier for selective broadcast triggers
#[derive(Debug, Clone, Copy, PartialEq, Eq, Structural)]
pub struct BroadcastTrigger {
    /// Require Ctrl key
    pub ctrl: bool,
    /// Require Alt key
    pub alt: bool,
    /// Require Shift key
    pub shift: bool,
    /// Require Command/Super key
    pub command: bool,
}

impl BroadcastTrigger {
    /// Create a new trigger with Ctrl+Shift (default for selective mode)
    pub fn default_selective() -> (t: Self)
        ensures
            t == (BroadcastTrigger { ctrl: true, alt: false, shift: true, command: false }),
    {
        BroadcastTrigger { ctrl: true, alt: false, shift: true, command: false }
    }

    /// Check if the given modifiers match this trigger
    pub fn matches(&self, ctrl: bool, alt: bool, shift: bool, command: bool) -> (r: bool)
        ensures
            r == (self.ctrl == ctrl && self.alt == alt && self.shift == shift && self.command == command),
    {
        self.ctrl == ctrl && self.alt == alt && self.shift == shift && self.command == command
    }
}

/// No identifier occurs twice.
pub open spec fn no_dups(s: Seq<u128>) -> bool {
    forall|i: int, j: int| 0 <= i < j < s.len() ==> s[i] != s[j]
}

/// The identifiers with every occurrence of `x` taken out.
pub open spec fn without_id(s: Seq<u128>, x: u128) -> Seq<u128>
    decreases s.len(),
{
    if s.len() == 0 {
        seq![]
    } else if s.last() == x {
        without_id(s.drop_last(), x)
    } else {
        without_id(s.drop_last(), x).push(s.last())
    }
}

/// Taking an identifier out keeps the others, without duplicates.
pub proof fn lemma_without_id(s: Seq<u128>, x: u128)
    requires
        no_dups(s),
    ensures
        no_dups(without_id(s, x)),
        forall|y: u128| #![trigger without_id(s, x).contains(y)] #![trigger s.contains(y)]
            without_id(s, x).contains(y) <==> (s.contains(y) && y != x),
        s.contains(x) ==> without_id(s, x).len() + 1 == s.len(),
        !s.contains(x) ==> without_id(s, x) == s,
    decreases s.len(),
{
    if s.len() > 0 {
        let d = s.drop_last();
        assert(no_dups(d));
        lemma_without_id(d, x);
        assert(s =~= d.push(s.last()));
        assert forall|y: u128| without_id(s, x).contains(y) <==> (s.contains(y) && y != x) by {
            let w = without_id(d, x);
            if s.contains(y) && y != x {
                let i = choose|i: int| 0 <= i < s.len() && s[i] == y;
                if i < s.len() - 1 {
                    assert(d[i] == y);
                    assert(d.contains(y));
                    assert(w.contains(y));
                    if s.last() != x {
                        let k = choose|k: int| 0 <= k < w.len() && w[k] == y;
                        assert(w.push(s.last())[k] == y);
                    }
                } else {
                    assert(s.last() == y);
                    assert(w.push(s.last())[w.len() as int] == y);
                }
            }
            if without_id(s, x).contains(y) {
                if s.last() == x {
                    assert(w.contains(y));
                    let k = choose|k: int| 0 <= k < d.len() && d[k] == y;
                    assert(s[k] == y);
                } else {
                    let k = choose|k: int| 0 <= k < w.len() + 1 && w.push(s.last())[k] == y;
                    if k < w.len() {
                        assert(w[k] == y);
                        assert(w.contains(y));
                        let k2 = choose|k2: int| 0 <= k2 < d.len() && d[k2] == y;
                        assert(s[k2] == y);
                    } else {
                        assert(y == s.last());
                        assert(s[s.len() - 1] == y);
                    }
                }
            }
        }
        if s.last() != x {
            let w = without_id(d, x);
            assert forall|i: int, j: int| 0 <= i < j < w.push(s.last()).len() implies w.push(s.last())[i] != w.push(s.last())[j] by {
                if j == w.len() {
                    assert(w.contains(w[i]));
                    if w[i] == s.last() {
                        assert(d.contains(s.last()));
                        let k = choose|k: int| 0 <= k < d.len() && d[k] == s.last();
                        assert(s[k] == s[s.len() - 1]);
                    }
                }
            }
        } else {
            if d.contains(x) {
                let k = choose|k: int| 0 <= k < d.len() && d[k] == x;
                assert(s[k] == s[s.len() - 1]);
            }
        }
        if !s.contains(x) {
            assert(!d.contains(x)) by {
                if d.contains(x) {
                    let k = choose|k: int| 0 <= k < d.len() && d[k] == x;
                    assert(s[k] == x);
                }
            }
            assert(s.last() != x);
            assert(d.push(s.last()) =~= s);
        }
        if s.contains(x) && s.last() != x {
            let k = choose|k: int| 0 <= k < s.len() && s[k] == x;
            assert(d[k] == x);
            assert(d.contains(x));
        }
    }
}

/// Whether `x` occurs in `v`.
fn holds_id(v: &Vec<u128>, x: u128) -> (r: bool)
    ensures
        r == v@.contains(x),
{
    let mut i: usize = 0;
    while i < v.len()
        invariant
            i <= v@.len(),
            forall|j: int| 0 <= j < i ==> v@[j] != x,
        decreases v.len() - i,
    {
        if v[i] == x {
            return true;
        }
        i = i + 1;
    }
    false
}

/// The identifiers with every occurrence of `x` taken out.
fn remove_id(v: &Vec<u128>, x: u128) -> (r: Vec<u128>)
    ensures
        r@ == without_id(v@, x),
{
    let mut r: Vec<u128> = Vec::new();
    let mut i: usize = 0;
    while i < v.len()
        invariant
            i <= v@.len(),
            r@ == without_id(v@.subrange(0, i as int), x),
        decreases v.len() - i,
    {
        assert(v@.subrange(0, i + 1).drop_last() =~= v@.subrange(0, i as int));
        if v[i] != x {
            r.push(v[i]);
        }
        i = i + 1;
    }
    assert(v@.subrange(0, v@.len() as int) =~= v@);
    r
}

/// A group of terminals that can receive broadcast input
#[derive(Debug, Clone)]
pub struct BroadcastGroup {
    name: String,
    members: Vec<u128>,
    active: bool,
    mode: BroadcastMode,
    trigger: BroadcastTrigger,
    description: Option<String>,
}

impl BroadcastGroup {
    /// The group's name.
    pub closed spec fn gname(&self) -> Seq<char> {
        self.name@
    }

    /// The members, in the order they joined.
    pub closed spec fn gmembers(&self) -> Seq<u128> {
        self.members@
    }

    /// Whether the group is active.
    pub closed spec fn gactive(&self) -> bool {
        self.active
    }

    /// The group's broadcast mode.
    pub closed spec fn gmode(&self) -> BroadcastMode {
        self.mode
    }

    /// The group's trigger for selective mode.
    pub closed spec fn gtrigger(&self) -> BroadcastTrigger {
        self.trigger
    }

    /// The group's description.
    pub closed spec fn gdesc(&self) -> Option<Seq<char>> {
        match self.description {
            Some(d) => Some(d@),
            None => None,
        }
    }

    /// No terminal is a member twice.
    pub open spec fn wf(&self) -> bool {
        no_dups(self.gmembers())
    }

    /// Create a new broadcast group
    pub fn new(name: String) -> (g: Self)
        ensures
            g.wf(),
            g.gname() == name@,
            g.gmembers() == Seq::<u128>::empty(),
            !g.gactive(),
            g.gmode() == BroadcastMode::Full,
            g.gtrigger() == (BroadcastTrigger { ctrl: true, alt: false, shift: true, command: false }),
            g.gdesc() is None,
    {
        BroadcastGroup {
            name,
            members: Vec::new(),
            active: false,
            mode: BroadcastMode::Full,
            trigger: BroadcastTrigger::default_selective(),
            description: None,
        }
    }

    /// Get the group name
    pub fn name(&self) -> (r: &str)
        ensures
            r@ == self.gname(),
    {
        self.name.as_str()
    }

    /// Get the member terminal IDs
    pub fn members(&self) -> (r: &Vec<u128>)
        ensures
            r@ == self.gmembers(),
    {
        &self.members
    }

    /// Whether this group is currently active
    pub fn is_active(&self) -> (r: bool)
        ensures
            r == self.gactive(),
    {
        self.active
    }

    /// Get the broadcast mode
    pub fn mode(&self) -> (r: BroadcastMode)
        ensures
            r == self.gmode(),
    {
        self.mode
    }

    /// Set the broadcast mode
    pub fn set_mode(&mut self, mode: BroadcastMode)
        ensures
            final(self).gmode() == mode,
            final(self).gname() == old(self).gname(),
            final(self).gmembers() == old(self).gmembers(),
            final(self).gactive() == old(self).gactive(),
            final(self).gtrigger() == old(self).gtrigger(),
            final(self).gdesc() == old(self).gdesc(),
    {
        self.mode = mode;
    }

    /// Get the trigger configuration
    pub fn trigger(&self) -> (r: &BroadcastTrigger)
        ensures
            *r == self.gtrigger(),
    {
        &self.trigger
    }

    /// Set the trigger configuration
    pub fn set_trigger(&mut self, trigger: BroadcastTrigger)
        ensures
            final(self).gtrigger() == trigger,
            final(self).gname() == old(self).gname(),
            final(self).gmembers() == old(self).gmembers(),
            final(self).gactive() == old(self).gactive(),
            final(self).gmode() == old(self).gmode(),
            final(self).gdesc() == old(self).gdesc(),
    {
        self.trigger = trigger;
    }

    /// Set the description
    pub fn set_description(&mut self, description: Option<String>)
        ensures
            final(self).gdesc() == match description { Some(d) => Some(d@), None => None },
            final(self).gname() == old(self).gname(),
            final(self).gmembers() == old(self).gmembers(),
            final(self).gactive() == old(self).gactive(),
            final(self).gmode() == old(self).gmode(),
            final(self).gtrigger() == old(self).gtrigger(),
    {
        self.description = description;
    }

    /// Get the description
    pub fn description(&self) -> (r: Option<&str>)
        ensures
            match r {
                Some(d) => self.gdesc() == Some(d@),
                None => self.gdesc() is None,
            },
    {
        match &self.description {
            Some(d) => Some(d.as_str()),
            None => None,
        }
    }

    /// Add a terminal to this group
    pub fn add_terminal(&mut self, terminal_id: u128) -> (r: Result<(), BroadcastError>)
        requires
            old(self).wf(),
        ensures
            final(self).wf(),
            r is Err <==> old(self).gmembers().contains(terminal_id),
            r matches Err(e) ==> *final(self) == *old(self) && (e matches BroadcastError::TerminalAlreadyInGroup { terminal_id: t, group_name: n }
                && t == terminal_id && n@ == old(self).gname()),
            r is Ok ==> final(self).gname() == old(self).gname() && final(self).gactive() == old(self).gactive() && final(self).gmode() == old(self).gmode() && final(self).gtrigger() == old(self).gtrigger() && final(self).gdesc() == old(self).gdesc()
                && final(self).gmembers() == old(self).gmembers().push(terminal_id),
    {
        if holds_id(&self.members, terminal_id) {
            return Err(BroadcastError::TerminalAlreadyInGroup { terminal_id, group_name: owned(self.name.as_str()) });
        }
        self.members.push(terminal_id);
        assert forall|i: int, j: int| 0 <= i < j < self.members@.len() implies self.members@[i] != self.members@[j] by {
            if j == self.members@.len() - 1 {
                assert(old(self).members@.contains(old(self).members@[i]));
            }
        }
        Ok(())
    }

    /// Remove a terminal from this group; the last member of an active group
    /// stays
    pub fn remove_terminal(&mut self, terminal_id: u128) -> (r: Result<(), BroadcastError>)
        requires
            old(self).wf(),
        ensures
            final(self).wf(),
            r is Err ==> *final(self) == *old(self),
            !old(self).gmembers().contains(terminal_id) ==> (r matches Err(BroadcastError::TerminalNotInGroup { terminal_id: t, group_name: n })
                && t == terminal_id && n@ == old(self).gname()),
            old(self).gmembers().contains(terminal_id) && old(self).gactive() && old(self).gmembers().len() == 1
                ==> (r matches Err(BroadcastError::CannotRemoveLastTerminal)),
            r is Ok <==> old(self).gmembers().contains(terminal_id) && !(old(self).gactive() && old(self).gmembers().len() == 1),
            r is Ok ==> final(self).gname() == old(self).gname() && final(self).gactive() == old(self).gactive() && final(self).gmode() == old(self).gmode() && final(self).gtrigger() == old(self).gtrigger() && final(self).gdesc() == old(self).gdesc()
                && final(self).gmembers() == without_id(old(self).gmembers(), terminal_id),
    {
        if !holds_id(&self.members, terminal_id) {
            return Err(BroadcastError::TerminalNotInGroup { terminal_id, group_name: owned(self.name.as_str()) });
        }
        if self.active && self.members.len() == 1 {
            return Err(BroadcastError::CannotRemoveLastTerminal);
        }
        proof {
            lemma_without_id(self.members@, terminal_id);
        }
        self.members = remove_id(&self.members, terminal_id);
        Ok(())
    }

    /// Check if a terminal is a member of this group
    pub fn contains(&self, terminal_id: u128) -> (r: bool)
        ensures
            r == self.gmembers().contains(terminal_id),
    {
        holds_id(&self.members, terminal_id)
    }

    /// Get the number of members
    pub fn member_count(&self) -> (r: usize)
        ensures
            r == self.gmembers().len(),
    {
        self.members.len()
    }

    /// Activate this group for broadcasting
    pub fn activate(&mut self)
        ensures
            final(self).gactive(),
            final(self).gname() == old(self).gname(),
            final(self).gmembers() == old(self).gmembers(),
            final(self).gmode() == old(self).gmode(),
            final(self).gtrigger() == old(self).gtrigger(),
            final(self).gdesc() == old(self).gdesc(),
    {
        self.active = true;
    }

    /// Deactivate this group
    pub fn deactivate(&mut self)
        ensures
            !final(self).gactive(),
            final(self).gname() == old(self).gname(),
            final(self).gmembers() == old(self).gmembers(),
            final(self).gmode() == old(self).gmode(),
            final(self).gtrigger() == old(self).gtrigger(),
            final(self).gdesc() == old(self).gdesc(),
    {
        self.active = false;
    }

    /// Check if input should be broadcast based on mode and modifiers
    pub fn should_broadcast(&self, ctrl: bool, alt: bool, shift: bool, command: bool) -> (r: bool)
        ensures
            r == broadcasts(*self, ctrl, alt, shift, command),
    {
        if !self.active {
            return false;
        }
        match self.mode {
            BroadcastMode::Full => true,
            BroadcastMode::Selective => self.trigger.matches(ctrl, alt, shift, command),
            BroadcastMode::Disabled => false,
        }
    }
}

/// Whether a key press with these modifiers is broadcast by group `g`.
pub open spec fn broadcasts(g: BroadcastGroup, ctrl: bool, alt: bool, shift: bool, command: bool) -> bool {
    g.gactive() && match g.gmode() {
        BroadcastMode::Full => true,
        BroadcastMode::Selective => {
            let t = g.gtrigger();
            t.ctrl == ctrl && t.alt == alt && t.shift == shift && t.command == command
        },
        BroadcastMode::Disabled => false,
    }
}

} // verus!

verus! {

/// The names of the groups, in order.
pub open spec fn group_names(gs: Seq<BroadcastGroup>) -> Seq<Seq<char>> {
    gs.map_values(|g: BroadcastGroup| g.gname())
}

/// Whether a group of that name exists.
pub open spec fn has_group(gs: Seq<BroadcastGroup>, name: Seq<char>) -> bool {
    exists|i: int| 0 <= i < gs.len() && gs[i].gname() == name
}

/// Position of the group of that name.
pub open spec fn group_pos(gs: Seq<BroadcastGroup>, name: Seq<char>) -> int {
    choose|i: int| 0 <= i < gs.len() && gs[i].gname() == name
}

/// Group `g1` is group `g0` with terminal `id` taken out of its members.
pub open spec fn after_removal(g0: BroadcastGroup, g1: BroadcastGroup, id: u128) -> bool {
    &&& g1.gname() == g0.gname()
    &&& g1.gactive() == g0.gactive()
    &&& g1.gmode() == g0.gmode()
    &&& g1.gtrigger() == g0.gtrigger()
    &&& g1.gdesc() == g0.gdesc()
    &&& g1.gmembers() == without_id(g0.gmembers(), id)
}

/// Group `g1` is group `g0` with only its activity set to `a`.
pub open spec fn with_activity(g0: BroadcastGroup, g1: BroadcastGroup, a: bool) -> bool {
    &&& g1.gname() == g0.gname()
    &&& g1.gmembers() == g0.gmembers()
    &&& g1.gactive() == a
    &&& g1.gmode() == g0.gmode()
    &&& g1.gtrigger() == g0.gtrigger()
    &&& g1.gdesc() == g0.gdesc()
}

/// Number of the groups that are active.
pub open spec fn active_count(gs: Seq<BroadcastGroup>) -> nat
    decreases gs.len(),
{
    if gs.len() == 0 {
        0
    } else {
        active_count(gs.drop_last()) + if gs.last().gactive() { 1nat } else { 0nat }
    }
}

/// The identifiers of `s` not in `seen`, each once, in order of first occurrence.
pub open spec fn fresh_ids(seen: Seq<u128>, s: Seq<u128>) -> Seq<u128>
    decreases s.len(),
{
    if s.len() == 0 {
        seen
    } else if seen.contains(s[0]) {
        fresh_ids(seen, s.drop_first())
    } else {
        fresh_ids(seen.push(s[0]), s.drop_first())
    }
}

/// The distinct members of the groups, in order of first occurrence.
pub open spec fn distinct_members(gs: Seq<BroadcastGroup>) -> Seq<u128>
    decreases gs.len(),
{
    if gs.len() == 0 {
        seq![]
    } else {
        fresh_ids(distinct_members(gs.drop_last()), gs.last().gmembers())
    }
}

/// Names of the groups that hold terminal `id`, in order.
pub open spec fn groups_holding(gs: Seq<BroadcastGroup>, id: u128) -> Seq<Seq<char>>
    decreases gs.len(),
{
    if gs.len() == 0 {
        seq![]
    } else if gs.last().gmembers().contains(id) {
        groups_holding(gs.drop_last(), id).push(gs.last().gname())
    } else {
        groups_holding(gs.drop_last(), id)
    }
}

/// Statistics about broadcast groups
#[derive(Debug, Clone, Copy, PartialEq, Eq, Structural)]
pub struct BroadcastStats {
    /// Total number of groups
    pub total_groups: usize,
    /// Number of active groups
    pub active_groups: usize,
    /// Total registered terminals
    pub total_terminals: usize,
    /// Terminals that are members of at least one group
    pub terminals_in_groups: usize,
}

/// Manager for broadcast groups and operations
#[derive(Debug, Clone)]
pub struct BroadcastManager {
    groups: Vec<BroadcastGroup>,
    active_group: Option<String>,
    known_terminals: Vec<u128>,
}

impl BroadcastManager {
    /// The groups, in the order they were created.
    pub closed spec fn gs(&self) -> Seq<BroadcastGroup> {
        self.groups@
    }

    /// The name of the active group, if one was activated.
    pub closed spec fn active(&self) -> Option<Seq<char>> {
        match self.active_group {
            Some(n) => Some(n@),
            None => None,
        }
    }

    /// The registered terminals, in the order they were registered.
    pub closed spec fn known(&self) -> Seq<u128> {
        self.known_terminals@
    }

    /// Group names are unique, no terminal is registered twice and no group
    /// holds a terminal twice.
    pub open spec fn wf(&self) -> bool {
        &&& no_dups(self.known())
        &&& forall|i: int, j: int| 0 <= i < j < self.gs().len() ==> (#[trigger] self.gs()[i]).gname() != (#[trigger] self.gs()[j]).gname()
        &&& forall|i: int| 0 <= i < self.gs().len() ==> (#[trigger] self.gs()[i]).wf()
    }

    /// Create a new broadcast manager
    pub fn new() -> (m: Self)
        ensures
            m.wf(),
            m.gs() == Seq::<BroadcastGroup>::empty(),
            m.active() is None,
            m.known() == Seq::<u128>::empty(),
    {
        BroadcastManager { groups: Vec::new(), active_group: None, known_terminals: Vec::new() }
    }

    /// Position of the group called `name`.
    fn find_group(&self, name: &str) -> (r: Option<usize>)
        requires
            self.wf(),
        ensures
            match r {
                Some(i) => has_group(self.gs(), name@) && i == group_pos(self.gs(), name@),
                None => !has_group(self.gs(), name@),
            },
    {
        let mut i: usize = 0;
        while i < self.groups.len()
            invariant
                i <= self.groups@.len(),
                self.wf(),
                forall|j: int| 0 <= j < i ==> self.groups@[j].gname() != name@,
            decreases self.groups.len() - i,
        {
            if str_eq(self.groups[i].name(), name) {
                proof {
                    let p = group_pos(self.gs(), name@);
                    assert(self.gs()[i as int].gname() == name@);
                    if p != i {
                        if p < i {
                        } else {
                            assert(self.gs()[i as int].gname() != self.gs()[p].gname());
                        }
                    }
                }
                return Some(i);
            }
            i = i + 1;
        }
        None
    }

    /// Register a terminal with the manager
    pub fn register_terminal(&mut self, terminal_id: u128)
        requires
            old(self).wf(),
        ensures
            final(self).wf(),
            final(self).known() == if old(self).known().contains(terminal_id) { old(self).known() } else { old(self).known().push(terminal_id) },
            final(self).gs() == old(self).gs(),
            final(self).active() == old(self).active(),
    {
        if !holds_id(&self.known_terminals, terminal_id) {
            self.known_terminals.push(terminal_id);
            assert(self.gs() == old(self).gs());
            assert forall|i: int, j: int| 0 <= i < j < self.known().len() implies self.known()[i] != self.known()[j] by {
                if j == self.known().len() - 1 {
                    assert(old(self).known().contains(old(self).known()[i]));
                }
            }
        }
    }

    /// Unregister a terminal (removes it from all groups)
    pub fn unregister_terminal(&mut self, terminal_id: u128)
        requires
            old(self).wf(),
        ensures
            final(self).wf(),
            final(self).known() == without_id(old(self).known(), terminal_id),
            final(self).gs().len() == old(self).gs().len(),
            forall|j: int| 0 <= j < old(self).gs().len() ==> after_removal(old(self).gs()[j], #[trigger] final(self).gs()[j], terminal_id),
            final(self).active() == old(self).active(),
    {
        proof {
            lemma_without_id(self.known_terminals@, terminal_id);
        }
        self.known_terminals = remove_id(&self.known_terminals, terminal_id);
        let ghost g0 = self.gs();
        let mut i: usize = 0;
        while i < self.groups.len()
            invariant
                i <= self.groups@.len(),
                self.groups@.len() == g0.len(),
                no_dups(self.known()),
                self.known() == without_id(old(self).known(), terminal_id),
                self.active() == old(self).active(),
                g0 == old(self).gs(),
                forall|a: int, b: int| 0 <= a < b < g0.len() ==> (#[trigger] g0[a]).gname() != (#[trigger] g0[b]).gname(),
                forall|a: int| 0 <= a < g0.len() ==> (#[trigger] g0[a]).wf(),
                forall|j: int| 0 <= j < i ==> after_removal(g0[j], #[trigger] self.groups@[j], terminal_id),
                forall|j: int| i <= j < g0.len() ==> #[trigger] self.groups@[j] == g0[j],
                forall|j: int| 0 <= j < g0.len() ==> (#[trigger] self.groups@[j]).wf(),
            decreases self.groups.len() - i,
        {
            let mut g = self.groups.remove(i);
            proof {
                lemma_without_id(g.members@, terminal_id);
            }
            g.members = remove_id(&g.members, terminal_id);
            self.groups.insert(i, g);
            i = i + 1;
        }
        assert forall|a: int, b: int| 0 <= a < b < self.gs().len() implies (#[trigger] self.gs()[a]).gname() != (#[trigger] self.gs()[b]).gname() by {
            assert(after_removal(g0[a], self.gs()[a], terminal_id));
            assert(after_removal(g0[b], self.gs()[b], terminal_id));
        }
    }

    /// Check if a terminal is registered
    pub fn is_terminal_registered(&self, terminal_id: u128) -> (r: bool)
        ensures
            r == self.known().contains(terminal_id),
    {
        holds_id(&self.known_terminals, terminal_id)
    }

    /// Create a new broadcast group
    pub fn create_group(&mut self, name: String) -> (r: Result<(), BroadcastError>)
        requires
            old(self).wf(),
        ensures
            final(self).wf(),
            final(self).known() == old(self).known(),
            final(self).active() == old(self).active(),
            (name@.len() == 0 || byte_len(name@) > 64) ==> (r matches Err(BroadcastError::InvalidGroupName(n)) && n@ == name@),
            !(name@.len() == 0 || byte_len(name@) > 64) && has_group(old(self).gs(), name@) ==> (r matches Err(BroadcastError::GroupAlreadyExists(n)) && n@ == name@),
            r is Err ==> final(self).gs() == old(self).gs(),
            r is Ok <==> !(name@.len() == 0 || byte_len(name@) > 64) && !has_group(old(self).gs(), name@),
            r is Ok ==> final(self).gs().len() == old(self).gs().len() + 1
                && final(self).gs().drop_last() == old(self).gs() && {
                let g = final(self).gs().last();
                &&& g.gname() == name@
                &&& g.gmembers() == Seq::<u128>::empty()
                &&& !g.gactive()
                &&& g.gmode() == BroadcastMode::Full
                &&& g.gtrigger() == (BroadcastTrigger { ctrl: true, alt: false, shift: true, command: false })
                &&& g.gdesc() is None
            },
    {
        let nv = chars_of(name.as_str());
        if nv.len() == 0 || byte_len_capped(&nv, 64) > 64 {
            return Err(BroadcastError::InvalidGroupName(name));
        }
        if self.find_group(name.as_str()).is_some() {
            return Err(BroadcastError::GroupAlreadyExists(name));
        }
        let ghost g0 = self.gs();
        let g = BroadcastGroup::new(name);
        self.groups.push(g);
        assert(self.gs().drop_last() =~= g0);
        assert forall|a: int, b: int| 0 <= a < b < self.gs().len() implies (#[trigger] self.gs()[a]).gname() != (#[trigger] self.gs()[b]).gname() by {
            if b == g0.len() {
                assert(g0[a].gname() != g.gname());
            }
        }
        Ok(())
    }

    /// Delete a broadcast group
    pub fn delete_group(&mut self, name: &str) -> (r: Result<(), BroadcastError>)
        requires
            old(self).wf(),
        ensures
            final(self).wf(),
            final(self).known() == old(self).known(),
            r is Ok <==> has_group(old(self).gs(), name@),
            r matches Err(e) ==> (e matches BroadcastError::GroupNotFound(n) && n@ == name@)
                && final(self).gs() == old(self).gs() && final(self).active() == old(self).active(),
            r is Ok ==> final(self).gs() == old(self).gs().remove(group_pos(old(self).gs(), name@))
                && final(self).active() == if old(self).active() == Some(name@) { None } else { old(self).active() },
    {
        match self.find_group(name) {
            None => Err(BroadcastError::GroupNotFound(owned(name))),
            Some(i) => {
                let is_active = match &self.active_group {
                    Some(a) => str_eq(a.as_str(), name),
                    None => false,
                };
                if is_active {
                    self.active_group = None;
                }
                let ghost g0 = self.gs();
                self.groups.remove(i);
                assert forall|a: int, b: int| 0 <= a < b < self.gs().len() implies (#[trigger] self.gs()[a]).gname() != (#[trigger] self.gs()[b]).gname() by {
                    let a0 = if a < i { a } else { a + 1 };
                    let b0 = if b < i { b } else { b + 1 };
                    assert(g0[a0].gname() != g0[b0].gname());
                }
                assert forall|a: int| 0 <= a < self.gs().len() implies (#[trigger] self.gs()[a]).wf() by {
                    let a0 = if a < i { a } else { a + 1 };
                    assert(g0[a0].wf());
                }
                Ok(())
            },
        }
    }

    /// Get a reference to a group
    pub fn get_group(&self, name: &str) -> (r: Result<&BroadcastGroup, BroadcastError>)
        requires
            self.wf(),
        ensures
            match r {
                Ok(g) => has_group(self.gs(), name@) && *g == self.gs()[group_pos(self.gs(), name@)],
                Err(e) => !has_group(self.gs(), name@) && (e matches BroadcastError::GroupNotFound(n) && n@ == name@),
            },
    {
        match self.find_group(name) {
            Some(i) => Ok(&self.groups[i]),
            None => Err(BroadcastError::GroupNotFound(owned(name))),
        }
    }

    /// Get a mutable reference to a group; the manager stays well formed as
    /// long as the group keeps its name and stays well formed
    pub fn get_group_mut(&mut self, name: &str) -> (r: Result<&mut BroadcastGroup, BroadcastError>)
        requires
            old(self).wf(),
        ensures
            final(self).active() == old(self).active(),
            final(self).known() == old(self).known(),
            match r {
                Ok(g) => {
                    let p = group_pos(old(self).gs(), name@);
                    &&& has_group(old(self).gs(), name@)
                    &&& *g == old(self).gs()[p]
                    &&& final(self).gs() == old(self).gs().update(p, *final(g))
                    &&& (final(g).gname() == g.gname() && final(g).wf()) ==> final(self).wf()
                },
                Err(e) => !has_group(old(self).gs(), name@) && (e matches BroadcastError::GroupNotFound(n) && n@ == name@)
                    && final(self).gs() == old(self).gs(),
            },
    {
        match self.find_group(name) {
            Some(i) => Ok(&mut self.groups[i]),
            None => Err(BroadcastError::GroupNotFound(owned(name))),
        }
    }

    /// List all group names
    pub fn list_groups(&self) -> (r: Vec<&str>)
        ensures
            r@.len() == self.gs().len(),
            forall|i: int| 0 <= i < r@.len() ==> (#[trigger] r@[i])@ == self.gs()[i].gname(),
    {
        let mut r: Vec<&str> = Vec::new();
        let mut i: usize = 0;
        while i < self.groups.len()
            invariant
                i <= self.groups@.len(),
                r@.len() == i,
                forall|k: int| 0 <= k < i ==> (#[trigger] r@[k])@ == self.groups@[k].gname(),
            decreases self.groups.len() - i,
        {
            r.push(self.groups[i].name());
            i = i + 1;
        }
        r
    }
}

} // verus!

verus! {

impl BroadcastManager {
    /// Replaces group `i` by `g`, which keeps its name.
    fn replace_group(&mut self, i: usize, g: BroadcastGroup)
        requires
            old(self).wf(),
            i < old(self).gs().len(),
            g.wf(),
            g.gname() == old(self).gs()[i as int].gname(),
        ensures
            final(self).wf(),
            final(self).gs() == old(self).gs().update(i as int, g),
            final(self).known() == old(self).known(),
            final(self).active() == old(self).active(),
    {
        let ghost g0 = self.gs();
        self.groups.set(i, g);
        assert forall|a: int, b: int| 0 <= a < b < self.gs().len() implies (#[trigger] self.gs()[a]).gname() != (#[trigger] self.gs()[b]).gname() by {
            assert(g0[a].gname() != g0[b].gname());
        }
    }

    /// Add a terminal to a group
    pub fn add_to_group(&mut self, group_name: &str, terminal_id: u128) -> (r: Result<(), BroadcastError>)
        requires
            old(self).wf(),
        ensures
            final(self).wf(),
            final(self).known() == old(self).known(),
            final(self).active() == old(self).active(),
            r is Err ==> final(self).gs() == old(self).gs(),
            !old(self).known().contains(terminal_id) ==> (r matches Err(BroadcastError::TerminalNotFound(t)) && t == terminal_id),
            old(self).known().contains(terminal_id) && !has_group(old(self).gs(), group_name@)
                ==> (r matches Err(BroadcastError::GroupNotFound(n)) && n@ == group_name@),
            r is Ok <==> old(self).known().contains(terminal_id) && has_group(old(self).gs(), group_name@)
                && !old(self).gs()[group_pos(old(self).gs(), group_name@)].gmembers().contains(terminal_id),
            r is Ok ==> {
                let p = group_pos(old(self).gs(), group_name@);
                let g0 = old(self).gs()[p];
                let g1 = final(self).gs()[p];
                &&& final(self).gs() == old(self).gs().update(p, g1)
                &&& g1.gmembers() == g0.gmembers().push(terminal_id)
                &&& g1.gname() == g0.gname() && g1.gactive() == g0.gactive() && g1.gmode() == g0.gmode()
                &&& g1.gtrigger() == g0.gtrigger() && g1.gdesc() == g0.gdesc()
            },
    {
        if !self.is_terminal_registered(terminal_id) {
            return Err(BroadcastError::TerminalNotFound(terminal_id));
        }
        match self.find_group(group_name) {
            None => Err(BroadcastError::GroupNotFound(owned(group_name))),
            Some(i) => {
                let mut g = self.groups[i].clone_group();
                let r = g.add_terminal(terminal_id);
                if r.is_ok() {
                    self.replace_group(i, g);
                }
                r
            },
        }
    }

    /// Remove a terminal from a group
    pub fn remove_from_group(&mut self, group_name: &str, terminal_id: u128) -> (r: Result<(), BroadcastError>)
        requires
            old(self).wf(),
        ensures
            final(self).wf(),
            final(self).known() == old(self).known(),
            final(self).active() == old(self).active(),
            r is Err ==> final(self).gs() == old(self).gs(),
            !has_group(old(self).gs(), group_name@) ==> (r matches Err(BroadcastError::GroupNotFound(n)) && n@ == group_name@),
            r is Ok <==> has_group(old(self).gs(), group_name@) && {
                let g0 = old(self).gs()[group_pos(old(self).gs(), group_name@)];
                g0.gmembers().contains(terminal_id) && !(g0.gactive() && g0.gmembers().len() == 1)
            },
            r is Ok ==> {
                let p = group_pos(old(self).gs(), group_name@);
                let g0 = old(self).gs()[p];
                let g1 = final(self).gs()[p];
                &&& final(self).gs() == old(self).gs().update(p, g1)
                &&& g1.gmembers() == without_id(g0.gmembers(), terminal_id)
                &&& g1.gname() == g0.gname() && g1.gactive() == g0.gactive() && g1.gmode() == g0.gmode()
                &&& g1.gtrigger() == g0.gtrigger() && g1.gdesc() == g0.gdesc()
            },
    {
        match self.find_group(group_name) {
            None => Err(BroadcastError::GroupNotFound(owned(group_name))),
            Some(i) => {
                let mut g = self.groups[i].clone_group();
                let r = g.remove_terminal(terminal_id);
                if r.is_ok() {
                    self.replace_group(i, g);
                }
                r
            },
        }
    }

    /// Activate a group for broadcasting; the group that was active before is
    /// deactivated first, even when no group has the new name
    pub fn activate_group(&mut self, name: &str) -> (r: Result<(), BroadcastError>)
        requires
            old(self).wf(),
        ensures
            final(self).wf(),
            final(self).known() == old(self).known(),
            final(self).gs().len() == old(self).gs().len(),
            r is Ok <==> has_group(old(self).gs(), name@),
            r matches Err(e) ==> (e matches BroadcastError::GroupNotFound(n) && n@ == name@) && final(self).active() is None,
            r is Ok ==> final(self).active() == Some(name@),
            forall|j: int| 0 <= j < old(self).gs().len() ==> with_activity(old(self).gs()[j], #[trigger] final(self).gs()[j],
                if r is Ok && j == group_pos(old(self).gs(), name@) {
                    true
                } else if old(self).active() matches Some(a) && has_group(old(self).gs(), a) && j == group_pos(old(self).gs(), a) {
                    false
                } else {
                    old(self).gs()[j].gactive()
                }),
    {
        let ghost g0 = self.gs();
        let ghost a0 = self.active();
        let prev = self.active_group.take();
        match &prev {
            Some(a) => {
                match self.find_group(a.as_str()) {
                    Some(k) => {
                        let mut g = self.groups[k].clone_group();
                        g.deactivate();
                        self.replace_group(k, g);
                    },
                    None => {},
                }
            },
            None => {},
        }
        let ghost g1 = self.gs();
        assert forall|j: int| 0 <= j < g0.len() implies with_activity(g0[j], #[trigger] g1[j],
            if a0 matches Some(a) && has_group(g0, a) && j == group_pos(g0, a) { false } else { g0[j].gactive() }) by {}
        proof {
            assert forall|j: int| 0 <= j < g1.len() implies (#[trigger] g1[j]).gname() == g0[j].gname() by {}
            assert(has_group(g1, name@) == has_group(g0, name@)) by {
                if has_group(g0, name@) {
                    let p = group_pos(g0, name@);
                    assert(g1[p].gname() == name@);
                }
                if has_group(g1, name@) {
                    let p = group_pos(g1, name@);
                    assert(g0[p].gname() == name@);
                }
            }
            if has_group(g0, name@) {
                let p = group_pos(g0, name@);
                assert(g1[p].gname() == name@);
                let q = group_pos(g1, name@);
                if q != p {
                    assert(g1[q].gname() != g1[p].gname());
                }
            }
        }
        match self.find_group(name) {
            None => Err(BroadcastError::GroupNotFound(owned(name))),
            Some(i) => {
                let mut g = self.groups[i].clone_group();
                g.activate();
                self.replace_group(i, g);
                self.active_group = Some(owned(name));
                Ok(())
            },
        }
    }

    /// Deactivate the current broadcast group
    pub fn deactivate_current(&mut self) -> (r: Result<(), BroadcastError>)
        requires
            old(self).wf(),
        ensures
            final(self).wf(),
            final(self).known() == old(self).known(),
            final(self).active() is None,
            final(self).gs().len() == old(self).gs().len(),
            r is Err <==> (old(self).active() matches Some(a) && !has_group(old(self).gs(), a)),
            r matches Err(e) ==> (e matches BroadcastError::GroupNotFound(n) && old(self).active() == Some(n@)),
            forall|j: int| 0 <= j < old(self).gs().len() ==> with_activity(old(self).gs()[j], #[trigger] final(self).gs()[j],
                if old(self).active() matches Some(a) && has_group(old(self).gs(), a) && j == group_pos(old(self).gs(), a) {
                    false
                } else {
                    old(self).gs()[j].gactive()
                }),
    {
        let prev = self.active_group.take();
        match prev {
            Some(a) => {
                match self.find_group(a.as_str()) {
                    Some(k) => {
                        let mut g = self.groups[k].clone_group();
                        g.deactivate();
                        self.replace_group(k, g);
                        Ok(())
                    },
                    None => Err(BroadcastError::GroupNotFound(a)),
                }
            },
            None => Ok(()),
        }
    }

    /// Get the currently active group name
    pub fn active_group_name(&self) -> (r: Option<&str>)
        ensures
            match r {
                Some(n) => self.active() == Some(n@),
                None => self.active() is None,
            },
    {
        match &self.active_group {
            Some(n) => Some(n.as_str()),
            None => None,
        }
    }

    /// Get the currently active group
    pub fn active_group(&self) -> (r: Option<&BroadcastGroup>)
        requires
            self.wf(),
        ensures
            match r {
                Some(g) => self.active() matches Some(a) && has_group(self.gs(), a) && *g == self.gs()[group_pos(self.gs(), a)],
                None => !(self.active() matches Some(a) && has_group(self.gs(), a)),
            },
    {
        match &self.active_group {
            Some(n) => {
                match self.find_group(n.as_str()) {
                    Some(i) => Some(&self.groups[i]),
                    None => None,
                }
            },
            None => None,
        }
    }

    /// Get broadcast targets for the given input context: every other member
    /// of the active group, when the source is a member and the group
    /// broadcasts this key press; `None` when nothing is broadcast
    pub fn get_broadcast_targets(
        &self,
        source_terminal: u128,
        ctrl: bool,
        alt: bool,
        shift: bool,
        command: bool,
    ) -> (r: Option<Vec<u128>>)
        requires
            self.wf(),
        ensures
            match r {
                Some(t) => self.active() matches Some(a) && has_group(self.gs(), a) && {
                    let g = self.gs()[group_pos(self.gs(), a)];
                    &&& g.gmembers().contains(source_terminal)
                    &&& broadcasts(g, ctrl, alt, shift, command)
                    &&& t@ == without_id(g.gmembers(), source_terminal)
                },
                None => !(self.active() matches Some(a) && has_group(self.gs(), a) && {
                    let g = self.gs()[group_pos(self.gs(), a)];
                    g.gmembers().contains(source_terminal) && broadcasts(g, ctrl, alt, shift, command)
                }),
            },
    {
        let group = match self.active_group() {
            Some(g) => g,
            None => return None,
        };
        if !group.contains(source_terminal) {
            return None;
        }
        if !group.should_broadcast(ctrl, alt, shift, command) {
            return None;
        }
        Some(remove_id(group.members(), source_terminal))
    }

    /// Get statistics about broadcast groups
    pub fn stats(&self) -> (s: BroadcastStats)
        ensures
            s.total_groups == self.gs().len(),
            s.active_groups == active_count(self.gs()),
            s.total_terminals == self.known().len(),
            s.terminals_in_groups == distinct_members(self.gs()).len(),
    {
        let mut active: usize = 0;
        let mut seen: Vec<u128> = Vec::new();
        let mut i: usize = 0;
        while i < self.groups.len()
            invariant
                i <= self.groups@.len(),
                active == active_count(self.groups@.subrange(0, i as int)),
                active <= i,
                seen@ == distinct_members(self.groups@.subrange(0, i as int)),
            decreases self.groups.len() - i,
        {
            let ghost pre = self.groups@.subrange(0, i as int);
            assert(self.groups@.subrange(0, i + 1).drop_last() =~= pre);
            if self.groups[i].is_active() {
                active = active + 1;
            }
            let ms = self.groups[i].members();
            let ghost s0 = seen@;
            let mut t: usize = 0;
            assert(ms@.subrange(0, ms@.len() as int) =~= ms@);
            while t < ms.len()
                invariant
                    t <= ms@.len(),
                    fresh_ids(s0, ms@) == fresh_ids(seen@, ms@.subrange(t as int, ms@.len() as int)),
                decreases ms.len() - t,
            {
                let ghost rest = ms@.subrange(t as int, ms@.len() as int);
                assert(rest.drop_first() =~= ms@.subrange(t + 1, ms@.len() as int));
                assert(rest[0] == ms@[t as int]);
                if !holds_id(&seen, ms[t]) {
                    seen.push(ms[t]);
                }
                t = t + 1;
            }
            assert(ms@.subrange(0, ms@.len() as int) =~= ms@);
            assert(ms@.subrange(ms@.len() as int, ms@.len() as int) =~= Seq::<u128>::empty());
            i = i + 1;
        }
        assert(self.groups@.subrange(0, self.groups@.len() as int) =~= self.groups@);
        BroadcastStats {
            total_groups: self.groups.len(),
            active_groups: active,
            total_terminals: self.known_terminals.len(),
            terminals_in_groups: seen.len(),
        }
    }

    /// Find which groups contain a specific terminal
    pub fn find_groups_for_terminal(&self, terminal_id: u128) -> (r: Vec<&str>)
        ensures
            r@.len() == groups_holding(self.gs(), terminal_id).len(),
            forall|i: int| 0 <= i < r@.len() ==> (#[trigger] r@[i])@ == groups_holding(self.gs(), terminal_id)[i],
    {
        let mut r: Vec<&str> = Vec::new();
        let mut i: usize = 0;
        while i < self.groups.len()
            invariant
                i <= self.groups@.len(),
                r@.len() == groups_holding(self.groups@.subrange(0, i as int), terminal_id).len(),
                forall|k: int| 0 <= k < r@.len() ==> (#[trigger] r@[k])@ == groups_holding(self.groups@.subrange(0, i as int), terminal_id)[k],
            decreases self.groups.len() - i,
        {
            assert(self.groups@.subrange(0, i + 1).drop_last() =~= self.groups@.subrange(0, i as int));
            if self.groups[i].contains(terminal_id) {
                r.push(self.groups[i].name());
            }
            i = i + 1;
        }
        assert(self.groups@.subrange(0, self.groups@.len() as int) =~= self.groups@);
        r
    }
}

impl Default for BroadcastManager {
    fn default() -> (m: Self)
        ensures
            m.wf(),
            m.gs() == Seq::<BroadcastGroup>::empty(),
            m.active() is None,
            m.known() == Seq::<u128>::empty(),
    {
        Self::new()
    }
}

impl BroadcastGroup {
    /// A copy of the group.
    pub fn clone_group(&self) -> (g: Self)
        ensures
            g.gname() == self.gname(),
            g.gmembers() == self.gmembers(),
            g.gactive() == self.gactive(),
            g.gmode() == self.gmode(),
            g.gtrigger() == self.gtrigger(),
            g.gdesc() == self.gdesc(),
    {
        let mut members: Vec<u128> = Vec::new();
        let mut i: usize = 0;
        while i < self.members.len()
            invariant
                i <= self.members@.len(),
                members@ == self.members@.subrange(0, i as int),
            decreases self.members.len() - i,
        {
            members.push(self.members[i]);
            i = i + 1;
            assert(members@ =~= self.members@.subrange(0, i as int));
        }
        assert(self.members@.subrange(0, self.members@.len() as int) =~= self.members@);
        BroadcastGroup {
            name: owned(self.name.as_str()),
            members,
            active: self.active,
            mode: self.mode,
            trigger: self.trigger,
            description: match &self.description {
                Some(d) => Some(owned(d.as_str())),
                None => None,
            },
        }
    }
}

} // verus!
