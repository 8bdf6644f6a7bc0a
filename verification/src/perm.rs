//! Permission levels: read, write, execute.

use crate::channel::ChannelKind;
use vstd::prelude::*;

verus! {

/// What the model may do in a turn. Each level holds the ones before it.
#[derive(Debug, Clone, Copy, PartialEq, Eq, Structural)]
pub enum Permission {
    Read,
    Write,
    Execute,
}

/// The level behind `p` in the cycle read, write, execute.
pub open spec fn next_level(p: Permission) -> Permission {
    match p {
        Permission::Read => Permission::Write,
        Permission::Write => Permission::Execute,
        Permission::Execute => Permission::Read,
    }
}

/// The level that a channel of the given kind starts with.
pub open spec fn start_level(kind: ChannelKind) -> Permission {
    match kind {
        ChannelKind::Local => Permission::Read,
        ChannelKind::PodmanRun => Permission::Execute,
        ChannelKind::PodmanAttach => Permission::Execute,
    }
}

/// The level from which on a tool may be used, for the tools there are.
pub open spec fn level_of_tool(name: Seq<char>) -> Option<nat> {
    if name == "grep"@ || name == "glob"@ || name == "read"@ || name == "webfetch"@ {
        Some(0)
    } else if name == "write"@ || name == "edit"@ {
        Some(1)
    } else if name == "run"@ {
        Some(2)
    } else {
        None
    }
}

/// The rank of a level.
pub open spec fn rank(p: Permission) -> nat {
    match p {
        Permission::Read => 0,
        Permission::Write => 1,
        Permission::Execute => 2,
    }
}

/// Whether a turn at level `p` may use the tool `name`.
pub open spec fn may_use(p: Permission, name: Seq<char>) -> bool {
    match level_of_tool(name) {
        Some(need) => need <= rank(p),
        None => false,
    }
}

impl Default for Permission {
    fn default() -> (r: Self)
        ensures
            r == Permission::Read,
    {
        Permission::Read
    }
}

impl Permission {
    /// The next level in the cycle.
    pub fn next(self) -> (r: Self)
        ensures
            r == next_level(self),
    {
        match self {
            Permission::Read => Permission::Write,
            Permission::Write => Permission::Execute,
            Permission::Execute => Permission::Read,
        }
    }

    /// The level that a channel of the given kind starts with.
    pub fn default_for(kind: ChannelKind) -> (r: Self)
        ensures
            r == start_level(kind),
    {
        match kind {
            ChannelKind::Local => Permission::Read,
            ChannelKind::PodmanRun => Permission::Execute,
            ChannelKind::PodmanAttach => Permission::Execute,
        }
    }

    /// Whether a turn at this level may use the tool `name`.
    pub fn allows(self, name: &str) -> (r: bool)
        ensures
            r == may_use(self, name@),
    {
        let read = crate::text::same_text(name, "grep") || crate::text::same_text(name, "glob")
            || crate::text::same_text(name, "read") || crate::text::same_text(name, "webfetch");
        let write = crate::text::same_text(name, "write") || crate::text::same_text(name, "edit");
        let execute = crate::text::same_text(name, "run");
        if read {
            true
        } else if write {
            self != Permission::Read
        } else if execute {
            self == Permission::Execute
        } else {
            false
        }
    }
}

/// The levels build on each other: a higher one allows whatever a lower one does.
pub proof fn law_levels_build_on_each_other(low: Permission, high: Permission, name: Seq<char>)
    requires
        rank(low) <= rank(high),
        may_use(low, name),
    ensures
        may_use(high, name),
{
}

/// Three steps of the cycle lead back to the same level.
pub proof fn law_levels_cycle(p: Permission)
    ensures
        next_level(next_level(next_level(p))) == p,
        next_level(p) != p,
{
}

/// Reading never changes anything: whoever may only read can look for files and text, read files and
/// fetch pages, and nothing else; whoever may write can change files, and only the highest level can
/// run commands. A tool that is not known can be used by nobody.
pub proof fn law_each_level_names_its_tools(name: Seq<char>)
    ensures
        may_use(Permission::Read, name) <==> name == "grep"@ || name == "glob"@ || name == "read"@
            || name == "webfetch"@,
        may_use(Permission::Write, name) <==> may_use(Permission::Read, name) || name == "write"@
            || name == "edit"@,
        may_use(Permission::Execute, name) <==> may_use(Permission::Write, name) || name == "run"@,
{
    reveal_strlit("grep");
    reveal_strlit("glob");
    reveal_strlit("read");
    reveal_strlit("webfetch");
    reveal_strlit("write");
    reveal_strlit("edit");
    reveal_strlit("run");
    assert("run"@.len() == 3);
    assert("write"@[0] == 'w' && "write"@.len() == 5);
    assert("edit"@[0] == 'e' && "edit"@.len() == 4);
    assert("grep"@[0] == 'g' && "glob"@[0] == 'g' && "read"@[0] == 'r');
    assert("grep"@.len() == 4 && "glob"@.len() == 4 && "read"@.len() == 4);
    assert("webfetch"@.len() == 8);
}

/// Only in a container of the channel or of others may everything be done from the start; on the
/// machine itself work begins with reading. The levels follow each other from reading to writing to
/// running and back.
pub proof fn law_work_on_the_machine_begins_with_reading()
    ensures
        start_level(ChannelKind::Local) == Permission::Read,
        start_level(ChannelKind::PodmanRun) == Permission::Execute,
        start_level(ChannelKind::PodmanAttach) == Permission::Execute,
        next_level(Permission::Read) == Permission::Write,
        next_level(Permission::Write) == Permission::Execute,
        next_level(Permission::Execute) == Permission::Read,
{
}

} // verus!
