//! The listing of both collections, drawn as a tree.

use vstd::prelude::*;
use vstd::string::*;
use crate::text::texts;
use crate::world::{worlds_of, Registry, World, WorldManager};

verus! {

/// The line of one local world in the listing. `last` says that no local
/// world follows, `more` that the branch of `com.mojang` does.
pub open spec fn local_line(path: Seq<char>, last: bool, more: bool) -> Seq<char> {
    (if more {
        "|"@
    } else {
        " "@
    }) + "   "@ + (if last {
        "`"@
    } else {
        "|"@
    }) + "-- "@ + path + (if !last || more {
        "\n"@
    } else {
        Seq::empty()
    })
}

/// The lines of the first `count` local worlds.
pub open spec fn local_lines(worlds: Seq<World>, count: int, more: bool) -> Seq<char>
    decreases count,
{
    if count <= 0 {
        Seq::empty()
    } else {
        local_lines(worlds, count - 1, more) + local_line(
            worlds[count - 1].path,
            count == worlds.len(),
            more,
        )
    }
}

/// The branch of the local project: its head and a line for each world.
pub open spec fn local_branch(worlds: Seq<World>, more: bool) -> Seq<char> {
    (if more {
        "|"@
    } else {
        "`"@
    }) + "-- local project\n"@ + local_lines(worlds, worlds.len() as int, more)
}

/// The line of one world of `com.mojang` in the listing.
pub open spec fn target_line(name: Seq<char>, last: bool) -> Seq<char> {
    "    "@ + (if last {
        "`"@
    } else {
        "|"@
    }) + "-- "@ + name + (if last {
        Seq::empty()
    } else {
        "\n"@
    })
}

/// The lines of the first `count` worlds of `com.mojang`.
pub open spec fn target_lines(names: Seq<Seq<char>>, count: int) -> Seq<char>
    decreases count,
{
    if count <= 0 {
        Seq::empty()
    } else {
        target_lines(names, count - 1) + target_line(names[count - 1], count == names.len())
    }
}

/// The branch of `com.mojang`: its head and a line for each world.
pub open spec fn target_branch(names: Seq<Seq<char>>) -> Seq<char> {
    "`-- com.mojang\n"@ + target_lines(names, names.len() as int)
}

impl Registry {
    /// Both collections drawn as a tree. A collection that holds nothing has
    /// no branch.
    pub open spec fn tree(self) -> Seq<char> {
        (if self.local.len() > 0 {
            local_branch(self.local, self.target.len() > 0)
        } else {
            Seq::empty()
        }) + (if self.target.len() > 0 {
            target_branch(self.target)
        } else {
            Seq::empty()
        })
    }

    /// The listing: a line that announces it, and the tree.
    pub open spec fn listing(self) -> Seq<char> {
        "listing all worlds at..\n"@ + self.tree()
    }
}

impl WorldManager {
    /// Lists the local worlds by their paths and the worlds in `com.mojang`
    /// by their names, each collection in the order it was found.
    pub fn list(self) -> (text: String)
        ensures
            text@ == self@.listing(),
    {
        let local_worlds = self.local_worlds();
        let com_mojang_worlds = self.com_mojang_worlds();
        let mut text = String::from_str("listing all worlds at..\n");
        let more = com_mojang_worlds.len() > 0;
        if local_worlds.len() > 0 {
            if more {
                text.append("|");
            } else {
                text.append("`");
            }
            text.append("-- local project\n");
            let ghost head = text@;
            let mut at: usize = 0;
            while at < local_worlds.len()
                invariant
                    at <= local_worlds.len(),
                    worlds_of(local_worlds@) == self@.local,
                    text@ == head + local_lines(self@.local, at as int, more),
                decreases local_worlds.len() - at,
            {
                let last = at == local_worlds.len() - 1;
                let ghost before = text@;
                if more {
                    text.append("|");
                } else {
                    text.append(" ");
                }
                text.append("   ");
                if last {
                    text.append("`");
                } else {
                    text.append("|");
                }
                text.append("-- ");
                text.append(local_worlds[at].path.as_str());
                if !last || more {
                    text.append("\n");
                }
                proof {
                    assert(text@ =~= before + local_line(self@.local[at as int].path, last, more));
                    assert(text@ =~= head + local_lines(self@.local, at + 1, more));
                }
                at = at + 1;
            }
        }
        let ghost first = text@;
        if more {
            text.append("`-- com.mojang\n");
            let ghost head = text@;
            let mut at: usize = 0;
            while at < com_mojang_worlds.len()
                invariant
                    at <= com_mojang_worlds.len(),
                    texts(com_mojang_worlds@) == self@.target,
                    text@ == head + target_lines(self@.target, at as int),
                decreases com_mojang_worlds.len() - at,
            {
                let last = at == com_mojang_worlds.len() - 1;
                let ghost before = text@;
                text.append("    ");
                if last {
                    text.append("`");
                } else {
                    text.append("|");
                }
                text.append("-- ");
                text.append(com_mojang_worlds[at].as_str());
                if !last {
                    text.append("\n");
                }
                proof {
                    assert(text@ =~= before + target_line(self@.target[at as int], last));
                    assert(text@ =~= head + target_lines(self@.target, at + 1));
                }
                at = at + 1;
            }
            proof {
                assert(text@ =~= first + target_branch(self@.target));
            }
        }
        proof {
            assert(text@ =~= self@.listing());
        }
        text
    }
}

} // verus!
