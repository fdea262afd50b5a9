//! The table of commands.
//!
//! A registry is filled once, before the first dispatch, and only read from
//! then on. Entries are never changed or removed. Where two entries have the
//! same name, the one registered first is the one that a lookup finds.
use vstd::prelude::*;
use crate::encoding::same_text;

verus! {

/// A named operation: the name under which it is called, and what runs it.
pub struct Command<H> {
    pub name: &'static str,
    pub handler: H,
}

/// The commands of a process, in the order of their registration.
pub struct Registry<H> {
    commands: Vec<Command<H>>,
}

/// Where the first command with the given name stands, if there is one.
pub open spec fn first_named<H>(commands: Seq<Command<H>>, name: Seq<char>) -> Option<int>
    decreases commands.len(),
{
    if commands.len() == 0 {
        None
    } else if commands[0].name@ == name {
        Some(0)
    } else {
        match first_named(commands.drop_first(), name) {
            Some(at) => Some(at + 1),
            None => None,
        }
    }
}

/// `first_named` is the least index whose command has the name, and `None`
/// exactly when no command has it.
pub proof fn lemma_first_named<H>(commands: Seq<Command<H>>, name: Seq<char>)
    ensures
        match first_named(commands, name) {
            Some(at) => {
                &&& 0 <= at < commands.len()
                &&& commands[at].name@ == name
                &&& forall|j: int| 0 <= j < at ==> commands[j].name@ != name
            },
            None => forall|j: int| 0 <= j < commands.len() ==> commands[j].name@ != name,
        },
    decreases commands.len(),
{
    if commands.len() > 0 && commands[0].name@ != name {
        let rest = commands.drop_first();
        lemma_first_named(rest, name);
        match first_named(rest, name) {
            Some(at) => {
                assert forall|j: int| 0 <= j < at + 1 implies commands[j].name@ != name by {
                    if j > 0 {
                        assert(commands[j] == rest[j - 1]);
                    }
                }
            },
            None => {
                assert forall|j: int| 0 <= j < commands.len() implies commands[j].name@ != name by {
                    if j > 0 {
                        assert(commands[j] == rest[j - 1]);
                    }
                }
            },
        }
    }
}

/// Registration only appends, and the first registration of a name wins: a
/// name that has a command keeps it, whatever is registered after; a name
/// that has none gets the new command if that bears the name.
pub proof fn lemma_first_registration_wins<H>(
    commands: Seq<Command<H>>,
    added: Command<H>,
    name: Seq<char>,
)
    ensures
        first_named(commands.push(added), name) == match first_named(commands, name) {
            Some(at) => Some(at),
            None => if added.name@ == name {
                Some(commands.len() as int)
            } else {
                None
            },
        },
    decreases commands.len(),
{
    let longer = commands.push(added);
    if commands.len() == 0 {
        assert(longer.drop_first() =~= Seq::<Command<H>>::empty());
    } else {
        assert(longer.drop_first() =~= commands.drop_first().push(added));
        lemma_first_registration_wins(commands.drop_first(), added, name);
    }
}

/// True when no two commands of the table have the same name.
pub open spec fn distinct_names<H>(commands: Seq<Command<H>>) -> bool {
    forall|i: int, j: int|
        0 <= i < j < commands.len() ==> #[trigger] commands[i].name@ != #[trigger] commands[j].name@
}

/// A registered name is found: at the place of its command, or at an earlier
/// command of the same name. In a table of distinct names every command is
/// found at its own place.
pub proof fn lemma_registered_names_are_found<H>(commands: Seq<Command<H>>, place: int)
    requires
        0 <= place < commands.len(),
    ensures
        first_named(commands, commands[place].name@) matches Some(at) && at <= place
            && commands[at].name@ == commands[place].name@,
        distinct_names(commands) ==> first_named(commands, commands[place].name@) == Some(place),
{
    lemma_first_named(commands, commands[place].name@);
}

/// Two tables with the same names in the same order find a name at the same
/// place.
pub proof fn lemma_same_names_same_place<G, H>(
    one: Seq<Command<G>>,
    other: Seq<Command<H>>,
    name: Seq<char>,
)
    requires
        one.len() == other.len(),
        forall|i: int| 0 <= i < one.len() ==> one[i].name@ == other[i].name@,
    ensures
        first_named(one, name) == first_named(other, name),
    decreases one.len(),
{
    if one.len() > 0 {
        let left = one.drop_first();
        let right = other.drop_first();
        assert forall|i: int| 0 <= i < left.len() implies left[i].name@ == right[i].name@ by {
            assert(left[i] == one[i + 1]);
            assert(right[i] == other[i + 1]);
        }
        lemma_same_names_same_place(left, right, name);
    }
}

impl<H> Registry<H> {
    /// The commands in the order of their registration.
    pub closed spec fn view(&self) -> Seq<Command<H>> {
        self.commands@
    }

    /// A registry without commands.
    pub fn new() -> (registry: Self)
        ensures
            registry@ == Seq::<Command<H>>::empty(),
    {
        Registry { commands: Vec::new() }
    }

    /// Adds a command at the end of the table. Nothing that was registered
    /// before is changed, whatever the name of the new command.
    pub fn register(&mut self, name: &'static str, handler: H)
        ensures
            final(self)@ == old(self)@.push(Command { name, handler }),
    {
        self.commands.push(Command { name, handler });
    }

    /// The number of commands registered, duplicates included.
    pub fn len(&self) -> (count: usize)
        ensures
            count == self@.len(),
    {
        self.commands.len()
    }

    /// Finds the command of the given name: an exact match, case and all. Of
    /// several commands with that name it is the one registered first.
    pub fn lookup(&self, name: &str) -> (found: Option<&Command<H>>)
        ensures
            match first_named(self@, name@) {
                Some(at) => found == Some(&self@[at]),
                None => found is None,
            },
    {
        let mut at: usize = 0;
        while at < self.commands.len()
            invariant
                at <= self.commands@.len(),
                forall|j: int| 0 <= j < at ==> self.commands@[j].name@ != name@,
            decreases self.commands@.len() - at,
        {
            if same_text(self.commands[at].name, name) {
                proof {
                    lemma_first_named(self@, name@);
                }
                return Some(&self.commands[at]);
            }
            at = at + 1;
        }
        proof {
            lemma_first_named(self@, name@);
        }
        None
    }
}

} // verus!
