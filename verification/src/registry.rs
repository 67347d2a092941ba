//! The command registry: command names bound to built-in handlers.

use vstd::prelude::*;

verus! {

/// Identifier of a built-in command handler.
#[derive(Clone, Copy, PartialEq, Eq, Structural, Debug)]
pub enum Command {
    Debug,
    Exit,
    Load,
    System,
}

/// The binding a list of registrations denotes: later registrations of the
/// same name overwrite earlier ones.
pub open spec fn map_of(entries: Seq<(String, Command)>) -> Map<Seq<char>, Command>
    decreases entries.len(),
{
    if entries.len() == 0 {
        Map::empty()
    } else {
        map_of(entries.drop_last()).insert(entries.last().0@, entries.last().1)
    }
}

/// A mapping from command name to handler. Registering a name twice
/// silently overwrites the earlier binding.
pub struct CommandMap {
    entries: Vec<(String, Command)>,
}

impl View for CommandMap {
    type V = Map<Seq<char>, Command>;

    closed spec fn view(&self) -> Map<Seq<char>, Command> {
        map_of(self.entries@)
    }
}

impl CommandMap {
    /// An empty registry.
    pub fn new() -> (r: CommandMap)
        ensures
            r@ == Map::<Seq<char>, Command>::empty(),
    {
        CommandMap { entries: Vec::new() }
    }

    /// Bind `name` to `command`; an existing binding of `name` is overwritten.
    pub fn register(&mut self, name: String, command: Command)
        requires
            name@.len() > 0,
        ensures
            final(self)@ == old(self)@.insert(name@, command),
    {
        let ghost pre = self.entries@;
        self.entries.push((name, command));
        proof {
            assert(self.entries@.drop_last() =~= pre);
        }
    }

    /// The handler bound to `name`, if any.
    pub fn lookup(&self, name: &String) -> (r: Option<Command>)
        ensures
            match r {
                Some(c) => self@.contains_key(name@) && self@[name@] == c,
                None => !self@.contains_key(name@),
            },
    {
        let mut i: usize = self.entries.len();
        proof {
            assert(self.entries@.take(i as int) =~= self.entries@);
        }
        while i > 0
            invariant
                i <= self.entries@.len(),
                self@.contains_key(name@) == map_of(self.entries@.take(i as int)).contains_key(
                    name@,
                ),
                self@.contains_key(name@) ==> self@[name@] == map_of(
                    self.entries@.take(i as int),
                )[name@],
            decreases i,
        {
            i = i - 1;
            proof {
                assert(self.entries@.take(i as int + 1).drop_last() =~= self.entries@.take(
                    i as int,
                ));
                assert(self.entries@.take(i as int + 1).last() == self.entries@[i as int]);
            }
            if self.entries[i].0 == *name {
                return Some(self.entries[i].1);
            }
        }
        proof {
            assert(self.entries@.take(0) =~= Seq::<(String, Command)>::empty());
        }
        None
    }

    /// The registry the console starts with: the four built-in commands.
    pub fn with_builtins() -> (r: CommandMap)
        ensures
            r@ == builtin_commands(),
    {
        proof {
            reveal_strlit("debug");
            reveal_strlit("exit");
            reveal_strlit("load");
            reveal_strlit("system");
        }
        let mut m = CommandMap::new();
        m.register(String::from_str("debug"), Command::Debug);
        m.register(String::from_str("exit"), Command::Exit);
        m.register(String::from_str("load"), Command::Load);
        m.register(String::from_str("system"), Command::System);
        m
    }
}

/// The built-in bindings: `debug`, `exit`, `load` and `system`.
pub open spec fn builtin_commands() -> Map<Seq<char>, Command> {
    Map::<Seq<char>, Command>::empty().insert("debug"@, Command::Debug).insert(
        "exit"@,
        Command::Exit,
    ).insert("load"@, Command::Load).insert("system"@, Command::System)
}

} // verus!
