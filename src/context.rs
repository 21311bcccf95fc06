use vstd::prelude::*;
use radix_trie::Trie;
use crate::commands::Builtin;
use crate::order::str_eq;

verus! {

#[verifier::external_type_specification]
#[verifier::external_body]
#[verifier::reject_recursive_types(K)]
#[verifier::reject_recursive_types(V)]
pub struct ExTrie<K, V>(Trie<K, V>);

/// A trie from program names to a presence flag.
pub type NameTrie = Trie<String, bool>;

/// What a trie of program names holds: each name with its flag.
pub uninterp spec fn trie_contents(t: Trie<String, bool>) -> Map<Seq<char>, bool>;

/// Relies on `Trie::new`: the trie starts empty.
#[verifier::external_body]
fn trie_new() -> (r: NameTrie)
    ensures
        trie_contents(r).dom().len() == 0 && trie_contents(r).dom().finite(),
{
    Trie::new()
}

/// Relies on `Trie::insert`: the key is bound to the value, replacing any
/// earlier binding.
#[verifier::external_body]
fn trie_insert(t: &mut Trie<String, bool>, key: String, value: bool)
    ensures
        trie_contents(*final(t)) == trie_contents(*old(t)).insert(key@, value),
{
    t.insert(key, value);
}

/// Relies on `Trie::get`: the value bound to the key, if any.
#[verifier::external_body]
fn trie_get<'a>(t: &'a Trie<String, bool>, key: &str) -> (r: Option<&'a bool>)
    ensures
        match r {
            Some(b) => trie_contents(*t).contains_key(key@) && trie_contents(*t)[key@] == *b,
            None => !trie_contents(*t).contains_key(key@),
        },
{
    t.get(key)
}

/// The built-in bound to `name`: the first entry with that name.
pub open spec fn builtin_lookup(cmds: Seq<(Seq<char>, Builtin)>, name: Seq<char>) -> Option<
    Builtin,
>
    decreases cmds.len(),
{
    if cmds.len() == 0 {
        None
    } else if cmds[0].0 == name {
        Some(cmds[0].1)
    } else {
        builtin_lookup(cmds.drop_first(), name)
    }
}

pub open spec fn name_index(cmds: Seq<(Seq<char>, Builtin)>, name: Seq<char>) -> int
    decreases cmds.len(),
{
    if cmds.len() == 0 {
        -1
    } else if cmds[0].0 == name {
        0
    } else {
        let r = name_index(cmds.drop_first(), name);
        if r < 0 {
            -1
        } else {
            r + 1
        }
    }
}

proof fn lemma_name_index(cmds: Seq<(Seq<char>, Builtin)>, name: Seq<char>)
    ensures
        -1 <= name_index(cmds, name) < cmds.len(),
        name_index(cmds, name) >= 0 ==> cmds[name_index(cmds, name)].0 == name,
        name_index(cmds, name) >= 0 ==> forall|i: int|
            0 <= i < name_index(cmds, name) ==> (#[trigger] cmds[i]).0 != name,
        name_index(cmds, name) < 0 ==> forall|i: int|
            0 <= i < cmds.len() ==> (#[trigger] cmds[i]).0 != name,
    decreases cmds.len(),
{
    if cmds.len() > 0 && cmds[0].0 != name {
        lemma_name_index(cmds.drop_first(), name);
        assert forall|i: int| 0 < i < cmds.len() implies #[trigger] cmds[i] == cmds.drop_first()[i
            - 1] by {}
    }
}

proof fn lemma_lookup_set(
    cmds: Seq<(Seq<char>, Builtin)>,
    name: Seq<char>,
    b: Builtin,
    k: Seq<char>,
)
    ensures
        builtin_lookup(
            if name_index(cmds, name) >= 0 {
                cmds.update(name_index(cmds, name), (name, b))
            } else {
                cmds.push((name, b))
            },
            k,
        ) == if k == name {
            Some(b)
        } else {
            builtin_lookup(cmds, k)
        },
    decreases cmds.len(),
{
    lemma_name_index(cmds, name);
    let next = if name_index(cmds, name) >= 0 {
        cmds.update(name_index(cmds, name), (name, b))
    } else {
        cmds.push((name, b))
    };
    if cmds.len() == 0 {
        assert(next[0] == (name, b));
        assert(next.drop_first() =~= Seq::<(Seq<char>, Builtin)>::empty());
    } else if cmds[0].0 == name {
        assert(next[0] == (name, b));
        assert(next.drop_first() =~= cmds.drop_first());
    } else {
        assert(next[0] == cmds[0]);
        assert(builtin_lookup(next, k) == if next[0].0 == k {
            Some(next[0].1)
        } else {
            builtin_lookup(next.drop_first(), k)
        });
        lemma_name_index(cmds.drop_first(), name);
        lemma_lookup_set(cmds.drop_first(), name, b, k);
        let tail = cmds.drop_first();
        let tail_next = if name_index(tail, name) >= 0 {
            tail.update(name_index(tail, name), (name, b))
        } else {
            tail.push((name, b))
        };
        assert(next.drop_first() =~= tail_next);
    }
}

/// The last binding of `name` in a list of bindings.
pub open spec fn last_binding(cmds: Seq<(Seq<char>, Builtin)>, name: Seq<char>) -> Option<Builtin>
    decreases cmds.len(),
{
    if cmds.len() == 0 {
        None
    } else if cmds.last().0 == name {
        Some(cmds.last().1)
    } else {
        last_binding(cmds.drop_last(), name)
    }
}

/// The built-in that the shell binds to a name at startup.
pub open spec fn default_builtin(n: Seq<char>) -> Option<Builtin> {
    if n == "rev"@ {
        Some(Builtin::Rev)
    } else if n == "limit"@ {
        Some(Builtin::Limit)
    } else if n == "take"@ {
        Some(Builtin::Limit)
    } else if n == "sortby"@ {
        Some(Builtin::SortBy)
    } else if n == "cd"@ {
        Some(Builtin::Cd)
    } else if n == "ps"@ {
        Some(Builtin::Ps)
    } else if n == "ls"@ {
        Some(Builtin::Ls)
    } else {
        None
    }
}

/// No name is bound twice.
pub open spec fn names_unique(cmds: Seq<(Seq<char>, Builtin)>) -> bool {
    forall|i: int, j: int| 0 <= i < j < cmds.len() ==> (#[trigger] cmds[i]).0 != (#[trigger] cmds[j]).0
}

/// The registry of commands: the built-ins by name, and the names of the
/// programs found on the search path.
pub struct Context {
    pub valid_commands: Vec<(String, Builtin)>,
    pub external_commands: Trie<String, bool>,
}

pub open spec fn commands_view(v: Seq<(String, Builtin)>) -> Seq<(Seq<char>, Builtin)> {
    v.map_values(|p: (String, Builtin)| (p.0@, p.1))
}

impl Context {
    pub open spec fn builtins(&self) -> Seq<(Seq<char>, Builtin)> {
        commands_view(self.valid_commands@)
    }

    pub open spec fn builtin_named(&self, name: Seq<char>) -> Option<Builtin> {
        builtin_lookup(self.builtins(), name)
    }

    pub open spec fn externals(&self) -> Map<Seq<char>, bool> {
        trie_contents(self.external_commands)
    }

    /// A registry with no commands.
    pub fn new() -> (r: Self)
        ensures
            forall|n: Seq<char>| r.builtin_named(n) is None,
            r.externals().dom().len() == 0 && r.externals().dom().finite(),
            names_unique(r.builtins()),
    {
        let r = Context { valid_commands: Vec::new(), external_commands: trie_new() };
        assert(r.builtins() =~= seq![]);
        r
    }

    /// The registry of a new session: the built-ins under their names, and
    /// no programs yet.
    pub fn with_builtins() -> (r: Self)
        ensures
            forall|n: Seq<char>| #[trigger] r.builtin_named(n) == default_builtin(n),
            r.externals().dom().len() == 0 && r.externals().dom().finite(),
            names_unique(r.builtins()),
    {
        let mut r = Context::new();
        r.insert_command(String::from_str("ls"), Builtin::Ls);
        r.insert_command(String::from_str("ps"), Builtin::Ps);
        r.insert_command(String::from_str("cd"), Builtin::Cd);
        r.insert_command(String::from_str("sortby"), Builtin::SortBy);
        r.insert_command(String::from_str("take"), Builtin::Limit);
        r.insert_command(String::from_str("limit"), Builtin::Limit);
        r.insert_command(String::from_str("rev"), Builtin::Rev);
        r
    }

    /// Binds a name to a built-in, replacing an earlier binding of the name.
    pub fn insert_command(&mut self, name: String, command: Builtin)
        ensures
            forall|n: Seq<char>|
                #[trigger] final(self).builtin_named(n) == if n == name@ {
                    Some(command)
                } else {
                    old(self).builtin_named(n)
                },
            final(self).externals() == old(self).externals(),
            names_unique(old(self).builtins()) ==> names_unique(final(self).builtins()),
    {
        let ghost cmds = self.builtins();
        let n = self.valid_commands.len();
        let mut i: usize = 0;
        while i < n
            invariant
                n == self.valid_commands@.len(),
                cmds == self.builtins(),
                cmds == old(self).builtins(),
                self.external_commands == old(self).external_commands,
                i <= n,
                forall|j: int| 0 <= j < i ==> (#[trigger] cmds[j]).0 != name@,
            decreases n - i,
        {
            if self.valid_commands[i].0 == name {
                proof {
                    assert(cmds[i as int].0 == name@);
                    lemma_name_index(cmds, name@);
                    if 0 <= name_index(cmds, name@) < i {
                        assert(cmds[name_index(cmds, name@)].0 == name@);
                    }
                    assert(name_index(cmds, name@) == i);
                }
                self.valid_commands.set(i, (name, command));
                proof {
                    assert(self.builtins() =~= cmds.update(i as int, (name@, command)));
                    assert forall|k: Seq<char>| #[trigger]
                        self.builtin_named(k) == if k == name@ {
                            Some(command)
                        } else {
                            builtin_lookup(cmds, k)
                        } by {
                        lemma_lookup_set(cmds, name@, command, k);
                    }
                }
                return;
            }
            i = i + 1;
        }
        proof {
            lemma_name_index(cmds, name@);
        }
        self.valid_commands.push((name, command));
        proof {
            assert(self.builtins() =~= cmds.push((name@, command)));
            assert forall|k: Seq<char>| #[trigger]
                self.builtin_named(k) == if k == name@ {
                    Some(command)
                } else {
                    builtin_lookup(cmds, k)
                } by {
                lemma_lookup_set(cmds, name@, command, k);
            }
        }
    }

    /// Binds each name of the list in turn; a name that occurs twice keeps
    /// its last binding.
    pub fn insert_commands(&mut self, commands: Vec<(String, Builtin)>)
        ensures
            forall|n: Seq<char>|
                #[trigger] final(self).builtin_named(n) == match last_binding(
                    commands_view(commands@),
                    n,
                ) {
                    Some(b) => Some(b),
                    None => old(self).builtin_named(n),
                },
            final(self).externals() == old(self).externals(),
            names_unique(old(self).builtins()) ==> names_unique(final(self).builtins()),
    {
        let ghost all = commands_view(commands@);
        let total = commands.len();
        let mut commands = commands;
        let mut i: usize = 0;
        assert(all.take(0) =~= seq![]);
        assert(commands_view(commands@) =~= all.skip(0));
        while commands.len() > 0
            invariant
                all.len() == total,
                i + commands@.len() == total,
                commands_view(commands@) == all.skip(i as int),
                names_unique(old(self).builtins()) ==> names_unique(self.builtins()),
                self.externals() == old(self).externals(),
                forall|n: Seq<char>|
                    #[trigger] self.builtin_named(n) == match last_binding(all.take(i as int), n) {
                        Some(b) => Some(b),
                        None => old(self).builtin_named(n),
                    },
            decreases commands@.len(),
        {
            let ghost rest = commands_view(commands@);
            let (name, command) = commands.remove(0);
            assert(rest[0] == (name@, command));
            assert(all[i as int] == (name@, command));
            assert(all.take(i + 1).drop_last() =~= all.take(i as int));
            assert(commands_view(commands@) =~= rest.drop_first());
            assert(commands_view(commands@) =~= all.skip(i + 1));
            self.insert_command(name, command);
            i = i + 1;
        }
        assert(all.take(i as int) =~= all);
    }

    /// The built-in bound to a name.
    pub fn builtin(&self, name: &str) -> (r: Option<Builtin>)
        ensures
            r == self.builtin_named(name@),
    {
        let ghost cmds = self.builtins();
        let n = self.valid_commands.len();
        let mut i: usize = 0;
        assert(cmds.skip(0) =~= cmds);
        while i < n
            invariant
                n == self.valid_commands@.len(),
                cmds == self.builtins(),
                i <= n,
                builtin_lookup(cmds, name@) == builtin_lookup(cmds.skip(i as int), name@),
            decreases n - i,
        {
            assert(cmds.skip(i as int)[0] == cmds[i as int]);
            assert(cmds.skip(i as int).drop_first() =~= cmds.skip(i + 1));
            assert(cmds[i as int] == (self.valid_commands@[i as int].0@, self.valid_commands@[
                i as int
            ].1));
            if str_eq(self.valid_commands[i].0.as_str(), name) {
                return Some(self.valid_commands[i].1);
            }
            i = i + 1;
        }
        assert(cmds.skip(0) =~= cmds);
        assert(cmds.skip(i as int) =~= seq![]);
        None
    }

    /// Replaces the names of the programs on the search path.
    pub fn generate_externals(&mut self, names: Vec<String>)
        ensures
            forall|n: Seq<char>|
                #[trigger] final(self).externals().contains_key(n) <==> exists|i: int|
                    0 <= i < names@.len() && names@[i]@ == n,
            forall|n: Seq<char>| #[trigger]
                final(self).builtin_named(n) == old(self).builtin_named(n),
            forall|n: Seq<char>|
                #[trigger] final(self).externals().contains_key(n) ==> final(self).externals()[n],
    {
        self.external_commands = trie_new();
        let mut i: usize = 0;
        while i < names.len()
            invariant
                i <= names@.len(),
                self.valid_commands@ == old(self).valid_commands@,
                forall|n: Seq<char>|
                    #[trigger] self.externals().contains_key(n) ==> self.externals()[n],
                forall|n: Seq<char>|
                    #[trigger] self.externals().contains_key(n) <==> exists|j: int|
                        0 <= j < i && names@[j]@ == n,
            decreases names@.len() - i,
        {
            let ghost before = self.externals();
            trie_insert(&mut self.external_commands, names[i].clone(), true);
            assert forall|n: Seq<char>| #[trigger]
                self.externals().contains_key(n) <==> exists|j: int|
                    0 <= j < i + 1 && names@[j]@ == n by {
                if n == names@[i as int]@ {
                    assert(self.externals().contains_key(n));
                } else if before.contains_key(n) {
                    let j = choose|j: int| 0 <= j < i && names@[j]@ == n;
                    assert(0 <= j < i + 1 && names@[j]@ == n);
                }
            }
            i = i + 1;
        }
    }

    /// Whether a name is a built-in or a program on the search path.
    pub fn command_exists(&self, name: &str) -> (r: bool)
        ensures
            r == (self.builtin_named(name@) is Some || self.externals().contains_key(name@)),
    {
        self.builtin(name).is_some() || trie_get(&self.external_commands, name).is_some()
    }
}

} // verus!
