//! Muscle names, the records of an exercise import, and the configuration.

use crate::cli::ConfigCmd;
use crate::lookup::{lemma_position_from, position, position_from};
use crate::models::Muscle;
use crate::text::{
    ascii_lowercase, find_char, find_from, has_control, has_prefix, split, split_on, starts_with,
    str_eq, to_ascii_lowercase, trim, trimmed,
};
use vstd::prelude::*;
use vstd::string::StrSliceExecFns;
use vstd::string::StringExecFns;

verus! {

/// The name of a muscle group.
pub open spec fn muscle_name(m: Muscle) -> Seq<char> {
    match m {
        Muscle::Biceps => "biceps"@,
        Muscle::Triceps => "triceps"@,
        Muscle::Forearms => "forearms"@,
        Muscle::Chest => "chest"@,
        Muscle::Shoulders => "shoulders"@,
        Muscle::Back => "back"@,
        Muscle::Quads => "quads"@,
        Muscle::Hamstrings => "hamstrings"@,
        Muscle::Glutes => "glutes"@,
        Muscle::Calves => "calves"@,
        Muscle::Abs => "abs"@,
    }
}

/// The muscle group with this name.
pub open spec fn muscle_named(name: Seq<char>) -> Option<Muscle> {
    if name == "biceps"@ {
        Some(Muscle::Biceps)
    } else if name == "triceps"@ {
        Some(Muscle::Triceps)
    } else if name == "forearms"@ {
        Some(Muscle::Forearms)
    } else if name == "chest"@ {
        Some(Muscle::Chest)
    } else if name == "shoulders"@ {
        Some(Muscle::Shoulders)
    } else if name == "back"@ {
        Some(Muscle::Back)
    } else if name == "quads"@ {
        Some(Muscle::Quads)
    } else if name == "hamstrings"@ {
        Some(Muscle::Hamstrings)
    } else if name == "glutes"@ {
        Some(Muscle::Glutes)
    } else if name == "calves"@ {
        Some(Muscle::Calves)
    } else if name == "abs"@ {
        Some(Muscle::Abs)
    } else {
        None
    }
}

/// The canonical name of the muscle group that `m` writes in any letter case.
pub open spec fn canonical_muscle_name(m: Seq<char>) -> Option<Seq<char>> {
    if muscle_named(ascii_lowercase(m)) is Some {
        Some(ascii_lowercase(m))
    } else {
        None
    }
}

/// The name of a muscle group.
pub fn name_of_muscle(m: Muscle) -> (name: &'static str)
    ensures
        name@ == muscle_name(m),
{
    match m {
        Muscle::Biceps => "biceps",
        Muscle::Triceps => "triceps",
        Muscle::Forearms => "forearms",
        Muscle::Chest => "chest",
        Muscle::Shoulders => "shoulders",
        Muscle::Back => "back",
        Muscle::Quads => "quads",
        Muscle::Hamstrings => "hamstrings",
        Muscle::Glutes => "glutes",
        Muscle::Calves => "calves",
        Muscle::Abs => "abs",
    }
}

/// The muscle groups.
pub open spec fn all_muscles() -> Seq<Muscle> {
    seq![
        Muscle::Biceps,
        Muscle::Triceps,
        Muscle::Forearms,
        Muscle::Chest,
        Muscle::Shoulders,
        Muscle::Back,
        Muscle::Quads,
        Muscle::Hamstrings,
        Muscle::Glutes,
        Muscle::Calves,
        Muscle::Abs,
    ]
}

/// The names of all muscle groups.
pub fn allowed_muscles() -> (names: Vec<&'static str>)
    ensures
        names@.len() == all_muscles().len(),
        forall|i: int|
            0 <= i < names@.len() ==> (#[trigger] names@[i])@ == muscle_name(all_muscles()[i]),
{
    vec![
        "biceps",
        "triceps",
        "forearms",
        "chest",
        "shoulders",
        "back",
        "quads",
        "hamstrings",
        "glutes",
        "calves",
        "abs",
    ]
}

/// The muscle group with this name, written in lower case.
pub fn muscle_from_name(name: &str) -> (m: Option<Muscle>)
    ensures
        m == muscle_named(name@),
{
    if str_eq(name, "biceps") {
        Some(Muscle::Biceps)
    } else if str_eq(name, "triceps") {
        Some(Muscle::Triceps)
    } else if str_eq(name, "forearms") {
        Some(Muscle::Forearms)
    } else if str_eq(name, "chest") {
        Some(Muscle::Chest)
    } else if str_eq(name, "shoulders") {
        Some(Muscle::Shoulders)
    } else if str_eq(name, "back") {
        Some(Muscle::Back)
    } else if str_eq(name, "quads") {
        Some(Muscle::Quads)
    } else if str_eq(name, "hamstrings") {
        Some(Muscle::Hamstrings)
    } else if str_eq(name, "glutes") {
        Some(Muscle::Glutes)
    } else if str_eq(name, "calves") {
        Some(Muscle::Calves)
    } else if str_eq(name, "abs") {
        Some(Muscle::Abs)
    } else {
        None
    }
}

/// The names of the muscle groups are eleven different words, and each names
/// its own group.
pub proof fn lemma_muscle_names()
    ensures
        forall|m: Muscle| muscle_named(#[trigger] muscle_name(m)) == Some(m),
{
    reveal_strlit("biceps");
    reveal_strlit("triceps");
    reveal_strlit("forearms");
    reveal_strlit("chest");
    reveal_strlit("shoulders");
    reveal_strlit("back");
    reveal_strlit("quads");
    reveal_strlit("hamstrings");
    reveal_strlit("glutes");
    reveal_strlit("calves");
    reveal_strlit("abs");
    assert("biceps"@.len() == 6 && "biceps"@[0] == 'b');
    assert("triceps"@.len() == 7);
    assert("forearms"@.len() == 8);
    assert("chest"@.len() == 5 && "chest"@[0] == 'c');
    assert("shoulders"@.len() == 9);
    assert("back"@.len() == 4);
    assert("quads"@.len() == 5 && "quads"@[0] == 'q');
    assert("hamstrings"@.len() == 10);
    assert("glutes"@.len() == 6 && "glutes"@[0] == 'g');
    assert("calves"@.len() == 6 && "calves"@[0] == 'c');
    assert("abs"@.len() == 3);
    assert forall|m: Muscle| muscle_named(#[trigger] muscle_name(m)) == Some(m) by {
        match m {
            Muscle::Biceps => {},
            Muscle::Triceps => {},
            Muscle::Forearms => {},
            Muscle::Chest => {},
            Muscle::Shoulders => {},
            Muscle::Back => {},
            Muscle::Quads => {},
            Muscle::Hamstrings => {},
            Muscle::Glutes => {},
            Muscle::Calves => {},
            Muscle::Abs => {},
        }
    }
}

impl Muscle {
    /// The name of the muscle group, as it is written.
    pub fn to_string(&self) -> (name: String)
        ensures
            name@ == muscle_name(*self),
    {
        name_of_muscle(*self).to_owned()
    }
}

/// The canonical lower-case name of a muscle group, or `None` where `m` names
/// none. The name may be written in any letter case.
pub fn cannonical_muscle(m: &str) -> (name: Option<String>)
    requires
        !has_control(m@),
    ensures
        name.deep_view() == canonical_muscle_name(m@),
{
    let lower = to_ascii_lowercase(m);
    if muscle_from_name(lower.as_str()).is_some() {
        Some(lower)
    } else {
        None
    }
}

/// One exercise of an import file.
#[derive(Clone, Debug, PartialEq, Eq)]
pub struct ExerciseDef {
    pub name: String,
    pub description: Option<String>,
    pub primary_muscle: String,
}

/// The exercises of an import file.
#[derive(Clone, Debug, PartialEq, Eq)]
pub struct ExerciseImport {
    pub exercise: Vec<ExerciseDef>,
}

/// How the user wants to see results.
#[derive(Clone, Copy, Debug, PartialEq, Eq, Structural)]
pub struct OutputFmt {
    pub json: bool,
}

/// The configuration: keys with their values, in the order in which the keys
/// were first set. It stands for a map: `keys_distinct` says that no key
/// occurs twice, which `new` and `parse` establish and every change keeps.
#[derive(Clone, Debug, PartialEq, Eq)]
pub struct Config {
    pub map: Vec<(String, String)>,
}

impl View for Config {
    type V = Seq<(Seq<char>, Seq<char>)>;

    open spec fn view(&self) -> Seq<(Seq<char>, Seq<char>)> {
        self.map.deep_view()
    }
}

/// The keys of a list of entries.
pub open spec fn keys_of<V>(entries: Seq<(Seq<char>, V)>) -> Seq<Seq<char>> {
    Seq::new(entries.len(), |i: int| entries[i].0)
}

/// The value that a list of entries holds for a key: that of the first entry
/// with the key.
pub open spec fn value_of<V>(entries: Seq<(Seq<char>, V)>, key: Seq<char>) -> Option<V> {
    match position(keys_of(entries), key) {
        Some(i) => Some(entries[i].1),
        None => None,
    }
}

/// The entries with `key` set to `value`: in the entry that has the key, else
/// in a new last entry.
pub open spec fn upsert<V>(entries: Seq<(Seq<char>, V)>, key: Seq<char>, value: V) -> Seq<
    (Seq<char>, V),
> {
    match position(keys_of(entries), key) {
        Some(i) => entries.update(i, (key, value)),
        None => entries.push((key, value)),
    }
}

/// The entries without the first entry that has `key`.
pub open spec fn without<V>(entries: Seq<(Seq<char>, V)>, key: Seq<char>) -> Seq<(Seq<char>, V)> {
    match position(keys_of(entries), key) {
        Some(i) => entries.remove(i),
        None => entries,
    }
}

/// Whether no key occurs twice in a list of entries: what makes the list a
/// map.
pub open spec fn keys_distinct<V>(entries: Seq<(Seq<char>, V)>) -> bool {
    forall|i: int, j: int|
        0 <= i < j < entries.len() ==> (#[trigger] entries[i]).0 != (#[trigger] entries[j]).0
}

/// Entries with distinct keys still have distinct keys after a key was set:
/// the entry that has the key is overwritten.
pub proof fn lemma_upsert_keeps_distinct<V>(entries: Seq<(Seq<char>, V)>, key: Seq<char>, value: V)
    requires
        keys_distinct(entries),
    ensures
        keys_distinct(upsert(entries, key, value)),
        value_of(upsert(entries, key, value), key) == Some(value),
{
    let after = upsert(entries, key, value);
    lemma_position_from(keys_of(entries), key, 0);
    match position(keys_of(entries), key) {
        Some(k) => {
            assert forall|i: int, j: int| 0 <= i < j < after.len() implies
                (#[trigger] after[i]).0 != (#[trigger] after[j]).0 by {
                assert(after[i].0 == entries[i].0);
                assert(after[j].0 == entries[j].0);
            }
            assert(keys_of(after) =~= keys_of(entries));
        },
        None => {
            assert forall|i: int, j: int| 0 <= i < j < after.len() implies
                (#[trigger] after[i]).0 != (#[trigger] after[j]).0 by {
                assert(after[i] == entries[i]);
                if j < entries.len() {
                    assert(after[j] == entries[j]);
                } else {
                    assert(keys_of(entries)[i] == entries[i].0);
                }
            }
            assert forall|j: int| 0 <= j < entries.len() implies keys_of(after)[j] != key by {
                assert(keys_of(entries)[j] == entries[j].0);
                assert(after[j] == entries[j]);
            }
            assert(keys_of(after)[entries.len() as int] == key);
            crate::lookup::lemma_position_found(keys_of(after), key, 0, entries.len() as int);
        },
    }
}

/// Entries with distinct keys still have distinct keys after a key was
/// removed, and hold the key no more.
pub proof fn lemma_without_keeps_distinct<V>(entries: Seq<(Seq<char>, V)>, key: Seq<char>)
    requires
        keys_distinct(entries),
    ensures
        keys_distinct(without(entries, key)),
        value_of(without(entries, key), key) is None,
{
    let after = without(entries, key);
    lemma_position_from(keys_of(entries), key, 0);
    match position(keys_of(entries), key) {
        Some(k) => {
            assert forall|i: int, j: int| 0 <= i < j < after.len() implies
                (#[trigger] after[i]).0 != (#[trigger] after[j]).0 by {
                let oi = if i < k {
                    i
                } else {
                    i + 1
                };
                let oj = if j < k {
                    j
                } else {
                    j + 1
                };
                assert(after[i] == entries[oi] && after[j] == entries[oj]);
            }
            assert forall|j: int| 0 <= j < after.len() implies keys_of(after)[j] != key by {
                let oj = if j < k {
                    j
                } else {
                    j + 1
                };
                assert(after[j] == entries[oj]);
                assert(keys_of(entries)[k] == entries[k].0);
                assert(keys_of(entries)[oj] == entries[oj].0);
                assert(entries[oj].0 != entries[k].0);
            }
            lemma_position_from(keys_of(after), key, 0);
        },
        None => {},
    }
}

/// The aliases that the first `n` entries of a configuration define: an entry
/// with the key `aliases.` followed by a command path makes its value a short
/// name for that path, the path cut at its dots.
pub open spec fn aliases_of(entries: Seq<(Seq<char>, Seq<char>)>, n: int) -> Seq<
    (Seq<char>, Seq<Seq<char>>),
>
    decreases n,
{
    if n <= 0 {
        Seq::empty()
    } else {
        let before = aliases_of(entries, n - 1);
        let (key, value) = entries[n - 1];
        if has_prefix(key, "aliases."@) {
            upsert(
                before,
                value,
                split_on(key.subrange("aliases."@.len() as int, key.len() as int), '.'),
            )
        } else {
            before
        }
    }
}

/// Whether the configuration asks for machine-readable output by default.
pub open spec fn json_on(entries: Seq<(Seq<char>, Seq<char>)>) -> bool {
    value_of(entries, "json"@) == Some("true"@) || value_of(entries, "json"@) == Some("1"@)
}

/// No short name occurs twice among the aliases that a configuration
/// defines.
pub proof fn aliases_have_distinct_names(entries: Seq<(Seq<char>, Seq<char>)>, n: int)
    ensures
        keys_distinct(aliases_of(entries, n)),
    decreases n,
{
    if n > 0 {
        aliases_have_distinct_names(entries, n - 1);
        let before = aliases_of(entries, n - 1);
        let (key, value) = entries[n - 1];
        if has_prefix(key, "aliases."@) {
            lemma_upsert_keeps_distinct(
                before,
                value,
                split_on(key.subrange("aliases."@.len() as int, key.len() as int), '.'),
            );
        }
    }
}

/// The place of the first entry with this key.
fn entry_position(map: &Vec<(String, String)>, key: &str) -> (found: Option<usize>)
    ensures
        match found {
            Some(i) => position(keys_of(map.deep_view()), key@) == Some(i as int) && i < map.len(),
            None => position(keys_of(map.deep_view()), key@) is None,
        },
{
    let ghost keys = keys_of(map.deep_view());
    let mut i: usize = 0;
    while i < map.len()
        invariant
            keys == keys_of(map.deep_view()),
            position(keys, key@) == position_from(keys, key@, i as int),
        decreases map.len() - i,
    {
        if str_eq(map[i].0.as_str(), key) {
            return Some(i);
        }
        i += 1;
    }
    None
}

fn alias_position(aliases: &Vec<(String, Vec<String>)>, key: &str) -> (found: Option<usize>)
    ensures
        match found {
            Some(i) => position(keys_of(aliases.deep_view()), key@) == Some(i as int) && i
                < aliases.len(),
            None => position(keys_of(aliases.deep_view()), key@) is None,
        },
{
    let ghost keys = keys_of(aliases.deep_view());
    let mut i: usize = 0;
    while i < aliases.len()
        invariant
            keys == keys_of(aliases.deep_view()),
            position(keys, key@) == position_from(keys, key@, i as int),
        decreases aliases.len() - i,
    {
        if str_eq(aliases[i].0.as_str(), key) {
            return Some(i);
        }
        i += 1;
    }
    None
}

/// The command path that a list of aliases holds for a short name.
pub fn alias_target<'a>(aliases: &'a Vec<(String, Vec<String>)>, name: &str) -> (path: Option<
    &'a Vec<String>,
>)
    ensures
        path.deep_view() == value_of(aliases.deep_view(), name@),
{
    match alias_position(aliases, name) {
        Some(i) => Some(&aliases[i].1),
        None => None,
    }
}

impl Config {
    /// A configuration without entries.
    pub fn new() -> (cfg: Config)
        ensures
            cfg@.len() == 0,
            keys_distinct(cfg@),
    {
        Config { map: Vec::new() }
    }

    /// The value of a key.
    pub fn get(&self, key: &str) -> (value: Option<&String>)
        ensures
            value.deep_view() == value_of(self@, key@),
    {
        match entry_position(&self.map, key) {
            Some(i) => Some(&self.map[i].1),
            None => None,
        }
    }

    /// Sets a key to a value, in place of the value it had.
    pub fn insert(&mut self, key: String, value: String)
        ensures
            final(self)@ == upsert(old(self)@, key@, value@),
            keys_distinct(old(self)@) ==> keys_distinct(final(self)@),
    {
        proof {
            if keys_distinct(self@) {
                lemma_upsert_keeps_distinct(self@, key@, value@);
            }
        }
        match entry_position(&self.map, key.as_str()) {
            Some(i) => {
                self.map[i] = (key, value);
                assert(self@ =~= upsert(old(self)@, key@, value@));
            },
            None => {
                self.map.push((key, value));
                assert(self@ =~= upsert(old(self)@, key@, value@));
            },
        }
    }

    /// Removes a key. Returns whether the configuration held it.
    pub fn remove(&mut self, key: &str) -> (removed: bool)
        ensures
            final(self)@ == without(old(self)@, key@),
            removed == (value_of(old(self)@, key@) is Some),
            keys_distinct(old(self)@) ==> keys_distinct(final(self)@),
    {
        proof {
            if keys_distinct(self@) {
                lemma_without_keeps_distinct(self@, key@);
            }
        }
        match entry_position(&self.map, key) {
            Some(i) => {
                self.map.remove(i);
                assert(self@ =~= without(old(self)@, key@));
                true
            },
            None => false,
        }
    }

    /// The aliases that the configuration defines, each short name with the
    /// command path it stands for: an entry with the key `aliases.` followed
    /// by a command path, such as `aliases.session.start`, makes its value a
    /// short name for that path. Where two entries define one short name, the
    /// later entry decides.
    pub fn aliases(&self) -> (m: Vec<(String, Vec<String>)>)
        ensures
            m.deep_view() == aliases_of(self@, self@.len() as int),
            keys_distinct(m.deep_view()),
    {
        proof {
            aliases_have_distinct_names(self@, self@.len() as int);
        }
        let mut m: Vec<(String, Vec<String>)> = Vec::new();
        let prefix = "aliases.";
        let skip = prefix.unicode_len();
        let mut n: usize = 0;
        while n < self.map.len()
            invariant
                n <= self.map.len(),
                prefix@ == "aliases."@,
                skip == prefix@.len(),
                m.deep_view() == aliases_of(self@, n as int),
            decreases self.map.len() - n,
        {
            let key = self.map[n].0.as_str();
            assert(key@ == self@[n as int].0);
            if starts_with(key, prefix) {
                let rest = key.substring_char(skip, key.unicode_len());
                let canon = split(rest, '.');
                let name = self.map[n].1.clone();
                assert(name@ == self@[n as int].1);
                let ghost before = m.deep_view();
                match alias_position(&m, name.as_str()) {
                    Some(i) => {
                        m[i] = (name, canon);
                        assert(m.deep_view() =~= upsert(before, name@, canon.deep_view()));
                    },
                    None => {
                        m.push((name, canon));
                        assert(m.deep_view() =~= upsert(before, name@, canon.deep_view()));
                    },
                }
            }
            n += 1;
        }
        m
    }

    /// Whether the configuration asks for machine-readable output by default:
    /// whether the key `json` is set to `true` or to `1`.
    pub fn json_default(&self) -> (on: bool)
        ensures
            on == json_on(self@),
    {
        match self.get("json") {
            Some(v) => str_eq(v.as_str(), "true") || str_eq(v.as_str(), "1"),
            None => false,
        }
    }
}

/// The entries after a line of a configuration file was read: a line that is
/// blank or begins with `#` changes nothing, nor does one without `=`; any
/// other line sets the key before the first `=` to the value behind it, both
/// trimmed.
pub open spec fn with_line(entries: Seq<(Seq<char>, Seq<char>)>, line: Seq<char>) -> Seq<
    (Seq<char>, Seq<char>),
> {
    let l = trimmed(line);
    if l.len() == 0 || l[0] == '#' {
        entries
    } else {
        let eq = find_from(l, '=', 0);
        if eq >= l.len() {
            entries
        } else {
            upsert(entries, trimmed(l.subrange(0, eq)), trimmed(l.subrange(eq + 1, l.len() as int)))
        }
    }
}

/// The entries that the first `n` lines of a configuration file set.
pub open spec fn with_lines(lines: Seq<Seq<char>>, n: int) -> Seq<(Seq<char>, Seq<char>)>
    decreases n,
{
    if n <= 0 {
        Seq::empty()
    } else {
        with_line(with_lines(lines, n - 1), lines[n - 1])
    }
}

/// The configuration that a file writes.
pub open spec fn parsed_config(text: Seq<char>) -> Seq<(Seq<char>, Seq<char>)> {
    with_lines(split_on(text, '\n'), split_on(text, '\n').len() as int)
}

/// The file that the first `n` entries of a configuration are written as: a
/// line `key = value` for each.
pub open spec fn rendered(entries: Seq<(Seq<char>, Seq<char>)>, n: int) -> Seq<char>
    decreases n,
{
    if n <= 0 {
        Seq::empty()
    } else {
        rendered(entries, n - 1) + entries[n - 1].0 + " = "@ + entries[n - 1].1 + "\n"@
    }
}

/// Entries with distinct keys still have distinct keys after a line of a
/// configuration file was read.
pub proof fn lemma_with_line_keeps_distinct(entries: Seq<(Seq<char>, Seq<char>)>, line: Seq<char>)
    requires
        keys_distinct(entries),
    ensures
        keys_distinct(with_line(entries, line)),
{
    let l = trimmed(line);
    if !(l.len() == 0 || l[0] == '#') {
        let eq = find_from(l, '=', 0);
        if eq < l.len() {
            lemma_upsert_keeps_distinct(
                entries,
                trimmed(l.subrange(0, eq)),
                trimmed(l.subrange(eq + 1, l.len() as int)),
            );
        }
    }
}

/// No key occurs twice in the entries that the lines of a configuration file
/// set.
pub proof fn lemma_with_lines_distinct(lines: Seq<Seq<char>>, n: int)
    ensures
        keys_distinct(with_lines(lines, n)),
    decreases n,
{
    if n > 0 {
        lemma_with_lines_distinct(lines, n - 1);
        lemma_with_line_keeps_distinct(with_lines(lines, n - 1), lines[n - 1]);
    }
}

/// No key occurs twice in the configuration that a file writes: a later line
/// for a key overrides the earlier one.
pub proof fn parsed_config_has_distinct_keys(text: Seq<char>)
    ensures
        keys_distinct(parsed_config(text)),
{
    lemma_with_lines_distinct(split_on(text, '\n'), split_on(text, '\n').len() as int);
}

/// A command with its other names and its subcommands.
pub struct CommandNode {
    pub name: String,
    pub aliases: Vec<String>,
    pub subcommands: Vec<CommandNode>,
}

/// Whether a command goes by this name.
pub open spec fn answers_to(node: CommandNode, name: Seq<char>) -> bool {
    node.name@ == name || position(node.aliases.deep_view(), name) is Some
}

/// The first subcommand at or after `i` that goes by this name.
pub open spec fn subcommand_from(subcommands: Seq<CommandNode>, name: Seq<char>, i: int) -> Option<
    int,
>
    decreases subcommands.len() - i,
{
    if i < 0 || i >= subcommands.len() {
        None
    } else if answers_to(subcommands[i], name) {
        Some(i)
    } else {
        subcommand_from(subcommands, name, i + 1)
    }
}

/// Whether the names of `path` from position `i` on lead from a command down
/// through its subcommands.
pub open spec fn path_exists(node: CommandNode, path: Seq<Seq<char>>, i: int) -> bool
    decreases path.len() - i,
{
    if i < 0 || i >= path.len() {
        true
    } else {
        match subcommand_from(node.subcommands@, path[i], 0) {
            Some(k) => path_exists(node.subcommands@[k], path, i + 1),
            None => false,
        }
    }
}

/// Whether a key may be set: `json`, or `aliases.` followed by the path of a
/// command, its names joined by dots.
pub open spec fn key_is_valid(key: Seq<char>, root: CommandNode) -> bool {
    key == "json"@ || (has_prefix(key, "aliases."@) && path_exists(
        root,
        split_on(key.subrange("aliases."@.len() as int, key.len() as int), '.'),
        0,
    ))
}

fn goes_by(node: &CommandNode, name: &String) -> (yes: bool)
    ensures
        yes == answers_to(*node, name@),
{
    if node.name == *name {
        return true;
    }
    let mut i: usize = 0;
    while i < node.aliases.len()
        invariant
            position(node.aliases.deep_view(), name@) == position_from(
                node.aliases.deep_view(),
                name@,
                i as int,
            ),
        decreases node.aliases.len() - i,
    {
        if node.aliases[i] == *name {
            return true;
        }
        i += 1;
    }
    false
}

fn find_subcommand(subcommands: &Vec<CommandNode>, name: &String) -> (found: Option<usize>)
    ensures
        match found {
            Some(k) => subcommand_from(subcommands@, name@, 0) == Some(k as int) && k
                < subcommands.len(),
            None => subcommand_from(subcommands@, name@, 0) is None,
        },
{
    let mut i: usize = 0;
    while i < subcommands.len()
        invariant
            subcommand_from(subcommands@, name@, 0) == subcommand_from(
                subcommands@,
                name@,
                i as int,
            ),
        decreases subcommands.len() - i,
    {
        if goes_by(&subcommands[i], name) {
            return Some(i);
        }
        i += 1;
    }
    None
}

impl Config {
    /// Reads a configuration file: a line `key = value` sets a key, a later
    /// line for the same key overrides an earlier one, and blank lines, lines
    /// that begin with `#` and lines without `=` are passed over.
    pub fn parse(text: &str) -> (cfg: Config)
        ensures
            cfg@ == parsed_config(text@),
            keys_distinct(cfg@),
    {
        proof {
            parsed_config_has_distinct_keys(text@);
        }
        let lines = split(text, '\n');
        let mut cfg = Config::new();
        assert(cfg@ =~= Seq::empty());
        let mut n: usize = 0;
        while n < lines.len()
            invariant
                n <= lines.len(),
                cfg@ == with_lines(lines.deep_view(), n as int),
            decreases lines.len() - n,
        {
            let line = trim(lines[n].as_str());
            let len = line.as_str().unicode_len();
            if len > 0 && line.as_str().get_char(0) != '#' {
                let eq = find_char(line.as_str(), '=', 0);
                if eq < len {
                    let key = trim(line.as_str().substring_char(0, eq));
                    let value = trim(line.as_str().substring_char(eq + 1, len));
                    cfg.insert(key, value);
                }
            }
            n += 1;
        }
        cfg
    }

    /// Writes the configuration as a file: a line `key = value` for each
    /// entry.
    pub fn render(&self) -> (text: String)
        ensures
            text@ == rendered(self@, self@.len() as int),
    {
        let mut text = String::new();
        let mut n: usize = 0;
        while n < self.map.len()
            invariant
                n <= self.map.len(),
                text@ == rendered(self@, n as int),
            decreases self.map.len() - n,
        {
            assert(self@[n as int].0 == self.map[n as int].0@);
            assert(self@[n as int].1 == self.map[n as int].1@);
            text.append(self.map[n].0.as_str());
            text.append(" = ");
            text.append(self.map[n].1.as_str());
            text.append("\n");
            n += 1;
        }
        text
    }

    /// Whether a key may be set: `json`, or `aliases.` followed by the path of
    /// a command under `root`, its names joined by dots, each the name of a
    /// subcommand or one of its other names.
    pub fn validate_key(&self, key: &str, root: &CommandNode) -> (valid: bool)
        ensures
            valid == key_is_valid(key@, *root),
    {
        if str_eq(key, "json") {
            return true;
        }
        let prefix = "aliases.";
        if !starts_with(key, prefix) {
            return false;
        }
        let path = split(key.substring_char(prefix.unicode_len(), key.unicode_len()), '.');
        let mut node: &CommandNode = root;
        let mut i: usize = 0;
        while i < path.len()
            invariant
                i <= path.len(),
                key@ != "json"@,
                has_prefix(key@, "aliases."@),
                path.deep_view() == split_on(
                    key@.subrange("aliases."@.len() as int, key@.len() as int),
                    '.',
                ),
                path_exists(*root, path.deep_view(), 0) == path_exists(
                    *node,
                    path.deep_view(),
                    i as int,
                ),
            decreases path.len() - i,
        {
            assert(path.deep_view()[i as int] == path[i as int]@);
            match find_subcommand(&node.subcommands, &path[i]) {
                Some(k) => {
                    node = &node.subcommands[k];
                },
                None => {
                    assert(!path_exists(*node, path.deep_view(), i as int));
                    return false;
                },
            }
            i += 1;
        }
        true
    }
}

/// What a configuration command reports.
#[derive(Clone, Debug, PartialEq, Eq)]
pub enum ConfigOutput {
    /// The entries of the configuration.
    Listed(Vec<(String, String)>),
    /// The value of the key.
    Found(String),
    /// The configuration does not hold the key.
    Missing,
    /// The key was set; the configuration has to be saved.
    Stored,
    /// The key may not be set.
    Invalid,
    /// The key was removed; the configuration has to be saved.
    Removed,
}

/// The view of a [`ConfigOutput`].
pub enum ConfigOutputView {
    Listed(Seq<(Seq<char>, Seq<char>)>),
    Found(Seq<char>),
    Missing,
    Stored,
    Invalid,
    Removed,
}

impl View for ConfigOutput {
    type V = ConfigOutputView;

    open spec fn view(&self) -> ConfigOutputView {
        match self {
            ConfigOutput::Listed(entries) => ConfigOutputView::Listed(entries.deep_view()),
            ConfigOutput::Found(value) => ConfigOutputView::Found(value@),
            ConfigOutput::Missing => ConfigOutputView::Missing,
            ConfigOutput::Stored => ConfigOutputView::Stored,
            ConfigOutput::Invalid => ConfigOutputView::Invalid,
            ConfigOutput::Removed => ConfigOutputView::Removed,
        }
    }
}

/// The configuration and the output that a configuration command leaves.
pub open spec fn config_command(
    cmd: ConfigCmd,
    entries: Seq<(Seq<char>, Seq<char>)>,
    root: CommandNode,
) -> (Seq<(Seq<char>, Seq<char>)>, ConfigOutputView) {
    match cmd {
        ConfigCmd::List => (entries, ConfigOutputView::Listed(entries)),
        ConfigCmd::Get { key } => (
            entries,
            match value_of(entries, key@) {
                Some(v) => ConfigOutputView::Found(v),
                None => ConfigOutputView::Missing,
            },
        ),
        ConfigCmd::SetValue { key, val } => if key_is_valid(key@, root) {
            (upsert(entries, key@, val@), ConfigOutputView::Stored)
        } else {
            (entries, ConfigOutputView::Invalid)
        },
        ConfigCmd::Unset { key } => (
            without(entries, key@),
            if value_of(entries, key@) is Some {
                ConfigOutputView::Removed
            } else {
                ConfigOutputView::Missing
            },
        ),
    }
}

/// A configuration with distinct keys still has distinct keys after a
/// configuration command.
pub proof fn config_command_keeps_distinct(
    cmd: ConfigCmd,
    entries: Seq<(Seq<char>, Seq<char>)>,
    root: CommandNode,
)
    requires
        keys_distinct(entries),
    ensures
        keys_distinct(config_command(cmd, entries, root).0),
{
    match cmd {
        ConfigCmd::SetValue { key, val } => {
            lemma_upsert_keeps_distinct(entries, key@, val@);
        },
        ConfigCmd::Unset { key } => {
            lemma_without_keeps_distinct(entries, key@);
        },
        _ => {},
    }
}

fn copy_entries(map: &Vec<(String, String)>) -> (c: Vec<(String, String)>)
    ensures
        c.deep_view() == map.deep_view(),
{
    let mut c: Vec<(String, String)> = Vec::new();
    let mut i: usize = 0;
    while i < map.len()
        invariant
            i <= map.len(),
            c.len() == i,
            forall|j: int| 0 <= j < i ==> c.deep_view()[j] == map.deep_view()[j],
        decreases map.len() - i,
    {
        let ghost before = c.deep_view();
        c.push((map[i].0.clone(), map[i].1.clone()));
        assert forall|j: int| 0 <= j < i implies c.deep_view()[j] == map.deep_view()[j] by {
            assert(c.deep_view()[j] == before[j]);
        }
        i += 1;
    }
    assert(c.deep_view() =~= map.deep_view());
    c
}

/// Runs a configuration command. A key is set only where it may be set: see
/// [`Config::validate_key`]. After `Stored` and `Removed` the configuration
/// has changed and is to be saved.
pub fn handle_config(cmd: &ConfigCmd, cfg: &mut Config, root: &CommandNode) -> (out: ConfigOutput)
    ensures
        final(cfg)@ == config_command(*cmd, old(cfg)@, *root).0,
        out@ == config_command(*cmd, old(cfg)@, *root).1,
        keys_distinct(old(cfg)@) ==> keys_distinct(final(cfg)@),
{
    proof {
        if keys_distinct(cfg@) {
            config_command_keeps_distinct(*cmd, cfg@, *root);
        }
    }
    match cmd {
        ConfigCmd::List => ConfigOutput::Listed(copy_entries(&cfg.map)),
        ConfigCmd::Get { key } => match cfg.get(key.as_str()) {
            Some(v) => ConfigOutput::Found(v.clone()),
            None => ConfigOutput::Missing,
        },
        ConfigCmd::SetValue { key, val } => {
            if cfg.validate_key(key.as_str(), root) {
                cfg.insert(key.clone(), val.clone());
                ConfigOutput::Stored
            } else {
                ConfigOutput::Invalid
            }
        },
        ConfigCmd::Unset { key } => {
            if cfg.remove(key.as_str()) {
                ConfigOutput::Removed
            } else {
                ConfigOutput::Missing
            }
        },
    }
}

} // verus!
