//! The game's identifier tables: what an item, a cell, an entity or a prop is called.

use crate::lexer;
use vstd::prelude::*;

verus! {

/// Why a table could not be read.
#[derive(Debug)]
pub enum TableError {
    /// A line that holds an identifier and nothing else.
    NoName(String),
    /// A line whose first word is no 32-bit number.
    BadId(String),
}

/// A table error, as contracts speak of it.
pub enum TableFault {
    NoName(Seq<char>),
    BadId(Seq<char>),
}

impl View for TableError {
    type V = TableFault;

    open spec fn view(&self) -> TableFault {
        match self {
            TableError::NoName(s) => TableFault::NoName(s@),
            TableError::BadId(s) => TableFault::BadId(s@),
        }
    }
}

/// One entry: an identifier and its name.
#[derive(Debug)]
pub struct Entry {
    pub id: i32,
    pub name: String,
}

/// The index of the first double space at or after `i`, or the length.
pub open spec fn gap(s: Seq<char>, i: int) -> int
    decreases s.len() - i,
{
    if 0 <= i && i + 1 < s.len() {
        if s[i] == ' ' && s[i + 1] == ' ' {
            i
        } else {
            gap(s, i + 1)
        }
    } else {
        s.len() as int
    }
}

/// The name in what follows the identifier: the tag before a double space, if there is
/// one, else everything.
pub open spec fn tag_of(rest: Seq<char>) -> Seq<char> {
    let g = gap(rest, 0);
    if g < rest.len() {
        lexer::trim(rest.take(g))
    } else {
        rest
    }
}

/// The entry in a line that is not blank and has no white space at its ends.
pub open spec fn entry_of(line: Seq<char>) -> Result<(int, Seq<char>), TableFault> {
    let e = lexer::run_end(line, 0, false);
    if e >= line.len() {
        Err(TableFault::NoName(line))
    } else {
        match lexer::parse_i32(line.take(e)) {
            Some(id) => Ok((id, tag_of(lexer::trim(line.skip(e + 1))))),
            None => Err(TableFault::BadId(line.take(e))),
        }
    }
}

/// The entries in the lines, blank ones left out; the first bad line is the error.
pub open spec fn entries_of(lines: Seq<Seq<char>>) -> Result<Seq<(int, Seq<char>)>, TableFault>
    decreases lines.len(),
{
    if lines.len() == 0 {
        Ok(seq![])
    } else {
        match entries_of(lines.drop_last()) {
            Err(e) => Err(e),
            Ok(before) => {
                let line = lexer::trim(lines.last());
                if line.len() == 0 {
                    Ok(before)
                } else {
                    match entry_of(line) {
                        Err(e) => Err(e),
                        Ok(entry) => Ok(before.push(entry)),
                    }
                }
            },
        }
    }
}

/// The lines of a table, without the header line that it may have.
pub open spec fn body(text: Seq<char>, skip_header: bool) -> Seq<Seq<char>> {
    let all = lexer::lines(text);
    if skip_header && all.len() > 0 {
        all.skip(1)
    } else {
        all
    }
}

/// The name of the first entry for `id`, from index `i` on.
pub open spec fn name_from(entries: Seq<(int, Seq<char>)>, i: int, id: int) -> Option<Seq<char>>
    decreases entries.len() - i,
{
    if 0 <= i < entries.len() {
        if entries[i].0 == id {
            Some(entries[i].1)
        } else {
            name_from(entries, i + 1, id)
        }
    } else {
        None
    }
}

/// What an optional string holds.
pub open spec fn text_of(s: Option<String>) -> Option<Seq<char>> {
    match s {
        Some(t) => Some(t@),
        None => None,
    }
}

/// A table of names.
#[derive(Debug)]
pub struct IdTable {
    pub entries: Vec<Entry>,
}

impl View for IdTable {
    type V = Seq<(int, Seq<char>)>;

    open spec fn view(&self) -> Seq<(int, Seq<char>)> {
        self.entries@.map_values(|e: Entry| (e.id as int, e.name@))
    }
}

impl IdTable {
    /// The name that the table has for `id`.
    pub open spec fn lookup(self, id: int) -> Option<Seq<char>> {
        name_from(self@, 0, id)
    }

    /// A table without entries.
    pub fn empty() -> (t: IdTable)
        ensures
            t@ == Seq::<(int, Seq<char>)>::empty(),
    {
        let t = IdTable { entries: Vec::new() };
        assert(t@ =~= Seq::<(int, Seq<char>)>::empty());
        t
    }

    /// The name of `id`, if the table has one.
    pub fn name(&self, id: i32) -> (r: Option<String>)
        ensures
            text_of(r) == self.lookup(id as int),
    {
        let mut i: usize = 0;
        while i < self.entries.len()
            invariant
                i <= self.entries@.len(),
                name_from(self@, i as int, id as int) == name_from(self@, 0, id as int),
            decreases self.entries@.len() - i,
        {
            if self.entries[i].id == id {
                return Some(self.entries[i].name.clone());
            }
            i = i + 1;
        }
        None
    }

    /// The name of `id`, if there is an identifier and the table has a name for it.
    pub fn name_of(&self, id: Option<i32>) -> (r: Option<String>)
        ensures
            text_of(r) == match id {
                Some(n) => self.lookup(n as int),
                None => None,
            },
    {
        match id {
            Some(n) => self.name(n),
            None => None,
        }
    }
}

fn find_gap(v: &Vec<char>) -> (g: usize)
    ensures
        g == gap(v@, 0),
        g <= v@.len(),
{
    let n: usize = v.len();
    let mut i: usize = 0;
    while n >= 2 && i < n - 1
        invariant
            n == v@.len(),
            i <= n,
            gap(v@, i as int) == gap(v@, 0),
        decreases n - i,
    {
        if v[i] == ' ' && v[i + 1] == ' ' {
            return i;
        }
        i = i + 1;
    }
    n
}

fn parse_entry(line: &Vec<char>) -> (r: Result<Entry, TableError>)
    ensures
        match entry_of(line@) {
            Ok(e) => r matches Ok(x) && x.id == e.0 && x.name@ == e.1,
            Err(f) => r matches Err(x) && x@ == f,
        },
{
    let e: usize = lexer::skip_run(line, 0, false);
    if e >= line.len() {
        return Err(TableError::NoName(lexer::string(line)));
    }
    let head: Vec<char> = lexer::cut(line, 0, e);
    let tail: Vec<char> = lexer::cut(line, e + 1, line.len());
    assert(head@ =~= line@.take(e as int));
    assert(tail@ =~= line@.skip(e + 1));
    let id: i32 = match lexer::parse_int(&head) {
        Some(n) => n,
        None => return Err(TableError::BadId(lexer::string(&head))),
    };
    let rest: Vec<char> = lexer::trimmed(&tail);
    let g: usize = find_gap(&rest);
    if g < rest.len() {
        let tag: Vec<char> = lexer::cut(&rest, 0, g);
        assert(tag@ =~= rest@.take(g as int));
        Ok(Entry { id, name: lexer::string(&lexer::trimmed(&tag)) })
    } else {
        Ok(Entry { id, name: lexer::string(&rest) })
    }
}

/// Reads a table from its text: one `id name` or `id tag  name` per line.
pub fn parse_table(text: &str, skip_header: bool) -> (r: Result<IdTable, TableError>)
    ensures
        match entries_of(body(text@, skip_header)) {
            Ok(entries) => r matches Ok(t) && t@ == entries,
            Err(f) => r matches Err(e) && e@ == f,
        },
{
    let all: Vec<char> = lexer::chars(text);
    let lines: Vec<Vec<char>> = lexer::split_lines(&all);
    let ghost seqs = lines@.map_values(|l: Vec<char>| l@);
    let first: usize = if skip_header && lines.len() > 0 {
        1
    } else {
        0
    };
    let ghost wanted = seqs.skip(first as int);
    assert(wanted =~= body(text@, skip_header));
    let mut entries: Vec<Entry> = Vec::new();
    let mut i: usize = first;
    proof {
        assert(wanted.take(0) =~= Seq::<Seq<char>>::empty());
        assert(entries@.map_values(|e: Entry| (e.id as int, e.name@)) =~= Seq::<(int, Seq<char>)>::empty());
    }
    while i < lines.len()
        invariant
            first <= i <= lines@.len(),
            seqs == lines@.map_values(|l: Vec<char>| l@),
            wanted == seqs.skip(first as int),
            wanted == body(text@, skip_header),
            entries_of(wanted.take(i - first)) == Ok::<Seq<(int, Seq<char>)>, TableFault>(
                entries@.map_values(|e: Entry| (e.id as int, e.name@)),
            ),
        decreases lines@.len() - i,
    {
        let ghost n = i - first;
        let ghost before = entries@;
        let line: Vec<char> = lexer::trimmed(&lines[i]);
        proof {
            assert(wanted.take(n + 1).drop_last() =~= wanted.take(n));
            assert(wanted.take(n + 1).last() == lines@[i as int]@);
        }
        if line.len() > 0 {
            match parse_entry(&line) {
                Ok(e) => {
                    entries.push(e);
                    assert(entries@.map_values(|e: Entry| (e.id as int, e.name@)) =~= before.map_values(
                        |e: Entry| (e.id as int, e.name@),
                    ).push((e.id as int, e.name@)));
                },
                Err(e) => {
                    proof {
                        first_error_stays(wanted, n + 1);
                    }
                    return Err(e);
                },
            }
        }
        i = i + 1;
    }
    assert(wanted.take(i - first) =~= wanted);
    Ok(IdTable { entries })
}

/// A bad line spoils every table that goes on after it.
proof fn first_error_stays(lines: Seq<Seq<char>>, n: int)
    requires
        0 <= n <= lines.len(),
        entries_of(lines.take(n)) is Err,
    ensures
        entries_of(lines) == entries_of(lines.take(n)),
    decreases lines.len() - n,
{
    if n < lines.len() {
        assert(lines.take(n + 1).drop_last() =~= lines.take(n));
        first_error_stays(lines, n + 1);
    } else {
        assert(lines.take(n) =~= lines);
    }
}

/// The name of an identifier is that of its first entry; it has none exactly if it has no
/// entry.
pub proof fn name_is_of_first_entry(entries: Seq<(int, Seq<char>)>, i: int, id: int)
    requires
        0 <= i,
    ensures
        match name_from(entries, i, id) {
            Some(name) => exists|k: int|
                {
                    &&& i <= k < entries.len()
                    &&& #[trigger] entries[k] == (id, name)
                    &&& forall|j: int| i <= j < k ==> (#[trigger] entries[j]).0 != id
                },
            None => forall|k: int| i <= k < entries.len() ==> (#[trigger] entries[k]).0 != id,
        },
    decreases entries.len() - i,
{
    if i < entries.len() {
        if entries[i].0 == id {
            assert(entries[i] == (id, entries[i].1));
        } else {
            name_is_of_first_entry(entries, i + 1, id);
            if let Some(name) = name_from(entries, i + 1, id) {
                let k = choose|k: int|
                    {
                        &&& i + 1 <= k < entries.len()
                        &&& #[trigger] entries[k] == (id, name)
                        &&& forall|j: int| i + 1 <= j < k ==> (#[trigger] entries[j]).0 != id
                    };
                assert(entries[k] == (id, name));
            }
        }
    }
}

} // verus!
