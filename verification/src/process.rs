//! Choosing the game's process.

use crate::lexer;
use crate::lexer::chars;
use vstd::prelude::*;

verus! {

/// What `str::to_lowercase` makes of a text.
pub uninterp spec fn lower(s: Seq<char>) -> Seq<char>;

/// `str::to_lowercase` turns a text into lower case; the outcome depends on the text
/// alone.
#[verifier::external_body]
fn lower_text(s: &str) -> (r: String)
    ensures
        r@ == lower(s@),
{
    s.to_lowercase()
}

/// A process: its name and the words of its command line.
#[derive(Debug)]
pub struct ProcessInfo {
    pub name: String,
    pub cmd: Vec<String>,
}

/// Whether `needle` stands in `s` at `i`.
pub open spec fn stands_at(s: Seq<char>, needle: Seq<char>, i: int) -> bool {
    0 <= i && i + needle.len() <= s.len() && s.subrange(i, i + needle.len()) == needle
}

/// Whether `needle` stands in `s`.
pub open spec fn contains(s: Seq<char>, needle: Seq<char>) -> bool {
    exists|i: int| stands_at(s, needle, i)
}

/// Whether a word is on a command line.
pub open spec fn has_word(cmd: Seq<String>, word: Seq<char>) -> bool {
    exists|i: int| 0 <= i < cmd.len() && (#[trigger] cmd[i])@ == word
}

/// Whether a process, whose name is `name` in lower case, is one with this name that
/// mirrors the game state.
pub open spec fn is_game(name: Seq<char>, cmd: Seq<String>, part: Seq<char>) -> bool {
    contains(name, part) && has_word(cmd, "-luigiAi"@)
}

fn matches_at(s: &Vec<char>, needle: &Vec<char>, i: usize) -> (r: bool)
    requires
        i + needle@.len() <= s@.len(),
    ensures
        r == stands_at(s@, needle@, i as int),
{
    let _n: usize = s.len();
    let mut k: usize = 0;
    while k < needle.len() && s[i + k] == needle[k]
        invariant
            i + needle@.len() <= s@.len() <= usize::MAX,
            k <= needle@.len(),
            forall|j: int| 0 <= j < k ==> s@[i + j] == needle@[j],
        decreases needle@.len() - k,
    {
        k = k + 1;
    }
    if k < needle.len() {
        assert(s@.subrange(i as int, i + needle@.len())[k as int] == s@[i + k]);
        false
    } else {
        assert(s@.subrange(i as int, i + needle@.len()) =~= needle@);
        true
    }
}

fn holds(s: &str, part: &str) -> (r: bool)
    ensures
        r == contains(s@, part@),
{
    let v: Vec<char> = chars(s);
    let p: Vec<char> = chars(part);
    if p.len() > v.len() {
        return false;
    }
    let last: usize = v.len() - p.len();
    let mut i: usize = 0;
    while i <= last
        invariant
            last + p@.len() == v@.len(),
            v@ == s@,
            p@ == part@,
            i <= last + 1,
            v@.len() <= usize::MAX,
            forall|j: int| 0 <= j < i ==> !stands_at(v@, p@, j),
        decreases last + 1 - i,
    {
        if matches_at(&v, &p, i) {
            assert(stands_at(s@, part@, i as int));
            return true;
        }
        if i == last {
            assert forall|j: int| !stands_at(s@, part@, j) by {}
            return false;
        }
        i = i + 1;
    }
    false
}

fn mirrors(cmd: &Vec<String>) -> (r: bool)
    ensures
        r == has_word(cmd@, "-luigiAi"@),
{
    let mut i: usize = 0;
    while i < cmd.len()
        invariant
            i <= cmd@.len(),
            forall|j: int| 0 <= j < i ==> (#[trigger] cmd@[j])@ != "-luigiAi"@,
        decreases cmd@.len() - i,
    {
        if lexer::same(&cmd[i], "-luigiAi") {
            return true;
        }
        i = i + 1;
    }
    false
}

/// Whether a process, whose name is `lowered` in lower case, is one with `part` in its
/// name that mirrors the game state.
pub fn is_candidate(lowered: &str, cmd: &Vec<String>, part: &str) -> (r: bool)
    ensures
        r == is_game(lowered@, cmd@, part@),
{
    holds(lowered, part) && mirrors(cmd)
}

/// The first process from `i` on that has `part` in its name and mirrors the game state.
pub open spec fn first_from(list: Seq<ProcessInfo>, i: int, part: Seq<char>) -> Option<int>
    decreases list.len() - i,
{
    if i >= list.len() {
        None
    } else if is_game(lower(list[i].name@), list[i].cmd@, part) {
        Some(i)
    } else {
        first_from(list, i + 1, part)
    }
}

fn first(list: &Vec<ProcessInfo>, part: &str) -> (r: Option<usize>)
    ensures
        match r {
            Some(i) => first_from(list@, 0, part@) == Some(i as int) && i < list@.len(),
            None => first_from(list@, 0, part@) is None,
        },
{
    let mut i: usize = 0;
    while i < list.len()
        invariant
            i <= list@.len(),
            first_from(list@, i as int, part@) == first_from(list@, 0, part@),
        decreases list@.len() - i,
    {
        let lowered: String = lower_text(list[i].name.as_str());
        if is_candidate(lowered.as_str(), &list[i].cmd, part) {
            return Some(i);
        }
        i = i + 1;
    }
    None
}

/// Which process is the game: the first that bears its name, else the first that runs it
/// under Wine.
pub fn select_process(list: &Vec<ProcessInfo>) -> (r: Option<usize>)
    ensures
        match first_from(list@, 0, "cogmind.exe"@) {
            Some(i) => r matches Some(k) && k == i,
            None => match first_from(list@, 0, "wine"@) {
                Some(i) => r matches Some(k) && k == i,
                None => r is None,
            },
        },
        r matches Some(k) ==> k < list@.len(),
{
    match first(list, "cogmind.exe") {
        Some(i) => Some(i),
        None => first(list, "wine"),
    }
}

} // verus!
