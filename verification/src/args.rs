//! The arguments of a tool call.

use crate::bytes;
use crate::bytes::{narrow, narrow_bits};
use crate::lexer;
use crate::lexer::{chars, parse, same, without_0x};
use crate::text;
use vstd::prelude::*;

verus! {

/// One argument.
#[derive(Debug)]
pub enum Arg {
    Null,
    Bool(bool),
    Int(i64),
    /// An integer beyond the range of the former.
    Big(u64),
    /// A number that is no integer.
    Real,
    Text(String),
    /// An array, with the integers among its elements.
    List(Vec<Option<i64>>),
    Table,
}

/// An argument, as contracts speak of it.
pub enum ArgView {
    Null,
    Bool(bool),
    Int(i64),
    Big(u64),
    Real,
    Text(Seq<char>),
    List(Seq<Option<i64>>),
    Table,
}

impl View for Arg {
    type V = ArgView;

    open spec fn view(&self) -> ArgView {
        match self {
            Arg::Null => ArgView::Null,
            Arg::Bool(b) => ArgView::Bool(*b),
            Arg::Int(n) => ArgView::Int(*n),
            Arg::Big(n) => ArgView::Big(*n),
            Arg::Real => ArgView::Real,
            Arg::Text(s) => ArgView::Text(s@),
            Arg::List(v) => ArgView::List(v@),
            Arg::Table => ArgView::Table,
        }
    }
}

/// An argument with its name.
#[derive(Debug)]
pub struct Named {
    pub key: String,
    pub value: Arg,
}

/// The arguments of a call. A call without any has an empty list.
#[derive(Debug)]
pub struct Args {
    pub entries: Vec<Named>,
}

/// The value of the first entry from `i` on with this key.
pub open spec fn value_from(entries: Seq<(Seq<char>, ArgView)>, i: int, key: Seq<char>) -> Option<
    ArgView,
>
    decreases entries.len() - i,
{
    if i >= entries.len() {
        None
    } else if entries[i].0 == key {
        Some(entries[i].1)
    } else {
        value_from(entries, i + 1, key)
    }
}

/// The arguments of a call, as contracts speak of them.
pub struct ArgsView {
    pub entries: Seq<(Seq<char>, ArgView)>,
}

impl View for Args {
    type V = ArgsView;

    open spec fn view(&self) -> ArgsView {
        ArgsView { entries: self.entries@.map_values(|n: Named| (n.key@, n.value@)) }
    }
}

impl ArgsView {
    /// The argument with this name.
    pub open spec fn get(self, key: Seq<char>) -> Option<ArgView> {
        value_from(self.entries, 0, key)
    }

    /// A number, or `d` where the argument is none.
    pub open spec fn int_or(self, key: Seq<char>, d: int) -> int {
        match self.get(key) {
            Some(ArgView::Int(n)) => n as int,
            _ => d,
        }
    }

    /// A number, kept to its low 32 bits, or `d` where the argument is none.
    pub open spec fn i32_or(self, key: Seq<char>, d: int) -> i32 {
        bytes::low32(self.int_or(key, d)) as i32
    }

    /// A number moved into `lo..=hi`, or `d` where the argument is none.
    pub open spec fn clamped(self, key: Seq<char>, d: int, lo: int, hi: int) -> int {
        clamp(self.int_or(key, d), lo, hi)
    }

    /// An unsigned number, or `d` where the argument is none.
    pub open spec fn nat_or(self, key: Seq<char>, d: int) -> int {
        match self.get(key) {
            Some(ArgView::Int(n)) if n >= 0 => n as int,
            Some(ArgView::Big(n)) => n as int,
            _ => d,
        }
    }

    /// A truth value, or `d` where the argument is none.
    pub open spec fn bool_or(self, key: Seq<char>, d: bool) -> bool {
        match self.get(key) {
            Some(ArgView::Bool(b)) => b,
            _ => d,
        }
    }

    /// A text.
    pub open spec fn text(self, key: Seq<char>) -> Option<Seq<char>> {
        match self.get(key) {
            Some(ArgView::Text(s)) => Some(s),
            _ => None,
        }
    }

    /// A hexadecimal number up to `max`, given as a text.
    pub open spec fn hex(self, key: Seq<char>, max: int) -> Option<int> {
        match self.text(key) {
            Some(s) => lexer::parse_nat(lexer::strip_0x(s), 16, max),
            None => None,
        }
    }

    /// A 32-bit pattern, given as a hexadecimal text or as a number.
    pub open spec fn word(self, key: Seq<char>) -> Option<int> {
        match self.get(key) {
            Some(ArgView::Int(n)) => Some(bytes::bits32(n as int)),
            _ => self.hex(key, u32::MAX as int),
        }
    }

    /// An address, given as a hexadecimal text or as a number.
    pub open spec fn address(self, key: Seq<char>) -> Option<int> {
        match self.get(key) {
            Some(ArgView::Int(n)) => Some(bits64(n as int)),
            _ => self.hex(key, u64::MAX as int),
        }
    }

    /// The integers of an array, each kept to its low 32 bits.
    pub open spec fn ints(self, key: Seq<char>) -> Seq<i32> {
        match self.get(key) {
            Some(ArgView::List(v)) => ints_of(v, v.len() as int),
            _ => seq![],
        }
    }
}

/// The low 64 bits of `n`, as an unsigned number.
pub open spec fn bits64(n: int) -> int {
    n % 0x1_0000_0000_0000_0000
}

/// `v`, moved into `lo..=hi`.
pub open spec fn clamp(v: int, lo: int, hi: int) -> int {
    if v < lo {
        lo
    } else if v > hi {
        hi
    } else {
        v
    }
}

/// The integers among the first `n` elements, each kept to its low 32 bits.
pub open spec fn ints_of(v: Seq<Option<i64>>, n: int) -> Seq<i32>
    decreases n,
{
    if n <= 0 {
        seq![]
    } else {
        match v[n - 1] {
            Some(x) => ints_of(v, n - 1).push(bytes::low32(x as int) as i32),
            None => ints_of(v, n - 1),
        }
    }
}

impl Args {
    /// No arguments.
    pub fn none() -> (r: Args)
        ensures
            r@.entries == Seq::<(Seq<char>, ArgView)>::empty(),
    {
        let r = Args { entries: Vec::new() };
        assert(r@.entries =~= Seq::<(Seq<char>, ArgView)>::empty());
        r
    }

    /// The argument with this name.
    pub fn get(&self, key: &str) -> (r: Option<&Arg>)
        ensures
            match r {
                Some(a) => self@.get(key@) == Some(a@),
                None => self@.get(key@) is None,
            },
    {
        let mut i: usize = 0;
        while i < self.entries.len() && !same(&self.entries[i].key, key)
            invariant
                i <= self.entries@.len(),
                value_from(self@.entries, i as int, key@) == self@.get(key@),
            decreases self.entries@.len() - i,
        {
            i = i + 1;
        }
        if i < self.entries.len() {
            Some(&self.entries[i].value)
        } else {
            None
        }
    }

    /// A number, or `d` where the argument is none.
    pub fn int_or(&self, key: &str, d: i64) -> (r: i64)
        ensures
            r == self@.int_or(key@, d as int),
    {
        match self.get(key) {
            Some(Arg::Int(n)) => *n,
            _ => d,
        }
    }

    /// A number, kept to its low 32 bits, or `d` where the argument is none.
    pub fn i32_or(&self, key: &str, d: i64) -> (r: i32)
        ensures
            r == self@.i32_or(key@, d as int),
    {
        narrow(self.int_or(key, d))
    }

    /// A number moved into `lo..=hi`, or `d` where the argument is none.
    pub fn clamped(&self, key: &str, d: i64, lo: i64, hi: i64) -> (r: i64)
        requires
            lo <= hi,
        ensures
            r == self@.clamped(key@, d as int, lo as int, hi as int),
            lo <= r <= hi,
    {
        let v: i64 = self.int_or(key, d);
        if v < lo {
            lo
        } else if v > hi {
            hi
        } else {
            v
        }
    }

    /// An unsigned number, or `d` where the argument is none.
    pub fn nat_or(&self, key: &str, d: u64) -> (r: u64)
        ensures
            r == self@.nat_or(key@, d as int),
    {
        match self.get(key) {
            Some(Arg::Int(n)) => if *n >= 0 {
                *n as u64
            } else {
                d
            },
            Some(Arg::Big(n)) => *n,
            _ => d,
        }
    }

    /// A truth value, or `d` where the argument is none.
    pub fn bool_or(&self, key: &str, d: bool) -> (r: bool)
        ensures
            r == self@.bool_or(key@, d),
    {
        match self.get(key) {
            Some(Arg::Bool(b)) => *b,
            _ => d,
        }
    }

    /// A text.
    pub fn text(&self, key: &str) -> (r: Option<&String>)
        ensures
            match r {
                Some(s) => self@.text(key@) == Some(s@),
                None => self@.text(key@) is None,
            },
    {
        match self.get(key) {
            Some(Arg::Text(s)) => Some(s),
            _ => None,
        }
    }

    /// A hexadecimal number up to `max`, given as a text.
    pub fn hex(&self, key: &str, max: u64) -> (r: Option<u64>)
        ensures
            match r {
                Some(n) => self@.hex(key@, max as int) == Some(n as int) && n <= max,
                None => self@.hex(key@, max as int) is None,
            },
    {
        match self.text(key) {
            Some(s) => parse(&without_0x(&chars(s.as_str())), 16, max),
            None => None,
        }
    }

    /// A 32-bit pattern, given as a hexadecimal text or as a number.
    pub fn word(&self, key: &str) -> (r: Option<u32>)
        ensures
            match r {
                Some(n) => self@.word(key@) == Some(n as int),
                None => self@.word(key@) is None,
            },
    {
        match self.get(key) {
            Some(Arg::Int(n)) => Some(narrow_bits(*n)),
            _ => match self.hex(key, u32::MAX as u64) {
                Some(n) => Some(n as u32),
                None => None,
            },
        }
    }

    /// An address, given as a hexadecimal text or as a number.
    pub fn address(&self, key: &str) -> (r: Option<u64>)
        ensures
            match r {
                Some(n) => self@.address(key@) == Some(n as int),
                None => self@.address(key@) is None,
            },
    {
        match self.get(key) {
            Some(Arg::Int(n)) => Some(wide_bits(*n)),
            _ => self.hex(key, u64::MAX),
        }
    }

    /// The integers of an array, each kept to its low 32 bits.
    pub fn ints(&self, key: &str) -> (r: Vec<i32>)
        ensures
            r@ == self@.ints(key@),
    {
        let mut out: Vec<i32> = Vec::new();
        if let Some(Arg::List(v)) = self.get(key) {
            let mut i: usize = 0;
            while i < v.len()
                invariant
                    i <= v@.len(),
                    out@ == ints_of(v@, i as int),
                decreases v@.len() - i,
            {
                if let Some(x) = v[i] {
                    out.push(narrow(x));
                }
                i = i + 1;
            }
        }
        out
    }
}

/// The bit pattern of a signed value.
pub fn wide_bits(v: i64) -> (r: u64)
    ensures
        r == bits64(v as int),
{
    assert(v >= 0 ==> (v as u64) as int == v as int) by (bit_vector);
    assert(v < 0 ==> (v as u64) as int == v as int + 0x1_0000_0000_0000_0000int) by (bit_vector);
    v as u64
}

/// An address that was reported can be given as an argument: it names the same place.
pub proof fn reported_address_is_understood(a: ArgsView, key: Seq<char>, n: u64)
    requires
        a.get(key) == Some(ArgView::Text(text::address(n as nat))),
    ensures
        a.address(key) == Some(n as int),
        a.hex(key, u64::MAX as int) == Some(n as int),
        n <= u32::MAX ==> a.word(key) == Some(n as int),
{
    lexer::address_reads_back(n as nat, u64::MAX as int);
    if n <= u32::MAX {
        lexer::address_reads_back(n as nat, u32::MAX as int);
    }
}

} // verus!
