//! Command-line flags of the form `--key=value`.

use crate::text::{
    after_prefix, chars_of, cut_at, parse_unsigned, parsed_unsigned, same_text, split_once,
    string_of, strip_prefix,
};
use vstd::prelude::*;
use vstd::string::*;

verus! {

/// The flag that an argument writes: what stands between `--` and the first
/// `=`, and what stands behind it.
pub open spec fn flag_in(arg: Seq<char>) -> Option<(Seq<char>, Seq<char>)> {
    match after_prefix(arg, "--"@) {
        Some(rest) => cut_at(rest, '='),
        None => None,
    }
}

/// The flags in the first `n` arguments; other arguments are passed over.
pub open spec fn flags_in(args: Seq<String>, n: nat) -> Seq<(Seq<char>, Seq<char>)>
    decreases n,
{
    if n == 0 {
        Seq::empty()
    } else {
        match flag_in(args[n - 1]@) {
            Some(f) => flags_in(args, (n - 1) as nat).push(f),
            None => flags_in(args, (n - 1) as nat),
        }
    }
}

/// The value of the first flag `key` at or behind `i`.
pub open spec fn flag_value(flags: Seq<(Seq<char>, Seq<char>)>, key: Seq<char>, i: nat) -> Option<
    Seq<char>,
>
    decreases flags.len() - i,
{
    if i >= flags.len() {
        None
    } else if flags[i as int].0 == key {
        Some(flags[i as int].1)
    } else {
        flag_value(flags, key, i + 1)
    }
}

/// `--key=value` flags, in the order given.
#[derive(Debug)]
pub struct Flags(Vec<(String, String)>);

/// A flag that must be given is not.
#[derive(Debug, Clone, Copy, PartialEq, Eq, Structural)]
pub struct MissingFlag;

impl Flags {
    pub closed spec fn view(self) -> Seq<(Seq<char>, Seq<char>)> {
        Seq::new(self.0@.len(), |i: int| (self.0@[i].0@, self.0@[i].1@))
    }

    /// Reads the flags among the arguments.
    pub fn parse(args: &[String]) -> (flags: Self)
        ensures
            flags@ == flags_in(args@, args@.len()),
    {
        let mut flags = Flags(Vec::new());
        let mut i: usize = 0;
        assert(flags@ =~= flags_in(args@, 0));
        while i < args.len()
            invariant
                i <= args@.len(),
                flags@ == flags_in(args@, i as nat),
            decreases args@.len() - i,
        {
            let chars: Vec<char> = chars_of(args[i].as_str());
            if let Some(rest) = strip_prefix(chars.as_slice(), "--") {
                if let Some((key, value)) = split_once(rest, '=') {
                    let ghost before = flags@;
                    flags.0.push((string_of(key), string_of(value)));
                    assert(flags@ =~= before.push((key@, value@)));
                }
            }
            i += 1;
        }
        flags
    }

    /// The value of the first flag `key`.
    pub fn text(&self, key: &str) -> (value: Option<&str>)
        ensures
            match value {
                Some(v) => flag_value(self@, key@, 0) == Some(v@),
                None => flag_value(self@, key@, 0) is None,
            },
    {
        let mut i: usize = 0;
        while i < self.0.len()
            invariant
                i <= self.0@.len(),
                flag_value(self@, key@, 0) == flag_value(self@, key@, i as nat),
            decreases self.0@.len() - i,
        {
            let f: &(String, String) = &self.0[i];
            assert(self@[i as int] == (f.0@, f.1@));
            if same_text(f.0.as_str(), key) {
                return Some(f.1.as_str());
            }
            i += 1;
        }
        None
    }

    /// The value of the first flag `key`, or `default`.
    pub fn str(&self, key: &str, default: &str) -> (s: String)
        ensures
            s@ == (match flag_value(self@, key@, 0) {
                Some(v) => v,
                None => default@,
            }),
    {
        match self.text(key) {
            Some(v) => v.to_owned(),
            None => default.to_owned(),
        }
    }

    /// The number in the first flag `key`; `default` where there is none or it
    /// is no number.
    pub fn num(&self, key: &str, default: u64) -> (n: u64)
        ensures
            n == (match flag_value(self@, key@, 0) {
                Some(v) => match parsed_unsigned(v, u64::MAX as nat) {
                    Some(n) => n as int,
                    None => default as int,
                },
                None => default as int,
            }),
    {
        match self.text(key) {
            Some(v) => {
                let chars: Vec<char> = chars_of(v);
                match parse_unsigned(chars.as_slice(), u64::MAX) {
                    Some(n) => n,
                    None => default,
                }
            },
            None => default,
        }
    }

    /// The path in the first flag `key`, which must be given and not empty.
    pub fn path(&self, key: &str) -> (p: Result<String, MissingFlag>)
        ensures
            match flag_value(self@, key@, 0) {
                Some(v) => if v.len() == 0 {
                    p is Err
                } else {
                    p matches Ok(s) && s@ == v
                },
                None => p is Err,
            },
    {
        match self.text(key) {
            Some(v) => if v.is_empty() {
                Err(MissingFlag)
            } else {
                Ok(v.to_owned())
            },
            None => Err(MissingFlag),
        }
    }
}

/// What follows `--key=` in the first argument at or behind `i` that starts
/// with it.
pub open spec fn arg_value(args: Seq<String>, key: Seq<char>, i: nat) -> Option<Seq<char>>
    decreases args.len() - i,
{
    if i >= args.len() {
        None
    } else {
        match after_prefix(args[i as int]@, "--"@ + key + "="@) {
            Some(v) => Some(v),
            None => arg_value(args, key, i + 1),
        }
    }
}

/// The value of the first `--key=value` argument.
pub fn arg(args: &[String], key: &str) -> (value: Option<String>)
    ensures
        match value {
            Some(v) => arg_value(args@, key@, 0) == Some(v@),
            None => arg_value(args@, key@, 0) is None,
        },
{
    let mut prefix: String = String::from_str("--");
    prefix.append(key);
    prefix.append("=");
    let mut i: usize = 0;
    while i < args.len()
        invariant
            i <= args@.len(),
            prefix@ == "--"@ + key@ + "="@,
            arg_value(args@, key@, 0) == arg_value(args@, key@, i as nat),
        decreases args@.len() - i,
    {
        let chars: Vec<char> = chars_of(args[i].as_str());
        if let Some(rest) = strip_prefix(chars.as_slice(), prefix.as_str()) {
            return Some(string_of(rest));
        }
        i += 1;
    }
    None
}

/// The number in the first `--key=value` argument; `default` where there is
/// none, or none that is at most `max`.
pub fn arg_num(args: &[String], key: &str, max: u64, default: u64) -> (n: u64)
    ensures
        n == (match arg_value(args@, key@, 0) {
            Some(v) => match parsed_unsigned(v, max as nat) {
                Some(n) => n as int,
                None => default as int,
            },
            None => default as int,
        }),
{
    match arg(args, key) {
        Some(v) => {
            let chars: Vec<char> = chars_of(v.as_str());
            match parse_unsigned(chars.as_slice(), max) {
                Some(n) => n,
                None => default,
            }
        },
        None => default,
    }
}

/// A character of the Unicode property White_Space.
pub open spec fn blank(c: char) -> bool {
    let n = c as u32;
    ||| 0x9 <= n <= 0xd
    ||| n == 0x20
    ||| n == 0x85
    ||| n == 0xa0
    ||| n == 0x1680
    ||| 0x2000 <= n <= 0x200a
    ||| n == 0x2028
    ||| n == 0x2029
    ||| n == 0x202f
    ||| n == 0x205f
    ||| n == 0x3000
}

/// `s` without the blanks at its start.
pub open spec fn without_front(s: Seq<char>) -> Seq<char>
    decreases s.len(),
{
    if s.len() > 0 && blank(s[0]) {
        without_front(s.skip(1))
    } else {
        s
    }
}

/// `s` without the blanks at its end.
pub open spec fn without_back(s: Seq<char>) -> Seq<char>
    decreases s.len(),
{
    if s.len() > 0 && blank(s.last()) {
        without_back(s.drop_last())
    } else {
        s
    }
}

/// The token ids in a list with commas, blanks around each left out; `None`
/// if one of them is no number.
pub open spec fn ids_in_list(s: Seq<char>) -> Option<Seq<u32>>
    decreases s.len(),
{
    let (head, tail) = match cut_at(s, ',') {
        Some((head, tail)) => (head, Some(tail)),
        None => (s, None),
    };
    match parsed_unsigned(without_back(without_front(head)), u32::MAX as nat) {
        None => None,
        Some(n) => match tail {
            Some(tail) => if tail.len() < s.len() {
                match ids_in_list(tail) {
                    Some(rest) => Some(seq![n as u32] + rest),
                    None => None,
                }
            } else {
                None
            },
            None => Some(seq![n as u32]),
        },
    }
}

spec fn joined(front: Seq<u32>, rest: Option<Seq<u32>>) -> Option<Seq<u32>> {
    match rest {
        Some(rest) => Some(front + rest),
        None => None,
    }
}

fn is_blank(c: char) -> (yes: bool)
    ensures
        yes == blank(c),
{
    let n: u32 = c as u32;
    (0x9 <= n && n <= 0xd) || n == 0x20 || n == 0x85 || n == 0xa0 || n == 0x1680 || (0x2000 <= n
        && n <= 0x200a) || n == 0x2028 || n == 0x2029 || n == 0x202f || n == 0x205f || n == 0x3000
}

fn trim(s: &[char]) -> (t: &[char])
    ensures
        t@ == without_back(without_front(s@)),
{
    let mut from: usize = 0;
    assert(s@.skip(0) =~= s@);
    while from < s.len() && is_blank(s[from])
        invariant
            from <= s@.len(),
            without_front(s@) == without_front(s@.skip(from as int)),
        decreases s@.len() - from,
    {
        assert(s@.skip(from as int)[0] == s@[from as int]);
        assert(s@.skip(from as int).skip(1) =~= s@.skip(from + 1));
        from += 1;
    }
    proof {
        if from < s.len() {
            assert(s@.skip(from as int)[0] == s@[from as int]);
        }
    }
    let (_, front) = s.split_at(from);
    assert(front@ =~= s@.skip(from as int));
    let mut to: usize = front.len();
    assert(front@.take(to as int) =~= front@);
    while to > 0 && is_blank(front[to - 1])
        invariant
            to <= front@.len(),
            without_back(front@) == without_back(front@.take(to as int)),
        decreases to,
    {
        assert(front@.take(to as int).last() == front@[to - 1]);
        assert(front@.take(to as int).drop_last() =~= front@.take(to - 1));
        to -= 1;
    }
    proof {
        if to > 0 {
            assert(front@.take(to as int).last() == front@[to - 1]);
        }
    }
    let (t, _) = front.split_at(to);
    assert(t@ =~= front@.take(to as int));
    t
}

/// Reads a list of token ids.
pub fn id_list(text: &str) -> (ids: Option<Vec<u32>>)
    ensures
        match ids {
            Some(ids) => ids_in_list(text@) == Some(ids@),
            None => ids_in_list(text@) is None,
        },
{
    let chars: Vec<char> = chars_of(text);
    let mut rest: &[char] = chars.as_slice();
    let mut ids: Vec<u32> = Vec::new();
    proof {
        if let Some(more) = ids_in_list(text@) {
            assert(ids@ + more =~= more);
        }
    }
    loop
        invariant
            ids_in_list(text@) == joined(ids@, ids_in_list(rest@)),
        decreases rest@.len(),
    {
        let (head, tail): (&[char], Option<&[char]>) = match split_once(rest, ',') {
            Some((head, tail)) => (head, Some(tail)),
            None => (rest, None),
        };
        let ghost before = ids@;
        match parse_unsigned(trim(head), u32::MAX as u64) {
            Some(n) => ids.push(n as u32),
            None => {
                return None;
            },
        }
        match tail {
            Some(tail) => {
                proof {
                    crate::text::lemma_first_index_bound(rest@, ',');
                    assert(tail@.len() < rest@.len());
                    if let Some(more) = ids_in_list(tail@) {
                        assert(before + (seq![ids@.last()] + more) =~= ids@ + more);
                    }
                }
                rest = tail;
            },
            None => {
                assert(before + seq![ids@.last()] =~= ids@);
                return Some(ids);
            },
        }
    }
}

} // verus!
