//! Query strings: percent-decoding, and parameters by name.
use crate::encoding::{bytes_of, decoded, string_of};
use crate::number::{all_digits, decimal_value};
use crate::text::{chars_of, find, index_of, lemma_find, split, split_text, texts};
use vstd::prelude::*;
use vstd::slice::slice_subrange;
use vstd::utf8::{decode_utf8, encode_utf8, valid_utf8};

verus! {

/// How many parameters a query may have.
pub const MAX_PARAMETERS: usize = 16;

/// The number that a hexadecimal digit stands for.
pub open spec fn hex_digit(byte: u8) -> Option<u8> {
    if 0x30 <= byte <= 0x39 {
        Some((byte - 0x30) as u8)
    } else if 0x61 <= byte <= 0x66 {
        Some((byte - 0x61 + 10) as u8)
    } else if 0x41 <= byte <= 0x46 {
        Some((byte - 0x41 + 10) as u8)
    } else {
        None
    }
}

/// The bytes from index `i` on with `+` for a space and `%` for an escaped byte;
/// nothing where an escape is malformed.
pub open spec fn unescaped_from(bytes: Seq<u8>, i: int) -> Option<Seq<u8>>
    decreases bytes.len() - i,
{
    if i < 0 || i >= bytes.len() {
        Some(Seq::empty())
    } else if bytes[i] == 0x2b {
        prefixed_byte(0x20, unescaped_from(bytes, i + 1))
    } else if bytes[i] == 0x25 {
        if i + 2 < bytes.len() {
            match (hex_digit(bytes[i + 1]), hex_digit(bytes[i + 2])) {
                (Some(high), Some(low)) => prefixed_byte(
                    (high * 16 + low) as u8,
                    unescaped_from(bytes, i + 3),
                ),
                _ => None,
            }
        } else {
            None
        }
    } else {
        prefixed_byte(bytes[i], unescaped_from(bytes, i + 1))
    }
}

pub open spec fn prefixed_byte(byte: u8, rest: Option<Seq<u8>>) -> Option<Seq<u8>> {
    match rest {
        Some(rest) => Some(seq![byte] + rest),
        None => None,
    }
}

/// The text that a percent-encoded text stands for, where its escapes are well
/// formed and give UTF-8.
pub open spec fn unescaped(value: Seq<char>) -> Option<Seq<char>> {
    match unescaped_from(encode_utf8(value), 0) {
        Some(bytes) => if valid_utf8(bytes) {
            Some(decode_utf8(bytes))
        } else {
            None
        },
        None => None,
    }
}

/// The number that a hexadecimal digit stands for.
pub fn hex(byte: u8) -> (result: Option<u8>)
    ensures
        result == hex_digit(byte),
        result matches Some(digit) ==> digit < 16,
{
    if 0x30 <= byte && byte <= 0x39 {
        Some(byte - 0x30)
    } else if 0x61 <= byte && byte <= 0x66 {
        Some(byte - 0x61 + 10)
    } else if 0x41 <= byte && byte <= 0x46 {
        Some(byte - 0x41 + 10)
    } else {
        None
    }
}

fn unescape(bytes: &[u8]) -> (result: Option<Vec<u8>>)
    ensures
        match result {
            Some(out) => unescaped_from(bytes@, 0) == Some(out@),
            None => unescaped_from(bytes@, 0) is None,
        },
{
    let mut out: Vec<u8> = Vec::new();
    let mut i: usize = 0;
    while i < bytes.len()
        invariant
            i <= bytes.len(),
            match unescaped_from(bytes@, i as int) {
                Some(rest) => unescaped_from(bytes@, 0) == Some(out@ + rest),
                None => unescaped_from(bytes@, 0) is None,
            },
        decreases bytes.len() - i,
    {
        let ghost before = out@;
        let byte: u8 = bytes[i];
        if byte == 0x2b {
            out.push(0x20);
            i += 1;
        } else if byte == 0x25 {
            if bytes.len() - i <= 2 {
                return None;
            }
            match (hex(bytes[i + 1]), hex(bytes[i + 2])) {
                (Some(high), Some(low)) => {
                    out.push(high * 16 + low);
                    i += 3;
                },
                _ => {
                    return None;
                },
            }
        } else {
            out.push(byte);
            i += 1;
        }
        proof {
            if unescaped_from(bytes@, i as int) is Some {
                let rest = unescaped_from(bytes@, i as int)->0;
                assert(before + (seq![out@.last()] + rest) =~= out@ + rest);
            }
        }
    }
    assert(out@ + Seq::<u8>::empty() =~= out@);
    Some(out)
}

fn percent_decode_chars(value: &[char]) -> (result: Option<Vec<char>>)
    ensures
        match result {
            Some(text) => unescaped(value@) == Some(text@),
            None => unescaped(value@) is None,
        },
{
    match unescape(&bytes_of(value)) {
        Some(bytes) => decoded(&bytes),
        None => None,
    }
}

/// Decodes percent-encoded text, with `+` for a space.
pub fn percent_decode(value: &str) -> (result: Result<String, ()>)
    ensures
        match result {
            Ok(text) => unescaped(value@) == Some(text@),
            Err(_) => unescaped(value@) is None,
        },
{
    let chars = chars_of(value);
    match percent_decode_chars(&chars) {
        Some(text) => Ok(string_of(&text)),
        None => Err(()),
    }
}

// --------------------------------------------------------------- parameters

/// Names and values, in the order in which they were given.
pub type Entries = Seq<(Seq<char>, Seq<char>)>;

/// Whether a name stands among the entries.
pub open spec fn named(entries: Entries, name: Seq<char>) -> bool {
    exists|i: int| 0 <= i < entries.len() && (#[trigger] entries[i]).0 == name
}

/// The parameter of one part of a query: a decoded name that is not empty, and a
/// decoded value.
pub open spec fn parameter(part: Seq<char>) -> Option<(Seq<char>, Seq<char>)> {
    match find(part, seq!['=']) {
        Some(k) => match (unescaped(part.take(k)), unescaped(part.skip(k + 1))) {
            (Some(name), Some(value)) => if name.len() > 0 {
                Some((name, value))
            } else {
                None
            },
            _ => None,
        },
        None => None,
    }
}

/// Whether part `i` is the first of its name, among the first sixteen parts.
pub open spec fn accepted(parts: Seq<Seq<char>>, i: int) -> bool {
    &&& i < MAX_PARAMETERS
    &&& parameter(parts[i]) matches Some((name, _)) && !named(entries_of(parts, i), name)
}

/// The parameters of the first `n` parts that are accepted.
pub open spec fn entries_of(parts: Seq<Seq<char>>, n: int) -> Entries
    decreases n,
{
    if n <= 0 {
        Seq::empty()
    } else {
        let before = entries_of(parts, n - 1);
        match parameter(parts[n - 1]) {
            Some((name, value)) => if n - 1 < MAX_PARAMETERS && !named(before, name) {
                before.push((name, value))
            } else {
                before
            },
            None => before,
        }
    }
}

/// Whether each of the first `n` parts is accepted.
pub open spec fn all_accepted(parts: Seq<Seq<char>>, n: int) -> bool {
    forall|i: int| 0 <= i < n ==> #[trigger] accepted(parts, i)
}

/// The parts of a query; an empty one has none.
pub open spec fn query_parts(query: Seq<char>) -> Seq<Seq<char>> {
    if query.len() == 0 {
        Seq::empty()
    } else {
        split(query, seq!['&'])
    }
}

/// The parameters of a query.
pub open spec fn query_entries(query: Seq<char>) -> Entries {
    entries_of(query_parts(query), query_parts(query).len() as int)
}

/// Whether a query holds nothing but distinct, well formed parameters.
pub open spec fn is_well_formed(query: Seq<char>) -> bool {
    all_accepted(query_parts(query), query_parts(query).len() as int)
}

/// The first value of that name.
pub open spec fn value_of(entries: Entries, name: Seq<char>) -> Option<Seq<char>>
    decreases entries.len(),
{
    if entries.len() == 0 {
        None
    } else if entries[0].0 == name {
        Some(entries[0].1)
    } else {
        value_of(entries.skip(1), name)
    }
}

/// The unsigned number that a text writes in base ten, a plus sign before it
/// aside, where it is at most `max`.
pub open spec fn unsigned(value: Seq<char>, max: nat) -> Option<nat> {
    let digits = if value.len() > 0 && value[0] == '+' {
        value.skip(1)
    } else {
        value
    };
    if digits.len() > 0 && all_digits(digits) && decimal_value(digits) <= max {
        Some(decimal_value(digits))
    } else {
        None
    }
}

/// The number in a parameter: no parameter, a number, or something else.
pub open spec fn optional_number(entries: Entries, name: Seq<char>, max: nat) -> Result<
    Option<nat>,
    (),
> {
    match value_of(entries, name) {
        Some(value) => match unsigned(value, max) {
            Some(n) => Ok(Some(n)),
            None => Err(()),
        },
        None => Ok(None),
    }
}

/// The parameters of a request.
pub struct QueryParams {
    entries: Vec<(String, String)>,
    invalid: bool,
}

/// The texts of pairs of strings.
pub open spec fn entry_texts(entries: Seq<(String, String)>) -> Entries {
    entries.map_values(|entry: (String, String)| (entry.0@, entry.1@))
}

/// Whether every name of the entries is one of the allowed ones.
pub open spec fn all_allowed(entries: Entries, allowed: Seq<&str>) -> bool {
    forall|i: int| 0 <= i < entries.len() ==> is_allowed((#[trigger] entries[i]).0, allowed)
}

/// Whether a name is one of the allowed ones.
pub open spec fn is_allowed(name: Seq<char>, allowed: Seq<&str>) -> bool {
    exists|j: int| 0 <= j < allowed.len() && name == (#[trigger] allowed[j])@
}

impl QueryParams {
    /// The parameters, in order.
    pub closed spec fn entries(self) -> Entries {
        entry_texts(self.entries@)
    }

    /// Whether the query held anything but distinct, well formed parameters.
    pub closed spec fn invalid(self) -> bool {
        self.invalid
    }

    /// Reads a query.
    pub fn parse(query: &str) -> (params: QueryParams)
        ensures
            params.entries() == query_entries(query@),
            params.invalid() == !is_well_formed(query@),
    {
        let chars = chars_of(query);
        let mut entries: Vec<(String, String)> = Vec::new();
        let mut invalid = false;
        assert(entry_texts(entries@) =~= Seq::<(Seq<char>, Seq<char>)>::empty());
        if chars.len() == 0 {
            return QueryParams { entries, invalid };
        }
        let ampersand: [char; 1] = ['&'];
        assert(ampersand@ =~= seq!['&']);
        let parts = split_text(&chars, &ampersand);
        let ghost all = query_parts(query@);
        let mut i: usize = 0;
        while i < parts.len()
            invariant
                i <= parts.len(),
                texts(parts@) == all,
                all.len() == parts@.len(),
                entry_texts(entries@) == entries_of(all, i as int),
                invalid == !all_accepted(all, i as int),
            decreases parts.len() - i,
        {
            assert(all[i as int] == parts@[i as int]@);
            let ghost before = entries@;
            let mut taken = false;
            if i < MAX_PARAMETERS {
                match read_parameter(parts[i]) {
                    Some((name, value)) => {
                        if !has_name(&entries, &name) {
                            entries.push((name, value));
                            taken = true;
                            proof {
                                assert(entry_texts(entries@) =~= entry_texts(before).push(
                                    (name@, value@),
                                ));
                            }
                        }
                    },
                    None => {},
                }
            }
            assert(taken == accepted(all, i as int));
            if !taken {
                invalid = true;
            }
            proof {
                if all_accepted(all, i + 1) {
                    assert(accepted(all, i as int));
                    assert(all_accepted(all, i as int));
                }
                if !invalid {
                    assert forall|j: int| 0 <= j < i + 1 implies #[trigger] accepted(all, j) by {}
                }
            }
            i += 1;
        }
        QueryParams { entries, invalid }
    }

    /// The value of a parameter.
    pub fn get(&self, name: &str) -> (result: Option<&str>)
        ensures
            match result {
                Some(value) => value_of(self.entries(), name@) == Some(value@),
                None => value_of(self.entries(), name@) is None,
            },
    {
        let ghost all = self.entries();
        let mut i: usize = 0;
        assert(all.skip(0) =~= all);
        while i < self.entries.len()
            invariant
                i <= self.entries.len(),
                all == entry_texts(self.entries@),
                all.len() == self.entries@.len(),
                value_of(all, name@) == value_of(all.skip(i as int), name@),
            decreases self.entries.len() - i,
        {
            proof {
                assert(all.skip(i as int)[0] == all[i as int]);
                assert(all[i as int] == (self.entries@[i as int].0@, self.entries@[i as int].1@));
                assert(all.skip(i as int).skip(1) =~= all.skip(i + 1));
            }
            if same_text(self.entries[i].0.as_str(), name) {
                return Some(self.entries[i].1.as_str());
            }
            i += 1;
        }
        None
    }

    /// A parameter that is a `usize`.
    pub fn optional_usize(&self, name: &str) -> (result: Result<Option<usize>, ()>)
        ensures
            match result {
                Ok(Some(n)) => optional_number(self.entries(), name@, usize::MAX as nat) == Ok::<
                    Option<nat>,
                    (),
                >(Some(n as nat)),
                Ok(None) => optional_number(self.entries(), name@, usize::MAX as nat) == Ok::<
                    Option<nat>,
                    (),
                >(None),
                Err(_) => optional_number(self.entries(), name@, usize::MAX as nat) is Err,
            },
    {
        match self.get(name) {
            Some(value) => match parse_unsigned(value, usize::MAX as u64) {
                Some(n) => Ok(Some(n as usize)),
                None => Err(()),
            },
            None => Ok(None),
        }
    }

    /// A parameter that is a `u32`.
    pub fn optional_u32(&self, name: &str) -> (result: Result<Option<u32>, ()>)
        ensures
            match result {
                Ok(Some(n)) => optional_number(self.entries(), name@, u32::MAX as nat) == Ok::<
                    Option<nat>,
                    (),
                >(Some(n as nat)),
                Ok(None) => optional_number(self.entries(), name@, u32::MAX as nat) == Ok::<
                    Option<nat>,
                    (),
                >(None),
                Err(_) => optional_number(self.entries(), name@, u32::MAX as nat) is Err,
            },
    {
        match self.get(name) {
            Some(value) => match parse_unsigned(value, u32::MAX as u64) {
                Some(n) => Ok(Some(n as u32)),
                None => Err(()),
            },
            None => Ok(None),
        }
    }

    /// A parameter that is a `u64`.
    pub fn optional_u64(&self, name: &str) -> (result: Result<Option<u64>, ()>)
        ensures
            match result {
                Ok(Some(n)) => optional_number(self.entries(), name@, u64::MAX as nat) == Ok::<
                    Option<nat>,
                    (),
                >(Some(n as nat)),
                Ok(None) => optional_number(self.entries(), name@, u64::MAX as nat) == Ok::<
                    Option<nat>,
                    (),
                >(None),
                Err(_) => optional_number(self.entries(), name@, u64::MAX as nat) is Err,
            },
    {
        match self.get(name) {
            Some(value) => match parse_unsigned(value, u64::MAX) {
                Some(n) => Ok(Some(n)),
                None => Err(()),
            },
            None => Ok(None),
        }
    }

    /// Whether the query is invalid or has a parameter that is not allowed.
    pub fn has_unknown(&self, allowed: &[&str]) -> (result: bool)
        ensures
            result == (self.invalid() || !all_allowed(self.entries(), allowed@)),
    {
        if self.invalid {
            return true;
        }
        let ghost all = self.entries();
        let mut i: usize = 0;
        while i < self.entries.len()
            invariant
                i <= self.entries.len(),
                all == entry_texts(self.entries@),
                all.len() == self.entries@.len(),
                forall|k: int| 0 <= k < i ==> is_allowed((#[trigger] all[k]).0, allowed@),
            decreases self.entries.len() - i,
        {
            assert(all[i as int].0 == self.entries@[i as int].0@);
            if !is_among(self.entries[i].0.as_str(), allowed) {
                return true;
            }
            i += 1;
        }
        false
    }
}

fn is_among(name: &str, allowed: &[&str]) -> (found: bool)
    ensures
        found == is_allowed(name@, allowed@),
{
    let mut j: usize = 0;
    while j < allowed.len()
        invariant
            j <= allowed.len(),
            forall|k: int| 0 <= k < j ==> name@ != (#[trigger] allowed@[k])@,
        decreases allowed.len() - j,
    {
        if same_text(name, allowed[j]) {
            assert(allowed@[j as int]@ == name@);
            return true;
        }
        j += 1;
    }
    false
}

/// Whether two strings hold the same text.
pub fn same_text(a: &str, b: &str) -> (same: bool)
    ensures
        same == (a@ == b@),
{
    let chars = chars_of(a);
    crate::text::is_text(&chars, b)
}

fn has_name(entries: &Vec<(String, String)>, name: &String) -> (found: bool)
    ensures
        found == named(entry_texts(entries@), name@),
{
    let ghost all = entry_texts(entries@);
    let mut i: usize = 0;
    while i < entries.len()
        invariant
            i <= entries.len(),
            all == entry_texts(entries@),
            all.len() == entries@.len(),
            forall|j: int| 0 <= j < i ==> (#[trigger] all[j]).0 != name@,
        decreases entries.len() - i,
    {
        assert(all[i as int].0 == entries@[i as int].0@);
        if entries[i].0 == *name {
            return true;
        }
        i += 1;
    }
    false
}

fn read_parameter(part: &[char]) -> (result: Option<(String, String)>)
    ensures
        match result {
            Some((name, value)) => parameter(part@) == Some((name@, value@)),
            None => parameter(part@) is None,
        },
{
    let equals: [char; 1] = ['='];
    assert(equals@ =~= seq!['=']);
    let k: usize = match index_of(part, &equals) {
        Some(k) => k,
        None => {
            return None;
        },
    };
    proof {
        lemma_find(part@, seq!['=']);
    }
    let len: usize = part.len();
    assert(k + 1 <= len);
    let name = slice_subrange(part, 0, k);
    let value = slice_subrange(part, k + 1, len);
    proof {
        assert(name@ =~= part@.take(k as int));
        assert(value@ =~= part@.skip(k + 1));
    }
    match (percent_decode_chars(name), percent_decode_chars(value)) {
        (Some(name), Some(value)) => if name.len() == 0 {
            None
        } else {
            Some((string_of(&name), string_of(&value)))
        },
        _ => None,
    }
}

/// The unsigned number that a text writes in base ten, a plus sign before it
/// aside, where it is at most `max`.
pub fn parse_unsigned(value: &str, max: u64) -> (result: Option<u64>)
    ensures
        match result {
            Some(n) => unsigned(value@, max as nat) == Some(n as nat) && n <= max,
            None => unsigned(value@, max as nat) is None,
        },
{
    let chars = chars_of(value);
    let signed: usize = if chars.len() > 0 && chars[0] == '+' {
        1
    } else {
        0
    };
    let digits = slice_subrange(chars.as_slice(), signed, chars.len());
    proof {
        if value@.len() > 0 && value@[0] == '+' {
            assert(digits@ =~= value@.skip(1));
        } else {
            assert(digits@ =~= value@);
        }
    }
    match crate::number::ascii_number(digits) {
        Some(n) => if n <= max {
            Some(n)
        } else {
            None
        },
        None => None,
    }
}

// -------------------------------------------------------------------- laws

/// No two parameters of a query have the same name, and there are at most
/// sixteen.
pub proof fn law_parameters_are_distinct(parts: Seq<Seq<char>>, n: int)
    requires
        0 <= n <= parts.len(),
    ensures
        entries_of(parts, n).len() <= n,
        entries_of(parts, n).len() <= MAX_PARAMETERS,
        forall|i: int, j: int|
            0 <= i < j < entries_of(parts, n).len() ==> (#[trigger] entries_of(parts, n)[i]).0 != (
            #[trigger] entries_of(parts, n)[j]).0,
        forall|i: int| 0 <= i < entries_of(parts, n).len() ==> (#[trigger] entries_of(parts, n)[i]).0.len() > 0,
    decreases n,
{
    if n > 0 {
        law_parameters_are_distinct(parts, n - 1);
        let before = entries_of(parts, n - 1);
        let all = entries_of(parts, n);
        assert forall|i: int, j: int| 0 <= i < j < all.len() implies (#[trigger] all[i]).0 != (
        #[trigger] all[j]).0 by {
            assert(all[i] == before[i]);
        }
    }
}

/// A parameter is looked up under its name.
pub proof fn law_lookup_finds_the_parameter(parts: Seq<Seq<char>>, n: int, i: int)
    requires
        0 <= n <= parts.len(),
        0 <= i < entries_of(parts, n).len(),
    ensures
        value_of(entries_of(parts, n), entries_of(parts, n)[i].0) == Some(
            entries_of(parts, n)[i].1,
        ),
{
    law_parameters_are_distinct(parts, n);
    lemma_value_of(entries_of(parts, n), i);
}

proof fn lemma_value_of(entries: Entries, i: int)
    requires
        0 <= i < entries.len(),
        forall|a: int, b: int|
            0 <= a < b < entries.len() ==> (#[trigger] entries[a]).0 != (#[trigger] entries[b]).0,
    ensures
        value_of(entries, entries[i].0) == Some(entries[i].1),
    decreases i,
{
    if i > 0 {
        let rest = entries.skip(1);
        assert(rest[i - 1] == entries[i]);
        assert forall|a: int, b: int| 0 <= a < b < rest.len() implies (#[trigger] rest[a]).0 != (
        #[trigger] rest[b]).0 by {
            assert(rest[a] == entries[a + 1]);
            assert(rest[b] == entries[b + 1]);
        }
        assert(entries[0].0 != entries[i].0);
        lemma_value_of(rest, i - 1);
    }
}

} // verus!
