//! The ledger file: a JSON object from digest to `[trusted, [package, ...]]`.
use vstd::prelude::*;

use crate::ledger::{string_views, BuildTrustStore, LedgerView, TrustRecord};
use crate::text::{char_from_u32, chars_of, is_scalar, string_of};

verus! {

/// One member of the ledger object: digest, flag, associates in file order.
pub type Member = (Seq<char>, bool, Seq<Seq<char>>);

pub open spec fn is_ws(c: char) -> bool {
    c == ' ' || c == '\t' || c == '\n' || c == '\r'
}

/// `s` without its leading whitespace.
pub open spec fn skip_ws(s: Seq<char>) -> Seq<char>
    decreases s.len(),
{
    if s.len() > 0 && is_ws(s[0]) {
        skip_ws(s.drop_first())
    } else {
        s
    }
}

/// Value of a hexadecimal digit of either case.
pub open spec fn hex_value(c: char) -> Option<u32> {
    if '0' <= c && c <= '9' {
        Some((c as u32 - '0' as u32) as u32)
    } else if 'a' <= c && c <= 'f' {
        Some((c as u32 - 'a' as u32 + 10) as u32)
    } else if 'A' <= c && c <= 'F' {
        Some((c as u32 - 'A' as u32 + 10) as u32)
    } else {
        None
    }
}

/// Value of the four hexadecimal digits that start `s`.
pub open spec fn hex4(s: Seq<char>) -> Option<u32> {
    if s.len() >= 4 && hex_value(s[0]) is Some && hex_value(s[1]) is Some
        && hex_value(s[2]) is Some && hex_value(s[3]) is Some {
        Some(
            (hex_value(s[0])->0 * 4096 + hex_value(s[1])->0 * 256 + hex_value(s[2])->0 * 16
                + hex_value(s[3])->0) as u32,
        )
    } else {
        None
    }
}

/// The escape that follows a backslash: the character it stands for, and the rest.
pub open spec fn unescape(s: Seq<char>) -> Option<(char, Seq<char>)> {
    if s.len() == 0 {
        None
    } else if s[0] == '"' || s[0] == '\\' || s[0] == '/' {
        Some((s[0], s.drop_first()))
    } else if s[0] == 'b' {
        Some(('\x08', s.drop_first()))
    } else if s[0] == 'f' {
        Some(('\x0c', s.drop_first()))
    } else if s[0] == 'n' {
        Some(('\n', s.drop_first()))
    } else if s[0] == 'r' {
        Some(('\r', s.drop_first()))
    } else if s[0] == 't' {
        Some(('\t', s.drop_first()))
    } else if s[0] == 'u' && hex4(s.drop_first()) is Some {
        let v = hex4(s.drop_first())->0;
        if is_scalar(v) {
            Some((v as char, s.skip(5)))
        } else if 0xD800 <= v < 0xDC00 && s.len() >= 7 && s[5] == '\\' && s[6] == 'u' && hex4(
            s.skip(7),
        ) is Some && 0xDC00 <= hex4(s.skip(7))->0 < 0xE000 {
            Some((surrogate_pair(v, hex4(s.skip(7))->0) as char, s.skip(11)))
        } else {
            None
        }
    } else {
        None
    }
}

/// The code that a high and a low surrogate stand for together.
pub open spec fn surrogate_pair(high: u32, low: u32) -> u32 {
    (0x10000 + (high - 0xD800) * 0x400 + (low - 0xDC00)) as u32
}

/// The characters of a string up to its closing quote, and what follows it.
pub open spec fn string_body(s: Seq<char>) -> Option<(Seq<char>, Seq<char>)>
    decreases s.len(),
{
    if s.len() == 0 {
        None
    } else if s[0] == '"' {
        Some((Seq::empty(), s.drop_first()))
    } else if s[0] == '\\' {
        match unescape(s.drop_first()) {
            Some((c, rest)) => if rest.len() < s.len() {
                match string_body(rest) {
                    Some((t, r)) => Some((seq![c] + t, r)),
                    None => None,
                }
            } else {
                None
            },
            None => None,
        }
    } else if (s[0] as u32) < 0x20 {
        None
    } else {
        match string_body(s.drop_first()) {
            Some((t, r)) => Some((seq![s[0]] + t, r)),
            None => None,
        }
    }
}

/// A quoted string at the start of `s`: its value, and what follows it.
pub open spec fn json_string(s: Seq<char>) -> Option<(Seq<char>, Seq<char>)> {
    if s.len() > 0 && s[0] == '"' {
        string_body(s.drop_first())
    } else {
        None
    }
}

/// `true` or `false` at the start of `s`, and what follows.
#[verifier::opaque]
pub open spec fn json_bool(s: Seq<char>) -> Option<(bool, Seq<char>)> {
    if s.len() >= 4 && s.take(4) == seq!['t', 'r', 'u', 'e'] {
        Some((true, s.skip(4)))
    } else if s.len() >= 5 && s.take(5) == seq!['f', 'a', 'l', 's', 'e'] {
        Some((false, s.skip(5)))
    } else {
        None
    }
}

/// The items of a non-empty string array, read from its first item up to
/// and including its `]`.
pub open spec fn string_items(s: Seq<char>) -> Option<(Seq<Seq<char>>, Seq<char>)>
    decreases s.len(),
{
    match json_string(s) {
        None => None,
        Some((x, r)) => {
            let r1 = skip_ws(r);
            if r1.len() > 0 && r1[0] == ']' {
                Some((seq![x], r1.drop_first()))
            } else if r1.len() > 0 && r1[0] == ',' {
                let r2 = skip_ws(r1.drop_first());
                if r2.len() < s.len() {
                    match string_items(r2) {
                        Some((xs, r3)) => Some((seq![x] + xs, r3)),
                        None => None,
                    }
                } else {
                    None
                }
            } else {
                None
            }
        },
    }
}

/// An array of strings at the start of `s`, and what follows it.
#[verifier::opaque]
pub open spec fn string_array(s: Seq<char>) -> Option<(Seq<Seq<char>>, Seq<char>)> {
    if s.len() > 0 && s[0] == '[' {
        let t = skip_ws(s.drop_first());
        if t.len() > 0 && t[0] == ']' {
            Some((Seq::empty(), t.drop_first()))
        } else {
            string_items(t)
        }
    } else {
        None
    }
}

/// A record `[flag, [associates]]` at the start of `s`, and what follows it.
pub open spec fn record_value(s: Seq<char>) -> Option<((bool, Seq<Seq<char>>), Seq<char>)> {
    if s.len() > 0 && s[0] == '[' {
        match json_bool(skip_ws(s.drop_first())) {
            None => None,
            Some((b, r)) => {
                let r1 = skip_ws(r);
                if r1.len() > 0 && r1[0] == ',' {
                    match string_array(skip_ws(r1.drop_first())) {
                        None => None,
                        Some((xs, r2)) => {
                            let r3 = skip_ws(r2);
                            if r3.len() > 0 && r3[0] == ']' {
                                Some(((b, xs), r3.drop_first()))
                            } else {
                                None
                            }
                        },
                    }
                } else {
                    None
                }
            },
        }
    } else {
        None
    }
}

/// A member `"digest": record` at the start of `s`, and what follows it.
#[verifier::opaque]
pub open spec fn member(s: Seq<char>) -> Option<(Member, Seq<char>)> {
    match json_string(s) {
        None => None,
        Some((k, r)) => {
            let r1 = skip_ws(r);
            if r1.len() > 0 && r1[0] == ':' {
                match record_value(skip_ws(r1.drop_first())) {
                    None => None,
                    Some((v, r2)) => Some(((k, v.0, v.1), r2)),
                }
            } else {
                None
            }
        },
    }
}

/// The members of a non-empty object, read from its first member up to and
/// including its `}`.
pub open spec fn member_items(s: Seq<char>) -> Option<(Seq<Member>, Seq<char>)>
    decreases s.len(),
{
    match member(s) {
        None => None,
        Some((m, r)) => {
            let r1 = skip_ws(r);
            if r1.len() > 0 && r1[0] == '}' {
                Some((seq![m], r1.drop_first()))
            } else if r1.len() > 0 && r1[0] == ',' {
                let r2 = skip_ws(r1.drop_first());
                if r2.len() < s.len() {
                    match member_items(r2) {
                        Some((ms, r3)) => Some((seq![m] + ms, r3)),
                        None => None,
                    }
                } else {
                    None
                }
            } else {
                None
            }
        },
    }
}

/// The ledger object at the start of `s`, and what follows it.
pub open spec fn ledger_object(s: Seq<char>) -> Option<(Seq<Member>, Seq<char>)> {
    if s.len() > 0 && s[0] == '{' {
        let t = skip_ws(s.drop_first());
        if t.len() > 0 && t[0] == '}' {
            Some((Seq::empty(), t.drop_first()))
        } else {
            member_items(t)
        }
    } else {
        None
    }
}

/// The members of a ledger file, when `text` is one: an object with
/// whitespace around it and nothing else.
pub open spec fn ledger_members(text: Seq<char>) -> Option<Seq<Member>> {
    match ledger_object(skip_ws(text)) {
        Some((ms, r)) => if skip_ws(r).len() == 0 {
            Some(ms)
        } else {
            None
        },
        None => None,
    }
}

/// The ledger that a sequence of members describes; of two members with one
/// digest the later counts.
pub open spec fn members_view(ms: Seq<Member>) -> LedgerView
    decreases ms.len(),
{
    if ms.len() == 0 {
        Map::empty()
    } else {
        members_view(ms.drop_last()).insert(ms.last().0, (ms.last().1, ms.last().2.to_set()))
    }
}

/// The lower-case hexadecimal digit of `v`.
pub open spec fn hex_digit_char(v: u32) -> char {
    if v < 10 {
        ((48 + v) as u8) as char
    } else {
        ((87 + v) as u8) as char
    }
}

/// How a character stands inside a quoted string.
pub open spec fn escape_char(c: char) -> Seq<char> {
    if c == '"' {
        seq!['\\', '"']
    } else if c == '\\' {
        seq!['\\', '\\']
    } else if c == '\x08' {
        seq!['\\', 'b']
    } else if c == '\x0c' {
        seq!['\\', 'f']
    } else if c == '\n' {
        seq!['\\', 'n']
    } else if c == '\r' {
        seq!['\\', 'r']
    } else if c == '\t' {
        seq!['\\', 't']
    } else if (c as u32) < 0x20 {
        seq!['\\', 'u', '0', '0', hex_digit_char(c as u32 / 16), hex_digit_char(c as u32 % 16)]
    } else {
        seq![c]
    }
}

/// The characters of `s`, each as it stands inside a quoted string.
pub open spec fn escaped(s: Seq<char>) -> Seq<char>
    decreases s.len(),
{
    if s.len() == 0 {
        Seq::empty()
    } else {
        escape_char(s[0]) + escaped(s.drop_first())
    }
}

/// `s` as a quoted string.
pub open spec fn quoted(s: Seq<char>) -> Seq<char> {
    seq!['"'] + escaped(s) + seq!['"']
}

/// The quoted strings of `xs`, separated by commas.
pub open spec fn joined_strings(xs: Seq<Seq<char>>) -> Seq<char>
    decreases xs.len(),
{
    if xs.len() == 0 {
        Seq::empty()
    } else if xs.len() == 1 {
        quoted(xs[0])
    } else {
        quoted(xs[0]) + seq![','] + joined_strings(xs.drop_first())
    }
}

pub open spec fn string_array_text(xs: Seq<Seq<char>>) -> Seq<char> {
    seq!['['] + joined_strings(xs) + seq![']']
}

pub open spec fn bool_text(b: bool) -> Seq<char> {
    if b {
        seq!['t', 'r', 'u', 'e']
    } else {
        seq!['f', 'a', 'l', 's', 'e']
    }
}

/// One member as `"digest":[flag,[associates]]`.
#[verifier::opaque]
pub open spec fn member_text(m: Member) -> Seq<char> {
    quoted(m.0) + seq![':', '['] + bool_text(m.1) + seq![','] + string_array_text(m.2) + seq![']']
}

/// The members of `ms`, separated by commas.
pub open spec fn joined_members(ms: Seq<Member>) -> Seq<char>
    decreases ms.len(),
{
    if ms.len() == 0 {
        Seq::empty()
    } else if ms.len() == 1 {
        member_text(ms[0])
    } else {
        member_text(ms[0]) + seq![','] + joined_members(ms.drop_first())
    }
}

/// The canonical ledger file of the members `ms`, in their order.
pub open spec fn ledger_text(ms: Seq<Member>) -> Seq<char> {
    seq!['{'] + joined_members(ms) + seq!['}']
}

/// `ms` lists the ledger `m`: one member for each digest of `m`, with its
/// flag, and its associates each once.
pub open spec fn lists_ledger(ms: Seq<Member>, m: LedgerView) -> bool {
    &&& forall|i: int, j: int| 0 <= i < ms.len() && 0 <= j < ms.len() && i != j ==> ms[i].0 != ms[j].0
    &&& forall|d: Seq<char>| #[trigger] m.contains_key(d) <==> exists|i: int| 0 <= i < ms.len() && ms[i].0 == d
    &&& forall|i: int| 0 <= i < ms.len() ==> {
        &&& m.contains_key(#[trigger] ms[i].0)
        &&& ms[i].1 == m[ms[i].0].0
        &&& ms[i].2.no_duplicates()
        &&& ms[i].2.to_set() == m[ms[i].0].1
    }
}

/// The members of a well-formed ledger list it.
pub proof fn lemma_members_list_ledger(l: BuildTrustStore)
    requires
        l.wf(),
    ensures
        lists_ledger(members_of(l), l.view()),
{
    let ms = members_of(l);
    assert forall|i: int| 0 <= i < ms.len() implies {
        &&& l.view().contains_key(#[trigger] ms[i].0)
        &&& ms[i].1 == l.view()[ms[i].0].0
        &&& ms[i].2.no_duplicates()
        &&& ms[i].2.to_set() == l.view()[ms[i].0].1
    } by {
        l.lemma_entry_value(i);
        l.entries[i].1.lemma_associate_set();
        assert(l.entries[i].1.distinct());
    }
    assert forall|d: Seq<char>| #[trigger] l.view().contains_key(d) implies exists|i: int| 0 <= i < ms.len() && ms[i].0 == d by {
        let i = choose|i: int| 0 <= i < l.entries.len() && l.entries[i].0@ == d;
        assert(ms[i].0 == d);
    }
}

/// The members of a ledger, in the order of its entries.
pub open spec fn members_of(l: BuildTrustStore) -> Seq<Member> {
    l.entries@.map_values(
        |e: (String, TrustRecord)| (e.0@, e.1.trusted, string_views(e.1.associates@)),
    )
}

fn is_ws_char(c: char) -> (r: bool)
    ensures
        r == is_ws(c),
{
    c == ' ' || c == '\t' || c == '\n' || c == '\r'
}

/// Position of the first character at or after `i` that is not whitespace.
fn skip_ws_at(s: &Vec<char>, i: usize) -> (j: usize)
    requires
        i <= s.len(),
    ensures
        i <= j <= s.len(),
        s@.skip(j as int) == skip_ws(s@.skip(i as int)),
{
    let mut j = i;
    while j < s.len() && is_ws_char(s[j])
        invariant
            i <= j <= s.len(),
            skip_ws(s@.skip(j as int)) == skip_ws(s@.skip(i as int)),
        decreases s.len() - j,
    {
        assert(s@.skip(j as int).drop_first() =~= s@.skip(j + 1));
        j += 1;
    }
    j
}

fn hex_digit(c: char) -> (r: Option<u32>)
    ensures
        r == hex_value(c),
{
    if '0' <= c && c <= '9' {
        Some(c as u32 - '0' as u32)
    } else if 'a' <= c && c <= 'f' {
        Some(c as u32 - 'a' as u32 + 10)
    } else if 'A' <= c && c <= 'F' {
        Some(c as u32 - 'A' as u32 + 10)
    } else {
        None
    }
}

/// The four hexadecimal digits at position `i`, as a number.
fn hex4_at(s: &Vec<char>, i: usize) -> (r: Option<u32>)
    requires
        i <= s.len(),
    ensures
        r == hex4(s@.skip(i as int)),
{
    if s.len() - i < 4 {
        return None;
    }
    let ghost t = s@.skip(i as int);
    assert(t[0] == s@[i as int] && t[1] == s@[i + 1] && t[2] == s@[i + 2] && t[3] == s@[i + 3]);
    match (hex_digit(s[i]), hex_digit(s[i + 1]), hex_digit(s[i + 2]), hex_digit(s[i + 3])) {
        (Some(a), Some(b), Some(c), Some(d)) => {
            assert(a < 16 && b < 16 && c < 16 && d < 16);
            Some(a * 4096 + b * 256 + c * 16 + d)
        },
        _ => None,
    }
}

/// The escape after a backslash, read from position `j`.
fn parse_escape(s: &Vec<char>, j: usize) -> (r: Option<(char, usize)>)
    requires
        j <= s.len(),
    ensures
        match unescape(s@.skip(j as int)) {
            None => r is None,
            Some((c, rest)) => r matches Some((c2, k)) && c2 == c && j < k <= s.len()
                && s@.skip(k as int) == rest,
        },
{
    if j >= s.len() {
        return None;
    }
    let ghost t = s@.skip(j as int);
    assert(t.drop_first() =~= s@.skip(j + 1));
    let c = s[j];
    if c == '"' || c == '\\' || c == '/' {
        Some((c, j + 1))
    } else if c == 'b' {
        Some(('\x08', j + 1))
    } else if c == 'f' {
        Some(('\x0c', j + 1))
    } else if c == 'n' {
        Some(('\n', j + 1))
    } else if c == 'r' {
        Some(('\r', j + 1))
    } else if c == 't' {
        Some(('\t', j + 1))
    } else if c == 'u' {
        if s.len() - j < 5 {
            assert(t.drop_first().len() < 4);
            return None;
        }
        assert(t.drop_first() =~= s@.skip(j + 1));
        let v = match hex4_at(s, j + 1) {
            Some(v) => v,
            None => {
                return None;
            },
        };
        assert(hex4(t.drop_first()) == Some(v));
        if let Some(ch) = char_from_u32(v) {
            proof {
                vstd::utf8::char_u32_cast(ch, v);
            }
            assert(t.skip(5) =~= s@.skip(j + 5));
            return Some((ch, j + 5));
        }
        if !(0xD800 <= v && v < 0xDC00) || s.len() - j < 11 || s[j + 5] != '\\' || s[j + 6]
            != 'u' {
            return None;
        }
        assert(t[5] == s@[j + 5] && t[6] == s@[j + 6]);
        let w = match hex4_at(s, j + 7) {
            Some(w) => w,
            None => {
                assert(t.skip(7) =~= s@.skip(j + 7));
                return None;
            },
        };
        assert(t.skip(7) =~= s@.skip(j + 7));
        assert(hex4(t.skip(7)) == Some(w));
        if !(0xDC00 <= w && w < 0xE000) {
            return None;
        }
        let code: u32 = 0x10000 + (v - 0xD800) * 0x400 + (w - 0xDC00);
        match char_from_u32(code) {
            Some(ch) => {
                proof {
                    vstd::utf8::char_u32_cast(ch, code);
                }
                assert(t.skip(11) =~= s@.skip(j + 11));
                Some((ch, j + 11))
            },
            None => None,
        }
    } else {
        None
    }
}

/// The quoted string that starts at position `i`: its characters and the
/// position after its closing quote.
fn parse_string(s: &Vec<char>, i: usize) -> (r: Option<(Vec<char>, usize)>)
    requires
        i <= s.len(),
    ensures
        match json_string(s@.skip(i as int)) {
            None => r is None,
            Some((x, rest)) => r matches Some((v, k)) && v@ == x && i < k <= s.len()
                && s@.skip(k as int) == rest,
        },
{
    if i >= s.len() || s[i] != '"' {
        return None;
    }
    assert(s@.skip(i as int).drop_first() =~= s@.skip(i + 1));
    let start = i + 1;
    let mut j = start;
    let mut acc: Vec<char> = Vec::new();
    loop
        invariant
            start <= j <= s.len(),
            i < start,
            json_string(s@.skip(i as int)) == string_body(s@.skip(start as int)),
            match string_body(s@.skip(j as int)) {
                Some((t, r)) => string_body(s@.skip(start as int)) == Some((acc@ + t, r)),
                None => string_body(s@.skip(start as int)) is None,
            },
        decreases s.len() - j,
    {
        let ghost t = s@.skip(j as int);
        if j >= s.len() {
            return None;
        }
        assert(t.drop_first() =~= s@.skip(j + 1));
        let c = s[j];
        if c == '"' {
            assert(acc@ + Seq::<char>::empty() =~= acc@);
            return Some((acc, j + 1));
        } else if c == '\\' {
            match parse_escape(s, j + 1) {
                Some((e, k)) => {
                    proof {
                        assert(s@.skip(k as int).len() < t.len());
                        match string_body(s@.skip(k as int)) {
                            Some((u, r)) => {
                                assert(acc@.push(e) + u =~= acc@ + (seq![e] + u));
                            },
                            None => {},
                        }
                    }
                    acc.push(e);
                    j = k;
                },
                None => {
                    return None;
                },
            }
        } else if (c as u32) < 0x20 {
            return None;
        } else {
            proof {
                match string_body(s@.skip(j + 1)) {
                    Some((u, r)) => {
                        assert(acc@.push(c) + u =~= acc@ + (seq![c] + u));
                    },
                    None => {},
                }
            }
            acc.push(c);
            j = j + 1;
        }
    }
}


/// `true` or `false` at position `i`, and the position after it.
fn parse_bool(s: &Vec<char>, i: usize) -> (r: Option<(bool, usize)>)
    requires
        i <= s.len(),
    ensures
        match json_bool(s@.skip(i as int)) {
            None => r is None,
            Some((b, rest)) => r matches Some((b2, k)) && b2 == b && i < k <= s.len()
                && s@.skip(k as int) == rest,
        },
{
    reveal(json_bool);
    let ghost t = s@.skip(i as int);
    if s.len() - i >= 4 && s[i] == 't' && s[i + 1] == 'r' && s[i + 2] == 'u' && s[i + 3] == 'e' {
        assert(t.take(4) =~= seq!['t', 'r', 'u', 'e']);
        assert(t.skip(4) =~= s@.skip(i + 4));
        Some((true, i + 4))
    } else if s.len() - i >= 5 && s[i] == 'f' && s[i + 1] == 'a' && s[i + 2] == 'l' && s[i + 3]
        == 's' && s[i + 4] == 'e' {
        assert(t.take(5) =~= seq!['f', 'a', 'l', 's', 'e']);
        assert(t.take(4) != seq!['t', 'r', 'u', 'e']) by {
            assert(t.take(4)[0] == 'f');
        }
        assert(t.skip(5) =~= s@.skip(i + 5));
        Some((false, i + 5))
    } else {
        proof {
            if t.len() >= 4 && t.take(4) == seq!['t', 'r', 'u', 'e'] {
                assert(t.take(4)[0] == s@[i as int]);
                assert(t.take(4)[1] == s@[i + 1]);
                assert(t.take(4)[2] == s@[i + 2]);
                assert(t.take(4)[3] == s@[i + 3]);
            }
            if t.len() >= 5 && t.take(5) == seq!['f', 'a', 'l', 's', 'e'] {
                assert(t.take(5)[0] == s@[i as int]);
                assert(t.take(5)[1] == s@[i + 1]);
                assert(t.take(5)[2] == s@[i + 2]);
                assert(t.take(5)[3] == s@[i + 3]);
                assert(t.take(5)[4] == s@[i + 4]);
            }
        }
        None
    }
}

/// The array of strings at position `i`, and the position after its `]`.
fn parse_string_array(s: &Vec<char>, i: usize) -> (r: Option<(Vec<String>, usize)>)
    requires
        i <= s.len(),
    ensures
        match string_array(s@.skip(i as int)) {
            None => r is None,
            Some((xs, rest)) => r matches Some((v, k)) && string_views(v@) == xs && i < k
                <= s.len() && s@.skip(k as int) == rest,
        },
{
    reveal(string_array);
    if i >= s.len() || s[i] != '[' {
        return None;
    }
    assert(s@.skip(i as int).drop_first() =~= s@.skip(i + 1));
    let start = skip_ws_at(s, i + 1);
    let mut acc: Vec<String> = Vec::new();
    if start < s.len() && s[start] == ']' {
        assert(s@.skip(start as int).drop_first() =~= s@.skip(start + 1));
        assert(string_views(acc@) =~= Seq::empty());
        return Some((acc, start + 1));
    }
    let mut j = start;
    loop
        invariant
            start <= j <= s.len(),
            i < start,
            string_array(s@.skip(i as int)) == string_items(s@.skip(start as int)),
            match string_items(s@.skip(j as int)) {
                Some((xs, r)) => string_items(s@.skip(start as int)) == Some(
                    (string_views(acc@) + xs, r),
                ),
                None => string_items(s@.skip(start as int)) is None,
            },
        decreases s.len() - j,
    {
        let ghost t = s@.skip(j as int);
        match parse_string(s, j) {
            None => {
                return None;
            },
            Some((v, k)) => {
                let j1 = skip_ws_at(s, k);
                if j1 < s.len() && s[j1] == ']' {
                    assert(s@.skip(j1 as int).drop_first() =~= s@.skip(j1 + 1));
                    let x = string_of(v.as_slice());
                    let ghost before = acc@;
                    acc.push(x);
                    assert(string_views(acc@) =~= string_views(before) + seq![x@]);
                    return Some((acc, j1 + 1));
                } else if j1 < s.len() && s[j1] == ',' {
                    assert(s@.skip(j1 as int).drop_first() =~= s@.skip(j1 + 1));
                    let j2 = skip_ws_at(s, j1 + 1);
                    let x = string_of(v.as_slice());
                    let ghost before = acc@;
                    acc.push(x);
                    proof {
                        assert(string_views(acc@) =~= string_views(before).push(x@));
                        match string_items(s@.skip(j2 as int)) {
                            Some((xs, r)) => {
                                assert(string_views(before) + (seq![x@] + xs) =~= string_views(
                                    acc@,
                                ) + xs);
                            },
                            None => {},
                        }
                    }
                    j = j2;
                } else {
                    return None;
                }
            },
        }
    }
}


/// The record `[flag, [associates]]` at position `i`, and the position after it.
fn parse_record(s: &Vec<char>, i: usize) -> (r: Option<(bool, Vec<String>, usize)>)
    requires
        i <= s.len(),
    ensures
        match record_value(s@.skip(i as int)) {
            None => r is None,
            Some((v, rest)) => r matches Some((b, a, k)) && b == v.0 && string_views(a@) == v.1
                && i < k <= s.len() && s@.skip(k as int) == rest,
        },
{
    if i >= s.len() || s[i] != '[' {
        return None;
    }
    assert(s@.skip(i as int).drop_first() =~= s@.skip(i + 1));
    let j0 = skip_ws_at(s, i + 1);
    let (b, j1) = match parse_bool(s, j0) {
        Some(p) => p,
        None => {
            return None;
        },
    };
    let j2 = skip_ws_at(s, j1);
    if j2 >= s.len() || s[j2] != ',' {
        return None;
    }
    assert(s@.skip(j2 as int).drop_first() =~= s@.skip(j2 + 1));
    let j3 = skip_ws_at(s, j2 + 1);
    let (a, j4) = match parse_string_array(s, j3) {
        Some(p) => p,
        None => {
            return None;
        },
    };
    let j5 = skip_ws_at(s, j4);
    if j5 >= s.len() || s[j5] != ']' {
        return None;
    }
    assert(s@.skip(j5 as int).drop_first() =~= s@.skip(j5 + 1));
    Some((b, a, j5 + 1))
}

/// The member `"digest": record` at position `i`, and the position after it.
fn parse_member(s: &Vec<char>, i: usize) -> (r: Option<(String, bool, Vec<String>, usize)>)
    requires
        i <= s.len(),
    ensures
        match member(s@.skip(i as int)) {
            None => r is None,
            Some((m, rest)) => r matches Some((d, b, a, k)) && d@ == m.0 && b == m.1
                && string_views(a@) == m.2 && i < k <= s.len() && s@.skip(k as int) == rest,
        },
{
    reveal(member);
    let (d, j1) = match parse_string(s, i) {
        Some(p) => p,
        None => {
            return None;
        },
    };
    let j2 = skip_ws_at(s, j1);
    if j2 >= s.len() || s[j2] != ':' {
        return None;
    }
    assert(s@.skip(j2 as int).drop_first() =~= s@.skip(j2 + 1));
    let j3 = skip_ws_at(s, j2 + 1);
    match parse_record(s, j3) {
        Some((b, a, k)) => Some((string_of(d.as_slice()), b, a, k)),
        None => None,
    }
}

/// Why a ledger file could not be read.
pub enum LedgerError {
    /// The text is not a ledger object.
    Malformed,
}

/// Reads a ledger file. It succeeds exactly when the text is a ledger
/// object, and then holds what its members say, the later of two members
/// with one digest counting.
pub fn parse_ledger(text: &str) -> (r: Result<BuildTrustStore, LedgerError>)
    ensures
        match ledger_members(text@) {
            None => r is Err,
            Some(ms) => r matches Ok(l) && l.wf() && l.view() == members_view(ms),
        },
{
    let s = chars_of(text);
    let i = skip_ws_at(&s, 0);
    assert(s@.skip(0) =~= text@);
    if i >= s.len() || s[i] != '{' {
        return Err(LedgerError::Malformed);
    }
    assert(s@.skip(i as int).drop_first() =~= s@.skip(i + 1));
    let start = skip_ws_at(&s, i + 1);
    let mut store = BuildTrustStore::new();
    let mut end: usize = 0;
    if start < s.len() && s[start] == '}' {
        assert(s@.skip(start as int).drop_first() =~= s@.skip(start + 1));
        end = start + 1;
        assert(members_view(Seq::empty()) == store.view());
    } else {
        let mut j = start;
        let ghost acc: Seq<Member> = Seq::empty();
        loop
            invariant_except_break
                match member_items(s@.skip(j as int)) {
                    Some((ms, r)) => member_items(s@.skip(start as int)) == Some((acc + ms, r)),
                    None => member_items(s@.skip(start as int)) is None,
                },
            invariant
                start <= j <= s.len(),
                i < start,
                s@ == text@,
                skip_ws(text@) == s@.skip(i as int),
                ledger_object(s@.skip(i as int)) == member_items(s@.skip(start as int)),
                store.wf(),
                store.view() == members_view(acc),
            ensures
                start < end <= s.len(),
                member_items(s@.skip(start as int)) == Some((acc, s@.skip(end as int))),
                store.wf(),
                store.view() == members_view(acc),
            decreases s.len() - j,
        {
            let (d, b, a, k) = match parse_member(&s, j) {
                Some(p) => p,
                None => {
                    return Err(LedgerError::Malformed);
                },
            };
            let ghost m: Member = (d@, b, string_views(a@));
            store.insert_record(d, b, a);
            proof {
                assert(acc.push(m).drop_last() =~= acc);
                acc = acc.push(m);
            }
            let j1 = skip_ws_at(&s, k);
            if j1 < s.len() && s[j1] == '}' {
                assert(s@.skip(j1 as int).drop_first() =~= s@.skip(j1 + 1));
                assert(acc.drop_last() + seq![m] =~= acc);
                end = j1 + 1;
                break;
            } else if j1 < s.len() && s[j1] == ',' {
                assert(s@.skip(j1 as int).drop_first() =~= s@.skip(j1 + 1));
                let j2 = skip_ws_at(&s, j1 + 1);
                proof {
                    match member_items(s@.skip(j2 as int)) {
                        Some((ms, r)) => {
                            assert(acc.drop_last() + (seq![m] + ms) =~= acc + ms);
                        },
                        None => {},
                    }
                }
                j = j2;
            } else {
                return Err(LedgerError::Malformed);
            }
        }
    }
    let e = skip_ws_at(&s, end);
    if e < s.len() {
        return Err(LedgerError::Malformed);
    }
    Ok(store)
}


pub(crate) fn hex_char(v: u32) -> (c: char)
    requires
        v < 16,
    ensures
        c == hex_digit_char(v),
{
    if v < 10 {
        (48 + v as u8) as char
    } else {
        (87 + v as u8) as char
    }
}

/// Appends `c` to `out` as it stands inside a quoted string.
fn push_escaped(out: &mut Vec<char>, c: char)
    ensures
        final(out)@ == old(out)@ + escape_char(c),
{
    let ghost before = out@;
    if c == '"' || c == '\\' {
        out.push('\\');
        out.push(c);
    } else if c == '\x08' {
        out.push('\\');
        out.push('b');
    } else if c == '\x0c' {
        out.push('\\');
        out.push('f');
    } else if c == '\n' {
        out.push('\\');
        out.push('n');
    } else if c == '\r' {
        out.push('\\');
        out.push('r');
    } else if c == '\t' {
        out.push('\\');
        out.push('t');
    } else if (c as u32) < 0x20 {
        out.push('\\');
        out.push('u');
        out.push('0');
        out.push('0');
        out.push(hex_char(c as u32 / 16));
        out.push(hex_char(c as u32 % 16));
    } else {
        out.push(c);
    }
    assert(out@ =~= before + escape_char(c));
}

/// Appends `x` to `out` as a quoted string.
fn push_quoted(out: &mut Vec<char>, x: &str)
    ensures
        final(out)@ == old(out)@ + quoted(x@),
{
    let cs = chars_of(x);
    out.push('"');
    let ghost base = out@;
    assert(cs@.skip(0) =~= cs@);
    let mut i: usize = 0;
    while i < cs.len()
        invariant
            i <= cs.len(),
            cs@ == x@,
            base == old(out)@ + seq!['"'],
            out@ + escaped(cs@.skip(i as int)) == base + escaped(cs@),
        decreases cs.len() - i,
    {
        assert(cs@.skip(i as int).drop_first() =~= cs@.skip(i + 1));
        let ghost mid = out@;
        push_escaped(out, cs[i]);
        assert(out@ + escaped(cs@.skip(i + 1)) =~= mid + escaped(cs@.skip(i as int)));
        i += 1;
    }
    assert(cs@.skip(i as int) =~= Seq::<char>::empty());
    assert(out@ =~= base + escaped(cs@));
    out.push('"');
    assert(out@ =~= old(out)@ + quoted(x@));
}

/// Appends the array of `xs` to `out`.
fn push_string_array(out: &mut Vec<char>, xs: &Vec<String>)
    ensures
        final(out)@ == old(out)@ + string_array_text(string_views(xs@)),
{
    out.push('[');
    let ghost base = out@;
    let ghost all = string_views(xs@);
    let mut i: usize = 0;
    while i < xs.len()
        invariant
            i <= xs.len(),
            all == string_views(xs@),
            base == old(out)@ + seq!['['],
            i == 0 ==> out@ == base,
            0 < i < xs.len() ==> out@ + seq![','] + joined_strings(all.skip(i as int)) == base
                + joined_strings(all),
            i == xs.len() && 0 < i ==> out@ == base + joined_strings(all),
        decreases xs.len() - i,
    {
        let ghost mid = out@;
        if i > 0 {
            out.push(',');
        }
        push_quoted(out, xs[i].as_str());
        proof {
            let t = all.skip(i as int);
            assert(t[0] == xs[i as int]@);
            assert(t.drop_first() =~= all.skip(i + 1));
            if i == 0 {
                assert(all.skip(0) =~= all);
            }
            if i + 1 < xs.len() {
                assert(out@ + seq![','] + joined_strings(all.skip(i + 1)) =~= (if i == 0 { base } else { mid + seq![','] }) + joined_strings(t));
            } else {
                assert(t.len() == 1);
                assert(out@ =~= (if i == 0 { base } else { mid + seq![','] }) + joined_strings(t));
            }
        }
        i += 1;
    }
    proof {
        if xs.len() == 0 {
            assert(joined_strings(all) =~= Seq::<char>::empty());
            assert(out@ =~= base + joined_strings(all));
        }
    }
    out.push(']');
    assert(out@ =~= old(out)@ + string_array_text(string_views(xs@)));
}


/// Appends one member `"digest":[flag,[associates]]` to `out`.
fn push_member(out: &mut Vec<char>, digest: &str, rec: &TrustRecord)
    ensures
        final(out)@ == old(out)@ + member_text((digest@, rec.trusted, string_views(rec.associates@))),
{
    reveal(member_text);
    push_quoted(out, digest);
    out.push(':');
    out.push('[');
    let ghost mid = out@;
    if rec.trusted {
        out.push('t');
        out.push('r');
        out.push('u');
        out.push('e');
    } else {
        out.push('f');
        out.push('a');
        out.push('l');
        out.push('s');
        out.push('e');
    }
    assert(out@ =~= mid + bool_text(rec.trusted));
    out.push(',');
    push_string_array(out, &rec.associates);
    out.push(']');
    assert(out@ =~= old(out)@ + member_text((digest@, rec.trusted, string_views(rec.associates@))));
}

/// The ledger file of `l`: its entries in order, without whitespace.
pub fn render_ledger(l: &BuildTrustStore) -> (r: String)
    requires
        l.wf(),
    ensures
        r@ == ledger_text(members_of(*l)),
        lists_ledger(members_of(*l), l.view()),
{
    proof {
        lemma_members_list_ledger(*l);
    }
    let mut out: Vec<char> = Vec::new();
    out.push('{');
    let ghost base = out@;
    let ghost all = members_of(*l);
    let mut i: usize = 0;
    while i < l.entries.len()
        invariant
            i <= l.entries.len(),
            all == members_of(*l),
            base == seq!['{'],
            i == 0 ==> out@ == base,
            0 < i < l.entries.len() ==> out@ + seq![','] + joined_members(all.skip(i as int))
                == base + joined_members(all),
            i == l.entries.len() && 0 < i ==> out@ == base + joined_members(all),
        decreases l.entries.len() - i,
    {
        let ghost mid = out@;
        if i > 0 {
            out.push(',');
        }
        push_member(&mut out, l.entries[i].0.as_str(), &l.entries[i].1);
        proof {
            let t = all.skip(i as int);
            assert(t.drop_first() =~= all.skip(i + 1));
            if i == 0 {
                assert(all.skip(0) =~= all);
            }
            if i + 1 < l.entries.len() {
                assert(out@ + seq![','] + joined_members(all.skip(i + 1)) =~= (if i == 0 {
                    base
                } else {
                    mid + seq![',']
                }) + joined_members(t));
            } else {
                assert(t.len() == 1);
                assert(out@ =~= (if i == 0 {
                    base
                } else {
                    mid + seq![',']
                }) + joined_members(t));
            }
        }
        i += 1;
    }
    proof {
        if l.entries.len() == 0 {
            assert(joined_members(all) =~= Seq::<char>::empty());
            assert(out@ =~= base + joined_members(all));
        }
    }
    out.push('}');
    assert(out@ =~= ledger_text(members_of(*l)));
    string_of(out.as_slice())
}

} // verus!
