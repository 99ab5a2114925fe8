//! Reading back the canonical ledger file gives the ledger that was written.
use vstd::prelude::*;

use crate::codec::{
    bool_text, escape_char, escaped, hex4, hex_digit_char, hex_value, is_ws, joined_members,
    joined_strings, json_bool, json_string, ledger_members, ledger_text, member,
    member_items, member_text, members_of, members_view, quoted, record_value, skip_ws,
    string_array, string_array_text, string_body, string_items, Member,
};
use crate::ledger::BuildTrustStore;

verus! {

proof fn lemma_skip_ws_none(s: Seq<char>)
    requires
        s.len() > 0,
        !is_ws(s[0]),
    ensures
        skip_ws(s) == s,
{
}

proof fn lemma_hex_digit(v: u32)
    requires
        v < 16,
    ensures
        hex_value(hex_digit_char(v)) == Some(v),
{
}

proof fn lemma_string_body_escaped(x: Seq<char>, rest: Seq<char>)
    ensures
        string_body(escaped(x) + seq!['"'] + rest) == Some((x, rest)),
    decreases x.len(),
{
    let s = escaped(x) + seq!['"'] + rest;
    if x.len() == 0 {
        assert(s =~= seq!['"'] + rest);
        assert(s.drop_first() =~= rest);
    } else {
        let c = x[0];
        let x1 = x.drop_first();
        let tail = escaped(x1) + seq!['"'] + rest;
        lemma_string_body_escaped(x1, rest);
        assert(s =~= escape_char(c) + tail);
        assert(seq![c] + x1 =~= x);
        if c == '"' || c == '\\' || c == '\x08' || c == '\x0c' || c == '\n' || c == '\r' || c
            == '\t' {
            assert(s.drop_first() =~= seq![escape_char(c)[1]] + tail);
            assert(s.drop_first().drop_first() =~= tail);
        } else if (c as u32) < 0x20 {
            let u = s.drop_first();
            assert(u =~= seq!['u', '0', '0', hex_digit_char(c as u32 / 16), hex_digit_char(c as u32 % 16)] + tail);
            lemma_hex_digit(c as u32 / 16);
            lemma_hex_digit(c as u32 % 16);
            assert(u.drop_first()[0] == '0');
            assert(u.drop_first()[1] == '0');
            assert(u.drop_first()[2] == hex_digit_char(c as u32 / 16));
            assert(u.drop_first()[3] == hex_digit_char(c as u32 % 16));
            assert(hex4(u.drop_first()) == Some(c as u32));
            vstd::utf8::char_u32_cast(c, c as u32);
            assert(u.skip(5) =~= tail);
        } else {
            assert(s.drop_first() =~= tail);
        }
    }
}

proof fn lemma_json_string_quoted(x: Seq<char>, rest: Seq<char>)
    ensures
        json_string(quoted(x) + rest) == Some((x, rest)),
{
    let s = quoted(x) + rest;
    assert(s.drop_first() =~= escaped(x) + seq!['"'] + rest);
    lemma_string_body_escaped(x, rest);
}


proof fn lemma_joined_strings_first(xs: Seq<Seq<char>>)
    requires
        xs.len() > 0,
    ensures
        joined_strings(xs).len() > 0,
        joined_strings(xs)[0] == '"',
{
    if xs.len() > 1 {
        assert((quoted(xs[0]) + seq![','] + joined_strings(xs.drop_first()))[0] == quoted(xs[0])[0]);
    }
}

proof fn lemma_string_items(xs: Seq<Seq<char>>, rest: Seq<char>)
    requires
        xs.len() > 0,
    ensures
        string_items(joined_strings(xs) + seq![']'] + rest) == Some((xs, rest)),
    decreases xs.len(),
{
    let s = joined_strings(xs) + seq![']'] + rest;
    if xs.len() == 1 {
        let r = seq![']'] + rest;
        assert(s =~= quoted(xs[0]) + r);
        lemma_json_string_quoted(xs[0], r);
        lemma_skip_ws_none(r);
        assert(r.drop_first() =~= rest);
        assert(seq![xs[0]] =~= xs);
    } else {
        let xs1 = xs.drop_first();
        let r2 = joined_strings(xs1) + seq![']'] + rest;
        let r = seq![','] + r2;
        assert(s =~= quoted(xs[0]) + r);
        lemma_json_string_quoted(xs[0], r);
        lemma_skip_ws_none(r);
        assert(r.drop_first() =~= r2);
        lemma_joined_strings_first(xs1);
        assert(r2[0] == '"');
        lemma_skip_ws_none(r2);
        lemma_string_items(xs1, rest);
        assert(seq![xs[0]] + xs1 =~= xs);
    }
}

proof fn lemma_string_array(xs: Seq<Seq<char>>, rest: Seq<char>)
    ensures
        string_array(string_array_text(xs) + rest) == Some((xs, rest)),
{
    reveal(string_array);
    let s = string_array_text(xs) + rest;
    let t = s.drop_first();
    assert(t =~= joined_strings(xs) + seq![']'] + rest);
    if xs.len() == 0 {
        assert(t =~= seq![']'] + rest);
        lemma_skip_ws_none(t);
        assert(t.drop_first() =~= rest);
        assert(xs =~= Seq::<Seq<char>>::empty());
    } else {
        lemma_joined_strings_first(xs);
        assert(t[0] == '"');
        lemma_skip_ws_none(t);
        lemma_string_items(xs, rest);
    }
}

proof fn lemma_json_bool(b: bool, rest: Seq<char>)
    ensures
        json_bool(bool_text(b) + rest) == Some((b, rest)),
{
    reveal(json_bool);
    let s = bool_text(b) + rest;
    if b {
        assert(s.take(4) =~= seq!['t', 'r', 'u', 'e']);
        assert(s.skip(4) =~= rest);
    } else {
        assert(s.take(4)[0] == 'f');
        assert(s.take(5) =~= seq!['f', 'a', 'l', 's', 'e']);
        assert(s.skip(5) =~= rest);
    }
}

proof fn lemma_record_value(b: bool, xs: Seq<Seq<char>>, rest: Seq<char>)
    ensures
        record_value(seq!['['] + bool_text(b) + seq![','] + string_array_text(xs) + seq![']'] + rest)
            == Some(((b, xs), rest)),
{
    let v = seq!['['] + bool_text(b) + seq![','] + string_array_text(xs) + seq![']'] + rest;
    let w = v.drop_first();
    let after_bool = seq![','] + string_array_text(xs) + seq![']'] + rest;
    assert(w =~= bool_text(b) + after_bool);
    assert(w[0] == bool_text(b)[0]);
    lemma_skip_ws_none(w);
    lemma_json_bool(b, after_bool);
    lemma_skip_ws_none(after_bool);
    let arr = after_bool.drop_first();
    let after_arr = seq![']'] + rest;
    assert(arr =~= string_array_text(xs) + after_arr);
    assert(arr[0] == '[');
    lemma_skip_ws_none(arr);
    lemma_string_array(xs, after_arr);
    lemma_skip_ws_none(after_arr);
    assert(after_arr.drop_first() =~= rest);
}

proof fn lemma_member(m: Member, rest: Seq<char>)
    ensures
        member(member_text(m) + rest) == Some((m, rest)),
        member_text(m).len() > 0,
        member_text(m)[0] == '"',
{
    reveal(member);
    reveal(member_text);
    let s = member_text(m) + rest;
    let v = seq!['['] + bool_text(m.1) + seq![','] + string_array_text(m.2) + seq![']'] + rest;
    let r = seq![':'] + v;
    assert(s =~= quoted(m.0) + r);
    lemma_json_string_quoted(m.0, r);
    lemma_skip_ws_none(r);
    assert(r.drop_first() =~= v);
    lemma_skip_ws_none(v);
    lemma_record_value(m.1, m.2, rest);
}

proof fn lemma_joined_members_first(ms: Seq<Member>)
    requires
        ms.len() > 0,
    ensures
        joined_members(ms).len() > 0,
        joined_members(ms)[0] == '"',
{
    lemma_member(ms[0], Seq::empty());
    assert(member_text(ms[0]) + Seq::<char>::empty() =~= member_text(ms[0]));
    if ms.len() > 1 {
        assert((member_text(ms[0]) + seq![','] + joined_members(ms.drop_first()))[0] == member_text(ms[0])[0]);
    }
}

proof fn lemma_member_items(ms: Seq<Member>, rest: Seq<char>)
    requires
        ms.len() > 0,
    ensures
        member_items(joined_members(ms) + seq!['}'] + rest) == Some((ms, rest)),
    decreases ms.len(),
{
    let s = joined_members(ms) + seq!['}'] + rest;
    if ms.len() == 1 {
        let r = seq!['}'] + rest;
        assert(s =~= member_text(ms[0]) + r);
        lemma_member(ms[0], r);
        lemma_skip_ws_none(r);
        assert(r.drop_first() =~= rest);
        assert(seq![ms[0]] =~= ms);
    } else {
        let ms1 = ms.drop_first();
        let r2 = joined_members(ms1) + seq!['}'] + rest;
        let r = seq![','] + r2;
        assert(s =~= member_text(ms[0]) + r);
        lemma_member(ms[0], r);
        lemma_skip_ws_none(r);
        assert(r.drop_first() =~= r2);
        lemma_joined_members_first(ms1);
        assert(r2[0] == '"');
        lemma_skip_ws_none(r2);
        lemma_member_items(ms1, rest);
        assert(seq![ms[0]] + ms1 =~= ms);
    }
}

proof fn lemma_ledger_members(ms: Seq<Member>)
    ensures
        ledger_members(ledger_text(ms)) == Some(ms),
{
    let s = ledger_text(ms);
    assert(s[0] == '{');
    lemma_skip_ws_none(s);
    let t = s.drop_first();
    let empty = Seq::<char>::empty();
    assert(t =~= joined_members(ms) + seq!['}'] + empty);
    if ms.len() == 0 {
        assert(t =~= seq!['}']);
        lemma_skip_ws_none(t);
        assert(t.drop_first() =~= empty);
        assert(ms =~= Seq::<Member>::empty());
    } else {
        lemma_joined_members_first(ms);
        assert(t[0] == '"');
        lemma_skip_ws_none(t);
        lemma_member_items(ms, empty);
    }
}


proof fn lemma_members_view_unique(ms: Seq<Member>)
    requires
        forall|i: int, j: int| 0 <= i < ms.len() && 0 <= j < ms.len() && i != j ==> ms[i].0 != ms[j].0,
    ensures
        forall|k: Seq<char>| #[trigger] members_view(ms).contains_key(k)
            <==> exists|i: int| 0 <= i < ms.len() && ms[i].0 == k,
        forall|i: int| 0 <= i < ms.len() ==> #[trigger] members_view(ms)[ms[i].0] == (ms[i].1, ms[i].2.to_set()),
    decreases ms.len(),
{
    if ms.len() > 0 {
        let init = ms.drop_last();
        lemma_members_view_unique(init);
        let n = ms.len() - 1;
        assert(members_view(ms) == members_view(init).insert(ms[n].0, (ms[n].1, ms[n].2.to_set())));
        assert forall|k: Seq<char>| #[trigger] members_view(ms).contains_key(k)
            <==> exists|i: int| 0 <= i < ms.len() && ms[i].0 == k by {
            if members_view(ms).contains_key(k) && k != ms[n].0 {
                let i = choose|i: int| 0 <= i < init.len() && init[i].0 == k;
                assert(ms[i].0 == k);
            }
            if exists|i: int| 0 <= i < ms.len() && ms[i].0 == k {
                let i = choose|i: int| 0 <= i < ms.len() && ms[i].0 == k;
                if i < n {
                    assert(init[i].0 == k);
                }
            }
        }
        assert forall|i: int| 0 <= i < ms.len() implies #[trigger] members_view(ms)[ms[i].0] == (ms[i].1, ms[i].2.to_set()) by {
            if i < n {
                assert(init[i] == ms[i]);
                assert(members_view(init)[init[i].0] == (init[i].1, init[i].2.to_set()));
            }
        }
    }
}

/// A well-formed ledger is what its members describe.
proof fn lemma_members_of(l: BuildTrustStore)
    requires
        l.wf(),
    ensures
        members_view(members_of(l)) == l.view(),
{
    let ms = members_of(l);
    lemma_members_view_unique(ms);
    let mv = members_view(ms);
    assert forall|k: Seq<char>| #![auto] mv.contains_key(k) == l.view().contains_key(k) by {
        if mv.contains_key(k) {
            let i = choose|i: int| 0 <= i < ms.len() && ms[i].0 == k;
            assert(l.entries[i].0@ == k);
        }
        if l.has_key(k) {
            let i = choose|i: int| 0 <= i < l.entries.len() && l.entries[i].0@ == k;
            assert(ms[i].0 == k);
        }
    }
    assert forall|k: Seq<char>| #![auto] mv.contains_key(k) implies mv[k] == l.view()[k] by {
        let i = choose|i: int| 0 <= i < ms.len() && ms[i].0 == k;
        l.lemma_entry_value(i);
        l.entries[i].1.lemma_associate_set();
        assert(mv[ms[i].0] == (ms[i].1, ms[i].2.to_set()));
    }
    assert(mv =~= l.view());
}

/// Writing a well-formed ledger and reading the text back gives the same
/// ledger: the text is a ledger file, and its members describe `l` exactly.
pub proof fn lemma_save_load(l: BuildTrustStore)
    requires
        l.wf(),
    ensures
        ledger_members(ledger_text(members_of(l))) == Some(members_of(l)),
        members_view(members_of(l)) == l.view(),
{
    lemma_ledger_members(members_of(l));
    lemma_members_of(l);
}

} // verus!
