//! The operator's answer to the trust question.
use vstd::prelude::*;

verus! {

/// Whether `c` has the Unicode `White_Space` property.
pub open spec fn is_unicode_ws(c: char) -> bool {
    ||| '\u{9}' <= c && c <= '\u{d}'
    ||| c == ' '
    ||| c == '\u{85}'
    ||| c == '\u{a0}'
    ||| c == '\u{1680}'
    ||| '\u{2000}' <= c && c <= '\u{200a}'
    ||| c == '\u{2028}'
    ||| c == '\u{2029}'
    ||| c == '\u{202f}'
    ||| c == '\u{205f}'
    ||| c == '\u{3000}'
}

pub open spec fn trim_start(s: Seq<char>) -> Seq<char>
    decreases s.len(),
{
    if s.len() > 0 && is_unicode_ws(s[0]) {
        trim_start(s.drop_first())
    } else {
        s
    }
}

pub open spec fn trim_end(s: Seq<char>) -> Seq<char>
    decreases s.len(),
{
    if s.len() > 0 && is_unicode_ws(s.last()) {
        trim_end(s.drop_last())
    } else {
        s
    }
}

/// `s` without leading and trailing whitespace.
pub open spec fn trimmed(s: Seq<char>) -> Seq<char> {
    trim_end(trim_start(s))
}

/// The lower-case form of `s`.
pub uninterp spec fn lowercased(s: Seq<char>) -> Seq<char>;

/// Relies on `str::trim`: the slice without the leading and trailing
/// characters of the Unicode `White_Space` property.
#[verifier::external_body]
fn trim(s: &str) -> (r: &str)
    ensures
        r@ == trimmed(s@),
{
    s.trim()
}

/// Relies on `str::to_lowercase`: the result depends on the characters alone.
#[verifier::external_body]
fn to_lowercase(s: &str) -> (r: String)
    ensures
        r@ == lowercased(s@),
{
    s.to_lowercase()
}

/// Whether a trimmed, lower-case answer accepts: `y` or `yes`.
pub open spec fn affirmative(s: Seq<char>) -> bool {
    s == seq!['y'] || s == seq!['y', 'e', 's']
}

/// Whether the trimmed, lower-case answer `folded` is `y` or `yes`.
pub fn is_affirmative(folded: &str) -> (r: bool)
    ensures
        r == affirmative(folded@),
{
    let n = folded.unicode_len();
    if n == 1 {
        let ok = folded.get_char(0) == 'y';
        assert(ok ==> folded@ =~= seq!['y']);
        ok
    } else if n == 3 {
        let ok = folded.get_char(0) == 'y' && folded.get_char(1) == 'e' && folded.get_char(2)
            == 's';
        assert(ok ==> folded@ =~= seq!['y', 'e', 's']);
        proof {
            if folded@ == seq!['y', 'e', 's'] {
                assert(folded@[1] == 'e');
                assert(folded@[2] == 's');
            }
        }
        ok
    } else {
        false
    }
}

/// Whether the operator's answer trusts the build script: `y` or `yes` in
/// any case, with whitespace around it; anything else, the empty answer
/// included, does not.
pub fn prompt_bool(answer: &str) -> (r: bool)
    ensures
        r == affirmative(lowercased(trimmed(answer@))),
{
    let t = trim(answer);
    let folded = to_lowercase(t);
    is_affirmative(folded.as_str())
}

} // verus!
